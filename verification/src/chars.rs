//! Character-level utilities shared by the text normalizer, the path
//! expander and the search index: conversions between `String` and
//! `Vec<char>`, ASCII lowercasing, substring search and lexicographic
//! comparison, all specified over `Seq<char>`.
use vstd::prelude::*;
use vstd::string::StrSliceExecFns;

verus! {

/// The code points that a Rust `char` can carry.
pub open spec fn is_unicode_scalar(u: u32) -> bool {
    u < 0xD800 || (0xE000 <= u && u < 0x110000)
}

/// Relies on char::from_u32: returns `Some` exactly for Unicode scalar
/// values (everything except surrogates and values above 0x10FFFF), and the
/// resulting character carries the given code point.
#[verifier::external_body]
pub(crate) fn char_from_u32(u: u32) -> (r: Option<char>)
    ensures
        r is Some <==> is_unicode_scalar(u),
        r matches Some(c) ==> c as u32 == u,
{
    char::from_u32(u)
}

/// Relies on String's FromIterator<char> implementation: collecting an
/// iterator of characters yields a string made of exactly those characters.
#[verifier::external_body]
pub(crate) fn chars_to_string(v: &Vec<char>) -> (s: String)
    ensures
        s@ == v@,
{
    v.iter().collect()
}

/// The characters of a string slice, as a vector.
pub fn str_to_chars(s: &str) -> (v: Vec<char>)
    ensures
        v@ == s@,
{
    let n = s.unicode_len();
    let mut v: Vec<char> = Vec::new();
    let mut i: usize = 0;
    while i < n
        invariant
            n == s@.len(),
            i <= n,
            v@ == s@.take(i as int),
        decreases n - i,
    {
        v.push(s.get_char(i));
        i = i + 1;
        assert(v@ =~= s@.take(i as int));
    }
    assert(v@ =~= s@);
    v
}

/// Maps an ASCII uppercase code point to its lowercase form; leaves every
/// other code point unchanged.
pub open spec fn lower_code(u: u32) -> u32 {
    if 0x41 <= u && u <= 0x5A {
        (u + 0x20) as u32
    } else {
        u
    }
}

/// ASCII lowercasing of one character.
pub open spec fn lower_char(c: char) -> char {
    (lower_code(c as u32)) as char
}

/// ASCII lowercasing of a character sequence.
pub open spec fn lower_seq(s: Seq<char>) -> Seq<char> {
    s.map_values(|c: char| lower_char(c))
}

/// ASCII lowercasing of one character, executable.
pub fn lower_char_exec(c: char) -> (r: char)
    ensures
        r == lower_char(c),
{
    let u = c as u32;
    if 0x41 <= u && u <= 0x5A {
        let r = char_from_u32(u + 0x20);
        let d = r.unwrap();
        proof {
            assert(is_unicode_scalar((u + 0x20) as u32));
            assert(lower_code(c as u32) == u + 0x20);
            vstd::utf8::char_u32_cast(d, (u + 0x20) as u32);
            assert(d == lower_char(c));
        }
        d
    } else {
        assert(c as u32 == lower_code(c as u32));
        c
    }
}

/// ASCII lowercasing of a character vector.
pub fn lower_chars(v: &Vec<char>) -> (r: Vec<char>)
    ensures
        r@ == lower_seq(v@),
{
    let mut r: Vec<char> = Vec::new();
    let mut i: usize = 0;
    while i < v.len()
        invariant
            i <= v@.len(),
            r@ == lower_seq(v@.take(i as int)),
        decreases v@.len() - i,
    {
        r.push(lower_char_exec(v[i]));
        i = i + 1;
        assert(r@ =~= lower_seq(v@.take(i as int)));
    }
    assert(v@.take(v@.len() as int) =~= v@);
    r
}

/// Copies `v[lo..hi]` into a fresh vector.
pub fn copy_range(v: &Vec<char>, lo: usize, hi: usize) -> (r: Vec<char>)
    requires
        lo <= hi <= v@.len(),
    ensures
        r@ == v@.subrange(lo as int, hi as int),
{
    let mut r: Vec<char> = Vec::new();
    let mut k: usize = lo;
    while k < hi
        invariant
            lo <= k <= hi,
            r@ == v@.subrange(lo as int, k as int),
        decreases hi - k,
    {
        r.push(v[k]);
        k = k + 1;
        assert(r@ =~= v@.subrange(lo as int, k as int));
    }
    r
}

/// Appends all characters of `add` to `out`.
pub fn push_all(out: &mut Vec<char>, add: &Vec<char>)
    ensures
        final(out)@ == old(out)@ + add@,
{
    let mut i: usize = 0;
    while i < add.len()
        invariant
            i <= add@.len(),
            out@ == old(out)@ + add@.take(i as int),
        decreases add@.len() - i,
    {
        out.push(add[i]);
        i = i + 1;
        assert(out@ =~= old(out)@ + add@.take(i as int));
    }
    assert(old(out)@ + add@.take(add@.len() as int) =~= old(out)@ + add@);
}

/// Element-wise equality of two character vectors.
pub fn chars_eq(a: &Vec<char>, b: &Vec<char>) -> (r: bool)
    ensures
        r == (a@ == b@),
{
    if a.len() != b.len() {
        assert(a@ != b@) by {
            assert(a@.len() != b@.len());
        }
        return false;
    }
    let mut i: usize = 0;
    while i < a.len()
        invariant
            a@.len() == b@.len(),
            i <= a@.len(),
            forall|k: int| 0 <= k < i ==> a@[k] == b@[k],
        decreases a@.len() - i,
    {
        if a[i] != b[i] {
            return false;
        }
        i = i + 1;
    }
    assert(a@ =~= b@);
    true
}

/// Whether `needle` occurs starting at position `i` of `hay`.
pub open spec fn matches_at(hay: Seq<char>, i: int, needle: Seq<char>) -> bool {
    &&& 0 <= i
    &&& i + needle.len() <= hay.len()
    &&& hay.subrange(i, i + needle.len() as int) == needle
}

/// Whether `needle` occurs somewhere in `hay`.
pub open spec fn is_substring_of(needle: Seq<char>, hay: Seq<char>) -> bool {
    exists|i: int| matches_at(hay, i, needle)
}

/// Checks a match of `needle` at position `i` of `hay`.
pub fn check_match_at(hay: &Vec<char>, i: usize, needle: &Vec<char>) -> (r: bool)
    requires
        i + needle@.len() <= hay@.len(),
    ensures
        r == matches_at(hay@, i as int, needle@),
{
    let n = hay.len();
    assert(n == hay@.len());
    let mut j: usize = 0;
    while j < needle.len()
        invariant
            i + needle@.len() <= hay@.len(),
            j <= needle@.len(),
            forall|k: int| 0 <= k < j ==> hay@[i + k] == needle@[k],
        decreases needle@.len() - j,
    {
        assert(i + j < hay@.len());
        if hay[i + j] != needle[j] {
            assert(hay@.subrange(i as int, i + needle@.len() as int)[j as int] != needle@[j as int]);
            return false;
        }
        j = j + 1;
    }
    assert(hay@.subrange(i as int, i + needle@.len() as int) =~= needle@);
    true
}

/// Position of the first occurrence of `needle` in `hay`, if any.
pub fn find_first(hay: &Vec<char>, needle: &Vec<char>) -> (r: Option<usize>)
    ensures
        match r {
            Some(i) => {
                &&& matches_at(hay@, i as int, needle@)
                &&& forall|k: int| 0 <= k < i ==> !matches_at(hay@, k, needle@)
            },
            None => !is_substring_of(needle@, hay@),
        },
{
    if needle.len() > hay.len() {
        assert(forall|k: int| !matches_at(hay@, k, needle@));
        return None;
    }
    let last = hay.len() - needle.len();
    let mut i: usize = 0;
    #[verifier::loop_isolation(true)]
    loop
        invariant
            needle@.len() <= hay@.len(),
            last == hay@.len() - needle@.len(),
            i <= last,
            forall|k: int| 0 <= k < i ==> !matches_at(hay@, k, needle@),
        ensures
            forall|k: int| !matches_at(hay@, k, needle@),
        decreases last - i,
    {
        if check_match_at(hay, i, needle) {
            return Some(i);
        }
        if i == last {
            assert(forall|k: int| k > last ==> !matches_at(hay@, k, needle@));
            break;
        }
        i = i + 1;
    }
    None
}

/// The first position at which `needle` occurs in `hay`; `hay.len()` when
/// it does not occur.
pub open spec fn find_sub_idx(hay: Seq<char>, needle: Seq<char>) -> int
    decreases hay.len(),
{
    if matches_at(hay, 0, needle) {
        0
    } else if hay.len() == 0 {
        0
    } else {
        1 + find_sub_idx(hay.skip(1), needle)
    }
}

/// What `find_sub_idx` finds: the first match, or the length.
pub proof fn lemma_find_sub_idx(hay: Seq<char>, needle: Seq<char>)
    ensures
        0 <= find_sub_idx(hay, needle) <= hay.len(),
        is_substring_of(needle, hay) ==> matches_at(hay, find_sub_idx(hay, needle), needle),
        forall|k: int| 0 <= k < find_sub_idx(hay, needle) ==> !matches_at(hay, k, needle),
        !is_substring_of(needle, hay) ==> find_sub_idx(hay, needle) == hay.len(),
    decreases hay.len(),
{
    if !matches_at(hay, 0, needle) && hay.len() > 0 {
        lemma_find_sub_idx(hay.skip(1), needle);
        let f = find_sub_idx(hay, needle);
        assert forall|k: int| 0 <= k < f implies !matches_at(hay, k, needle) by {
            if k > 0 {
                if matches_at(hay, k, needle) {
                    assert(hay.skip(1).subrange(k - 1, k - 1 + needle.len() as int)
                        =~= hay.subrange(k, k + needle.len() as int));
                    assert(matches_at(hay.skip(1), k - 1, needle));
                }
            }
        }
        if is_substring_of(needle, hay) {
            let w = choose|i: int| matches_at(hay, i, needle);
            assert(w >= 1);
            assert(hay.skip(1).subrange(w - 1, w - 1 + needle.len() as int) =~= hay.subrange(
                w,
                w + needle.len() as int,
            ));
            assert(matches_at(hay.skip(1), w - 1, needle));
            assert(is_substring_of(needle, hay.skip(1)));
            assert(matches_at(hay.skip(1), f - 1, needle));
            assert(hay.subrange(f, f + needle.len() as int) =~= hay.skip(1).subrange(
                f - 1,
                f - 1 + needle.len() as int,
            ));
        }
        if !is_substring_of(needle, hay) {
            if is_substring_of(needle, hay.skip(1)) {
                let w2 = choose|i: int| matches_at(hay.skip(1), i, needle);
                assert(hay.subrange(w2 + 1, w2 + 1 + needle.len() as int) =~= hay.skip(
                    1,
                ).subrange(w2, w2 + needle.len() as int));
                assert(matches_at(hay, w2 + 1, needle));
            }
        }
    }
}

/// Whether `needle` occurs in `hay`, executable.
pub fn contains_chars(hay: &Vec<char>, needle: &Vec<char>) -> (r: bool)
    ensures
        r == is_substring_of(needle@, hay@),
{
    match find_first(hay, needle) {
        Some(_) => true,
        None => false,
    }
}

/// Index of the first occurrence of character `c` in `s` at or after
/// position `from`; `s.len()` when there is none.
pub open spec fn index_of_from(s: Seq<char>, from: int, c: char) -> int
    decreases s.len() - from,
{
    if from < 0 || from >= s.len() {
        s.len() as int
    } else if s[from] == c {
        from
    } else {
        index_of_from(s, from + 1, c)
    }
}

proof fn lemma_index_of_from_bounds(s: Seq<char>, from: int, c: char)
    requires
        0 <= from <= s.len(),
    ensures
        from <= index_of_from(s, from, c) <= s.len(),
        index_of_from(s, from, c) < s.len() ==> s[index_of_from(s, from, c)] == c,
        forall|k: int| from <= k < index_of_from(s, from, c) ==> s[k] != c,
    decreases s.len() - from,
{
    if from < s.len() && s[from] != c {
        lemma_index_of_from_bounds(s, from + 1, c);
    }
}

/// Finds the first occurrence of `c` at or after `from`.
pub fn index_of_char(s: &Vec<char>, from: usize, c: char) -> (r: usize)
    requires
        from <= s@.len(),
    ensures
        r == index_of_from(s@, from as int, c),
        from <= r <= s@.len(),
        r < s@.len() ==> s@[r as int] == c,
        forall|k: int| from <= k < r ==> s@[k] != c,
{
    let mut i: usize = from;
    while i < s.len()
        invariant
            from <= i <= s@.len(),
            index_of_from(s@, from as int, c) == index_of_from(s@, i as int, c),
            forall|k: int| from <= k < i ==> s@[k] != c,
        decreases s@.len() - i,
    {
        if s[i] == c {
            proof {
                lemma_index_of_from_bounds(s@, from as int, c);
            }
            return i;
        }
        i = i + 1;
    }
    proof {
        lemma_index_of_from_bounds(s@, from as int, c);
    }
    i
}

/// Lexicographic order on character sequences, by code point. Ties in this
/// order mean the sequences are equal.
pub open spec fn lex_le(a: Seq<char>, b: Seq<char>) -> bool
    decreases a.len(),
{
    if a.len() == 0 {
        true
    } else if b.len() == 0 {
        false
    } else if (a[0] as u32) < (b[0] as u32) {
        true
    } else if (a[0] as u32) > (b[0] as u32) {
        false
    } else {
        lex_le(a.skip(1), b.skip(1))
    }
}

/// Lexicographic comparison of two character vectors.
pub fn lex_le_chars(a: &Vec<char>, b: &Vec<char>) -> (r: bool)
    ensures
        r == lex_le(a@, b@),
{
    let mut i: usize = 0;
    assert(a@.skip(0) =~= a@);
    assert(b@.skip(0) =~= b@);
    #[verifier::loop_isolation(true)]
    loop
        invariant
            i <= a@.len(),
            i <= b@.len(),
            lex_le(a@, b@) == lex_le(a@.skip(i as int), b@.skip(i as int)),
        ensures
            lex_le(a@, b@) == ({
                if i >= a@.len() {
                    true
                } else if i >= b@.len() {
                    false
                } else {
                    (a@[i as int] as u32) < (b@[i as int] as u32)
                }
            }),
        decreases a@.len() - i,
    {
        if i >= a.len() {
            assert(lex_le(a@.skip(i as int), b@.skip(i as int)));
            break;
        }
        if i >= b.len() {
            assert(a@.skip(i as int).len() > 0);
            assert(!lex_le(a@.skip(i as int), b@.skip(i as int)));
            break;
        }
        let x = a[i] as u32;
        let y = b[i] as u32;
        assert(a@.skip(i as int)[0] == a@[i as int]);
        assert(b@.skip(i as int)[0] == b@[i as int]);
        if x < y {
            assert(lex_le(a@.skip(i as int), b@.skip(i as int)));
            break;
        }
        if x > y {
            assert(!lex_le(a@.skip(i as int), b@.skip(i as int)));
            break;
        }
        assert(a@.skip(i as int).skip(1) =~= a@.skip(i + 1));
        assert(b@.skip(i as int).skip(1) =~= b@.skip(i + 1));
        i = i + 1;
    }
    if i >= a.len() {
        true
    } else if i >= b.len() {
        false
    } else {
        (a[i] as u32) < (b[i] as u32)
    }
}

/// The whitespace characters that trimming and query splitting recognize:
/// ASCII whitespace and the ideographic space.
pub open spec fn is_space_code(u: u32) -> bool {
    u == 0x20 || u == 0x09 || u == 0x0A || u == 0x0B || u == 0x0C || u == 0x0D || u == 0x3000
}

/// Whitespace test on one character.
pub open spec fn is_space_char(c: char) -> bool {
    is_space_code(c as u32)
}

/// Whitespace test, executable.
pub fn is_space_exec(c: char) -> (r: bool)
    ensures
        r == is_space_char(c),
{
    let u = c as u32;
    u == 0x20 || u == 0x09 || u == 0x0A || u == 0x0B || u == 0x0C || u == 0x0D || u == 0x3000
}

} // verus!
