//! Text normalization for search, and file-name sanitization.
//!
//! Normalization trims the input, then maps every character: full-width
//! ASCII becomes half-width, the ideographic space becomes a plain space,
//! full-width katakana becomes hiragana, and ASCII uppercase becomes
//! lowercase. Indexing and querying use the same mapping, so strings that
//! differ only in width, kana form or ASCII case compare equal.
use vstd::prelude::*;
use vstd::string::StringExecFns;

use crate::chars::char_from_u32;
use crate::chars::chars_to_string;
use crate::chars::copy_range;
use crate::chars::is_space_char;
use crate::chars::is_space_code;
use crate::chars::is_unicode_scalar;
use crate::chars::lower_code;
use crate::chars::str_to_chars;

verus! {

/// Width and kana folding on code points: full-width ASCII (U+FF01..U+FF5E)
/// to half-width, the ideographic space (U+3000) to a plain space, and
/// full-width katakana (U+30A1..U+30F6) to the corresponding hiragana.
pub open spec fn fold_code(u: u32) -> u32 {
    if 0xFF01 <= u && u <= 0xFF5E {
        (u - 0xFEE0) as u32
    } else if u == 0x3000 {
        0x20
    } else if 0x30A1 <= u && u <= 0x30F6 {
        (u - 0x60) as u32
    } else {
        u
    }
}

/// The full normalization of one code point: folding, then ASCII
/// lowercasing, so that a full-width uppercase letter ends half-width and
/// lowercase.
pub open spec fn norm_code(u: u32) -> u32 {
    lower_code(fold_code(u))
}

/// Normalized code points are still Unicode scalar values.
pub proof fn lemma_norm_code_scalar(u: u32)
    requires
        is_unicode_scalar(u),
    ensures
        is_unicode_scalar(norm_code(u)),
{
}

/// The normalization of one character.
pub open spec fn norm_char(c: char) -> char {
    (norm_code(c as u32)) as char
}

/// Normalizing one character is idempotent.
pub proof fn lemma_norm_char_idempotent(c: char)
    ensures
        norm_char(norm_char(c)) == norm_char(c),
{
    let u = c as u32;
    lemma_norm_code_scalar(u);
    assert((norm_code(u) as char) as u32 == norm_code(u));
    assert(norm_code(norm_code(u)) == norm_code(u));
}

/// Normalization maps no non-whitespace character to whitespace.
pub proof fn lemma_norm_char_keeps_nonspace(c: char)
    requires
        !is_space_char(c),
    ensures
        !is_space_char(norm_char(c)),
{
    let u = c as u32;
    lemma_norm_code_scalar(u);
    assert((norm_code(u) as char) as u32 == norm_code(u));
    assert(is_space_code(norm_code(u)) ==> is_space_code(u));
}

/// The input without its leading whitespace.
pub open spec fn trim_front(s: Seq<char>) -> Seq<char>
    decreases s.len(),
{
    if s.len() > 0 && is_space_char(s[0]) {
        trim_front(s.skip(1))
    } else {
        s
    }
}

/// The input without its trailing whitespace.
pub open spec fn trim_back(s: Seq<char>) -> Seq<char>
    decreases s.len(),
{
    if s.len() > 0 && is_space_char(s.last()) {
        trim_back(s.drop_last())
    } else {
        s
    }
}

/// The input without leading and trailing whitespace.
pub open spec fn trim_seq(s: Seq<char>) -> Seq<char> {
    trim_back(trim_front(s))
}

/// The normalization of a whole string: trim, then map every character.
pub open spec fn normalize_seq(s: Seq<char>) -> Seq<char> {
    trim_seq(s).map_values(|c: char| norm_char(c))
}

proof fn lemma_trim_front_skip(s: Seq<char>, lo: int)
    requires
        0 <= lo <= s.len(),
        forall|k: int| 0 <= k < lo ==> is_space_char(s[k]),
        lo < s.len() ==> !is_space_char(s[lo]),
    ensures
        trim_front(s) == s.skip(lo),
    decreases lo,
{
    if lo == 0 {
        assert(s.skip(0) =~= s);
    } else {
        assert(is_space_char(s[0]));
        lemma_trim_front_skip(s.skip(1), lo - 1);
        assert(s.skip(1).skip(lo - 1) =~= s.skip(lo));
    }
}

proof fn lemma_trim_back_take(s: Seq<char>, hi: int)
    requires
        0 <= hi <= s.len(),
        forall|k: int| hi <= k < s.len() ==> is_space_char(s[k]),
        hi > 0 ==> !is_space_char(s[hi - 1]),
    ensures
        trim_back(s) == s.take(hi),
    decreases s.len(),
{
    if hi == s.len() {
        if s.len() > 0 {
            assert(!is_space_char(s.last()));
        }
        assert(s.take(hi) =~= s);
    } else {
        assert(is_space_char(s.last()));
        lemma_trim_back_take(s.drop_last(), hi);
        assert(s.drop_last().take(hi) =~= s.take(hi));
    }
}

proof fn lemma_trim_front_first(s: Seq<char>)
    ensures
        trim_front(s).len() > 0 ==> !is_space_char(trim_front(s)[0]),
        trim_front(s).len() > 0 ==> trim_front(s).last() == s.last(),
        trim_front(s).len() <= s.len(),
    decreases s.len(),
{
    if s.len() > 0 && is_space_char(s[0]) {
        lemma_trim_front_first(s.skip(1));
        if trim_front(s).len() > 0 {
            assert(s.skip(1).last() == s.last());
        }
    }
}

proof fn lemma_trim_back_ends(s: Seq<char>)
    ensures
        trim_back(s).len() > 0 ==> !is_space_char(trim_back(s).last()),
        trim_back(s).len() > 0 ==> trim_back(s)[0] == s[0],
        trim_back(s).len() <= s.len(),
    decreases s.len(),
{
    if s.len() > 0 && is_space_char(s.last()) {
        lemma_trim_back_ends(s.drop_last());
        if trim_back(s).len() > 0 {
            assert(s.drop_last()[0] == s[0]);
        }
    }
}

/// A trimmed sequence starts and ends with non-whitespace.
pub proof fn lemma_trim_seq_ends(s: Seq<char>)
    ensures
        trim_seq(s).len() > 0 ==> !is_space_char(trim_seq(s)[0]),
        trim_seq(s).len() > 0 ==> !is_space_char(trim_seq(s).last()),
{
    lemma_trim_front_first(s);
    lemma_trim_back_ends(trim_front(s));
    if trim_seq(s).len() > 0 {
        assert(trim_seq(s)[0] == trim_front(s)[0]);
    }
}

/// Normalization is idempotent: normalizing a normalized string changes
/// nothing.
pub proof fn lemma_normalize_idempotent(s: Seq<char>)
    ensures
        normalize_seq(normalize_seq(s)) == normalize_seq(s),
{
    let t = trim_seq(s);
    let m = normalize_seq(s);
    lemma_trim_seq_ends(s);
    if m.len() > 0 {
        assert(m[0] == norm_char(t[0]));
        assert(m.last() == norm_char(t.last()));
        lemma_norm_char_keeps_nonspace(t[0]);
        lemma_norm_char_keeps_nonspace(t.last());
        assert(!is_space_char(m[0]));
        assert(!is_space_char(m.last()));
    }
    assert(trim_front(m) == m);
    assert(trim_back(m) == m);
    assert(trim_seq(m) == m);
    assert(normalize_seq(m) =~= m) by {
        assert forall|k: int| 0 <= k < m.len() implies m.map_values(|c: char| norm_char(c))[k]
            == m[k] by {
            lemma_norm_char_idempotent(t[k]);
        }
    }
}

/// Removes leading and trailing whitespace.
pub fn trim_chars(v: &Vec<char>) -> (r: Vec<char>)
    ensures
        r@ == trim_seq(v@),
{
    let n = v.len();
    let mut lo: usize = 0;
    while lo < n && is_space_exec_at(v, lo)
        invariant
            lo <= n,
            forall|k: int| 0 <= k < lo ==> is_space_char(v@[k]),
        decreases n - lo,
    {
        lo = lo + 1;
    }
    proof {
        lemma_trim_front_skip(v@, lo as int);
    }
    if lo == n {
        assert(v@.skip(lo as int) =~= Seq::<char>::empty());
        assert(trim_back(Seq::<char>::empty()) =~= Seq::<char>::empty());
        return Vec::new();
    }
    let mut hi: usize = n;
    while hi > lo && is_space_exec_at(v, hi - 1)
        invariant
            lo <= hi <= n,
            forall|k: int| hi <= k < n ==> is_space_char(v@[k]),
        decreases hi,
    {
        hi = hi - 1;
    }
    assert(!is_space_char(v@[lo as int]));
    assert(hi > lo);
    proof {
        let f = v@.skip(lo as int);
        assert(forall|k: int| hi - lo <= k < f.len() ==> f[k] == v@[k + lo]
            && is_space_char(f[k]));
        assert(f[hi - lo - 1] == v@[hi - 1]);
        lemma_trim_back_take(f, hi - lo);
        assert(f.take(hi - lo) =~= v@.subrange(lo as int, hi as int));
    }
    copy_range(v, lo, hi)
}

fn is_space_exec_at(v: &Vec<char>, i: usize) -> (r: bool)
    requires
        i < v@.len(),
    ensures
        r == is_space_char(v@[i as int]),
{
    crate::chars::is_space_exec(v[i])
}

/// Normalizes one character, executable.
pub fn norm_char_exec(c: char) -> (r: char)
    ensures
        r == norm_char(c),
{
    let u = c as u32;
    let w: u32 = if 0xFF01 <= u && u <= 0xFF5E {
        u - 0xFEE0
    } else if u == 0x3000 {
        0x20
    } else if 0x30A1 <= u && u <= 0x30F6 {
        u - 0x60
    } else {
        u
    };
    let w2: u32 = if 0x41 <= w && w <= 0x5A {
        w + 0x20
    } else {
        w
    };
    proof {
        assert(w2 == norm_code(u));
        lemma_norm_code_scalar(u);
    }
    let r = char_from_u32(w2);
    let d = r.unwrap();
    proof {
        vstd::utf8::char_u32_cast(d, w2);
    }
    d
}

/// Canonicalizes a string for search: trim, fold width and kana, lowercase
/// ASCII. Total on every input; applying it twice equals applying it once.
pub fn normalize(s: &str) -> (r: String)
    ensures
        r@ == normalize_seq(s@),
{
    let cs = str_to_chars(s);
    let t = trim_chars(&cs);
    let mut m: Vec<char> = Vec::new();
    let mut i: usize = 0;
    while i < t.len()
        invariant
            i <= t@.len(),
            m@ == t@.take(i as int).map_values(|c: char| norm_char(c)),
        decreases t@.len() - i,
    {
        m.push(norm_char_exec(t[i]));
        i = i + 1;
        assert(m@ =~= t@.take(i as int).map_values(|c: char| norm_char(c)));
    }
    assert(t@.take(t@.len() as int) =~= t@);
    chars_to_string(&m)
}

/// The characters that may not appear in a file name: path separators and
/// the reserved punctuation of Windows file systems.
pub open spec fn is_forbidden_char(c: char) -> bool {
    c == '/' || c == '\\' || c == ':' || c == '*' || c == '?' || c == '"' || c == '<' || c == '>'
        || c == '|'
}

/// One character of the sanitized name: forbidden characters become
/// underscores.
pub open spec fn sanitize_char(c: char) -> char {
    if is_forbidden_char(c) {
        '_'
    } else {
        c
    }
}

/// The sanitized form of a file name: forbidden characters replaced,
/// whitespace trimmed, and a fixed fallback when nothing is left.
pub open spec fn sanitize_seq(s: Seq<char>) -> Seq<char> {
    let t = trim_seq(s.map_values(|c: char| sanitize_char(c)));
    if t.len() == 0 {
        "download.bin"@
    } else {
        t
    }
}

/// Makes a string safe to use as a plain file name. Separators and
/// reserved punctuation become underscores; a name that is empty after
/// trimming falls back to a fixed default.
pub fn sanitize_filename(name: &str) -> (r: String)
    ensures
        r@ == sanitize_seq(name@),
{
    let cs = str_to_chars(name);
    let mut m: Vec<char> = Vec::new();
    let mut i: usize = 0;
    while i < cs.len()
        invariant
            i <= cs@.len(),
            m@ == cs@.take(i as int).map_values(|c: char| sanitize_char(c)),
        decreases cs@.len() - i,
    {
        let c = cs[i];
        if c == '/' || c == '\\' || c == ':' || c == '*' || c == '?' || c == '"' || c == '<'
            || c == '>' || c == '|' {
            m.push('_');
        } else {
            m.push(c);
        }
        i = i + 1;
        assert(m@ =~= cs@.take(i as int).map_values(|c: char| sanitize_char(c)));
    }
    assert(cs@.take(cs@.len() as int) =~= cs@);
    let t = trim_chars(&m);
    if t.len() == 0 {
        String::from_str("download.bin")
    } else {
        chars_to_string(&t)
    }
}

} // verus!
