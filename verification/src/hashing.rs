//! Content hashing and hash-string comparison.
//!
//! Files are fingerprinted with a 128-bit non-cryptographic hash rendered
//! as 32 lowercase hex characters. Catalog data may record the same value
//! in either of two byte orders, so comparison accepts a hash that equals
//! the expectation either directly or after reversing the hex string one
//! byte (two characters) at a time; both comparisons ignore ASCII case.
use vstd::arithmetic::div_mod::lemma_div_denominator;
use vstd::arithmetic::power::pow;
use vstd::prelude::*;

use crate::chars::char_from_u32;
use crate::chars::chars_eq;
use crate::chars::chars_to_string;
use crate::chars::is_unicode_scalar;
use crate::chars::lower_chars;
use crate::chars::lower_seq;

verus! {

/// The 128-bit content fingerprint of a byte sequence, as computed by the
/// hashing crate. The value depends on the bytes alone.
pub uninterp spec fn xxh3_128_of(bytes: Seq<u8>) -> u128;

/// Relies on xxhash_rust::xxh3::xxh3_128: a pure function of the input
/// bytes.
pub assume_specification [ xxhash_rust::xxh3::xxh3_128 ](input: &[u8]) -> (r: u128)
    ensures
        r == xxh3_128_of(input@),
;

/// The lowercase hex character for one value below 16.
pub open spec fn hex_digit(d: int) -> char {
    ((if d < 10 {
        0x30 + d
    } else {
        0x57 + d
    }) as u32) as char
}

/// The 32-character lowercase hex rendering of a 128-bit value, most
/// significant digit first.
pub open spec fn hex32_of(h: u128) -> Seq<char> {
    Seq::new(32, |i: int| hex_digit(((h as int) / pow(16, (31 - i) as nat)) % 16))
}

fn hex_digit_exec(d: u32) -> (r: char)
    requires
        d < 16,
    ensures
        r == hex_digit(d as int),
{
    let u: u32 = if d < 10 {
        0x30 + d
    } else {
        0x57 + d
    };
    proof {
        assert(is_unicode_scalar(u));
    }
    let c = char_from_u32(u).unwrap();
    proof {
        vstd::utf8::char_u32_cast(c, u);
    }
    c
}

/// Renders a 128-bit value as 32 lowercase hex characters.
pub fn u128_hex32(h: u128) -> (r: Vec<char>)
    ensures
        r@ == hex32_of(h),
{
    let mut digits: Vec<char> = Vec::new();
    let mut x: u128 = h;
    let mut j: usize = 0;
    proof {
        vstd::arithmetic::power::lemma_pow0(16);
        assert(x == (h as int) / pow(16, 0 as nat));
    }
    while j < 32
        invariant
            j <= 32,
            digits@.len() == j,
            x == (h as int) / pow(16, j as nat),
            forall|k: int|
                0 <= k < j ==> digits@[k] == hex_digit(((h as int) / pow(16, k as nat)) % 16),
        decreases 32 - j,
    {
        let d: u32 = (x % 16) as u32;
        digits.push(hex_digit_exec(d));
        proof {
            vstd::arithmetic::power::lemma_pow_positive(16, j as nat);
            lemma_div_denominator(h as int, pow(16, j as nat), 16);
            vstd::arithmetic::power::lemma_pow1(16);
            vstd::arithmetic::power::lemma_pow_adds(16, 1, j as nat);
            assert(pow(16, (j + 1) as nat) == 16 * pow(16, j as nat));
            assert(((h as int) / pow(16, j as nat)) / 16 == (h as int) / pow(16, (j + 1) as nat));
        }
        x = x / 16;
        j = j + 1;
    }
    let mut out: Vec<char> = Vec::new();
    let mut i: usize = 0;
    while i < 32
        invariant
            i <= 32,
            digits@.len() == 32,
            forall|k: int|
                0 <= k < 32 ==> digits@[k] == hex_digit(((h as int) / pow(16, k as nat)) % 16),
            out@.len() == i,
            forall|k: int| 0 <= k < i ==> out@[k] == hex32_of(h)[k],
        decreases 32 - i,
    {
        out.push(digits[31 - i]);
        i = i + 1;
    }
    assert(out@ =~= hex32_of(h));
    out
}

/// The hex fingerprint of a byte slice: hash, then render. This is the
/// form stored in the hash cache and compared against catalog data.
pub fn xxh3_128_hex(data: &[u8]) -> (r: String)
    ensures
        r@ == hex32_of(xxh3_128_of(data@)),
{
    let h = xxhash_rust::xxh3::xxh3_128(data);
    let v = u128_hex32(h);
    chars_to_string(&v)
}

/// An even-length string with its two-character groups in reverse order:
/// the same hex bytes read in the opposite byte order.
pub open spec fn byte_rev(s: Seq<char>) -> Seq<char> {
    Seq::new(s.len(), |i: int| s[s.len() - 2 - 2 * (i / 2) + (i % 2)])
}

/// Whether a computed hash string matches an expected one: equal ignoring
/// ASCII case, either directly or after reversing the computed string one
/// byte at a time. Catalog data may record either byte order, so both
/// comparisons are made.
pub open spec fn hashes_match(found: Seq<char>, want: Seq<char>) -> bool {
    ||| lower_seq(found) == lower_seq(want)
    ||| (found.len() % 2 == 0 && byte_rev(lower_seq(found)) == lower_seq(want))
}

/// Matching hash strings have the same length; in particular an empty
/// (missing) hash never matches a non-empty expectation.
pub proof fn lemma_hashes_match_same_len(found: Seq<char>, want: Seq<char>)
    requires
        hashes_match(found, want),
    ensures
        found.len() == want.len(),
{
    assert(lower_seq(found).len() == found.len());
    assert(lower_seq(want).len() == want.len());
    assert(byte_rev(lower_seq(found)).len() == found.len());
}

fn byte_rev_exec(s: &Vec<char>) -> (r: Vec<char>)
    requires
        s@.len() % 2 == 0,
    ensures
        r@ == byte_rev(s@),
{
    let n = s.len();
    let mut r: Vec<char> = Vec::new();
    let mut i: usize = 0;
    while i < n
        invariant
            i <= n,
            n == s@.len(),
            n % 2 == 0,
            r@.len() == i,
            forall|k: int| 0 <= k < i ==> r@[k] == byte_rev(s@)[k],
        decreases n - i,
    {
        let p: usize = i / 2;
        let off: usize = i % 2;
        assert(n - 2 - 2 * (p as int) + (off as int) >= 0) by {
            assert(2 * (p as int) <= i);
            assert(i < n);
            assert(i % 2 == 1 ==> 2 * (p as int) + 1 == i);
        }
        let src: usize = n - 2 - 2 * p + off;
        r.push(s[src]);
        i = i + 1;
    }
    assert(r@ =~= byte_rev(s@));
    r
}

/// Compares a computed hash string with an expected one under the
/// dual-byte-order, case-insensitive rule.
pub fn hashes_match_exec(found: &Vec<char>, want: &Vec<char>) -> (r: bool)
    ensures
        r == hashes_match(found@, want@),
{
    let f = lower_chars(found);
    let w = lower_chars(want);
    if chars_eq(&f, &w) {
        return true;
    }
    if f.len() % 2 == 0 {
        let rev = byte_rev_exec(&f);
        if chars_eq(&rev, &w) {
            return true;
        }
    }
    false
}

} // verus!
