//! The catalog search index: a normalized projection of the catalog that
//! answers filtered, sorted queries. Building the index normalizes the
//! searchable fields and parses each item's update date from the release
//! date of its newest version; querying filters by search terms, tags and
//! types and sorts by name or by recency.
use vstd::prelude::*;

use crate::catalog::CatalogItem;
use crate::chars::chars_eq;
use crate::chars::contains_chars;
use crate::chars::copy_range;
use crate::chars::index_of_char;
use crate::chars::index_of_from;
use crate::chars::is_space_char;
use crate::chars::is_substring_of;
use crate::chars::lex_le;
use crate::chars::lex_le_chars;
use crate::chars::str_to_chars;
use crate::text::normalize;
use crate::text::normalize_seq;

verus! {

/// The search projection of one catalog item.
pub struct IndexItem {
    /// Item id, reported by queries.
    pub id: String,
    /// Normalized display name.
    pub name_key: String,
    /// Normalized author.
    pub author_key: String,
    /// Normalized summary.
    pub summary_key: String,
    /// Item type label, compared verbatim.
    pub item_type: String,
    /// Tag labels, compared verbatim.
    pub tags: Vec<String>,
    /// Update time in milliseconds since the epoch, from the newest
    /// version's release date; absent when that date does not parse.
    pub updated_at: Option<i64>,
}

/// The whole search index. Rebuilt wholesale by `set_catalog_index`.
pub struct CatalogIndex {
    /// The indexed items, in catalog order.
    pub items: Vec<IndexItem>,
}

/// The mathematical value of one indexed item.
#[verifier::ext_equal]
pub struct IndexItemV {
    /// Item id.
    pub id: Seq<char>,
    /// Normalized name.
    pub name_key: Seq<char>,
    /// Normalized author.
    pub author_key: Seq<char>,
    /// Normalized summary.
    pub summary_key: Seq<char>,
    /// Type label.
    pub item_type: Seq<char>,
    /// Tag labels.
    pub tags: Seq<Seq<char>>,
    /// Update time in milliseconds, when known.
    pub updated_at: Option<i64>,
}

/// The value of one indexed item.
pub open spec fn iv(it: IndexItem) -> IndexItemV {
    IndexItemV {
        id: it.id@,
        name_key: it.name_key@,
        author_key: it.author_key@,
        summary_key: it.summary_key@,
        item_type: it.item_type@,
        tags: it.tags@.map_values(|s: String| s@),
        updated_at: it.updated_at,
    }
}

/// The value of the whole index.
pub open spec fn index_v(ix: CatalogIndex) -> Seq<IndexItemV> {
    ix.items@.map_values(|it: IndexItem| iv(it))
}

/// Whether a character is an ASCII decimal digit.
pub open spec fn is_digit_char(c: char) -> bool {
    0x30 <= c as u32 && c as u32 <= 0x39
}

/// The numeric value of one digit character.
pub open spec fn digit_code(c: char) -> int {
    c as u32 - 0x30
}

/// Whether a sequence consists of decimal digits only.
pub open spec fn all_digits(s: Seq<char>) -> bool {
    forall|k: int| 0 <= k < s.len() ==> is_digit_char(#[trigger] s[k])
}

/// The numeric value of a digit sequence, most significant first.
pub open spec fn digits_val(s: Seq<char>) -> int
    decreases s.len(),
{
    if s.len() == 0 {
        0
    } else {
        digits_val(s.drop_last()) * 10 + digit_code(s.last())
    }
}

proof fn lemma_digits_val_nonneg(s: Seq<char>)
    requires
        all_digits(s),
    ensures
        digits_val(s) >= 0,
    decreases s.len(),
{
    if s.len() > 0 {
        assert(forall|k: int| 0 <= k < s.drop_last().len() ==> s.drop_last()[k] == s[k]);
        lemma_digits_val_nonneg(s.drop_last());
        assert(s[s.len() - 1] == s.last());
    }
}

/// Parses `s[from..]` as a run of decimal digits. `ok` says the run is
/// non-empty and all digits; `over` says its value exceeds `0xFFFF_FFFF`;
/// `val` is the value when it does not.
fn parse_digits_capped(s: &Vec<char>, from: usize) -> (r: (bool, bool, u64))
    requires
        from <= s@.len(),
    ensures
        r.0 == (from < s@.len() && all_digits(s@.skip(from as int))),
        r.0 && !r.1 ==> r.2 == digits_val(s@.skip(from as int)) && r.2 <= 0xFFFF_FFFF,
        r.0 && r.1 ==> digits_val(s@.skip(from as int)) > 0xFFFF_FFFF,
{
    let ghost t = s@.skip(from as int);
    if from == s.len() {
        return (false, false, 0);
    }
    let mut val: u64 = 0;
    let mut over: bool = false;
    let mut k: usize = from;
    while k < s.len()
        invariant
            from <= k <= s@.len(),
            t == s@.skip(from as int),
            all_digits(t.take(k - from)),
            !over ==> val == digits_val(t.take(k - from)) && val <= 0xFFFF_FFFF,
            over ==> digits_val(t.take(k - from)) > 0xFFFF_FFFF,
        decreases s@.len() - k,
    {
        let c = s[k];
        let u = c as u32;
        if u < 0x30 || u > 0x39 {
            proof {
                assert(t[k - from] == s@[k as int]);
                assert(!is_digit_char(t[k - from]));
            }
            return (false, false, 0);
        }
        let ghost pre = t.take(k + 1 - from);
        proof {
            assert(pre.drop_last() =~= t.take(k - from));
            assert(pre.last() == t[k - from]);
            assert(t[k - from] == s@[k as int]);
            assert(digits_val(pre) == digits_val(t.take(k - from)) * 10 + digit_code(
                s@[k as int],
            ));
            if over {
                lemma_digits_val_nonneg(pre.drop_last());
            }
        }
        let d: u64 = (u - 0x30) as u64;
        if !over {
            let nv: u64 = val * 10 + d;
            if nv > 0xFFFF_FFFF {
                over = true;
            } else {
                val = nv;
            }
            proof {
                if over {
                    assert(digits_val(pre) == nv);
                }
            }
        }
        k = k + 1;
    }
    proof {
        assert(t.take(s@.len() - from) =~= t);
    }
    (true, over, val)
}

/// Rust-style parse of an unsigned byte: an optional leading plus sign,
/// then decimal digits whose value fits.
pub open spec fn parse_u8_spec(s: Seq<char>) -> Option<u8> {
    let t = if s.len() > 0 && s[0] == '+' {
        s.skip(1)
    } else {
        s
    };
    if t.len() > 0 && all_digits(t) && digits_val(t) <= 255 {
        Some(digits_val(t) as u8)
    } else {
        None
    }
}

/// Parses an unsigned byte from a character vector.
pub fn parse_u8(s: &Vec<char>) -> (r: Option<u8>)
    ensures
        r == parse_u8_spec(s@),
{
    let from: usize = if s.len() > 0 && s[0] == '+' {
        1
    } else {
        0
    };
    proof {
        if from == 1 {
            assert(s@.skip(1) =~= s@.skip(from as int));
        } else {
            assert(s@.skip(0) =~= s@);
        }
    }
    let (ok, over, val) = parse_digits_capped(s, from);
    if ok && !over && val <= 255 {
        Some(val as u8)
    } else {
        None
    }
}

/// Rust-style parse of a signed 32-bit integer: an optional sign, then
/// decimal digits whose value fits.
pub open spec fn parse_i32_spec(s: Seq<char>) -> Option<i32> {
    let neg = s.len() > 0 && s[0] == '-';
    let t = if s.len() > 0 && (s[0] == '-' || s[0] == '+') {
        s.skip(1)
    } else {
        s
    };
    if t.len() > 0 && all_digits(t) {
        if neg {
            if digits_val(t) <= 0x8000_0000 {
                Some((-digits_val(t)) as i32)
            } else {
                None
            }
        } else {
            if digits_val(t) <= 0x7FFF_FFFF {
                Some(digits_val(t) as i32)
            } else {
                None
            }
        }
    } else {
        None
    }
}

/// Parses a signed 32-bit integer from a character vector.
pub fn parse_i32(s: &Vec<char>) -> (r: Option<i32>)
    ensures
        r == parse_i32_spec(s@),
{
    let neg = s.len() > 0 && s[0] == '-';
    let from: usize = if s.len() > 0 && (s[0] == '-' || s[0] == '+') {
        1
    } else {
        0
    };
    proof {
        if from == 1 {
            assert(s@.skip(1) =~= s@.skip(from as int));
        } else {
            assert(s@.skip(0) =~= s@);
        }
    }
    let (ok, over, val) = parse_digits_capped(s, from);
    if !ok {
        return None;
    }
    if neg {
        if !over && val <= 0x8000_0000 {
            let v: i64 = -(val as i64);
            assert(-0x8000_0000 <= v <= 0);
            Some(v as i32)
        } else {
            None
        }
    } else {
        if !over && val <= 0x7FFF_FFFF {
            Some(val as i32)
        } else {
            None
        }
    }
}

/// Whether a year of the proleptic Gregorian calendar is a leap year.
pub open spec fn is_leap_year(y: int) -> bool {
    y % 4 == 0 && (y % 100 != 0 || y % 400 == 0)
}

/// The number of days in a month of the proleptic Gregorian calendar.
pub open spec fn days_in_month(y: int, m: int) -> int {
    if m == 2 {
        if is_leap_year(y) {
            29
        } else {
            28
        }
    } else if m == 4 || m == 6 || m == 9 || m == 11 {
        30
    } else {
        31
    }
}

/// Whether year, month and day form a calendar date the date library
/// accepts: the library's year range, a real month, and a day the month
/// has.
pub open spec fn valid_civil_date(y: int, m: int, d: int) -> bool {
    -9999 <= y <= 9999 && 1 <= m <= 12 && 1 <= d <= days_in_month(y, m)
}

/// The Unix timestamp, in seconds, of midnight UTC on the given calendar
/// date. The value depends on the date alone.
pub uninterp spec fn epoch_secs_of(y: int, m: int, d: int) -> int;

/// Relies on time::Month::try_from (a month number is valid exactly when
/// it lies in 1..=12), time::Date::from_calendar_date (a date is valid
/// exactly when the year is in -9999..=9999 and the day exists in the
/// month, by the proleptic Gregorian rules), and
/// OffsetDateTime::unix_timestamp via PrimitiveDateTime::assume_utc
/// (seconds since the Unix epoch of the given UTC midnight).
#[verifier::external_body]
fn date_to_epoch_secs(y: i32, m: u8, d: u8) -> (r: Option<i64>)
    ensures
        r is Some <==> valid_civil_date(y as int, m as int, d as int),
        r matches Some(s) ==> s == epoch_secs_of(y as int, m as int, d as int),
{
    let month = match time::Month::try_from(m) {
        Ok(mo) => mo,
        Err(_) => return None,
    };
    let date = match time::Date::from_calendar_date(y, month, d) {
        Ok(da) => da,
        Err(_) => return None,
    };
    let dt = time::PrimitiveDateTime::new(date, time::Time::MIDNIGHT);
    Some(dt.assume_utc().unix_timestamp())
}

/// The epoch milliseconds for an epoch-seconds value, when the scaling
/// does not overflow a 64-bit integer.
pub fn epoch_ms_from_secs(secs: i64) -> (r: Option<i64>)
    ensures
        r == (if -9_223_372_036_854_775 <= secs <= 9_223_372_036_854_775 {
            Some((secs * 1000) as i64)
        } else {
            None::<i64>
        }),
{
    if -9_223_372_036_854_775 <= secs && secs <= 9_223_372_036_854_775 {
        Some(secs * 1000)
    } else {
        None
    }
}

/// The release date with slashes rewritten to hyphens.
pub open spec fn dashed(s: Seq<char>) -> Seq<char> {
    s.map_values(
        |c: char|
            if c == '/' {
                '-'
            } else {
                c
            },
    )
}

/// The update time parsed from one release date string: slashes become
/// hyphens, the first three hyphen-separated fields are read as year,
/// month and day, and a valid calendar date becomes the epoch
/// milliseconds of its UTC midnight. Anything else yields nothing.
pub open spec fn parse_release_date(s: Seq<char>) -> Option<i64> {
    let t = dashed(s);
    let i = index_of_from(t, 0, '-');
    if i == t.len() {
        None
    } else {
        let rest = t.skip(i + 1);
        let j = index_of_from(rest, 0, '-');
        if j == rest.len() {
            None
        } else {
            let rest2 = rest.skip(j + 1);
            let k2 = index_of_from(rest2, 0, '-');
            let ys = t.take(i);
            let ms = rest.take(j);
            let ds = rest2.take(k2);
            match (parse_i32_spec(ys), parse_u8_spec(ms), parse_u8_spec(ds)) {
                (Some(y), Some(m), Some(d)) => if valid_civil_date(y as int, m as int, d as int) {
                    if -9_223_372_036_854_775 <= epoch_secs_of(y as int, m as int, d as int)
                        <= 9_223_372_036_854_775 {
                        Some((epoch_secs_of(y as int, m as int, d as int) * 1000) as i64)
                    } else {
                        None
                    }
                } else {
                    None
                },
                _ => None,
            }
        }
    }
}

/// The update time of an item: parsed from the release date of the last
/// (newest) version; absent when there is none.
pub open spec fn updated_at_of(item: CatalogItem) -> Option<i64> {
    if item.versions@.len() == 0 {
        None
    } else {
        parse_release_date(item.versions@.last().release_date@)
    }
}

/// Parses the update time from the newest version's release date.
pub fn parse_updated_at(item: &CatalogItem) -> (r: Option<i64>)
    ensures
        r == updated_at_of(*item),
{
    if item.versions.len() == 0 {
        return None;
    }
    let rd = &item.versions[item.versions.len() - 1].release_date;
    proof {
        assert(item.versions@.last() == item.versions@[item.versions@.len() - 1]);
    }
    let cs = str_to_chars(rd.as_str());
    let mut t: Vec<char> = Vec::new();
    let mut q: usize = 0;
    while q < cs.len()
        invariant
            q <= cs@.len(),
            t@ == dashed(cs@.take(q as int)),
        decreases cs@.len() - q,
    {
        if cs[q] == '/' {
            t.push('-');
        } else {
            t.push(cs[q]);
        }
        q = q + 1;
        assert(t@ =~= dashed(cs@.take(q as int)));
    }
    assert(cs@.take(cs@.len() as int) =~= cs@);
    let i = index_of_char(&t, 0, '-');
    if i == t.len() {
        return None;
    }
    let rest = copy_range(&t, i + 1, t.len());
    assert(rest@ =~= t@.skip(i + 1));
    let j = index_of_char(&rest, 0, '-');
    if j == rest.len() {
        return None;
    }
    let rest2 = copy_range(&rest, j + 1, rest.len());
    assert(rest2@ =~= rest@.skip(j + 1));
    let k2 = index_of_char(&rest2, 0, '-');
    let ys = copy_range(&t, 0, i);
    assert(ys@ =~= t@.take(i as int));
    let ms = copy_range(&rest, 0, j);
    assert(ms@ =~= rest@.take(j as int));
    let ds = copy_range(&rest2, 0, k2);
    assert(ds@ =~= rest2@.take(k2 as int));
    let y = match parse_i32(&ys) {
        Some(y) => y,
        None => {
            return None;
        },
    };
    let m = match parse_u8(&ms) {
        Some(m) => m,
        None => {
            return None;
        },
    };
    let d = match parse_u8(&ds) {
        Some(d) => d,
        None => {
            return None;
        },
    };
    match date_to_epoch_secs(y, m, d) {
        Some(secs) => epoch_ms_from_secs(secs),
        None => None,
    }
}

/// The index entry built for one catalog item.
pub open spec fn item_index_v(it: CatalogItem) -> IndexItemV {
    IndexItemV {
        id: it.id@,
        name_key: normalize_seq(it.name@),
        author_key: normalize_seq(it.author@),
        summary_key: normalize_seq(it.summary@),
        item_type: it.item_type@,
        tags: it.tags@.map_values(|s: String| s@),
        updated_at: updated_at_of(it),
    }
}

/// The index built from a catalog: one entry per item with a non-empty
/// id, in catalog order.
pub open spec fn build_index(items: Seq<CatalogItem>) -> Seq<IndexItemV>
    decreases items.len(),
{
    if items.len() == 0 {
        Seq::empty()
    } else {
        let rest = build_index(items.drop_last());
        if items.last().id@.len() > 0 {
            rest.push(item_index_v(items.last()))
        } else {
            rest
        }
    }
}

/// Copies a list of tag strings.
fn clone_strings(v: &Vec<String>) -> (r: Vec<String>)
    ensures
        r@.map_values(|s: String| s@) == v@.map_values(|s: String| s@),
{
    let mut r: Vec<String> = Vec::new();
    let mut k: usize = 0;
    while k < v.len()
        invariant
            k <= v@.len(),
            r@.map_values(|s: String| s@) == v@.take(k as int).map_values(|s: String| s@),
        decreases v@.len() - k,
    {
        let ghost prev = r@;
        r.push(v[k].clone());
        proof {
            assert(r@ == prev.push(r@.last()));
            assert(r@.last() == v@[k as int]);
            assert(r@.map_values(|s: String| s@) =~~= prev.map_values(|s: String| s@).push(
                v@[k as int]@,
            ));
            assert(v@.take(k + 1).map_values(|s: String| s@) =~~= v@.take(k as int).map_values(
                |s: String| s@,
            ).push(v@[k as int]@));
        }
        k = k + 1;
    }
    assert(v@.take(v@.len() as int) =~= v@);
    assert(r@.map_values(|s: String| s@) =~~= v@.map_values(|s: String| s@));
    r
}

/// Rebuilds the search index from the catalog, replacing its contents
/// wholesale. Items with an empty id are dropped. Returns how many items
/// the index now holds.
pub fn set_catalog_index(index: &mut CatalogIndex, items: &Vec<CatalogItem>) -> (n: usize)
    ensures
        index_v(*final(index)) == build_index(items@),
        n == build_index(items@).len(),
{
    let mut v: Vec<IndexItem> = Vec::new();
    let mut i: usize = 0;
    while i < items.len()
        invariant
            i <= items@.len(),
            v@.map_values(|it: IndexItem| iv(it)) == build_index(items@.take(i as int)),
        decreases items@.len() - i,
    {
        let ghost pre = items@.take(i + 1);
        proof {
            assert(pre.drop_last() =~= items@.take(i as int));
            assert(pre.last() == items@[i as int]);
        }
        let it = &items[i];
        if !it.id.as_str().is_empty() {
            let updated_at = parse_updated_at(it);
            let entry = IndexItem {
                id: it.id.clone(),
                name_key: normalize(it.name.as_str()),
                author_key: normalize(it.author.as_str()),
                summary_key: normalize(it.summary.as_str()),
                item_type: it.item_type.clone(),
                tags: clone_strings(&it.tags),
                updated_at,
            };
            proof {
                assert(iv(entry) =~= item_index_v(items@[i as int]));
            }
            v.push(entry);
        }
        i = i + 1;
        proof {
            assert(v@.map_values(|it: IndexItem| iv(it)) =~= build_index(items@.take(i as int)));
        }
    }
    proof {
        assert(items@.take(items@.len() as int) =~= items@);
    }
    let n = v.len();
    index.items = v;
    n
}

pub open spec fn term_close(cur: Seq<char>) -> Seq<Seq<char>> {
    if cur.len() > 0 {
        seq![cur]
    } else {
        Seq::empty()
    }
}

pub open spec fn terms_rec(s: Seq<char>, cur: Seq<char>) -> Seq<Seq<char>>
    decreases s.len(),
{
    if s.len() == 0 {
        term_close(cur)
    } else if is_space_char(s[0]) {
        term_close(cur) + terms_rec(s.skip(1), Seq::empty())
    } else {
        terms_rec(s.skip(1), cur.push(s[0]))
    }
}

/// The search terms of a query: its maximal whitespace-free runs, in
/// order.
pub open spec fn split_terms(s: Seq<char>) -> Seq<Seq<char>> {
    terms_rec(s, Seq::empty())
}

/// Splits a normalized query into its whitespace-separated terms.
pub fn split_terms_exec(v: &Vec<char>) -> (r: Vec<Vec<char>>)
    ensures
        r@.map_values(|t: Vec<char>| t@) == split_terms(v@),
{
    let mut r: Vec<Vec<char>> = Vec::new();
    let mut cur: Vec<char> = Vec::new();
    let mut i: usize = 0;
    assert(v@.skip(0) =~= v@);
    while i < v.len()
        invariant
            i <= v@.len(),
            split_terms(v@) == r@.map_values(|t: Vec<char>| t@) + terms_rec(
                v@.skip(i as int),
                cur@,
            ),
        decreases v@.len() - i,
    {
        let ghost rem = v@.skip(i as int);
        let c = v[i];
        proof {
            assert(rem[0] == v@[i as int]);
            assert(rem.skip(1) =~= v@.skip(i + 1));
        }
        if crate::chars::is_space_exec(c) {
            proof {
                assert(terms_rec(rem, cur@) == term_close(cur@) + terms_rec(
                    v@.skip(i + 1),
                    Seq::empty(),
                ));
            }
            let ghost r_old = r@;
            let ghost cur_old = cur@;
            if cur.len() > 0 {
                r.push(cur);
                cur = Vec::new();
                proof {
                    assert(r@.map_values(|t: Vec<char>| t@) =~= r_old.map_values(
                        |t: Vec<char>| t@,
                    ) + term_close(cur_old));
                }
            } else {
                proof {
                    assert(cur@ =~= Seq::<char>::empty());
                    assert(term_close(cur_old) =~= Seq::<Seq<char>>::empty());
                }
            }
            proof {
                assert(cur@ =~= Seq::<char>::empty());
                assert(r_old.map_values(|t: Vec<char>| t@) + (term_close(cur_old) + terms_rec(
                    v@.skip(i + 1),
                    Seq::empty(),
                )) =~= r@.map_values(|t: Vec<char>| t@) + terms_rec(v@.skip(i + 1), cur@));
            }
        } else {
            cur.push(c);
        }
        i = i + 1;
    }
    assert(v@.skip(v@.len() as int) =~= Seq::<char>::empty());
    let ghost r_old = r@;
    let ghost cur_old = cur@;
    if cur.len() > 0 {
        r.push(cur);
        proof {
            assert(r@.map_values(|t: Vec<char>| t@) =~= r_old.map_values(|t: Vec<char>| t@)
                + term_close(cur_old));
        }
    } else {
        proof {
            assert(term_close(cur_old) =~= Seq::<Seq<char>>::empty());
            assert(r_old.map_values(|t: Vec<char>| t@) + term_close(cur_old) =~= r_old.map_values(
                |t: Vec<char>| t@,
            ));
        }
    }
    assert(r@.map_values(|t: Vec<char>| t@) =~= split_terms(v@));
    r
}

/// Whether an item matches the search text: every term occurs in its
/// normalized name, author or summary. No terms match everything.
pub open spec fn matches_terms(it: IndexItemV, terms: Seq<Seq<char>>) -> bool {
    forall|k: int|
        0 <= k < terms.len() ==> is_substring_of(#[trigger] terms[k], it.name_key)
            || is_substring_of(terms[k], it.author_key) || is_substring_of(terms[k], it.summary_key)
}

/// Whether an item carries any of the requested tags, compared verbatim.
/// An empty request matches everything.
pub open spec fn matches_tags(it: IndexItemV, tags: Seq<Seq<char>>) -> bool {
    tags.len() == 0 || exists|a: int, b: int|
        0 <= a < it.tags.len() && 0 <= b < tags.len() && it.tags[a] == tags[b]
}

/// Whether an item's type is one of the requested types, compared
/// verbatim. An empty request matches everything.
pub open spec fn matches_types(it: IndexItemV, types: Seq<Seq<char>>) -> bool {
    types.len() == 0 || exists|b: int| 0 <= b < types.len() && types[b] == it.item_type
}

/// Whether an item passes all three query filters.
pub open spec fn passes(
    it: IndexItemV,
    terms: Seq<Seq<char>>,
    tags: Seq<Seq<char>>,
    types: Seq<Seq<char>>,
) -> bool {
    matches_terms(it, terms) && matches_tags(it, tags) && matches_types(it, types)
}

/// The items passing all filters, in index order.
pub open spec fn filter_items(
    s: Seq<IndexItemV>,
    terms: Seq<Seq<char>>,
    tags: Seq<Seq<char>>,
    types: Seq<Seq<char>>,
) -> Seq<IndexItemV>
    decreases s.len(),
{
    if s.len() == 0 {
        Seq::empty()
    } else {
        let rest = filter_items(s.drop_last(), terms, tags, types);
        if passes(s.last(), terms, tags, types) {
            rest.push(s.last())
        } else {
            rest
        }
    }
}

/// Tests one item against the three filters.
fn item_passes(
    it: &IndexItem,
    terms: &Vec<Vec<char>>,
    tags: &Vec<String>,
    types: &Vec<String>,
) -> (r: bool)
    ensures
        r == passes(
            iv(*it),
            terms@.map_values(|t: Vec<char>| t@),
            tags@.map_values(|s: String| s@),
            types@.map_values(|s: String| s@),
        ),
{
    let ghost tv = terms@.map_values(|t: Vec<char>| t@);
    let name_cs = str_to_chars(it.name_key.as_str());
    let author_cs = str_to_chars(it.author_key.as_str());
    let summary_cs = str_to_chars(it.summary_key.as_str());
    let mut k: usize = 0;
    while k < terms.len()
        invariant
            k <= tv.len(),
            tv.len() == terms@.len(),
            name_cs@ == iv(*it).name_key,
            author_cs@ == iv(*it).author_key,
            summary_cs@ == iv(*it).summary_key,
            forall|m: int|
                0 <= m < k ==> is_substring_of(#[trigger] tv[m], iv(*it).name_key)
                    || is_substring_of(tv[m], iv(*it).author_key) || is_substring_of(
                    tv[m],
                    iv(*it).summary_key,
                ),
        decreases tv.len() - k,
    {
        let t = &terms[k];
        assert(t@ == tv[k as int]);
        if !contains_chars(&name_cs, t) && !contains_chars(&author_cs, t) && !contains_chars(
            &summary_cs,
            t,
        ) {
            return false;
        }
        k = k + 1;
    }
    let ghost gv = tags@.map_values(|s: String| s@);
    let ghost itv = iv(*it);
    if tags.len() > 0 {
        let mut a: usize = 0;
        let mut tag_ok: bool = false;
        while a < it.tags.len() && !tag_ok
            invariant
                a <= it.tags@.len(),
                itv == iv(*it),
                gv == tags@.map_values(|s: String| s@),
                gv.len() == tags@.len(),
                itv.tags.len() == it.tags@.len(),
                tag_ok ==> matches_tags(itv, gv),
                !tag_ok ==> forall|x: int, y: int|
                    0 <= x < a && 0 <= y < gv.len() ==> itv.tags[x] != gv[y],
            decreases it.tags@.len() - a, (if tag_ok {
                0int
            } else {
                1int
            }),
        {
            let mut b: usize = 0;
            while b < tags.len() && !tag_ok
                invariant
                    a < it.tags@.len(),
                    b <= gv.len(),
                    itv == iv(*it),
                    gv == tags@.map_values(|s: String| s@),
                    gv.len() == tags@.len(),
                    itv.tags.len() == it.tags@.len(),
                    tag_ok ==> matches_tags(itv, gv),
                    !tag_ok ==> forall|y: int| 0 <= y < b ==> itv.tags[a as int] != gv[y],
                    !tag_ok ==> forall|x: int, y: int|
                        0 <= x < a && 0 <= y < gv.len() ==> itv.tags[x] != gv[y],
                decreases gv.len() - b, (if tag_ok {
                    0int
                } else {
                    1int
                }),
            {
                assert(itv.tags[a as int] == it.tags@[a as int]@);
                assert(gv[b as int] == tags@[b as int]@);
                if it.tags[a] == tags[b] {
                    assert(itv.tags[a as int] == gv[b as int]);
                    assert(gv.len() > 0);
                    tag_ok = true;
                }
                b = b + 1;
            }
            if !tag_ok {
                a = a + 1;
            }
        }
        if !tag_ok {
            return false;
        }
    }
    let ghost yv = types@.map_values(|s: String| s@);
    if types.len() > 0 {
        let mut b: usize = 0;
        let mut ty_ok: bool = false;
        while b < types.len() && !ty_ok
            invariant
                b <= yv.len(),
                itv == iv(*it),
                yv == types@.map_values(|s: String| s@),
                yv.len() == types@.len(),
                ty_ok ==> matches_types(itv, yv),
                !ty_ok ==> forall|y: int| 0 <= y < b ==> yv[y] != itv.item_type,
            decreases yv.len() - b, (if ty_ok {
                0int
            } else {
                1int
            }),
        {
            assert(yv[b as int] == types@[b as int]@);
            if types[b] == it.item_type {
                ty_ok = true;
            }
            b = b + 1;
        }
        if !ty_ok {
            return false;
        }
    }
    true
}

/// The query order: by normalized name when sorting by name; otherwise by
/// update time, items without one last, with ties broken by normalized
/// name. The direction flag later reverses the whole sequence.
pub open spec fn le_item(by_name: bool, a: IndexItemV, b: IndexItemV) -> bool {
    if by_name {
        lex_le(a.name_key, b.name_key)
    } else {
        match (a.updated_at, b.updated_at) {
            (Some(au), Some(bu)) => au <= bu,
            (Some(_), None) => false,
            (None, Some(_)) => true,
            (None, None) => lex_le(a.name_key, b.name_key),
        }
    }
}

/// Compares two indexed items under the query order.
fn le_item_exec(by_name: bool, a: &IndexItem, b: &IndexItem) -> (r: bool)
    ensures
        r == le_item(by_name, iv(*a), iv(*b)),
{
    if by_name {
        let ac = str_to_chars(a.name_key.as_str());
        let bc = str_to_chars(b.name_key.as_str());
        lex_le_chars(&ac, &bc)
    } else {
        match (a.updated_at, b.updated_at) {
            (Some(au), Some(bu)) => au <= bu,
            (Some(_), None) => false,
            (None, Some(_)) => true,
            (None, None) => {
                let ac = str_to_chars(a.name_key.as_str());
                let bc = str_to_chars(b.name_key.as_str());
                lex_le_chars(&ac, &bc)
            },
        }
    }
}

/// A sorted sequence with one item inserted after every item it does not
/// precede: the insertion step of a stable insertion sort.
pub open spec fn insert_le(by_name: bool, s: Seq<IndexItemV>, x: IndexItemV) -> Seq<IndexItemV>
    decreases s.len(),
{
    if s.len() == 0 {
        seq![x]
    } else if le_item(by_name, s.last(), x) {
        s.push(x)
    } else {
        insert_le(by_name, s.drop_last(), x).push(s.last())
    }
}

/// A stable insertion sort under the query order.
pub open spec fn sort_items(by_name: bool, s: Seq<IndexItemV>) -> Seq<IndexItemV>
    decreases s.len(),
{
    if s.len() == 0 {
        Seq::empty()
    } else {
        insert_le(by_name, sort_items(by_name, s.drop_last()), s.last())
    }
}

proof fn lemma_insert_le_at(by_name: bool, s: Seq<IndexItemV>, x: IndexItemV, pos: int)
    requires
        0 <= pos <= s.len(),
        forall|k: int| pos <= k < s.len() ==> !le_item(by_name, #[trigger] s[k], x),
        pos > 0 ==> le_item(by_name, s[pos - 1], x),
    ensures
        insert_le(by_name, s, x) == s.insert(pos, x),
    decreases s.len(),
{
    if s.len() == 0 {
        assert(seq![x] =~= s.insert(0, x));
    } else if le_item(by_name, s.last(), x) {
        assert(s[s.len() - 1] == s.last());
        assert(pos == s.len());
        assert(s.push(x) =~= s.insert(pos, x));
    } else {
        assert(s[s.len() - 1] == s.last());
        assert(pos < s.len());
        assert(forall|k: int|
            pos <= k < s.drop_last().len() ==> !le_item(by_name, #[trigger] s.drop_last()[k], x));
        if pos > 0 {
            assert(s.drop_last()[pos - 1] == s[pos - 1]);
        }
        lemma_insert_le_at(by_name, s.drop_last(), x, pos);
        assert(s.drop_last().insert(pos, x).push(s.last()) =~= s.insert(pos, x));
    }
}

/// Copies one indexed item.
fn clone_index_item(it: &IndexItem) -> (r: IndexItem)
    ensures
        iv(r) == iv(*it),
{
    let r = IndexItem {
        id: it.id.clone(),
        name_key: it.name_key.clone(),
        author_key: it.author_key.clone(),
        summary_key: it.summary_key.clone(),
        item_type: it.item_type.clone(),
        tags: clone_strings(&it.tags),
        updated_at: it.updated_at,
    };
    assert(iv(r) =~= iv(*it));
    r
}

/// The query text of an optional argument.
pub open spec fn opt_str_v(o: Option<String>) -> Seq<char> {
    match o {
        Some(s) => s@,
        None => Seq::empty(),
    }
}

/// The requested names of an optional list argument.
pub open spec fn opt_strs_v(o: Option<Vec<String>>) -> Seq<Seq<char>> {
    match o {
        Some(v) => v@.map_values(|s: String| s@),
        None => Seq::empty(),
    }
}

/// Whether the sort argument selects the name order.
pub open spec fn sort_is_name(sort: Option<String>) -> bool {
    match sort {
        Some(s) => s@ == "name"@,
        None => false,
    }
}

/// Whether the results are to be reversed: an explicit descending
/// direction, or no direction with a sort other than by name.
pub open spec fn dir_is_desc(sort: Option<String>, dir: Option<String>) -> bool {
    match dir {
        Some(x) => x@ == "desc"@,
        None => !sort_is_name(sort),
    }
}

/// What a query returns: the ids of the items passing the filters, sorted
/// under the query order and reversed when the direction is descending.
pub open spec fn spec_query(
    ix: Seq<IndexItemV>,
    q: Option<String>,
    tags: Option<Vec<String>>,
    types: Option<Vec<String>>,
    sort: Option<String>,
    dir: Option<String>,
) -> Seq<Seq<char>> {
    let terms = split_terms(normalize_seq(opt_str_v(q)));
    let f = filter_items(ix, terms, opt_strs_v(tags), opt_strs_v(types));
    let sorted = sort_items(sort_is_name(sort), f);
    let ordered = if dir_is_desc(sort, dir) {
        sorted.reverse()
    } else {
        sorted
    };
    ordered.map_values(|it: IndexItemV| it.id)
}

/// Answers a catalog query: filters the index by the normalized search
/// text (every term must occur in name, author or summary), by tags and
/// by types (any may match), sorts by name or by update time, and returns
/// the ordered item ids.
pub fn query_catalog_index(
    index: &CatalogIndex,
    q: &Option<String>,
    tags: &Option<Vec<String>>,
    types: &Option<Vec<String>>,
    sort: &Option<String>,
    dir: &Option<String>,
) -> (r: Vec<String>)
    ensures
        r@.map_values(|s: String| s@) == spec_query(index_v(*index), *q, *tags, *types, *sort, *dir),
{
    let qs: &str = match q {
        Some(s) => s.as_str(),
        None => "",
    };
    proof {
        reveal_strlit("");
        assert(qs@ =~= opt_str_v(*q));
    }
    let nq = normalize(qs);
    let nq_cs = str_to_chars(nq.as_str());
    let terms = split_terms_exec(&nq_cs);
    let empty_names: Vec<String> = Vec::new();
    let tags_ref: &Vec<String> = match tags {
        Some(v) => v,
        None => &empty_names,
    };
    let types_ref: &Vec<String> = match types {
        Some(v) => v,
        None => &empty_names,
    };
    proof {
        assert(tags_ref@.map_values(|s: String| s@) =~= opt_strs_v(*tags));
        assert(types_ref@.map_values(|s: String| s@) =~= opt_strs_v(*types));
    }
    let ghost termv = terms@.map_values(|t: Vec<char>| t@);
    let ghost tagv = opt_strs_v(*tags);
    let ghost typev = opt_strs_v(*types);
    let ghost ixv = index_v(*index);
    let mut filtered: Vec<IndexItem> = Vec::new();
    let mut i: usize = 0;
    while i < index.items.len()
        invariant
            i <= ixv.len(),
            ixv.len() == index.items@.len(),
            ixv == index_v(*index),
            termv == terms@.map_values(|t: Vec<char>| t@),
            tagv == tags_ref@.map_values(|s: String| s@),
            typev == types_ref@.map_values(|s: String| s@),
            filtered@.map_values(|it: IndexItem| iv(it)) == filter_items(
                ixv.take(i as int),
                termv,
                tagv,
                typev,
            ),
        decreases ixv.len() - i,
    {
        proof {
            assert(ixv.take(i + 1).drop_last() =~= ixv.take(i as int));
            assert(ixv.take(i + 1).last() == ixv[i as int]);
            assert(ixv[i as int] == iv(index.items@[i as int]));
        }
        if item_passes(&index.items[i], &terms, tags_ref, types_ref) {
            filtered.push(clone_index_item(&index.items[i]));
        }
        i = i + 1;
        proof {
            assert(filtered@.map_values(|it: IndexItem| iv(it)) =~= filter_items(
                ixv.take(i as int),
                termv,
                tagv,
                typev,
            ));
        }
    }
    proof {
        assert(ixv.take(ixv.len() as int) =~= ixv);
    }
    let by_name: bool = match sort {
        Some(s) => {
            let sc = str_to_chars(s.as_str());
            let nc = str_to_chars("name");
            chars_eq(&sc, &nc)
        },
        None => false,
    };
    assert(by_name == sort_is_name(*sort));
    let desc: bool = match dir {
        Some(x) => {
            let xc = str_to_chars(x.as_str());
            let dc = str_to_chars("desc");
            chars_eq(&xc, &dc)
        },
        None => !by_name,
    };
    assert(desc == dir_is_desc(*sort, *dir));
    let ghost fv = filtered@.map_values(|it: IndexItem| iv(it));
    let mut sorted: Vec<IndexItem> = Vec::new();
    let mut k: usize = 0;
    while k < filtered.len()
        invariant
            k <= fv.len(),
            fv.len() == filtered@.len(),
            fv == filtered@.map_values(|it: IndexItem| iv(it)),
            sorted@.map_values(|it: IndexItem| iv(it)) == sort_items(by_name, fv.take(k as int)),
        decreases fv.len() - k,
    {
        proof {
            assert(fv.take(k + 1).drop_last() =~= fv.take(k as int));
            assert(fv.take(k + 1).last() == fv[k as int]);
            assert(fv[k as int] == iv(filtered@[k as int]));
        }
        let x = clone_index_item(&filtered[k]);
        let ghost sv = sorted@.map_values(|it: IndexItem| iv(it));
        let mut pos: usize = sorted.len();
        while pos > 0 && !le_item_check(by_name, &sorted, pos - 1, &x)
            invariant
                pos <= sv.len(),
                sv.len() == sorted@.len(),
                sv == sorted@.map_values(|it: IndexItem| iv(it)),
                iv(x) == fv[k as int],
                forall|m: int| pos <= m < sv.len() ==> !le_item(by_name, #[trigger] sv[m], iv(x)),
            decreases pos,
        {
            pos = pos - 1;
        }
        proof {
            if pos > 0 {
                assert(le_item(by_name, sv[pos - 1], iv(x)));
            }
            lemma_insert_le_at(by_name, sv, iv(x), pos as int);
        }
        sorted.insert(pos, x);
        k = k + 1;
        proof {
            assert(sorted@.map_values(|it: IndexItem| iv(it)) =~= sv.insert(
                pos as int,
                fv[k - 1],
            ));
            assert(sorted@.map_values(|it: IndexItem| iv(it)) =~= sort_items(
                by_name,
                fv.take(k as int),
            ));
        }
    }
    proof {
        assert(fv.take(fv.len() as int) =~= fv);
    }
    let mut ids: Vec<String> = Vec::new();
    let mut m: usize = 0;
    while m < sorted.len()
        invariant
            m <= sorted@.len(),
            ids@.map_values(|s: String| s@) == sorted@.map_values(|it: IndexItem| iv(it)).take(
                m as int,
            ).map_values(|it: IndexItemV| it.id),
        decreases sorted@.len() - m,
    {
        let ghost prev = ids@;
        ids.push(sorted[m].id.clone());
        proof {
            assert(ids@ == prev.push(ids@.last()));
            assert(ids@.last()@ == iv(sorted@[m as int]).id);
            assert(ids@.map_values(|s: String| s@) =~~= prev.map_values(|s: String| s@).push(
                iv(sorted@[m as int]).id,
            ));
            assert(sorted@.map_values(|it: IndexItem| iv(it)).take(m + 1).map_values(
                |it: IndexItemV| it.id,
            ) =~~= sorted@.map_values(|it: IndexItem| iv(it)).take(m as int).map_values(
                |it: IndexItemV| it.id,
            ).push(iv(sorted@[m as int]).id));
        }
        m = m + 1;
    }
    proof {
        assert(sorted@.map_values(|it: IndexItem| iv(it)).take(sorted@.len() as int)
            =~= sorted@.map_values(|it: IndexItem| iv(it)));
    }
    if !desc {
        return ids;
    }
    let n = ids.len();
    let mut out: Vec<String> = Vec::new();
    let mut w: usize = 0;
    while w < n
        invariant
            w <= n,
            n == ids@.len(),
            out@.len() == w,
            forall|z: int| 0 <= z < w ==> out@[z]@ == ids@[n - 1 - z]@,
        decreases n - w,
    {
        out.push(ids[n - 1 - w].clone());
        w = w + 1;
    }
    proof {
        let sortedv = sorted@.map_values(|it: IndexItem| iv(it));
        let idsv = ids@.map_values(|s: String| s@);
        let outv = out@.map_values(|s: String| s@);
        assert(sortedv.reverse().len() == sortedv.len());
        assert(outv.len() == sortedv.reverse().map_values(|it: IndexItemV| it.id).len());
        assert forall|z: int| 0 <= z < outv.len() implies outv[z] == sortedv.reverse().map_values(
            |it: IndexItemV| it.id,
        )[z] by {
            assert(outv[z] == out@[z]@);
            assert(out@[z]@ == ids@[n - 1 - z]@);
            assert(idsv[n - 1 - z] == ids@[n - 1 - z]@);
            assert(idsv[n - 1 - z] == sortedv.map_values(|it: IndexItemV| it.id)[n - 1 - z]);
            assert(sortedv.reverse()[z] == sortedv[sortedv.len() - 1 - z]);
        }
        assert(outv =~= sortedv.reverse().map_values(|it: IndexItemV| it.id));
    }
    out
}

/// Compares one sorted element against the item being inserted.
fn le_item_check(by_name: bool, sorted: &Vec<IndexItem>, at: usize, x: &IndexItem) -> (r: bool)
    requires
        at < sorted@.len(),
    ensures
        r == le_item(
            by_name,
            sorted@.map_values(|it: IndexItem| iv(it))[at as int],
            iv(*x),
        ),
{
    let r = le_item_exec(by_name, &sorted[at], x);
    proof {
        assert(sorted@.map_values(|it: IndexItem| iv(it))[at as int] == iv(sorted@[at as int]));
    }
    r
}

} // verus!
