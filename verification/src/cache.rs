//! The hash cache: a persisted map from lowercased file path to the
//! content hash last computed for it, together with the file's
//! modification time and size at that moment. A cached hash is served
//! again only while the (mtime, size) pair is unchanged; otherwise the
//! file is re-read and re-hashed. The caller stats and reads files; the
//! decisions and the cache bookkeeping are made here.
use vstd::prelude::*;

use crate::chars::chars_to_string;
use crate::chars::lower_chars;
use crate::chars::lower_seq;
use crate::chars::str_to_chars;
use crate::hashing::hex32_of;
use crate::hashing::xxh3_128_hex;
use crate::hashing::xxh3_128_of;

verus! {

/// The stat of a file: modification time in milliseconds and size in
/// bytes.
#[derive(Clone, Copy)]
pub struct FileStat {
    /// Modification time, milliseconds since the epoch.
    pub mtime_ms: u64,
    /// Size in bytes.
    pub size: u64,
}

/// One persisted cache record.
pub struct HashCacheEntry {
    /// Lowercased path the record is keyed by.
    pub key: String,
    /// Hex content hash computed for that path.
    pub hex: String,
    /// Modification time under which the hash was computed.
    pub mtime_ms: u64,
    /// File size under which the hash was computed.
    pub size: u64,
}

/// The persisted hash cache.
pub struct HashCache {
    /// The cache records; an earlier record wins when keys collide.
    pub entries: Vec<HashCacheEntry>,
}

/// The hashes known for the current pass, keyed by expanded path.
pub struct FileHashes {
    /// Pairs of expanded path and hex hash.
    pub entries: Vec<(String, String)>,
}

/// The outcome of planning one pass: hashes served from the cache, and the
/// paths that must be read and hashed, each with the stat observed for it.
pub struct HashPlan {
    /// Paths whose cached hash is still valid, with that hash.
    pub cached: Vec<(String, String)>,
    /// Paths that exist on disk but need (re)hashing, with their stat.
    pub to_hash: Vec<(String, FileStat)>,
}

/// The mathematical value of one cache record.
#[verifier::ext_equal]
pub struct CacheEntryV {
    /// Lowercased path key.
    pub key: Seq<char>,
    /// Hex hash.
    pub hex: Seq<char>,
    /// Modification time.
    pub mtime_ms: u64,
    /// Size.
    pub size: u64,
}

/// The mathematical value of one (path, hash) pair.
#[verifier::ext_equal]
pub struct PathHashV {
    /// Expanded path.
    pub path: Seq<char>,
    /// Hex hash.
    pub hex: Seq<char>,
}

/// The mathematical value of one (path, stat) pair.
#[verifier::ext_equal]
pub struct PathStatV {
    /// Expanded path.
    pub path: Seq<char>,
    /// Stat observed for the path.
    pub stat: FileStat,
}

/// The value of one cache record.
pub open spec fn entry_v(e: HashCacheEntry) -> CacheEntryV {
    CacheEntryV { key: e.key@, hex: e.hex@, mtime_ms: e.mtime_ms, size: e.size }
}

/// The value of the whole cache.
pub open spec fn cache_v(c: HashCache) -> Seq<CacheEntryV> {
    c.entries@.map_values(|e: HashCacheEntry| entry_v(e))
}

/// The value of the known-hashes table.
pub open spec fn hashes_v(f: FileHashes) -> Seq<PathHashV> {
    f.entries@.map_values(|p: (String, String)| PathHashV { path: p.0@, hex: p.1@ })
}

/// The value of the cached half of a plan.
pub open spec fn plan_cached_v(p: HashPlan) -> Seq<PathHashV> {
    p.cached@.map_values(|q: (String, String)| PathHashV { path: q.0@, hex: q.1@ })
}

/// The value of the to-hash half of a plan.
pub open spec fn plan_to_hash_v(p: HashPlan) -> Seq<PathStatV> {
    p.to_hash@.map_values(|q: (String, FileStat)| PathStatV { path: q.0@, stat: q.1 })
}

/// The values of the file contents the caller read: `None` where the read
/// failed.
pub open spec fn contents_v(cs: Seq<Option<Vec<u8>>>) -> Seq<Option<Seq<u8>>> {
    cs.map_values(
        |o: Option<Vec<u8>>|
            match o {
                Some(b) => Some(b@),
                None => None,
            },
    )
}

/// Index of the first record with the given key; the length when there is
/// none.
pub open spec fn find_key_idx(s: Seq<CacheEntryV>, key: Seq<char>) -> int
    decreases s.len(),
{
    if s.len() == 0 {
        0
    } else if s[0].key == key {
        0
    } else {
        1 + find_key_idx(s.skip(1), key)
    }
}

/// What `find_key_idx` finds: the first matching index, or the length.
pub proof fn lemma_find_key(s: Seq<CacheEntryV>, key: Seq<char>)
    ensures
        0 <= find_key_idx(s, key) <= s.len(),
        find_key_idx(s, key) < s.len() ==> s[find_key_idx(s, key)].key == key,
        forall|k: int| 0 <= k < find_key_idx(s, key) ==> s[k].key != key,
    decreases s.len(),
{
    if s.len() > 0 && s[0].key != key {
        lemma_find_key(s.skip(1), key);
        assert forall|k: int| 0 <= k < find_key_idx(s, key) implies s[k].key != key by {
            if k > 0 {
                assert(s.skip(1)[k - 1] == s[k]);
            }
        }
    }
}

/// A position with no earlier match determines `find_key_idx`.
pub proof fn lemma_find_key_at(s: Seq<CacheEntryV>, key: Seq<char>, j: int)
    requires
        0 <= j <= s.len(),
        forall|k: int| 0 <= k < j ==> s[k].key != key,
        j < s.len() ==> s[j].key == key,
    ensures
        find_key_idx(s, key) == j,
    decreases s.len(),
{
    if s.len() > 0 {
        if j == 0 {
            if s.len() > 0 && s[0].key != key {
                lemma_find_key(s.skip(1), key);
            }
        } else {
            assert(s[0].key != key);
            lemma_find_key_at(s.skip(1), key, j - 1);
        }
    }
}

/// The first cache record for a key, if any.
pub open spec fn cache_find(s: Seq<CacheEntryV>, key: Seq<char>) -> Option<CacheEntryV> {
    if find_key_idx(s, key) < s.len() {
        Some(s[find_key_idx(s, key)])
    } else {
        None
    }
}

/// Whether a cached hash may be served for a path with the given stat: a
/// record exists under the lowercased path, its hash is non-empty, and its
/// (mtime, size) equal the stat.
pub open spec fn is_cache_hit(path: Seq<char>, st: FileStat, c: Seq<CacheEntryV>) -> bool {
    match cache_find(c, lower_seq(path)) {
        Some(e) => e.hex.len() > 0 && e.mtime_ms == st.mtime_ms && e.size == st.size,
        None => false,
    }
}

/// The cached hash for a path; empty when there is no record.
pub open spec fn hit_hex(path: Seq<char>, c: Seq<CacheEntryV>) -> Seq<char> {
    match cache_find(c, lower_seq(path)) {
        Some(e) => e.hex,
        None => Seq::empty(),
    }
}

/// The cached half of a pass over the given paths and stats: for every
/// path that exists on disk and hits the cache, the pair of the path and
/// its cached hash, in path order.
pub open spec fn spec_plan_cached(
    paths: Seq<Seq<char>>,
    stats: Seq<Option<FileStat>>,
    c: Seq<CacheEntryV>,
) -> Seq<PathHashV>
    decreases paths.len(),
{
    if paths.len() == 0 || stats.len() == 0 {
        Seq::empty()
    } else {
        let rest = spec_plan_cached(paths.drop_last(), stats.drop_last(), c);
        match stats.last() {
            Some(st) => if is_cache_hit(paths.last(), st, c) {
                rest.push(PathHashV { path: paths.last(), hex: hit_hex(paths.last(), c) })
            } else {
                rest
            },
            None => rest,
        }
    }
}

/// The to-hash half of a pass: for every path that exists on disk and
/// misses the cache, the pair of the path and its stat, in path order. A
/// path that cannot be stat'd appears in neither half.
pub open spec fn spec_plan_to_hash(
    paths: Seq<Seq<char>>,
    stats: Seq<Option<FileStat>>,
    c: Seq<CacheEntryV>,
) -> Seq<PathStatV>
    decreases paths.len(),
{
    if paths.len() == 0 || stats.len() == 0 {
        Seq::empty()
    } else {
        let rest = spec_plan_to_hash(paths.drop_last(), stats.drop_last(), c);
        match stats.last() {
            Some(st) => if is_cache_hit(paths.last(), st, c) {
                rest
            } else {
                rest.push(PathStatV { path: paths.last(), stat: st })
            },
            None => rest,
        }
    }
}

/// The view of a list of path strings.
pub open spec fn paths_v(paths: Seq<String>) -> Seq<Seq<char>> {
    paths.map_values(|s: String| s@)
}

/// Finds the first cache record whose key equals the given string.
fn cache_find_exec(c: &HashCache, key: &String) -> (r: Option<usize>)
    ensures
        match r {
            Some(i) => 0 <= i < cache_v(*c).len() && find_key_idx(cache_v(*c), key@) == i,
            None => find_key_idx(cache_v(*c), key@) == cache_v(*c).len(),
        },
{
    let ghost cv = cache_v(*c);
    let mut i: usize = 0;
    while i < c.entries.len()
        invariant
            i <= cv.len(),
            cv.len() == c.entries@.len(),
            forall|k: int| 0 <= k < i ==> cv[k].key != key@,
        decreases cv.len() - i,
    {
        assert(cv[i as int] == entry_v(c.entries@[i as int]));
        if c.entries[i].key == *key {
            proof {
                lemma_find_key_at(cv, key@, i as int);
            }
            return Some(i);
        }
        i = i + 1;
    }
    proof {
        lemma_find_key_at(cv, key@, cv.len() as int);
    }
    None
}

/// Lowercases a path string, the form under which the cache is keyed.
pub fn lower_string(s: &str) -> (r: String)
    ensures
        r@ == lower_seq(s@),
{
    let cs = str_to_chars(s);
    let l = lower_chars(&cs);
    chars_to_string(&l)
}

/// Decides, for every path of a pass, whether its cached hash may be
/// served or the file must be read and hashed. `stats[i]` is the stat of
/// `paths[i]`, or `None` when the path cannot be stat'd; such paths are
/// skipped entirely.
pub fn plan_hash_work(paths: &Vec<String>, stats: &Vec<Option<FileStat>>, cache: &HashCache) -> (
    plan: HashPlan)
    requires
        paths@.len() == stats@.len(),
    ensures
        plan_cached_v(plan) == spec_plan_cached(paths_v(paths@), stats@, cache_v(*cache)),
        plan_to_hash_v(plan) == spec_plan_to_hash(paths_v(paths@), stats@, cache_v(*cache)),
{
    let ghost pv = paths_v(paths@);
    let ghost cv = cache_v(*cache);
    let mut cached: Vec<(String, String)> = Vec::new();
    let mut to_hash: Vec<(String, FileStat)> = Vec::new();
    let mut i: usize = 0;
    while i < paths.len()
        invariant
            i <= paths@.len(),
            paths@.len() == stats@.len(),
            cached@.map_values(|q: (String, String)| PathHashV { path: q.0@, hex: q.1@ })
                == spec_plan_cached(pv.take(i as int), stats@.take(i as int), cv),
            to_hash@.map_values(|q: (String, FileStat)| PathStatV { path: q.0@, stat: q.1 })
                == spec_plan_to_hash(pv.take(i as int), stats@.take(i as int), cv),
        decreases paths@.len() - i,
    {
        let ghost pv1 = pv.take(i + 1);
        let ghost sv1 = stats@.take(i + 1);
        proof {
            assert(pv1.drop_last() =~= pv.take(i as int));
            assert(sv1.drop_last() =~= stats@.take(i as int));
            assert(pv1.last() == pv[i as int]);
            assert(sv1.last() == stats@[i as int]);
        }
        let st_opt = stats[i];
        match st_opt {
            Some(st) => {
                let key = lower_string(paths[i].as_str());
                let found = cache_find_exec(cache, &key);
                let mut hit: bool = false;
                match found {
                    Some(j) => {
                        let e = &cache.entries[j];
                        proof {
                            assert(cv[j as int] == entry_v(cache.entries@[j as int]));
                        }
                        if !e.hex.as_str().is_empty() && e.mtime_ms == st.mtime_ms && e.size
                            == st.size {
                            assert(is_cache_hit(pv[i as int], st, cv));
                            assert(hit_hex(pv[i as int], cv) == e.hex@);
                            cached.push((paths[i].clone(), e.hex.clone()));
                            hit = true;
                        }
                    },
                    None => {},
                }
                if !hit {
                    assert(!is_cache_hit(pv[i as int], st, cv));
                    to_hash.push((paths[i].clone(), st));
                }
            },
            None => {},
        }
        i = i + 1;
        proof {
            assert(cached@.map_values(|q: (String, String)| PathHashV { path: q.0@, hex: q.1@ })
                =~= spec_plan_cached(pv.take(i as int), stats@.take(i as int), cv));
            assert(to_hash@.map_values(
                |q: (String, FileStat)| PathStatV { path: q.0@, stat: q.1 },
            ) =~= spec_plan_to_hash(pv.take(i as int), stats@.take(i as int), cv));
        }
    }
    proof {
        assert(pv.take(paths@.len() as int) =~= pv);
        assert(stats@.take(stats@.len() as int) =~= stats@);
    }
    HashPlan { cached, to_hash }
}

/// The cache after storing one record: the first record with the same key
/// is replaced, or the record is appended.
pub open spec fn upsert(s: Seq<CacheEntryV>, e: CacheEntryV) -> Seq<CacheEntryV> {
    if find_key_idx(s, e.key) < s.len() {
        s.update(find_key_idx(s, e.key), e)
    } else {
        s.push(e)
    }
}

/// The hashes computed in one pass: for every to-hash entry whose bytes
/// could be read, the pair of the path and the hex hash of those bytes.
pub open spec fn spec_computed(th: Seq<PathStatV>, cs: Seq<Option<Seq<u8>>>) -> Seq<PathHashV>
    decreases th.len(),
{
    if th.len() == 0 || cs.len() == 0 {
        Seq::empty()
    } else {
        let rest = spec_computed(th.drop_last(), cs.drop_last());
        match cs.last() {
            Some(b) => rest.push(
                PathHashV { path: th.last().path, hex: hex32_of(xxh3_128_of(b)) },
            ),
            None => rest,
        }
    }
}

/// The cache records written in one pass: for every hash computed, a
/// record keyed by the lowercased path, holding the hash and the stat
/// under which it was computed.
pub open spec fn spec_new_entries(th: Seq<PathStatV>, cs: Seq<Option<Seq<u8>>>) -> Seq<
    CacheEntryV,
>
    decreases th.len(),
{
    if th.len() == 0 || cs.len() == 0 {
        Seq::empty()
    } else {
        let rest = spec_new_entries(th.drop_last(), cs.drop_last());
        match cs.last() {
            Some(b) => rest.push(
                CacheEntryV {
                    key: lower_seq(th.last().path),
                    hex: hex32_of(xxh3_128_of(b)),
                    mtime_ms: th.last().stat.mtime_ms,
                    size: th.last().stat.size,
                },
            ),
            None => rest,
        }
    }
}

/// The cache after storing a list of records, in order.
pub open spec fn spec_upsert_all(c: Seq<CacheEntryV>, es: Seq<CacheEntryV>) -> Seq<CacheEntryV>
    decreases es.len(),
{
    if es.len() == 0 {
        c
    } else {
        upsert(spec_upsert_all(c, es.drop_last()), es.last())
    }
}

/// Stores one record in the cache.
fn upsert_exec(entries: &mut Vec<HashCacheEntry>, e: HashCacheEntry)
    ensures
        final(entries)@.map_values(|x: HashCacheEntry| entry_v(x)) == upsert(
            old(entries)@.map_values(|x: HashCacheEntry| entry_v(x)),
            entry_v(e),
        ),
{
    let ghost cv = entries@.map_values(|x: HashCacheEntry| entry_v(x));
    let mut i: usize = 0;
    while i < entries.len()
        invariant
            i <= cv.len(),
            cv.len() == entries@.len(),
            entries@.map_values(|x: HashCacheEntry| entry_v(x)) == cv,
            forall|k: int| 0 <= k < i ==> cv[k].key != e.key@,
        decreases cv.len() - i,
    {
        assert(cv[i as int] == entry_v(entries@[i as int]));
        if entries[i].key == e.key {
            proof {
                lemma_find_key_at(cv, e.key@, i as int);
            }
            entries.remove(i);
            entries.insert(i, e);
            proof {
                assert(entries@.map_values(|x: HashCacheEntry| entry_v(x)) =~= cv.update(
                    i as int,
                    entry_v(e),
                ));
            }
            return ;
        }
        i = i + 1;
    }
    proof {
        lemma_find_key_at(cv, e.key@, cv.len() as int);
    }
    entries.push(e);
    proof {
        assert(entries@.map_values(|x: HashCacheEntry| entry_v(x)) =~= cv.push(entry_v(e)));
    }
}

/// Completes a pass: serves the cached hashes, hashes the bytes the caller
/// read for every to-hash path, and returns both the hashes known for this
/// pass and the cache to persist, which holds a fresh record for every
/// hash computed. `contents[j]` holds the bytes of `plan.to_hash[j]`, or
/// `None` where the read failed; failed reads yield no hash and no record.
pub fn build_file_hash_cache(plan: &HashPlan, contents: &Vec<Option<Vec<u8>>>, cache: &HashCache)
    -> (r: (FileHashes, HashCache))
    requires
        contents@.len() == plan.to_hash@.len(),
    ensures
        hashes_v(r.0) == plan_cached_v(*plan) + spec_computed(
            plan_to_hash_v(*plan),
            contents_v(contents@),
        ),
        cache_v(r.1) == spec_upsert_all(
            cache_v(*cache),
            spec_new_entries(plan_to_hash_v(*plan), contents_v(contents@)),
        ),
{
    let ghost th = plan_to_hash_v(*plan);
    let ghost csv = contents_v(contents@);
    let ghost cv = cache_v(*cache);
    let mut out: Vec<(String, String)> = Vec::new();
    let mut i: usize = 0;
    while i < plan.cached.len()
        invariant
            i <= plan.cached@.len(),
            out@.map_values(|q: (String, String)| PathHashV { path: q.0@, hex: q.1@ })
                == plan_cached_v(*plan).take(i as int),
        decreases plan.cached@.len() - i,
    {
        let p = &plan.cached[i];
        out.push((p.0.clone(), p.1.clone()));
        i = i + 1;
        proof {
            assert(out@.map_values(|q: (String, String)| PathHashV { path: q.0@, hex: q.1@ })
                =~= plan_cached_v(*plan).take(i as int));
        }
    }
    proof {
        assert(plan_cached_v(*plan).take(plan.cached@.len() as int) =~= plan_cached_v(*plan));
    }
    let mut newc: Vec<HashCacheEntry> = Vec::new();
    let mut i2: usize = 0;
    while i2 < cache.entries.len()
        invariant
            i2 <= cache.entries@.len(),
            newc@.map_values(|x: HashCacheEntry| entry_v(x)) == cv.take(i2 as int),
        decreases cache.entries@.len() - i2,
    {
        let e = &cache.entries[i2];
        newc.push(
            HashCacheEntry {
                key: e.key.clone(),
                hex: e.hex.clone(),
                mtime_ms: e.mtime_ms,
                size: e.size,
            },
        );
        i2 = i2 + 1;
        proof {
            assert(cv[i2 - 1] == entry_v(cache.entries@[i2 - 1]));
            assert(newc@.map_values(|x: HashCacheEntry| entry_v(x)) =~= cv.take(i2 as int));
        }
    }
    proof {
        assert(cv.take(cache.entries@.len() as int) =~= cv);
    }
    let mut j: usize = 0;
    while j < plan.to_hash.len()
        invariant
            j <= plan.to_hash@.len(),
            contents@.len() == plan.to_hash@.len(),
            out@.map_values(|q: (String, String)| PathHashV { path: q.0@, hex: q.1@ })
                == plan_cached_v(*plan) + spec_computed(th.take(j as int), csv.take(j as int)),
            newc@.map_values(|x: HashCacheEntry| entry_v(x)) == spec_upsert_all(
                cv,
                spec_new_entries(th.take(j as int), csv.take(j as int)),
            ),
        decreases plan.to_hash@.len() - j,
    {
        let ghost th1 = th.take(j + 1);
        let ghost cs1 = csv.take(j + 1);
        proof {
            assert(th1.drop_last() =~= th.take(j as int));
            assert(cs1.drop_last() =~= csv.take(j as int));
            assert(th1.last() == th[j as int]);
            assert(cs1.last() == csv[j as int]);
        }
        match &contents[j] {
            Some(bytes) => {
                proof {
                    assert(csv[j as int] == Some(bytes@));
                    assert(th[j as int].path == plan.to_hash@[j as int].0@);
                    assert(th[j as int].stat == plan.to_hash@[j as int].1);
                }
                let hex = xxh3_128_hex(bytes.as_slice());
                let ghost hexv = hex@;
                let pr = &plan.to_hash[j];
                let key = lower_string(pr.0.as_str());
                let entry = HashCacheEntry {
                    key,
                    hex: hex.clone(),
                    mtime_ms: pr.1.mtime_ms,
                    size: pr.1.size,
                };
                let ghost so = spec_new_entries(th.take(j as int), csv.take(j as int));
                proof {
                    assert(spec_new_entries(th1, cs1) == so.push(entry_v(entry)));
                    assert(spec_computed(th1, cs1) == spec_computed(
                        th.take(j as int),
                        csv.take(j as int),
                    ).push(PathHashV { path: pr.0@, hex: hexv }));
                }
                upsert_exec(&mut newc, entry);
                let ghost out_old = out@;
                out.push((pr.0.clone(), hex));
                proof {
                    assert(so.push(entry_v(entry)).drop_last() =~= so);
                    assert(spec_upsert_all(cv, so.push(entry_v(entry))) == upsert(
                        spec_upsert_all(cv, so),
                        entry_v(entry),
                    ));
                    assert(out@.last().0@ == pr.0@);
                    assert(out@.last().1@ == hexv);
                    assert(out@ == out_old.push(out@.last()));
                    assert(out@.map_values(
                        |q: (String, String)| PathHashV { path: q.0@, hex: q.1@ },
                    ) =~= out_old.map_values(
                        |q: (String, String)| PathHashV { path: q.0@, hex: q.1@ },
                    ).push(PathHashV { path: pr.0@, hex: hexv }));
                    assert(plan_cached_v(*plan) + spec_computed(th1, cs1) =~= (plan_cached_v(
                        *plan,
                    ) + spec_computed(th.take(j as int), csv.take(j as int))).push(
                        PathHashV { path: pr.0@, hex: hexv },
                    ));
                    assert(out@.map_values(
                        |q: (String, String)| PathHashV { path: q.0@, hex: q.1@ },
                    ) =~= plan_cached_v(*plan) + spec_computed(th1, cs1));
                    assert(newc@.map_values(|x: HashCacheEntry| entry_v(x)) =~= spec_upsert_all(
                        cv,
                        spec_new_entries(th1, cs1),
                    ));
                }
            },
            None => {
                proof {
                    assert(csv[j as int] is None);
                    assert(spec_new_entries(th1, cs1) == spec_new_entries(
                        th.take(j as int),
                        csv.take(j as int),
                    ));
                    assert(spec_computed(th1, cs1) == spec_computed(
                        th.take(j as int),
                        csv.take(j as int),
                    ));
                }
            },
        }
        j = j + 1;
        proof {
            assert(th1 == th.take(j as int));
            assert(cs1 == csv.take(j as int));
        }
    }
    proof {
        assert(th.take(th.len() as int) =~= th);
        assert(csv.take(csv.len() as int) =~= csv);
    }
    (FileHashes { entries: out }, HashCache { entries: newc })
}

/// The hash known for a path in this pass: the hex of its first pair, or
/// empty when the path has none (the file is missing or unreadable).
pub open spec fn lookup_hex(s: Seq<PathHashV>, path: Seq<char>) -> Seq<char>
    decreases s.len(),
{
    if s.len() == 0 {
        Seq::empty()
    } else if s[0].path == path {
        s[0].hex
    } else {
        lookup_hex(s.skip(1), path)
    }
}

/// Looks a path up in the known hashes of this pass.
pub fn lookup_hex_exec(f: &FileHashes, path: &String) -> (r: String)
    ensures
        r@ == lookup_hex(hashes_v(*f), path@),
{
    let ghost hv = hashes_v(*f);
    let mut i: usize = 0;
    assert(hv.skip(0) =~= hv);
    while i < f.entries.len()
        invariant
            i <= hv.len(),
            hv.len() == f.entries@.len(),
            lookup_hex(hv, path@) == lookup_hex(hv.skip(i as int), path@),
        decreases hv.len() - i,
    {
        let ghost rem = hv.skip(i as int);
        proof {
            assert(rem[0] == hv[i as int]);
            assert(hv[i as int] == PathHashV {
                path: f.entries@[i as int].0@,
                hex: f.entries@[i as int].1@,
            });
            assert(rem.skip(1) =~= hv.skip(i + 1));
        }
        if f.entries[i].0 == *path {
            return f.entries[i].1.clone();
        }
        i = i + 1;
    }
    assert(hv.skip(hv.len() as int) =~= Seq::<PathHashV>::empty());
    String::new()
}

/// Storing a record does not disturb lookups under other keys.
pub proof fn lemma_upsert_preserves_find(s: Seq<CacheEntryV>, e: CacheEntryV, key: Seq<char>)
    requires
        e.key != key,
    ensures
        cache_find(upsert(s, e), key) == cache_find(s, key),
{
    lemma_find_key(s, e.key);
    lemma_find_key(s, key);
    let j0 = find_key_idx(s, e.key);
    let j1 = find_key_idx(s, key);
    if j0 < s.len() {
        let u = s.update(j0, e);
        assert(forall|k: int| 0 <= k < j1 ==> u[k].key != key);
        if j1 < s.len() {
            assert(j1 != j0);
            assert(u[j1].key == key);
            lemma_find_key_at(u, key, j1);
        } else {
            assert(forall|k: int| 0 <= k < u.len() ==> u[k].key != key);
            lemma_find_key_at(u, key, u.len() as int);
        }
    } else {
        let u = s.push(e);
        assert(forall|k: int| 0 <= k < j1 ==> u[k].key != key);
        if j1 < s.len() {
            assert(u[j1].key == key);
            lemma_find_key_at(u, key, j1);
        } else {
            assert(forall|k: int| 0 <= k < u.len() ==> u[k].key != key);
            lemma_find_key_at(u, key, u.len() as int);
        }
    }
}

/// After storing a record, a lookup under its key returns it.
pub proof fn lemma_upsert_finds_inserted(s: Seq<CacheEntryV>, e: CacheEntryV)
    ensures
        cache_find(upsert(s, e), e.key) == Some(e),
{
    lemma_find_key(s, e.key);
    let j0 = find_key_idx(s, e.key);
    if j0 < s.len() {
        let u = s.update(j0, e);
        assert(forall|k: int| 0 <= k < j0 ==> u[k].key != e.key);
        assert(u[j0].key == e.key);
        lemma_find_key_at(u, e.key, j0);
    } else {
        let u = s.push(e);
        assert(forall|k: int| 0 <= k < j0 ==> u[k].key != e.key);
        assert(u[j0 as int].key == e.key);
        lemma_find_key_at(u, e.key, j0);
    }
}

/// After a pass that computed a hash for a path, and no later record of
/// the same pass under the same key, the cache holds exactly the record
/// written for that path.
pub proof fn lemma_find_after_pass(
    c: Seq<CacheEntryV>,
    th: Seq<PathStatV>,
    cs: Seq<Option<Seq<u8>>>,
    j: int,
)
    requires
        th.len() == cs.len(),
        0 <= j < th.len(),
        cs[j] is Some,
        forall|k: int|
            j < k < th.len() ==> lower_seq(th[k].path) != lower_seq(th[j].path) || cs[k] is None,
    ensures
        cache_find(spec_upsert_all(c, spec_new_entries(th, cs)), lower_seq(th[j].path)) == Some(
            CacheEntryV {
                key: lower_seq(th[j].path),
                hex: hex32_of(xxh3_128_of(cs[j]->0)),
                mtime_ms: th[j].stat.mtime_ms,
                size: th[j].stat.size,
            },
        ),
    decreases th.len(),
{
    let es = spec_new_entries(th, cs);
    let n = th.len() - 1;
    let ej = CacheEntryV {
        key: lower_seq(th[j].path),
        hex: hex32_of(xxh3_128_of(cs[j]->0)),
        mtime_ms: th[j].stat.mtime_ms,
        size: th[j].stat.size,
    };
    if j == n {
        assert(es == spec_new_entries(th.drop_last(), cs.drop_last()).push(ej));
        assert(es.drop_last() =~= spec_new_entries(th.drop_last(), cs.drop_last()));
        assert(spec_upsert_all(c, es) == upsert(
            spec_upsert_all(c, es.drop_last()),
            ej,
        ));
        lemma_upsert_finds_inserted(spec_upsert_all(c, es.drop_last()), ej);
    } else {
        assert(th.drop_last()[j] == th[j]);
        assert(cs.drop_last()[j] == cs[j]);
        lemma_find_after_pass(c, th.drop_last(), cs.drop_last(), j);
        match cs.last() {
            Some(b) => {
                let en = CacheEntryV {
                    key: lower_seq(th[n].path),
                    hex: hex32_of(xxh3_128_of(b)),
                    mtime_ms: th[n].stat.mtime_ms,
                    size: th[n].stat.size,
                };
                assert(es == spec_new_entries(th.drop_last(), cs.drop_last()).push(en));
                assert(es.drop_last() =~= spec_new_entries(th.drop_last(), cs.drop_last()));
                assert(spec_upsert_all(c, es) == upsert(
                    spec_upsert_all(c, spec_new_entries(th.drop_last(), cs.drop_last())),
                    en,
                ));
                assert(en.key != ej.key);
                lemma_upsert_preserves_find(
                    spec_upsert_all(c, spec_new_entries(th.drop_last(), cs.drop_last())),
                    en,
                    ej.key,
                );
            },
            None => {
                assert(es == spec_new_entries(th.drop_last(), cs.drop_last()));
            },
        }
    }
}

/// Every path of a pass that exists on disk and hits the cache is served
/// from the cache, with the cached hash.
pub proof fn lemma_plan_hit_served(
    paths: Seq<Seq<char>>,
    stats: Seq<Option<FileStat>>,
    c: Seq<CacheEntryV>,
    i: int,
)
    requires
        stats.len() == paths.len(),
        0 <= i < paths.len(),
        stats[i] is Some,
        is_cache_hit(paths[i], stats[i]->0, c),
    ensures
        spec_plan_cached(paths, stats, c).contains(
            PathHashV { path: paths[i], hex: hit_hex(paths[i], c) },
        ),
    decreases paths.len(),
{
    let n = paths.len() - 1;
    let full = spec_plan_cached(paths, stats, c);
    if i == n {
        let rest = spec_plan_cached(paths.drop_last(), stats.drop_last(), c);
        assert(full == rest.push(PathHashV { path: paths[i], hex: hit_hex(paths[i], c) }));
        assert(full[full.len() - 1] == PathHashV { path: paths[i], hex: hit_hex(paths[i], c) });
    } else {
        assert(paths.drop_last()[i] == paths[i]);
        assert(stats.drop_last()[i] == stats[i]);
        lemma_plan_hit_served(paths.drop_last(), stats.drop_last(), c, i);
        let rest = spec_plan_cached(paths.drop_last(), stats.drop_last(), c);
        let x = PathHashV { path: paths[i], hex: hit_hex(paths[i], c) };
        let w = choose|k: int| 0 <= k < rest.len() && rest[k] == x;
        assert(full[w] == x);
    }
}

/// A path every occurrence of which hits the cache is never re-hashed.
pub proof fn lemma_plan_not_rehashed(
    paths: Seq<Seq<char>>,
    stats: Seq<Option<FileStat>>,
    c: Seq<CacheEntryV>,
    path: Seq<char>,
)
    requires
        stats.len() == paths.len(),
        forall|i: int|
            0 <= i < paths.len() && paths[i] == path ==> (stats[i] is Some && is_cache_hit(
                path,
                stats[i]->0,
                c,
            )),
    ensures
        forall|k: int|
            0 <= k < spec_plan_to_hash(paths, stats, c).len() ==> spec_plan_to_hash(
                paths,
                stats,
                c,
            )[k].path != path,
    decreases paths.len(),
{
    if paths.len() > 0 && stats.len() > 0 {
        assert(forall|i: int|
            0 <= i < paths.drop_last().len() ==> paths.drop_last()[i] == paths[i]
                && stats.drop_last()[i] == stats[i]);
        lemma_plan_not_rehashed(paths.drop_last(), stats.drop_last(), c, path);
        let full = spec_plan_to_hash(paths, stats, c);
        let rest = spec_plan_to_hash(paths.drop_last(), stats.drop_last(), c);
        let n = paths.len() - 1;
        match stats.last() {
            Some(st) => {
                if is_cache_hit(paths.last(), st, c) {
                    assert(full == rest);
                } else {
                    assert(paths[n] != path);
                    assert(full == rest.push(PathStatV { path: paths[n], stat: st }));
                    assert(forall|k: int| 0 <= k < rest.len() ==> full[k] == rest[k]);
                    assert(full[full.len() - 1].path != path);
                }
            },
            None => {
                assert(paths[n] != path);
                assert(full == rest);
            },
        }
    }
}

/// Every path of a pass that exists on disk and misses the cache is listed
/// for re-hashing.
pub proof fn lemma_plan_rehashed(
    paths: Seq<Seq<char>>,
    stats: Seq<Option<FileStat>>,
    c: Seq<CacheEntryV>,
    i: int,
)
    requires
        stats.len() == paths.len(),
        0 <= i < paths.len(),
        stats[i] is Some,
        !is_cache_hit(paths[i], stats[i]->0, c),
    ensures
        spec_plan_to_hash(paths, stats, c).contains(
            PathStatV { path: paths[i], stat: stats[i]->0 },
        ),
    decreases paths.len(),
{
    let n = paths.len() - 1;
    let full = spec_plan_to_hash(paths, stats, c);
    if i == n {
        assert(full[full.len() - 1] == PathStatV { path: paths[i], stat: stats[i]->0 });
    } else {
        assert(paths.drop_last()[i] == paths[i]);
        assert(stats.drop_last()[i] == stats[i]);
        lemma_plan_rehashed(paths.drop_last(), stats.drop_last(), c, i);
        let rest = spec_plan_to_hash(paths.drop_last(), stats.drop_last(), c);
        let x = PathStatV { path: paths[i], stat: stats[i]->0 };
        let w = choose|k: int| 0 <= k < rest.len() && rest[k] == x;
        assert(full[w] == x);
    }
}

/// Every path listed for re-hashing is one of the paths of the pass.
pub proof fn lemma_plan_to_hash_subset(
    paths: Seq<Seq<char>>,
    stats: Seq<Option<FileStat>>,
    c: Seq<CacheEntryV>,
)
    requires
        stats.len() == paths.len(),
    ensures
        forall|k: int|
            0 <= k < spec_plan_to_hash(paths, stats, c).len() ==> paths.contains(
                #[trigger] spec_plan_to_hash(paths, stats, c)[k].path,
            ),
    decreases paths.len(),
{
    if paths.len() > 0 && stats.len() > 0 {
        lemma_plan_to_hash_subset(paths.drop_last(), stats.drop_last(), c);
        let full = spec_plan_to_hash(paths, stats, c);
        let rest = spec_plan_to_hash(paths.drop_last(), stats.drop_last(), c);
        assert forall|k: int| 0 <= k < full.len() implies paths.contains(full[k].path) by {
            if k < rest.len() {
                assert(rest[k] == full[k]);
                let w = choose|m: int|
                    0 <= m < paths.drop_last().len() && paths.drop_last()[m] == rest[k].path;
                assert(paths[w] == full[k].path);
            } else {
                assert(full[k].path == paths.last());
                assert(paths[paths.len() - 1] == paths.last());
            }
        }
    }
}

/// Hash-cache correctness: after a pass computed a file's hash, a second
/// pass that observes the same (mtime, size) for that file serves the very
/// same hash from the cache and does not list the file for re-reading.
pub proof fn lemma_cache_serves_unchanged_file(
    c: Seq<CacheEntryV>,
    th: Seq<PathStatV>,
    cs: Seq<Option<Seq<u8>>>,
    j: int,
    paths2: Seq<Seq<char>>,
    stats2: Seq<Option<FileStat>>,
)
    requires
        th.len() == cs.len(),
        0 <= j < th.len(),
        cs[j] is Some,
        forall|k: int|
            j < k < th.len() ==> lower_seq(th[k].path) != lower_seq(th[j].path) || cs[k] is None,
        stats2.len() == paths2.len(),
        forall|i: int|
            0 <= i < paths2.len() && paths2[i] == th[j].path ==> stats2[i] == Some(th[j].stat),
        exists|i: int| 0 <= i < paths2.len() && paths2[i] == th[j].path,
    ensures
        ({
            let c2 = spec_upsert_all(c, spec_new_entries(th, cs));
            let plan_th = spec_plan_to_hash(paths2, stats2, c2);
            &&& forall|k: int| 0 <= k < plan_th.len() ==> plan_th[k].path != th[j].path
            &&& spec_plan_cached(paths2, stats2, c2).contains(
                PathHashV { path: th[j].path, hex: hex32_of(xxh3_128_of(cs[j]->0)) },
            )
        }),
{
    let c2 = spec_upsert_all(c, spec_new_entries(th, cs));
    let hex = hex32_of(xxh3_128_of(cs[j]->0));
    lemma_find_after_pass(c, th, cs, j);
    assert(hex.len() == 32);
    assert(is_cache_hit(th[j].path, th[j].stat, c2));
    assert(hit_hex(th[j].path, c2) == hex);
    lemma_plan_not_rehashed(paths2, stats2, c2, th[j].path);
    let i = choose|i: int| 0 <= i < paths2.len() && paths2[i] == th[j].path;
    lemma_plan_hit_served(paths2, stats2, c2, i);
}

/// Hash-cache invalidation: a file whose observed size differs from the
/// cached record (or for which no record exists) is listed for re-reading
/// and re-hashing.
pub proof fn lemma_size_change_forces_recompute(
    c: Seq<CacheEntryV>,
    paths: Seq<Seq<char>>,
    stats: Seq<Option<FileStat>>,
    i: int,
)
    requires
        stats.len() == paths.len(),
        0 <= i < paths.len(),
        stats[i] is Some,
        match cache_find(c, lower_seq(paths[i])) {
            Some(e) => e.size != stats[i]->0.size,
            None => true,
        },
    ensures
        spec_plan_to_hash(paths, stats, c).contains(
            PathStatV { path: paths[i], stat: stats[i]->0 },
        ),
{
    lemma_plan_rehashed(paths, stats, c, i);
}

} // verus!
