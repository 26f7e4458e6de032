//! The version resolver: per item, decide from the known file hashes which
//! version is installed. Versions are checked newest first (the last array
//! entry is the newest); a version matches only when it has files and
//! every file's hash matches the expectation under the dual-byte-order
//! rule; the first matching version wins. When nothing matches, the item
//! resolves to the unknown sentinel if anything of it was seen on disk,
//! and to the empty string otherwise.
use vstd::prelude::*;
use vstd::string::StringExecFns;

use crate::cache::FileHashes;
use crate::cache::PathHashV;
use crate::cache::hashes_v;
use crate::cache::lookup_hex;
use crate::cache::lookup_hex_exec;
use crate::candidacy::candidacy;
use crate::candidacy::item_candidate;
use crate::catalog::CatalogItem;
use crate::catalog::DirectorySnapshot;
use crate::catalog::FileSpec;
use crate::catalog::VersionEntry;
use crate::chars::str_to_chars;
use crate::hashing::hashes_match;
use crate::hashing::hashes_match_exec;
use crate::paths::AppDirs;
use crate::paths::expand_path;
use crate::paths::expanded_path;

verus! {

/// The outcome of scanning one version's files: whether every file
/// matched, whether any scanned file was present on disk, and whether any
/// scanned present file disagreed with its expectation. Scanning stops at
/// the first file that fails.
pub struct ScanV {
    /// Every file matched its expected hash.
    pub ok: bool,
    /// Some scanned file was present on disk.
    pub present: bool,
    /// Some scanned present file had a hash that disagreed with a
    /// non-empty expectation.
    pub mismatch: bool,
}

/// The outcome of scanning an item's versions, newest first: the first
/// matching version's label, and the presence and mismatch evidence
/// gathered from the versions scanned.
pub struct VScanV {
    /// Label of the newest fully matching version.
    pub detected: Option<Seq<char>>,
    /// Some scanned file of some scanned version was present.
    pub present: bool,
    /// Some scanned present file disagreed with its expectation.
    pub mismatch: bool,
}

/// The hash known for one file of a version: looked up under its expanded,
/// canonicalized path.
pub open spec fn found_hex(f: FileSpec, d: AppDirs, hv: Seq<PathHashV>) -> Seq<char> {
    lookup_hex(hv, expanded_path(f.path@, d))
}

/// Whether one file meets its expectation: the expectation is non-empty
/// and the hash found on disk matches it under the dual-byte-order rule.
/// A missing file (empty found hash) never matches a non-empty
/// expectation.
pub open spec fn file_ok(f: FileSpec, d: AppDirs, hv: Seq<PathHashV>) -> bool {
    f.hash@.len() > 0 && hashes_match(found_hex(f, d, hv), f.hash@)
}

/// Scans a version's files in order, stopping at the first failure.
pub open spec fn scan_files(files: Seq<FileSpec>, d: AppDirs, hv: Seq<PathHashV>) -> ScanV
    decreases files.len(),
{
    if files.len() == 0 {
        ScanV { ok: true, present: false, mismatch: false }
    } else {
        let f = files[0];
        let found = found_hex(f, d, hv);
        let present = found.len() > 0;
        let mism = present && f.hash@.len() > 0 && !hashes_match(found, f.hash@);
        if !file_ok(f, d, hv) {
            ScanV { ok: false, present, mismatch: mism }
        } else {
            let rest = scan_files(files.skip(1), d, hv);
            ScanV {
                ok: rest.ok,
                present: present || rest.present,
                mismatch: mism || rest.mismatch,
            }
        }
    }
}

/// Whether a version fully matches: it has files, and every file meets its
/// expectation.
pub open spec fn version_matches(v: VersionEntry, d: AppDirs, hv: Seq<PathHashV>) -> bool {
    v.files@.len() > 0 && scan_files(v.files@, d, hv).ok
}

/// Scans versions newest first (the last entry first), stopping at the
/// first fully matching one. Versions without files are skipped.
pub open spec fn scan_versions(vers: Seq<VersionEntry>, d: AppDirs, hv: Seq<PathHashV>) -> VScanV
    decreases vers.len(),
{
    if vers.len() == 0 {
        VScanV { detected: None, present: false, mismatch: false }
    } else {
        let v = vers.last();
        if v.files@.len() == 0 {
            scan_versions(vers.drop_last(), d, hv)
        } else {
            let s = scan_files(v.files@, d, hv);
            if s.ok {
                VScanV { detected: Some(v.version@), present: s.present, mismatch: s.mismatch }
            } else {
                let rest = scan_versions(vers.drop_last(), d, hv);
                VScanV {
                    detected: rest.detected,
                    present: s.present || rest.present,
                    mismatch: s.mismatch || rest.mismatch,
                }
            }
        }
    }
}

/// What the resolver reports for one item: the empty string for a
/// non-candidate, the newest fully matching version's label, the unknown
/// sentinel when nothing matched but something of the item was seen on
/// disk, and the empty string otherwise.
pub open spec fn detect_version(
    item: CatalogItem,
    cand: bool,
    d: AppDirs,
    hv: Seq<PathHashV>,
) -> Seq<char> {
    if !cand {
        Seq::empty()
    } else {
        let sv = scan_versions(item.versions@, d, hv);
        match sv.detected {
            Some(l) => l,
            None => if sv.present || sv.mismatch {
                "???"@
            } else {
                Seq::empty()
            },
        }
    }
}

/// Scans one version's files against the known hashes.
fn check_version_files(files: &Vec<FileSpec>, d: &AppDirs, hashes: &FileHashes) -> (r: (
    bool,
    bool,
    bool,
))
    ensures
        ({
            let s = scan_files(files@, *d, hashes_v(*hashes));
            r.0 == s.ok && r.1 == s.present && r.2 == s.mismatch
        }),
{
    let ghost hv = hashes_v(*hashes);
    let ghost full = scan_files(files@, *d, hv);
    let mut ok: bool = true;
    let mut any_p: bool = false;
    let mut any_m: bool = false;
    let mut j: usize = 0;
    assert(files@.skip(0) =~= files@);
    while j < files.len() && ok
        invariant
            j <= files@.len(),
            ok ==> {
                let sub = scan_files(files@.skip(j as int), *d, hv);
                full.ok == sub.ok && full.present == (any_p || sub.present) && full.mismatch == (
                any_m || sub.mismatch)
            },
            !ok ==> full.ok == false && full.present == any_p && full.mismatch == any_m,
        decreases files@.len() - j, (if ok {
            1int
        } else {
            0int
        }),
    {
        let ghost rem = files@.skip(j as int);
        proof {
            assert(rem[0] == files@[j as int]);
            assert(rem.skip(1) =~= files@.skip(j + 1));
        }
        let f = &files[j];
        let path = expand_path(f.path.as_str(), d);
        let found = lookup_hex_exec(hashes, &path);
        let found_cs = str_to_chars(found.as_str());
        let want_cs = str_to_chars(f.hash.as_str());
        let present = found_cs.len() > 0;
        let matched = want_cs.len() > 0 && hashes_match_exec(&found_cs, &want_cs);
        let mism = present && want_cs.len() > 0 && !matched;
        proof {
            assert(found@ == found_hex(files@[j as int], *d, hv));
            assert(matched == file_ok(files@[j as int], *d, hv));
        }
        if present {
            any_p = true;
        }
        if mism {
            any_m = true;
        }
        if !matched {
            ok = false;
        } else {
            j = j + 1;
        }
    }
    (ok, any_p, any_m)
}

/// Resolves one item against the known hashes.
pub fn detect_item(item: &CatalogItem, cand: bool, d: &AppDirs, hashes: &FileHashes) -> (r:
    String)
    ensures
        r@ == detect_version(*item, cand, *d, hashes_v(*hashes)),
{
    let ghost hv = hashes_v(*hashes);
    if !cand {
        return String::new();
    }
    let ghost full = scan_versions(item.versions@, *d, hv);
    let mut detected: Option<String> = None;
    let mut any_p: bool = false;
    let mut any_m: bool = false;
    let mut i: usize = item.versions.len();
    assert(item.versions@.take(i as int) =~= item.versions@);
    while detected.is_none() && i > 0
        invariant
            i <= item.versions@.len(),
            detected is None ==> {
                let sub = scan_versions(item.versions@.take(i as int), *d, hv);
                full.detected == sub.detected && full.present == (any_p || sub.present)
                    && full.mismatch == (any_m || sub.mismatch)
            },
            detected matches Some(l) ==> full.detected == Some(l@),
        decreases i,
    {
        i = i - 1;
        let ghost pre = item.versions@.take(i + 1);
        proof {
            assert(pre.last() == item.versions@[i as int]);
            assert(pre.drop_last() =~= item.versions@.take(i as int));
        }
        let ver = &item.versions[i];
        if ver.files.len() > 0 {
            let (ok, p, m) = check_version_files(&ver.files, d, hashes);
            if ok {
                detected = Some(ver.version.clone());
            } else {
                if p {
                    any_p = true;
                }
                if m {
                    any_m = true;
                }
            }
        }
    }
    match detected {
        Some(l) => l,
        None => {
            assert(item.versions@.take(0) =~= Seq::<VersionEntry>::empty());
            if any_p || any_m {
                String::from_str("???")
            } else {
                String::new()
            }
        },
    }
}

/// One row of the resolver's output.
#[verifier::ext_equal]
pub struct ResultV {
    /// Item id.
    pub id: Seq<char>,
    /// Resolved version string: empty, the unknown sentinel, or a label.
    pub version: Seq<char>,
}

/// The resolver's output for a whole catalog: one row per item with a
/// non-empty id, in catalog order.
pub open spec fn spec_results(
    items: Seq<CatalogItem>,
    cands: Seq<bool>,
    d: AppDirs,
    hv: Seq<PathHashV>,
) -> Seq<ResultV>
    decreases items.len(),
{
    if items.len() == 0 || cands.len() == 0 {
        Seq::empty()
    } else {
        let rest = spec_results(items.drop_last(), cands.drop_last(), d, hv);
        let it = items.last();
        if it.id@.len() > 0 {
            rest.push(ResultV { id: it.id@, version: detect_version(it, cands.last(), d, hv) })
        } else {
            rest
        }
    }
}

/// The view of the resolver's executable output.
pub open spec fn results_v(r: Seq<(String, String)>) -> Seq<ResultV> {
    r.map_values(|q: (String, String)| ResultV { id: q.0@, version: q.1@ })
}

/// Resolves every item of the catalog: one `(id, version)` pair per item
/// with a non-empty id, in catalog order. `cands[i]` says whether item `i`
/// passed the candidacy filter; non-candidates resolve to the empty
/// string.
pub fn determine_versions(
    items: &Vec<CatalogItem>,
    cands: &Vec<bool>,
    d: &AppDirs,
    hashes: &FileHashes,
) -> (r: Vec<(String, String)>)
    requires
        cands@.len() == items@.len(),
    ensures
        results_v(r@) == spec_results(items@, cands@, *d, hashes_v(*hashes)),
{
    let ghost hv = hashes_v(*hashes);
    let mut r: Vec<(String, String)> = Vec::new();
    let mut i: usize = 0;
    while i < items.len()
        invariant
            i <= items@.len(),
            cands@.len() == items@.len(),
            results_v(r@) == spec_results(items@.take(i as int), cands@.take(i as int), *d, hv),
        decreases items@.len() - i,
    {
        let ghost iv1 = items@.take(i + 1);
        let ghost cv1 = cands@.take(i + 1);
        proof {
            assert(iv1.drop_last() =~= items@.take(i as int));
            assert(cv1.drop_last() =~= cands@.take(i as int));
            assert(iv1.last() == items@[i as int]);
            assert(cv1.last() == cands@[i as int]);
        }
        let item = &items[i];
        if !item.id.as_str().is_empty() {
            let ver = detect_item(item, cands[i], d, hashes);
            r.push((item.id.clone(), ver));
        }
        i = i + 1;
        proof {
            assert(results_v(r@) =~= spec_results(
                items@.take(i as int),
                cands@.take(i as int),
                *d,
                hv,
            ));
        }
    }
    proof {
        assert(items@.take(items@.len() as int) =~= items@);
        assert(cands@.take(cands@.len() as int) =~= cands@);
    }
    r
}

/// Resolves the whole catalog from snapshots and known hashes: runs the
/// candidacy filter, then the version resolver; non-candidate items
/// resolve to the empty string without their versions being visited.
pub fn detect_versions_map(
    items: &Vec<CatalogItem>,
    host_exe_present: bool,
    plugins: &DirectorySnapshot,
    scripts: &DirectorySnapshot,
    d: &AppDirs,
    hashes: &FileHashes,
) -> (r: Vec<(String, String)>)
    ensures
        ({
            let cands = Seq::new(
                items@.len(),
                |i: int| item_candidate(items@[i], host_exe_present, *plugins, *scripts),
            );
            results_v(r@) == spec_results(items@, cands, *d, hashes_v(*hashes))
        }),
{
    let cands = candidacy(items, host_exe_present, plugins, scripts);
    proof {
        assert(cands@ =~= Seq::new(
            items@.len(),
            |i: int| item_candidate(items@[i], host_exe_present, *plugins, *scripts),
        ));
    }
    determine_versions(items, &cands, d, hashes)
}

/// The expanded, canonicalized paths of one version's files, in order.
pub open spec fn files_paths(files: Seq<FileSpec>, d: AppDirs) -> Seq<Seq<char>> {
    files.map_values(|f: FileSpec| expanded_path(f.path@, d))
}

/// The expanded paths of every file of every version of one item.
pub open spec fn item_paths(item: CatalogItem, d: AppDirs) -> Seq<Seq<char>> {
    item.versions@.map_values(|v: VersionEntry| files_paths(v.files@, d)).flatten()
}

/// The expanded paths of every file of every candidate item, in catalog
/// order; non-candidate items contribute nothing.
pub open spec fn all_paths(items: Seq<CatalogItem>, cands: Seq<bool>, d: AppDirs) -> Seq<
    Seq<char>,
>
    decreases items.len(),
{
    if items.len() == 0 || cands.len() == 0 {
        Seq::empty()
    } else {
        let rest = all_paths(items.drop_last(), cands.drop_last(), d);
        if cands.last() {
            rest + item_paths(items.last(), d)
        } else {
            rest
        }
    }
}

/// The sequence with later duplicates removed: each element keeps its
/// first occurrence.
pub open spec fn dedup(s: Seq<Seq<char>>) -> Seq<Seq<char>>
    decreases s.len(),
{
    if s.len() == 0 {
        Seq::empty()
    } else if s.drop_last().contains(s.last()) {
        dedup(s.drop_last())
    } else {
        dedup(s.drop_last()).push(s.last())
    }
}

/// The view of a list of path strings.
pub open spec fn strings_v(v: Seq<String>) -> Seq<Seq<char>> {
    v.map_values(|s: String| s@)
}

/// Appends all strings of `add` to `out`.
fn append_strings(out: &mut Vec<String>, add: &Vec<String>)
    ensures
        strings_v(final(out)@) == strings_v(old(out)@) + strings_v(add@),
{
    let mut k: usize = 0;
    while k < add.len()
        invariant
            k <= add@.len(),
            strings_v(out@) == strings_v(old(out)@) + strings_v(add@.take(k as int)),
        decreases add@.len() - k,
    {
        let ghost prev = out@;
        out.push(add[k].clone());
        proof {
            assert(out@ == prev.push(out@.last()));
            assert(out@.last() == add@[k as int]);
            assert(strings_v(out@) =~~= strings_v(prev).push(add@[k as int]@));
            assert(strings_v(add@.take(k + 1)) =~~= strings_v(add@.take(k as int)).push(
                add@[k as int]@,
            ));
        }
        k = k + 1;
        assert(strings_v(out@) =~~= strings_v(old(out)@) + strings_v(add@.take(k as int)));
    }
    assert(strings_v(old(out)@) + strings_v(add@.take(add@.len() as int)) =~~= strings_v(old(out)@)
        + strings_v(add@));
}

/// The expanded paths of one version's files.
fn paths_of_files(files: &Vec<FileSpec>, d: &AppDirs) -> (r: Vec<String>)
    ensures
        strings_v(r@) == files_paths(files@, *d),
{
    let mut r: Vec<String> = Vec::new();
    let mut k: usize = 0;
    while k < files.len()
        invariant
            k <= files@.len(),
            strings_v(r@) == files_paths(files@.take(k as int), *d),
        decreases files@.len() - k,
    {
        let ghost prevr = r@;
        r.push(expand_path(files[k].path.as_str(), d));
        proof {
            assert(r@ == prevr.push(r@.last()));
            assert(r@.last()@ == expanded_path(files@[k as int].path@, *d));
            assert(strings_v(r@) =~~= strings_v(prevr).push(
                expanded_path(files@[k as int].path@, *d),
            ));
            assert(files_paths(files@.take(k + 1), *d) =~~= files_paths(
                files@.take(k as int),
                *d,
            ).push(expanded_path(files@[k as int].path@, *d)));
        }
        k = k + 1;
    }
    assert(files@.take(files@.len() as int) =~= files@);
    r
}

/// The expanded paths of every file of one item.
fn paths_of_item(item: &CatalogItem, d: &AppDirs) -> (r: Vec<String>)
    ensures
        strings_v(r@) == item_paths(*item, *d),
{
    let ghost m = item.versions@.map_values(|v: VersionEntry| files_paths(v.files@, *d));
    let mut r: Vec<String> = Vec::new();
    let mut i: usize = 0;
    assert(m.take(0) =~= Seq::<Seq<Seq<char>>>::empty());
    assert(strings_v(r@) =~= m.take(0).flatten());
    while i < item.versions.len()
        invariant
            i <= item.versions@.len(),
            m == item.versions@.map_values(|v: VersionEntry| files_paths(v.files@, *d)),
            strings_v(r@) == m.take(i as int).flatten(),
        decreases item.versions@.len() - i,
    {
        let ps = paths_of_files(&item.versions[i].files, d);
        append_strings(&mut r, &ps);
        proof {
            assert(m.take(i + 1).drop_last() =~= m.take(i as int));
            assert(m.take(i + 1) =~= m.take(i as int).push(m[i as int]));
            m.take(i as int).lemma_flatten_push(m[i as int]);
            assert(strings_v(ps@) == m[i as int]);
        }
        i = i + 1;
    }
    assert(m.take(m.len() as int) =~= m);
    r
}

/// Collects, in catalog order and without duplicates, the expanded path
/// of every file of every candidate item. These are the only paths the
/// hashing pass ever touches: files of non-candidate items are collected
/// only where a candidate item names the same path.
pub fn collect_unique_paths(items: &Vec<CatalogItem>, cands: &Vec<bool>, d: &AppDirs) -> (r: Vec<
    String,
>)
    requires
        cands@.len() == items@.len(),
    ensures
        strings_v(r@) == dedup(all_paths(items@, cands@, *d)),
{
    let mut flat: Vec<String> = Vec::new();
    let mut i: usize = 0;
    while i < items.len()
        invariant
            i <= items@.len(),
            cands@.len() == items@.len(),
            strings_v(flat@) == all_paths(items@.take(i as int), cands@.take(i as int), *d),
        decreases items@.len() - i,
    {
        proof {
            assert(items@.take(i + 1).drop_last() =~= items@.take(i as int));
            assert(cands@.take(i + 1).drop_last() =~= cands@.take(i as int));
            assert(items@.take(i + 1).last() == items@[i as int]);
            assert(cands@.take(i + 1).last() == cands@[i as int]);
        }
        if cands[i] {
            let ps = paths_of_item(&items[i], d);
            append_strings(&mut flat, &ps);
        }
        i = i + 1;
    }
    proof {
        assert(items@.take(items@.len() as int) =~= items@);
        assert(cands@.take(cands@.len() as int) =~= cands@);
    }
    let ghost fv = strings_v(flat@);
    let mut r: Vec<String> = Vec::new();
    let mut k: usize = 0;
    while k < flat.len()
        invariant
            k <= flat@.len(),
            fv == strings_v(flat@),
            strings_v(r@) == dedup(fv.take(k as int)),
        decreases flat@.len() - k,
    {
        proof {
            assert(fv.take(k + 1).drop_last() =~= fv.take(k as int));
            assert(fv.take(k + 1).last() == fv[k as int]);
        }
        let mut seen: bool = false;
        let mut m: usize = 0;
        while m < k
            invariant
                m <= k,
                k <= flat@.len(),
                fv == strings_v(flat@),
                seen ==> fv.take(k as int).contains(fv[k as int]),
                !seen ==> forall|q: int| 0 <= q < m ==> fv[q] != fv[k as int],
            decreases k - m,
        {
            if !seen && flat[m] == flat[k] {
                assert(fv.take(k as int)[m as int] == fv[k as int]);
                seen = true;
            }
            m = m + 1;
        }
        if !seen {
            proof {
                if fv.take(k as int).contains(fv[k as int]) {
                    let w = choose|q: int|
                        0 <= q < k && fv.take(k as int)[q] == fv[k as int];
                    assert(fv[w] == fv[k as int]);
                }
            }
            r.push(flat[k].clone());
            assert(strings_v(r@) =~= dedup(fv.take(k + 1)));
        }
        k = k + 1;
    }
    assert(fv.take(fv.len() as int) =~= fv);
    r
}

/// Whether a path belongs to some item marked candidate.
pub open spec fn from_candidate(
    items: Seq<CatalogItem>,
    cands: Seq<bool>,
    d: AppDirs,
    p: Seq<char>,
) -> bool {
    exists|i: int| 0 <= i < items.len() && cands[i] && item_paths(items[i], d).contains(p)
}

/// Everything the candidacy filter lets through comes from a candidate
/// item: every collected path belongs to some item marked candidate. A
/// non-candidate item's files are therefore never hashed, except where a
/// candidate item names the very same path.
pub proof fn lemma_collected_paths_from_candidates(
    items: Seq<CatalogItem>,
    cands: Seq<bool>,
    d: AppDirs,
)
    requires
        cands.len() == items.len(),
    ensures
        forall|k: int|
            0 <= k < dedup(all_paths(items, cands, d)).len() ==> from_candidate(
                items,
                cands,
                d,
                #[trigger] dedup(all_paths(items, cands, d))[k],
            ),
{
    lemma_dedup_membership(all_paths(items, cands, d));
    lemma_all_paths_membership(items, cands, d);
    assert forall|k: int| 0 <= k < dedup(all_paths(items, cands, d)).len() implies from_candidate(
        items,
        cands,
        d,
        dedup(all_paths(items, cands, d))[k],
    ) by {
        assert(all_paths(items, cands, d).contains(dedup(all_paths(items, cands, d))[k]));
    }
}

/// The candidacy filter never lets a non-candidate item's files be
/// hashed: whatever the stats and the cache, every path the hashing plan
/// lists for reading belongs to some candidate item.
pub proof fn lemma_hashing_only_candidate_paths(
    items: Seq<CatalogItem>,
    cands: Seq<bool>,
    d: AppDirs,
    stats: Seq<Option<crate::cache::FileStat>>,
    c: Seq<crate::cache::CacheEntryV>,
)
    requires
        cands.len() == items.len(),
        stats.len() == dedup(all_paths(items, cands, d)).len(),
    ensures
        forall|k: int|
            0 <= k < crate::cache::spec_plan_to_hash(
                dedup(all_paths(items, cands, d)),
                stats,
                c,
            ).len() ==> from_candidate(
                items,
                cands,
                d,
                #[trigger] crate::cache::spec_plan_to_hash(
                    dedup(all_paths(items, cands, d)),
                    stats,
                    c,
                )[k].path,
            ),
{
    let paths = dedup(all_paths(items, cands, d));
    let th = crate::cache::spec_plan_to_hash(paths, stats, c);
    crate::cache::lemma_plan_to_hash_subset(paths, stats, c);
    lemma_collected_paths_from_candidates(items, cands, d);
    assert forall|k: int| 0 <= k < th.len() implies from_candidate(
        items,
        cands,
        d,
        th[k].path,
    ) by {
        assert(paths.contains(th[k].path));
        let w = choose|w: int| 0 <= w < paths.len() && paths[w] == th[k].path;
        assert(from_candidate(items, cands, d, paths[w]));
    }
}

proof fn lemma_dedup_membership(s: Seq<Seq<char>>)
    ensures
        forall|k: int| 0 <= k < dedup(s).len() ==> s.contains(#[trigger] dedup(s)[k]),
    decreases s.len(),
{
    if s.len() > 0 {
        lemma_dedup_membership(s.drop_last());
        let full = dedup(s);
        assert forall|k: int| 0 <= k < full.len() implies s.contains(full[k]) by {
            let rest = dedup(s.drop_last());
            if k < rest.len() {
                let w = choose|q: int|
                    0 <= q < s.drop_last().len() && s.drop_last()[q] == rest[k];
                assert(s[w] == rest[k]);
                assert(full[k] == rest[k]);
            } else {
                assert(full[k] == s.last());
                assert(s[s.len() - 1] == s.last());
            }
        }
    }
}

proof fn lemma_all_paths_membership(items: Seq<CatalogItem>, cands: Seq<bool>, d: AppDirs)
    requires
        cands.len() == items.len(),
    ensures
        forall|p: Seq<char>|
            #[trigger] all_paths(items, cands, d).contains(p) ==> from_candidate(
                items,
                cands,
                d,
                p,
            ),
    decreases items.len(),
{
    if items.len() > 0 {
        lemma_all_paths_membership(items.drop_last(), cands.drop_last(), d);
        let full = all_paths(items, cands, d);
        let rest = all_paths(items.drop_last(), cands.drop_last(), d);
        assert forall|p: Seq<char>| full.contains(p) implies from_candidate(
            items,
            cands,
            d,
            p,
        ) by {
            let k = choose|k: int| 0 <= k < full.len() && full[k] == p;
            if cands.last() {
                if k < rest.len() {
                    assert(rest[k] == p);
                    assert(rest.contains(p));
                    assert(from_candidate(items.drop_last(), cands.drop_last(), d, p));
                    let i = choose|i: int|
                        0 <= i < items.drop_last().len() && cands.drop_last()[i] && item_paths(
                            items.drop_last()[i],
                            d,
                        ).contains(p);
                    assert(items[i] == items.drop_last()[i]);
                    assert(cands[i]);
                    assert(from_candidate(items, cands, d, p));
                } else {
                    assert(full[k] == item_paths(items.last(), d)[k - rest.len()]);
                    assert(item_paths(items.last(), d).contains(p));
                    assert(items[items.len() - 1] == items.last());
                    assert(cands[items.len() - 1]);
                    assert(from_candidate(items, cands, d, p));
                }
            } else {
                assert(rest[k] == p);
                assert(rest.contains(p));
                assert(from_candidate(items.drop_last(), cands.drop_last(), d, p));
                let i = choose|i: int|
                    0 <= i < items.drop_last().len() && cands.drop_last()[i] && item_paths(
                        items.drop_last()[i],
                        d,
                    ).contains(p);
                assert(items[i] == items.drop_last()[i]);
                assert(cands[i]);
                assert(from_candidate(items, cands, d, p));
            }
        }
    }
}

/// When every file of every version is missing on disk, an item resolves
/// to the empty string, whatever its candidacy.
pub proof fn lemma_all_missing_resolves_empty(
    item: CatalogItem,
    cand: bool,
    d: AppDirs,
    hv: Seq<PathHashV>,
)
    requires
        forall|vi: int, fi: int|
            0 <= vi < item.versions@.len() && 0 <= fi < item.versions@[vi].files@.len()
                ==> found_hex(item.versions@[vi].files@[fi], d, hv) == (Seq::<char>::empty()),
    ensures
        detect_version(item, cand, d, hv) == (Seq::<char>::empty()),
{
    if cand {
        lemma_scan_versions_all_missing(item.versions@, d, hv);
    }
}

proof fn lemma_scan_files_first_missing(files: Seq<FileSpec>, d: AppDirs, hv: Seq<PathHashV>)
    requires
        files.len() > 0,
        found_hex(files[0], d, hv) == (Seq::<char>::empty()),
    ensures
        scan_files(files, d, hv) == (ScanV { ok: false, present: false, mismatch: false }),
{
    let f = files[0];
    if f.hash@.len() > 0 && hashes_match(found_hex(f, d, hv), f.hash@) {
        crate::hashing::lemma_hashes_match_same_len(found_hex(f, d, hv), f.hash@);
    }
    assert(!file_ok(f, d, hv));
}

proof fn lemma_scan_versions_all_missing(vers: Seq<VersionEntry>, d: AppDirs, hv: Seq<PathHashV>)
    requires
        forall|vi: int, fi: int|
            0 <= vi < vers.len() && 0 <= fi < vers[vi].files@.len() ==> found_hex(
                vers[vi].files@[fi],
                d,
                hv,
            ) == (Seq::<char>::empty()),
    ensures
        scan_versions(vers, d, hv) == (VScanV { detected: None, present: false, mismatch: false }),
    decreases vers.len(),
{
    if vers.len() > 0 {
        assert(forall|vi: int, fi: int|
            0 <= vi < vers.drop_last().len() && 0 <= fi < vers.drop_last()[vi].files@.len()
                ==> vers.drop_last()[vi] == vers[vi] && found_hex(
                vers.drop_last()[vi].files@[fi],
                d,
                hv,
            ) == Seq::<char>::empty());
        lemma_scan_versions_all_missing(vers.drop_last(), d, hv);
        let v = vers.last();
        if v.files@.len() > 0 {
            assert(vers[vers.len() - 1] == v);
            assert(found_hex(v.files@[0], d, hv) == Seq::<char>::empty());
            lemma_scan_files_first_missing(v.files@, d, hv);
        }
    }
}

/// When version `k` fully matches on disk and no newer version fully
/// matches, the item resolves to version `k`'s label: the newest match
/// wins, with no partial credit for file subsets.
pub proof fn lemma_newest_match_wins(item: CatalogItem, d: AppDirs, hv: Seq<PathHashV>, k: int)
    requires
        0 <= k < item.versions@.len(),
        version_matches(item.versions@[k], d, hv),
        forall|j: int|
            k < j < item.versions@.len() ==> !version_matches(item.versions@[j], d, hv),
    ensures
        detect_version(item, true, d, hv) == item.versions@[k].version@,
{
    lemma_scan_versions_first_match(item.versions@, d, hv, k);
}

proof fn lemma_scan_versions_first_match(
    vers: Seq<VersionEntry>,
    d: AppDirs,
    hv: Seq<PathHashV>,
    k: int,
)
    requires
        0 <= k < vers.len(),
        version_matches(vers[k], d, hv),
        forall|j: int| k < j < vers.len() ==> !version_matches(vers[j], d, hv),
    ensures
        scan_versions(vers, d, hv).detected == Some(vers[k].version@),
    decreases vers.len(),
{
    let n = vers.len() - 1;
    let v = vers.last();
    assert(v == vers[n]);
    if k == n {
        assert(v.files@.len() > 0 && scan_files(v.files@, d, hv).ok);
    } else {
        assert(!version_matches(vers[n], d, hv));
        assert(forall|j: int|
            k < j < vers.drop_last().len() ==> vers.drop_last()[j] == vers[j]
                && !version_matches(vers.drop_last()[j], d, hv));
        assert(vers.drop_last()[k] == vers[k]);
        lemma_scan_versions_first_match(vers.drop_last(), d, hv, k);
        if v.files@.len() > 0 {
            assert(!scan_files(v.files@, d, hv).ok);
        }
    }
}

/// When no version fully matches but some version's files are all present
/// on disk, the item resolves to the unknown sentinel: something of it is
/// installed, yet it matches no known version. (A present file standing
/// after a missing one in its version's list may go unscanned, so mere
/// presence somewhere is not enough: this law asks for a version whose
/// files are all present.)
pub proof fn lemma_present_unmatched_resolves_unknown(
    item: CatalogItem,
    d: AppDirs,
    hv: Seq<PathHashV>,
    vi: int,
)
    requires
        forall|j: int| 0 <= j < item.versions@.len() ==> !version_matches(item.versions@[j], d, hv),
        0 <= vi < item.versions@.len(),
        item.versions@[vi].files@.len() > 0,
        forall|fi: int|
            0 <= fi < item.versions@[vi].files@.len() ==> found_hex(
                #[trigger] item.versions@[vi].files@[fi],
                d,
                hv,
            ).len() > 0,
    ensures
        detect_version(item, true, d, hv) == "???"@,
{
    lemma_scan_files_present_fail(item.versions@[vi].files@, d, hv);
    lemma_scan_versions_collects(item.versions@, d, hv, vi);
    lemma_scan_versions_no_match(item.versions@, d, hv);
}

proof fn lemma_scan_files_present_fail(files: Seq<FileSpec>, d: AppDirs, hv: Seq<PathHashV>)
    requires
        files.len() > 0,
        forall|fi: int| 0 <= fi < files.len() ==> found_hex(#[trigger] files[fi], d, hv).len() > 0,
        !scan_files(files, d, hv).ok,
    ensures
        scan_files(files, d, hv).present,
    decreases files.len(),
{
    let f = files[0];
    if file_ok(f, d, hv) {
        assert(forall|fi: int|
            0 <= fi < files.skip(1).len() ==> files.skip(1)[fi] == files[fi + 1] && found_hex(
                #[trigger] files.skip(1)[fi],
                d,
                hv,
            ).len() > 0);
        if files.skip(1).len() == 0 {
            assert(scan_files(files.skip(1), d, hv).ok);
            assert(false);
        }
        lemma_scan_files_present_fail(files.skip(1), d, hv);
    }
}

proof fn lemma_scan_versions_no_match(vers: Seq<VersionEntry>, d: AppDirs, hv: Seq<PathHashV>)
    requires
        forall|j: int| 0 <= j < vers.len() ==> !version_matches(vers[j], d, hv),
    ensures
        scan_versions(vers, d, hv).detected is None,
    decreases vers.len(),
{
    if vers.len() > 0 {
        assert(vers[vers.len() - 1] == vers.last());
        assert(forall|j: int|
            0 <= j < vers.drop_last().len() ==> vers.drop_last()[j] == vers[j]
                && !version_matches(vers.drop_last()[j], d, hv));
        lemma_scan_versions_no_match(vers.drop_last(), d, hv);
    }
}

proof fn lemma_scan_versions_collects(
    vers: Seq<VersionEntry>,
    d: AppDirs,
    hv: Seq<PathHashV>,
    vi: int,
)
    requires
        forall|j: int| 0 <= j < vers.len() ==> !version_matches(vers[j], d, hv),
        0 <= vi < vers.len(),
        vers[vi].files@.len() > 0,
        scan_files(vers[vi].files@, d, hv).present,
    ensures
        scan_versions(vers, d, hv).present,
    decreases vers.len(),
{
    let n = vers.len() - 1;
    let v = vers.last();
    assert(v == vers[n]);
    if vi < n {
        assert(forall|j: int|
            0 <= j < vers.drop_last().len() ==> vers.drop_last()[j] == vers[j]
                && !version_matches(vers.drop_last()[j], d, hv));
        assert(vers.drop_last()[vi] == vers[vi]);
        lemma_scan_versions_collects(vers.drop_last(), d, hv, vi);
        if v.files@.len() > 0 {
            assert(!scan_files(v.files@, d, hv).ok);
        }
    } else {
        assert(!scan_files(v.files@, d, hv).ok);
    }
}

} // verus!
