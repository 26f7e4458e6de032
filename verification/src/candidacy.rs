//! The candidacy filter: decides from directory listings alone whether an
//! item can plausibly be installed, so that files are only hashed for
//! items that pass. For each declared file: a template under the host-app
//! root naming an executable matches when the host executable exists; a
//! template under the plugin or script directory matches when the path
//! segment right after the placeholder is a known subfolder (when further
//! segments follow) or a known file (when it is the last segment), both
//! compared ignoring ASCII case. One matching file anywhere makes the item
//! a candidate.
use vstd::prelude::*;

use crate::catalog::CatalogItem;
use crate::catalog::DirectorySnapshot;
use crate::catalog::FileSpec;
use crate::chars::chars_eq;
use crate::chars::contains_chars;
use crate::chars::copy_range;
use crate::chars::find_first;
use crate::chars::find_sub_idx;
use crate::chars::is_substring_of;
use crate::chars::lemma_find_sub_idx;
use crate::chars::lower_char;
use crate::chars::lower_chars;
use crate::chars::lower_seq;
use crate::chars::matches_at;
use crate::chars::str_to_chars;
use crate::paths::segs;
use crate::paths::split_segments;

verus! {

/// The names of a snapshot's folders.
pub open spec fn folders_v(s: DirectorySnapshot) -> Seq<Seq<char>> {
    s.folders@.map_values(|x: String| x@)
}

/// The names of a snapshot's files.
pub open spec fn files_v(s: DirectorySnapshot) -> Seq<Seq<char>> {
    s.files@.map_values(|x: String| x@)
}

/// Whether a name occurs in a list of names, ignoring ASCII case.
pub open spec fn ci_has(names: Seq<Seq<char>>, x: Seq<char>) -> bool {
    exists|k: int| 0 <= k < names.len() && lower_seq(names[k]) == lower_seq(x)
}

/// Case-insensitive membership of a name in a name list.
pub fn ci_contains(names: &Vec<String>, x: &Vec<char>) -> (r: bool)
    ensures
        r == ci_has(names@.map_values(|s: String| s@), x@),
{
    let ghost nv = names@.map_values(|s: String| s@);
    let lx = lower_chars(x);
    let mut k: usize = 0;
    while k < names.len()
        invariant
            k <= nv.len(),
            nv.len() == names@.len(),
            lx@ == lower_seq(x@),
            forall|m: int| 0 <= m < k ==> lower_seq(nv[m]) != lower_seq(x@),
        decreases nv.len() - k,
    {
        let cs = str_to_chars(names[k].as_str());
        let lc = lower_chars(&cs);
        if chars_eq(&lc, &lx) {
            assert(lower_seq(nv[k as int]) == lower_seq(x@));
            return true;
        }
        k = k + 1;
    }
    false
}

/// Whether a path names a host executable: it ends in a dot followed by
/// the executable extension, in any ASCII case.
pub open spec fn is_exe_name(s: Seq<char>) -> bool {
    &&& s.len() >= 4
    &&& s[s.len() - 4] == '.'
    &&& lower_char(s[s.len() - 3]) == 'e'
    &&& lower_char(s[s.len() - 2]) == 'x'
    &&& lower_char(s[s.len() - 1]) == 'e'
}

/// Executable test for the host-executable name shape.
pub fn is_exe_name_exec(v: &Vec<char>) -> (r: bool)
    ensures
        r == is_exe_name(v@),
{
    let n = v.len();
    if n < 4 {
        return false;
    }
    let l3 = crate::chars::lower_char_exec(v[n - 3]);
    let l2 = crate::chars::lower_char_exec(v[n - 2]);
    let l1 = crate::chars::lower_char_exec(v[n - 1]);
    v[n - 4] == '.' && l3 == 'e' && l2 == 'x' && l1 == 'e'
}

/// Whether a template path matches the snapshot behind one placeholder:
/// the path contains the placeholder, and the first segment after it is a
/// known subfolder when more segments follow, or a known file when it is
/// the last segment.
pub open spec fn placeholder_seg_match(
    raw: Seq<char>,
    key: Seq<char>,
    folders: Seq<Seq<char>>,
    files: Seq<Seq<char>>,
) -> bool {
    if !is_substring_of(key, raw) {
        false
    } else {
        let after = raw.skip(find_sub_idx(raw, key) + key.len() as int);
        let sg = segs(after);
        if sg.len() >= 2 {
            ci_has(folders, sg[0])
        } else if sg.len() == 1 {
            ci_has(files, sg[0])
        } else {
            false
        }
    }
}

/// Executable test of `placeholder_seg_match`.
pub fn placeholder_seg_match_exec(raw: &Vec<char>, key: &Vec<char>, snap: &DirectorySnapshot) -> (
    r: bool)
    ensures
        r == placeholder_seg_match(raw@, key@, folders_v(*snap), files_v(*snap)),
{
    match find_first(raw, key) {
        None => false,
        Some(i) => {
            proof {
                lemma_find_sub_idx(raw@, key@);
                assert(is_substring_of(key@, raw@));
                if (i as int) < find_sub_idx(raw@, key@) {
                    assert(!matches_at(raw@, i as int, key@));
                }
                assert(i as int == find_sub_idx(raw@, key@));
            }
            let n = raw.len();
            assert(i + key@.len() <= n);
            let start = i + key.len();
            let after = copy_range(raw, start, n);
            assert(after@ =~= raw@.skip(find_sub_idx(raw@, key@) + key@.len() as int));
            let sg = split_segments(&after);
            let ghost sgv = segs(after@);
            if sg.len() >= 2 {
                assert(sgv[0] == sg@.map_values(|t: Vec<char>| t@)[0]);
                ci_contains(&snap.folders, &sg[0])
            } else if sg.len() == 1 {
                assert(sgv[0] == sg@.map_values(|t: Vec<char>| t@)[0]);
                ci_contains(&snap.files, &sg[0])
            } else {
                false
            }
        },
    }
}

/// Whether one declared file makes its item a candidate.
pub open spec fn file_candidate(
    f: FileSpec,
    host_exe_present: bool,
    plugins: DirectorySnapshot,
    scripts: DirectorySnapshot,
) -> bool {
    let raw = f.path@;
    ||| (is_substring_of("{appDir}"@, raw) && is_exe_name(raw) && host_exe_present)
    ||| placeholder_seg_match(raw, "{pluginsDir}"@, folders_v(plugins), files_v(plugins))
    ||| placeholder_seg_match(raw, "{scriptsDir}"@, folders_v(scripts), files_v(scripts))
}

/// Executable test of `file_candidate`.
pub fn file_candidate_exec(
    f: &FileSpec,
    host_exe_present: bool,
    plugins: &DirectorySnapshot,
    scripts: &DirectorySnapshot,
) -> (r: bool)
    ensures
        r == file_candidate(*f, host_exe_present, *plugins, *scripts),
{
    let raw = str_to_chars(f.path.as_str());
    let app_key = str_to_chars("{appDir}");
    if contains_chars(&raw, &app_key) && is_exe_name_exec(&raw) && host_exe_present {
        return true;
    }
    let plugins_key = str_to_chars("{pluginsDir}");
    if placeholder_seg_match_exec(&raw, &plugins_key, plugins) {
        return true;
    }
    let scripts_key = str_to_chars("{scriptsDir}");
    if placeholder_seg_match_exec(&raw, &scripts_key, scripts) {
        return true;
    }
    false
}

/// Whether any declared file of any version makes the item a candidate.
pub open spec fn item_candidate(
    item: CatalogItem,
    host_exe_present: bool,
    plugins: DirectorySnapshot,
    scripts: DirectorySnapshot,
) -> bool {
    exists|vi: int, fi: int|
        0 <= vi < item.versions@.len() && 0 <= fi < item.versions@[vi].files@.len()
            && file_candidate(item.versions@[vi].files@[fi], host_exe_present, plugins, scripts)
}

/// Decides whether an item is plausibly installed at all, from the
/// directory snapshots and the presence of the host executable. Items
/// that fail are reported as not installed without hashing anything.
pub fn item_is_candidate(
    item: &CatalogItem,
    host_exe_present: bool,
    plugins: &DirectorySnapshot,
    scripts: &DirectorySnapshot,
) -> (r: bool)
    ensures
        r == item_candidate(*item, host_exe_present, *plugins, *scripts),
{
    let mut vi: usize = 0;
    while vi < item.versions.len()
        invariant
            vi <= item.versions@.len(),
            forall|v: int, f: int|
                0 <= v < vi && 0 <= f < item.versions@[v].files@.len() ==> !file_candidate(
                    item.versions@[v].files@[f],
                    host_exe_present,
                    *plugins,
                    *scripts,
                ),
        decreases item.versions@.len() - vi,
    {
        let ver = &item.versions[vi];
        let mut fi: usize = 0;
        while fi < ver.files.len()
            invariant
                vi < item.versions@.len(),
                fi <= ver.files@.len(),
                ver == item.versions@[vi as int],
                forall|f: int|
                    0 <= f < fi ==> !file_candidate(
                        ver.files@[f],
                        host_exe_present,
                        *plugins,
                        *scripts,
                    ),
            decreases ver.files@.len() - fi,
        {
            if file_candidate_exec(&ver.files[fi], host_exe_present, plugins, scripts) {
                assert(file_candidate(
                    item.versions@[vi as int].files@[fi as int],
                    host_exe_present,
                    *plugins,
                    *scripts,
                ));
                return true;
            }
            fi = fi + 1;
        }
        vi = vi + 1;
    }
    false
}

/// The candidacy of every item of the catalog, in order.
pub fn candidacy(
    items: &Vec<CatalogItem>,
    host_exe_present: bool,
    plugins: &DirectorySnapshot,
    scripts: &DirectorySnapshot,
) -> (r: Vec<bool>)
    ensures
        r@.len() == items@.len(),
        forall|i: int|
            0 <= i < items@.len() ==> r@[i] == item_candidate(
                items@[i],
                host_exe_present,
                *plugins,
                *scripts,
            ),
{
    let mut r: Vec<bool> = Vec::new();
    let mut i: usize = 0;
    while i < items.len()
        invariant
            i <= items@.len(),
            r@.len() == i,
            forall|k: int|
                0 <= k < i ==> r@[k] == item_candidate(
                    items@[k],
                    host_exe_present,
                    *plugins,
                    *scripts,
                ),
        decreases items@.len() - i,
    {
        let c = item_is_candidate(&items[i], host_exe_present, plugins, scripts);
        r.push(c);
        i = i + 1;
    }
    r
}

} // verus!
