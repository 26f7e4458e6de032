//! Path handling: absolute-path detection, `{placeholder}` template
//! expansion, separator canonicalization, path segmentation, and the
//! derivation of the application's directory set from its settings.
use vstd::prelude::*;

use crate::chars::chars_to_string;
use crate::chars::check_match_at;
use crate::chars::push_all;
use crate::chars::str_to_chars;

verus! {

/// Whether a path string is absolute: it starts with a separator, or has a
/// drive letter followed by a colon and a separator.
pub open spec fn is_abs_seq(s: Seq<char>) -> bool {
    ||| (s.len() >= 1 && (s[0] == '/' || s[0] == '\\'))
    ||| (s.len() >= 3 && s[1] == ':' && (s[2] == '/' || s[2] == '\\'))
}

/// Decides whether a path is absolute (a rooted path or a drive-letter
/// path).
pub fn is_abs(p: &str) -> (r: bool)
    ensures
        r == is_abs_seq(p@),
{
    let cs = str_to_chars(p);
    if cs.len() >= 1 && (cs[0] == '/' || cs[0] == '\\') {
        return true;
    }
    if cs.len() >= 3 && cs[1] == ':' && (cs[2] == '/' || cs[2] == '\\') {
        return true;
    }
    false
}

/// Replaces every non-overlapping occurrence of `k` in `s` with `v`,
/// scanning left to right. An empty `k` leaves `s` unchanged.
pub open spec fn replace_seq(s: Seq<char>, k: Seq<char>, v: Seq<char>) -> Seq<char>
    decreases s.len(),
{
    if k.len() == 0 {
        s
    } else if s.len() < k.len() {
        s
    } else if s.take(k.len() as int) == k {
        v + replace_seq(s.skip(k.len() as int), k, v)
    } else {
        seq![s[0]] + replace_seq(s.skip(1), k, v)
    }
}

/// Replaces every occurrence of `k` in `s` with `v`.
pub fn replace_all(s: &Vec<char>, k: &Vec<char>, v: &Vec<char>) -> (out: Vec<char>)
    ensures
        out@ == replace_seq(s@, k@, v@),
{
    let mut out: Vec<char> = Vec::new();
    if k.len() == 0 {
        push_all(&mut out, s);
        return out;
    }
    let mut i: usize = 0;
    assert(s@.skip(0) =~= s@);
    while i < s.len()
        invariant
            i <= s@.len(),
            replace_seq(s@, k@, v@) == out@ + replace_seq(s@.skip(i as int), k@, v@),
        decreases s@.len() - i,
    {
        let ghost rem = s@.skip(i as int);
        if k.len() <= s.len() - i && check_match_at(s, i, k) {
            proof {
                assert(rem.take(k@.len() as int) =~= s@.subrange(i as int, i + k@.len()));
                assert(rem.skip(k@.len() as int) =~= s@.skip(i + k@.len()));
            }
            push_all(&mut out, v);
            i = i + k.len();
        } else {
            proof {
                if k@.len() <= rem.len() {
                    assert(rem.take(k@.len() as int) =~= s@.subrange(i as int, i + k@.len()));
                    assert(rem.take(k@.len() as int) != k@);
                    assert(rem.skip(1) =~= s@.skip(i + 1));
                    assert(rem[0] == s@[i as int]);
                } else {
                    assert(replace_seq(rem, k@, v@) == rem);
                    assert(replace_seq(s@.skip(i + 1), k@, v@) == s@.skip(i + 1));
                    assert(rem =~= seq![s@[i as int]] + s@.skip(i + 1));
                }
            }
            out.push(s[i]);
            i = i + 1;
        }
    }
    assert(s@.skip(s@.len() as int) =~= Seq::<char>::empty());
    out
}

/// Canonicalizes path separators: every forward slash becomes a backslash.
pub open spec fn canon_seq(s: Seq<char>) -> Seq<char> {
    s.map_values(
        |c: char|
            if c == '/' {
                '\\'
            } else {
                c
            },
    )
}

/// Rewrites all forward slashes of a path to backslashes, the canonical
/// separator used for every comparison.
pub fn to_backslashes(v: &Vec<char>) -> (r: Vec<char>)
    ensures
        r@ == canon_seq(v@),
{
    let mut r: Vec<char> = Vec::new();
    let mut i: usize = 0;
    while i < v.len()
        invariant
            i <= v@.len(),
            r@ == canon_seq(v@.take(i as int)),
        decreases v@.len() - i,
    {
        if v[i] == '/' {
            r.push('\\');
        } else {
            r.push(v[i]);
        }
        i = i + 1;
        assert(r@ =~= canon_seq(v@.take(i as int)));
    }
    assert(v@.take(v@.len() as int) =~= v@);
    r
}

/// The directory set used to expand path templates. All fields are plain
/// strings; the caller decides how they are obtained.
pub struct AppDirs {
    /// Root directory of the host application.
    pub aviutl2_root: String,
    /// Data directory of the host application.
    pub aviutl2_data: String,
    /// Plugin directory, under the data directory.
    pub plugin_dir: String,
    /// Script directory, under the data directory.
    pub script_dir: String,
    /// Directory holding this catalog application's executable.
    pub catalog_exe_dir: String,
    /// Directory holding this catalog application's configuration.
    pub catalog_config_dir: String,
    /// Path of the application log file.
    pub log_path: String,
}

/// The persisted settings this crate reads.
pub struct Settings {
    /// Root directory of the host application.
    pub aviutl2_root: String,
    /// Whether the host application runs in portable mode.
    pub is_portable_mode: bool,
    /// Interface theme name.
    pub thema: String,
    /// Version of the catalog application that wrote the settings.
    pub app_version: String,
    /// Path of the catalog application's executable.
    pub catalog_exe_path: String,
}

/// Expansion of the path templates: each `{placeholder}` is replaced by the
/// matching directory, in a fixed order.
pub open spec fn expand_seq(raw: Seq<char>, d: AppDirs) -> Seq<char> {
    replace_seq(
        replace_seq(
            replace_seq(
                replace_seq(raw, "{appDir}"@, d.aviutl2_root@),
                "{pluginsDir}"@,
                d.plugin_dir@,
            ),
            "{scriptsDir}"@,
            d.script_dir@,
        ),
        "{dataDir}"@,
        d.aviutl2_data@,
    )
}

/// Expands the `{appDir}`, `{pluginsDir}`, `{scriptsDir}` and `{dataDir}`
/// placeholders of a template path. Unknown placeholders stay as they are.
pub fn expand_macros(raw: &str, dirs: &AppDirs) -> (r: String)
    ensures
        r@ == expand_seq(raw@, *dirs),
{
    let cs = str_to_chars(raw);
    let k1 = str_to_chars("{appDir}");
    let v1 = str_to_chars(dirs.aviutl2_root.as_str());
    let s1 = replace_all(&cs, &k1, &v1);
    let k2 = str_to_chars("{pluginsDir}");
    let v2 = str_to_chars(dirs.plugin_dir.as_str());
    let s2 = replace_all(&s1, &k2, &v2);
    let k3 = str_to_chars("{scriptsDir}");
    let v3 = str_to_chars(dirs.script_dir.as_str());
    let s3 = replace_all(&s2, &k3, &v3);
    let k4 = str_to_chars("{dataDir}");
    let v4 = str_to_chars(dirs.aviutl2_data.as_str());
    let s4 = replace_all(&s3, &k4, &v4);
    chars_to_string(&s4)
}

/// The expansion of a template with separators canonicalized: the form
/// under which paths are collected, hashed and compared.
pub open spec fn expanded_path(raw: Seq<char>, d: AppDirs) -> Seq<char> {
    canon_seq(expand_seq(raw, d))
}

/// Expands a template and canonicalizes its separators.
pub fn expand_path(raw: &str, dirs: &AppDirs) -> (r: String)
    ensures
        r@ == expanded_path(raw@, *dirs),
{
    let e = expand_macros(raw, dirs);
    let cs = str_to_chars(e.as_str());
    let b = to_backslashes(&cs);
    chars_to_string(&b)
}

/// Whether a character separates path segments.
pub open spec fn is_sep_char(c: char) -> bool {
    c == '/' || c == '\\'
}

pub open spec fn seg_close(cur: Seq<char>) -> Seq<Seq<char>> {
    if cur.len() > 0 {
        seq![cur]
    } else {
        Seq::empty()
    }
}

pub open spec fn segs_rec(s: Seq<char>, cur: Seq<char>) -> Seq<Seq<char>>
    decreases s.len(),
{
    if s.len() == 0 {
        seg_close(cur)
    } else if is_sep_char(s[0]) {
        seg_close(cur) + segs_rec(s.skip(1), Seq::empty())
    } else {
        segs_rec(s.skip(1), cur.push(s[0]))
    }
}

/// The non-empty segments of a path, in order: maximal runs of
/// non-separator characters.
pub open spec fn segs(s: Seq<char>) -> Seq<Seq<char>> {
    segs_rec(s, Seq::empty())
}

/// Splits a path into its non-empty segments.
pub fn split_segments(v: &Vec<char>) -> (r: Vec<Vec<char>>)
    ensures
        r@.map_values(|t: Vec<char>| t@) == segs(v@),
{
    let mut r: Vec<Vec<char>> = Vec::new();
    let mut cur: Vec<char> = Vec::new();
    let mut i: usize = 0;
    assert(v@.skip(0) =~= v@);
    while i < v.len()
        invariant
            i <= v@.len(),
            segs(v@) == r@.map_values(|t: Vec<char>| t@) + segs_rec(v@.skip(i as int), cur@),
        decreases v@.len() - i,
    {
        let ghost rem = v@.skip(i as int);
        let c = v[i];
        proof {
            assert(rem[0] == v@[i as int]);
            assert(rem.skip(1) =~= v@.skip(i + 1));
        }
        if c == '/' || c == '\\' {
            proof {
                assert(segs_rec(rem, cur@) == seg_close(cur@) + segs_rec(
                    v@.skip(i + 1),
                    Seq::empty(),
                ));
            }
            let ghost r_old = r@;
            let ghost cur_old = cur@;
            if cur.len() > 0 {
                r.push(cur);
                cur = Vec::new();
                proof {
                    assert(r@.map_values(|t: Vec<char>| t@) =~= r_old.map_values(
                        |t: Vec<char>| t@,
                    ) + seg_close(cur_old));
                }
            } else {
                proof {
                    assert(cur@ =~= Seq::<char>::empty());
                    assert(seg_close(cur_old) =~= Seq::<Seq<char>>::empty());
                }
            }
            proof {
                assert(cur@ =~= Seq::<char>::empty());
                assert(r_old.map_values(|t: Vec<char>| t@) + (seg_close(cur_old) + segs_rec(
                    v@.skip(i + 1),
                    Seq::empty(),
                )) =~= r@.map_values(|t: Vec<char>| t@) + segs_rec(v@.skip(i + 1), cur@));
            }
        } else {
            cur.push(c);
        }
        i = i + 1;
    }
    assert(v@.skip(v@.len() as int) =~= Seq::<char>::empty());
    let ghost r_old = r@;
    let ghost cur_old = cur@;
    if cur.len() > 0 {
        r.push(cur);
        proof {
            assert(r@.map_values(|t: Vec<char>| t@) =~= r_old.map_values(|t: Vec<char>| t@)
                + seg_close(cur_old));
        }
    } else {
        proof {
            assert(seg_close(cur_old) =~= Seq::<Seq<char>>::empty());
            assert(r_old.map_values(|t: Vec<char>| t@) + seg_close(cur_old) =~= r_old.map_values(
                |t: Vec<char>| t@,
            ));
        }
    }
    assert(r@.map_values(|t: Vec<char>| t@) =~= segs(v@));
    r
}

/// Joins a directory and a child name with the canonical separator.
pub fn join_path(base: &str, name: &str) -> (r: String)
    ensures
        r@ == base@ + seq!['\\'] + name@,
{
    let mut out = str_to_chars(base);
    out.push('\\');
    let n = str_to_chars(name);
    push_all(&mut out, &n);
    assert(out@ =~= base@ + seq!['\\'] + name@);
    chars_to_string(&out)
}

/// Derives the directory set from the settings and the caller-supplied
/// anchors: the host data directory lives under the root in portable mode
/// and under the machine-wide data directory otherwise; the plugin and
/// script directories live under the data directory.
pub fn dirs(settings: &Settings, program_data: &str, catalog_exe_dir: &str, catalog_config_dir:
    &str) -> (d: AppDirs)
    ensures
        d.aviutl2_root@ == settings.aviutl2_root@,
        d.aviutl2_data@ == if settings.is_portable_mode {
            settings.aviutl2_root@ + seq!['\\'] + "data"@
        } else {
            program_data@ + seq!['\\'] + "aviutl2"@
        },
        d.plugin_dir@ == d.aviutl2_data@ + seq!['\\'] + "Plugin"@,
        d.script_dir@ == d.aviutl2_data@ + seq!['\\'] + "Script"@,
        d.catalog_exe_dir@ == catalog_exe_dir@,
        d.catalog_config_dir@ == catalog_config_dir@,
        d.log_path@ == catalog_config_dir@ + seq!['\\'] + "logs"@ + seq!['\\'] + "app.log"@,
{
    let aviutl2_data = if settings.is_portable_mode {
        join_path(settings.aviutl2_root.as_str(), "data")
    } else {
        join_path(program_data, "aviutl2")
    };
    let plugin_dir = join_path(aviutl2_data.as_str(), "Plugin");
    let script_dir = join_path(aviutl2_data.as_str(), "Script");
    let logs_dir = join_path(catalog_config_dir, "logs");
    let log_path = join_path(logs_dir.as_str(), "app.log");
    assert(log_path@ =~= catalog_config_dir@ + seq!['\\'] + "logs"@ + seq!['\\'] + "app.log"@);
    AppDirs {
        aviutl2_root: settings.aviutl2_root.clone(),
        aviutl2_data,
        plugin_dir,
        script_dir,
        catalog_exe_dir: String::from_str(catalog_exe_dir),
        catalog_config_dir: String::from_str(catalog_config_dir),
        log_path,
    }
}

} // verus!
