use aviutl2_catalog::paths::dirs;
use aviutl2_catalog::paths::expand_macros;
use aviutl2_catalog::paths::expand_path;
use aviutl2_catalog::paths::join_path;
use aviutl2_catalog::paths::AppDirs;
use aviutl2_catalog::paths::Settings;

fn test_dirs() -> AppDirs {
    AppDirs {
        aviutl2_root: String::from("C:\\AviUtl2"),
        aviutl2_data: String::from("C:\\ProgramData\\aviutl2"),
        plugin_dir: String::from("C:\\ProgramData\\aviutl2\\Plugin"),
        script_dir: String::from("C:\\ProgramData\\aviutl2\\Script"),
        catalog_exe_dir: String::from("C:\\Tools\\catalog"),
        catalog_config_dir: String::from("C:\\Users\\me\\AppData\\catalog"),
        log_path: String::from("C:\\Users\\me\\AppData\\catalog\\logs\\app.log"),
    }
}

#[test]
fn expand_replaces_each_placeholder() {
    let d = test_dirs();
    assert_eq!(
        expand_macros("{pluginsDir}/foo.auf", &d),
        "C:\\ProgramData\\aviutl2\\Plugin/foo.auf"
    );
    assert_eq!(expand_macros("{appDir}\\aviutl2.exe", &d), "C:\\AviUtl2\\aviutl2.exe");
    assert_eq!(
        expand_macros("{scriptsDir}/s/{dataDir}", &d),
        "C:\\ProgramData\\aviutl2\\Script/s/C:\\ProgramData\\aviutl2"
    );
}

#[test]
fn expand_leaves_unknown_placeholders() {
    let d = test_dirs();
    assert_eq!(expand_macros("{otherDir}/x", &d), "{otherDir}/x");
    assert_eq!(expand_macros("plain", &d), "plain");
}

#[test]
fn expand_path_canonicalizes_separators() {
    let d = test_dirs();
    assert_eq!(
        expand_path("{pluginsDir}/foo.auf", &d),
        "C:\\ProgramData\\aviutl2\\Plugin\\foo.auf"
    );
}

#[test]
fn join_uses_backslash() {
    assert_eq!(join_path("C:\\base", "child"), "C:\\base\\child");
}

#[test]
fn dirs_standard_mode_uses_machine_data_dir() {
    let s = Settings {
        aviutl2_root: String::from("C:\\AviUtl2"),
        is_portable_mode: false,
        thema: String::new(),
        app_version: String::new(),
        catalog_exe_path: String::new(),
    };
    let d = dirs(&s, "C:\\ProgramData", "C:\\exe", "C:\\cfg");
    assert_eq!(d.aviutl2_root, "C:\\AviUtl2");
    assert_eq!(d.aviutl2_data, "C:\\ProgramData\\aviutl2");
    assert_eq!(d.plugin_dir, "C:\\ProgramData\\aviutl2\\Plugin");
    assert_eq!(d.script_dir, "C:\\ProgramData\\aviutl2\\Script");
    assert_eq!(d.catalog_exe_dir, "C:\\exe");
    assert_eq!(d.catalog_config_dir, "C:\\cfg");
    assert_eq!(d.log_path, "C:\\cfg\\logs\\app.log");
}

#[test]
fn dirs_portable_mode_uses_root_data_dir() {
    let s = Settings {
        aviutl2_root: String::from("D:\\portable\\AviUtl2"),
        is_portable_mode: true,
        thema: String::new(),
        app_version: String::new(),
        catalog_exe_path: String::new(),
    };
    let d = dirs(&s, "C:\\ProgramData", "", "");
    assert_eq!(d.aviutl2_data, "D:\\portable\\AviUtl2\\data");
    assert_eq!(d.plugin_dir, "D:\\portable\\AviUtl2\\data\\Plugin");
}
