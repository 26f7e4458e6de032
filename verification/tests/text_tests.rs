use aviutl2_catalog::paths::is_abs;
use aviutl2_catalog::text::normalize;
use aviutl2_catalog::text::sanitize_filename;

#[test]
fn normalize_fullwidth_ascii_to_lower() {
    assert_eq!(normalize("\u{FF21}"), "a");
    assert_eq!(normalize("\u{FF41}"), "a");
    assert_eq!(normalize("\u{FF01}"), "!");
}

#[test]
fn normalize_katakana_to_hiragana() {
    assert_eq!(normalize("\u{30A2}"), "\u{3042}");
    assert_eq!(normalize("ブラー"), "ぶらー");
}

#[test]
fn normalize_trims_and_maps_ideographic_space() {
    assert_eq!(normalize("  Hello World  "), "hello world");
    assert_eq!(normalize("\u{3000}abc\u{3000}"), "abc");
    assert_eq!(normalize("a\u{3000}b"), "a b");
}

#[test]
fn normalize_is_idempotent_on_samples() {
    let samples = [
        "  Ｈｅｌｌｏ　Ｗｏｒｌｄ  ",
        "ブラー効果",
        "MIXED ＡＳＣＩＩ and カタカナ",
        "",
        "\u{3000}\u{3000}",
        "already lower",
    ];
    for s in samples {
        let once = normalize(s);
        let twice = normalize(&once);
        assert_eq!(once, twice);
    }
}

#[test]
fn normalize_passes_other_characters_through() {
    assert_eq!(normalize("漢字"), "漢字");
    assert_eq!(normalize("ABCdef123"), "abcdef123");
}

#[test]
fn sanitize_replaces_reserved_characters() {
    assert_eq!(sanitize_filename("a/b\\c:d*e?f\"g<h>i|j"), "a_b_c_d_e_f_g_h_i_j");
}

#[test]
fn sanitize_trims_and_falls_back() {
    assert_eq!(sanitize_filename("  name.txt  "), "name.txt");
    assert_eq!(sanitize_filename("   "), "download.bin");
    assert_eq!(sanitize_filename(""), "download.bin");
    assert_eq!(sanitize_filename("///"), "___");
}

#[test]
fn is_abs_recognizes_rooted_and_drive_paths() {
    assert!(is_abs("/usr/lib"));
    assert!(is_abs("\\share\\x"));
    assert!(is_abs("C:/Program Files"));
    assert!(is_abs("c:\\ProgramData"));
    assert!(!is_abs("relative/path"));
    assert!(!is_abs("x"));
    assert!(!is_abs(""));
}
