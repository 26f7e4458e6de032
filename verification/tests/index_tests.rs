use aviutl2_catalog::catalog::CatalogItem;
use aviutl2_catalog::catalog::VersionEntry;
use aviutl2_catalog::index::parse_updated_at;
use aviutl2_catalog::index::query_catalog_index;
use aviutl2_catalog::index::set_catalog_index;
use aviutl2_catalog::index::CatalogIndex;

fn item(id: &str, name: &str) -> CatalogItem {
    CatalogItem {
        id: id.to_string(),
        name: name.to_string(),
        author: String::new(),
        summary: String::new(),
        item_type: String::new(),
        tags: Vec::new(),
        versions: Vec::new(),
    }
}

fn dated_item(id: &str, name: &str, release_date: &str) -> CatalogItem {
    let mut it = item(id, name);
    it.versions.push(VersionEntry {
        version: String::from("1"),
        files: Vec::new(),
        release_date: release_date.to_string(),
    });
    it
}

fn empty_index() -> CatalogIndex {
    CatalogIndex { items: Vec::new() }
}

fn query(
    ix: &CatalogIndex,
    q: Option<&str>,
    tags: Option<Vec<&str>>,
    types: Option<Vec<&str>>,
    sort: Option<&str>,
    dir: Option<&str>,
) -> Vec<String> {
    query_catalog_index(
        ix,
        &q.map(|s| s.to_string()),
        &tags.map(|v| v.iter().map(|s| s.to_string()).collect()),
        &types.map(|v| v.iter().map(|s| s.to_string()).collect()),
        &sort.map(|s| s.to_string()),
        &dir.map(|s| s.to_string()),
    )
}

#[test]
fn katakana_query_matches_hiragana_name_only() {
    let mut ix = empty_index();
    let items = vec![item("a", "Blur"), item("b", "ぶらー")];
    assert_eq!(set_catalog_index(&mut ix, &items), 2);
    let r = query(&ix, Some("ブラー"), None, None, None, None);
    assert_eq!(r, vec![String::from("b")]);
}

#[test]
fn items_with_empty_id_are_dropped_at_ingest() {
    let mut ix = empty_index();
    let items = vec![item("", "ghost"), item("a", "real")];
    assert_eq!(set_catalog_index(&mut ix, &items), 1);
    let r = query(&ix, None, None, None, None, None);
    assert_eq!(r, vec![String::from("a")]);
}

#[test]
fn every_term_must_match_some_field() {
    let mut ix = empty_index();
    let mut it = item("a", "Motion Blur");
    it.author = String::from("Alice");
    let items = vec![it, item("b", "Sharpen")];
    set_catalog_index(&mut ix, &items);
    assert_eq!(query(&ix, Some("motion alice"), None, None, None, None), vec![
        String::from("a")
    ]);
    assert!(query(&ix, Some("motion bob"), None, None, None, None).is_empty());
    assert_eq!(query(&ix, Some("  "), None, None, None, None).len(), 2);
}

#[test]
fn tag_filter_matches_any_requested_tag() {
    let mut ix = empty_index();
    let mut a = item("a", "one");
    a.tags = vec![String::from("video")];
    let mut b = item("b", "two");
    b.tags = vec![String::from("audio")];
    set_catalog_index(&mut ix, &vec![a, b]);
    assert_eq!(query(&ix, None, Some(vec!["video"]), None, Some("name"), None), vec![
        String::from("a")
    ]);
    assert_eq!(
        query(&ix, None, Some(vec!["video", "audio"]), None, Some("name"), None).len(),
        2
    );
    assert!(query(&ix, None, Some(vec!["image"]), None, None, None).is_empty());
}

#[test]
fn type_filter_matches_any_requested_type() {
    let mut ix = empty_index();
    let mut a = item("a", "one");
    a.item_type = String::from("plugin");
    let mut b = item("b", "two");
    b.item_type = String::from("script");
    set_catalog_index(&mut ix, &vec![a, b]);
    assert_eq!(query(&ix, None, None, Some(vec!["script"]), None, None), vec![
        String::from("b")
    ]);
}

#[test]
fn name_sort_defaults_ascending_and_reverses_on_desc() {
    let mut ix = empty_index();
    set_catalog_index(&mut ix, &vec![item("b", "bravo"), item("a", "alpha")]);
    assert_eq!(query(&ix, None, None, None, Some("name"), None), vec![
        String::from("a"),
        String::from("b")
    ]);
    assert_eq!(query(&ix, None, None, None, Some("name"), Some("desc")), vec![
        String::from("b"),
        String::from("a")
    ]);
}

#[test]
fn newest_sort_places_dated_before_undated() {
    let mut ix = empty_index();
    let items = vec![item("undated", "u"), dated_item("dated", "d", "2024-01-02")];
    set_catalog_index(&mut ix, &items);
    // the default sort is by recency, descending
    let r = query(&ix, None, None, None, None, None);
    assert_eq!(r, vec![String::from("dated"), String::from("undated")]);
    let r2 = query(&ix, None, None, None, Some("newest"), Some("asc"));
    assert_eq!(r2, vec![String::from("undated"), String::from("dated")]);
}

#[test]
fn newest_sort_orders_by_release_date() {
    let mut ix = empty_index();
    let items = vec![
        dated_item("older", "x", "2023-05-01"),
        dated_item("newer", "y", "2024-01-02"),
    ];
    set_catalog_index(&mut ix, &items);
    let r = query(&ix, None, None, None, None, None);
    assert_eq!(r, vec![String::from("newer"), String::from("older")]);
}

#[test]
fn parse_updated_at_reads_the_newest_version() {
    let it = dated_item("a", "x", "2024-01-02");
    assert_eq!(parse_updated_at(&it), Some(1_704_153_600_000));
    let slashed = dated_item("a", "x", "2024/01/02");
    assert_eq!(parse_updated_at(&slashed), Some(1_704_153_600_000));
    let epoch = dated_item("a", "x", "1970-01-01");
    assert_eq!(parse_updated_at(&epoch), Some(0));
}

#[test]
fn parse_updated_at_rejects_bad_dates() {
    assert_eq!(parse_updated_at(&dated_item("a", "x", "")), None);
    assert_eq!(parse_updated_at(&dated_item("a", "x", "2024-01")), None);
    assert_eq!(parse_updated_at(&dated_item("a", "x", "2024-13-01")), None);
    assert_eq!(parse_updated_at(&dated_item("a", "x", "2023-02-29")), None);
    assert_eq!(parse_updated_at(&dated_item("a", "x", "not-a-date")), None);
    assert_eq!(parse_updated_at(&item("a", "x")), None);
}

#[test]
fn parse_updated_at_accepts_leap_day() {
    assert!(parse_updated_at(&dated_item("a", "x", "2024-02-29")).is_some());
}

#[test]
fn rebuild_replaces_the_index_wholesale() {
    let mut ix = empty_index();
    set_catalog_index(&mut ix, &vec![item("a", "one"), item("b", "two")]);
    assert_eq!(set_catalog_index(&mut ix, &vec![item("c", "three")]), 1);
    let r = query(&ix, None, None, None, None, None);
    assert_eq!(r, vec![String::from("c")]);
}
