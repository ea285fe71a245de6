use bsky_tsumeshogi_bot::scraper::{
    collect_everyday_links, extract_kif, extract_kif_from_scripts, extract_ogp, links_of_items,
    ogp_from_meta, MetaTag,
};

fn meta(p: Option<&str>, c: Option<&str>) -> MetaTag {
    MetaTag { property: p.map(String::from), content: c.map(String::from) }
}

#[test]
fn ogp_from_page_with_title_and_description() {
    let html = r#"<html><head>
        <meta property="og:title" content="Puzzle 1">
        <meta property="og:description" content="desc">
        <meta property="og:image" content="https://img.example/1.png">
        </head><body></body></html>"#;
    let ogp = extract_ogp(html).unwrap();
    assert_eq!(ogp.title, "Puzzle 1");
    assert_eq!(ogp.description, "desc");
    assert_eq!(ogp.image.as_deref(), Some("https://img.example/1.png"));
}

#[test]
fn ogp_without_image() {
    let html = r#"<html><head>
        <meta property="og:title" content="Puzzle 1">
        <meta property="og:description" content="desc">
        </head></html>"#;
    let ogp = extract_ogp(html).unwrap();
    assert_eq!(ogp.title, "Puzzle 1");
    assert!(ogp.image.is_none());
}

#[test]
fn ogp_absent_without_title_or_description() {
    let no_desc = r#"<meta property="og:title" content="T"><meta property="og:image" content="i">"#;
    assert!(extract_ogp(no_desc).is_none());
    let no_title = r#"<meta property="og:description" content="D"><meta property="og:type" content="x">"#;
    assert!(extract_ogp(no_title).is_none());
    assert!(extract_ogp("").is_none());
}

#[test]
fn ogp_later_meta_overrides_and_content_is_needed() {
    let tags = vec![
        meta(Some("og:title"), Some("first")),
        meta(Some("og:description"), Some("d")),
        meta(Some("og:title"), Some("second")),
        meta(Some("og:title"), None),
        meta(Some("title"), Some("plain")),
        meta(None, Some("none")),
    ];
    let ogp = ogp_from_meta(&tags).unwrap();
    assert_eq!(ogp.title, "second");
    assert_eq!(ogp.description, "d");
    assert!(ogp.image.is_none());
    assert!(ogp_from_meta(&vec![meta(Some("og:title"), Some("t")), meta(Some("og:description"), None)]).is_none());
}

#[test]
fn kif_link_from_first_matching_script() {
    let html = r#"<html><body>
        <script>var a = 1;</script>
        <script>load('https://www.shogi.or.jp/tsume_shogi/data/one.kif');</script>
        <script>load('https://www.shogi.or.jp/tsume_shogi/data/two.kif');</script>
        </body></html>"#;
    assert_eq!(
        extract_kif(html).as_deref(),
        Some("https://www.shogi.or.jp/tsume_shogi/data/one.kif")
    );
}

#[test]
fn kif_link_absent_when_no_script_matches() {
    let html = r#"<script>load("https://www.shogi.or.jp/tsume_shogi/data/one.kif");</script>
        <script>load('https://www.shogi.or.jp/tsume_shogi/data/a/b.kif');</script>
        <p>'https://www.shogi.or.jp/tsume_shogi/data/one.kif'</p>"#;
    assert!(extract_kif(html).is_none());
    assert!(extract_kif_from_scripts(&Vec::new()).is_none());
}

#[test]
fn kif_link_from_script_texts() {
    let scripts = vec![
        "x".to_string(),
        "f('https://www.shogi.or.jp/tsume_shogi/data/20240101.kif', 1)".to_string(),
    ];
    assert_eq!(
        extract_kif_from_scripts(&scripts).as_deref(),
        Some("https://www.shogi.or.jp/tsume_shogi/data/20240101.kif")
    );
}

#[test]
fn listing_links_in_document_order() {
    let html = r#"<html><body><div id="contents"><div>
        <ul>
          <li><a href="/p/1">one</a></li>
          <li>no link</li>
          <li><a name="x">no href</a></li>
          <li><a href="/p/2">two</a><a href="/p/3">three</a></li>
        </ul>
        <ul><li><a href="/q/1">other list</a></li></ul>
        </div></div></body></html>"#;
    assert_eq!(collect_everyday_links(html), vec!["/p/1", "/p/2"]);
}

#[test]
fn listing_without_list_is_empty() {
    let html = r#"<html><body><ul><li><a href="/p/1">x</a></li></ul></body></html>"#;
    assert!(collect_everyday_links(html).is_empty());
}

#[test]
fn links_of_items_skip_missing() {
    let items = vec![Some("a".to_string()), None, Some("b".to_string())];
    assert_eq!(links_of_items(&items), vec!["a", "b"]);
}

#[test]
fn other_meta_tags_leave_ogp_unchanged() {
    let base = r#"<meta property="og:title" content="Puzzle 1"><meta property="og:description" content="desc">"#;
    let more = r#"<meta property="og:url" content="u"><meta property="og:title" content="Puzzle 1">
        <meta property="og:type" content="article"><meta name="x" content="y">
        <meta property="og:description" content="desc"><meta property="og:site_name" content="s">"#;
    let a = extract_ogp(base).unwrap();
    let b = extract_ogp(more).unwrap();
    assert_eq!((a.title, a.description, a.image), (b.title, b.description, b.image));
    let only_desc = r#"<meta property="og:description" content="desc"><meta property="og:url" content="u">"#;
    assert!(extract_ogp(only_desc).is_none());
}
