use bsky_tsumeshogi_bot::bsky::{seen_links, PostRecord};
use bsky_tsumeshogi_bot::plan::{
    image_alt, is_seen, plan_embed, plan_post, post_text, recent_links, select_candidates,
    EmbedPlan,
};
use bsky_tsumeshogi_bot::scraper::{extract_kif, extract_ogp, Ogp};

fn strings(v: &[&str]) -> Vec<String> {
    v.iter().map(|s| s.to_string()).collect()
}

fn ogp(image: Option<&str>) -> Ogp {
    Ogp {
        title: "Puzzle 1".to_string(),
        description: "desc".to_string(),
        image: image.map(String::from),
    }
}

#[test]
fn seen_link_is_skipped_and_order_is_last_first() {
    let feed = vec![PostRecord { external_uri: Some("B".to_string()), facets: None }];
    let seen = seen_links(&feed);
    let links = strings(&["A", "B", "C", "D"]);
    assert_eq!(select_candidates(&links, &seen), vec!["D", "C"]);
}

#[test]
fn candidates_of_short_and_empty_listings() {
    assert_eq!(select_candidates(&strings(&["A", "B"]), &Vec::new()), vec!["B", "A"]);
    assert!(select_candidates(&Vec::new(), &strings(&["A"])).is_empty());
    assert!(select_candidates(&strings(&["A", "B", "C"]), &strings(&["C", "B", "A"])).is_empty());
}

#[test]
fn page_without_image_or_diagram_gets_plain_link_card() {
    let html = r#"<html><head>
        <meta property="og:title" content="Puzzle 1">
        <meta property="og:description" content="desc">
        </head><body><script>var x = 'https://example.com/a.kif';</script></body></html>"#;
    let page = extract_ogp(html).unwrap();
    let kif = extract_kif(html);
    assert!(kif.is_none());
    let plan = plan_post("https://example.com/p/1", &page, kif);
    assert_eq!(plan.text, "Puzzle 1\nhttps://example.com/p/1");
    assert!(matches!(plan.embed, EmbedPlan::External { thumb_url: None }));
    let f = plan.facets.unwrap();
    assert_eq!((f[0].byte_start, f[0].byte_end), (9, 32));
}

#[test]
fn embed_is_diagram_when_notation_is_referenced() {
    match plan_embed(&ogp(Some("https://img/x.png")), Some("https://k/x.kif".to_string())) {
        EmbedPlan::Image { kif_url } => assert_eq!(kif_url, "https://k/x.kif"),
        _ => panic!("expected an image embed"),
    }
    match plan_embed(&ogp(Some("https://img/x.png")), None) {
        EmbedPlan::External { thumb_url } => {
            assert_eq!(thumb_url.as_deref(), Some("https://img/x.png"))
        }
        _ => panic!("expected a link card"),
    }
}

#[test]
fn text_and_alt_formats() {
    assert_eq!(post_text(&ogp(None), "L"), "Puzzle 1\nL");
    assert_eq!(image_alt("9/9/9 b - 1"), "sfen 9/9/9 b - 1");
}

#[test]
fn facet_of_post_points_at_first_occurrence_of_link() {
    let page = Ogp { title: "see L".to_string(), description: String::new(), image: None };
    let plan = plan_post("L", &page, None);
    let f = plan.facets.unwrap();
    assert_eq!((f[0].byte_start, f[0].byte_end), (4, 5));
}

#[test]
fn recent_links_are_last_three_last_first() {
    assert_eq!(recent_links(&strings(&["A", "B", "C", "D"])), vec!["D", "C", "B"]);
    assert_eq!(recent_links(&strings(&["A"])), vec!["A"]);
    assert!(recent_links(&Vec::new()).is_empty());
}

#[test]
fn is_seen_compares_whole_links() {
    let seen = strings(&["https://a/1", "https://a/2"]);
    assert!(is_seen(&seen, &"https://a/2".to_string()));
    assert!(!is_seen(&seen, &"https://a/".to_string()));
    assert!(!is_seen(&Vec::new(), &"x".to_string()));
}
