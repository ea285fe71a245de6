//! Reading a puzzle listing and a puzzle page: their links, their Open Graph
//! metadata and the puzzle-notation file that a page's scripts refer to.

use regex::Regex;
use select::document::Document;
use select::predicate::{Attr, Name, Predicate};
use vstd::prelude::*;

verus! {

/// The Open Graph metadata of a puzzle page.
pub struct Ogp {
    pub title: String,
    pub description: String,
    pub image: Option<String>,
}

/// The `property` and `content` attributes of one `<meta>` element.
pub struct MetaTag {
    pub property: Option<String>,
    pub content: Option<String>,
}

/// The view of an optional string.
pub open spec fn opt_str(o: Option<String>) -> Option<Seq<char>> {
    match o {
        Some(s) => Some(s@),
        None => None,
    }
}

/// The views of a sequence of optional strings.
pub open spec fn opt_strs(v: Seq<Option<String>>) -> Seq<Option<Seq<char>>> {
    v.map_values(|o: Option<String>| opt_str(o))
}

/// The views of a sequence of strings.
pub open spec fn str_views(v: Seq<String>) -> Seq<Seq<char>> {
    v.map_values(|s: String| s@)
}

/// The views of a sequence of meta elements.
pub open spec fn meta_views(v: Seq<MetaTag>) -> Seq<(Option<Seq<char>>, Option<Seq<char>>)> {
    v.map_values(|m: MetaTag| (opt_str(m.property), opt_str(m.content)))
}

/// The most characters an HTML text may have for the parser to take it: the
/// parser holds a text of at most `u32::MAX` bytes, and a character takes at
/// most four bytes of UTF-8.
pub const MAX_HTML_CHARS: usize = 0x3fff_ffff;

/// The `(property, content)` attributes of the `<meta>` elements of an HTML
/// document, in document order.
pub uninterp spec fn html_meta_tags(html: Seq<char>) -> Seq<(Option<Seq<char>>, Option<Seq<char>>)>;

/// The text of each `<script>` element of an HTML document, in document order.
pub uninterp spec fn html_script_texts(html: Seq<char>) -> Seq<Seq<char>>;

/// In the first `<ul>` inside the element with id `contents`, if there is one:
/// for each `<li>` below it, the `href` of its first `<a>`, if any.
pub uninterp spec fn html_list_hrefs(html: Seq<char>) -> Option<Seq<Option<Seq<char>>>>;

/// The first capture group of the first match of a regular expression in a
/// text; none where the pattern does not compile or does not match.
pub uninterp spec fn regex_first_group(pattern: Seq<char>, text: Seq<char>) -> Option<Seq<char>>;

/// Relies on select's `Document::from` and `find(Name("meta"))` with
/// `Node::attr`: the meta elements of the parsed document, in document order.
/// The parser's buffer panics above `u32::MAX` bytes, hence the bound.
#[verifier::external_body]
fn meta_tags(html: &str) -> (r: Vec<MetaTag>)
    requires
        html@.len() <= MAX_HTML_CHARS,
    ensures
        meta_views(r@) == html_meta_tags(html@),
{
    let doc = Document::from(html);
    let mut tags = Vec::new();
    for m in doc.find(Name("meta")) {
        let property = m.attr("property").map(String::from);
        tags.push(MetaTag { property, content: m.attr("content").map(String::from) });
    }
    tags
}

/// Relies on select's `Document::from`, `find(Name("script"))` and
/// `Node::text`: the text of each script element, in document order.
/// The parser's buffer panics above `u32::MAX` bytes, hence the bound.
#[verifier::external_body]
fn script_texts(html: &str) -> (r: Vec<String>)
    requires
        html@.len() <= MAX_HTML_CHARS,
    ensures
        str_views(r@) == html_script_texts(html@),
{
    let doc = Document::from(html);
    doc.find(Name("script")).map(|s| s.text()).collect()
}

/// Relies on select's `Document::from` and `find` with the predicates
/// `Attr("id", "contents").descendant(Name("ul"))`, `Name("li")` and
/// `Name("a")`, and on `Node::attr`: the hrefs of the listing's items.
/// The parser's buffer panics above `u32::MAX` bytes, hence the bound.
#[verifier::external_body]
fn list_item_hrefs(html: &str) -> (r: Option<Vec<Option<String>>>)
    requires
        html@.len() <= MAX_HTML_CHARS,
    ensures
        match r {
            Some(v) => html_list_hrefs(html@) == Some(opt_strs(v@)),
            None => html_list_hrefs(html@) is None,
        },
{
    let doc = Document::from(html);
    let list = doc.find(Attr("id", "contents").descendant(Name("ul"))).next()?;
    let mut hrefs = Vec::new();
    for li in list.find(Name("li")) {
        let link = li.find(Name("a")).next();
        hrefs.push(link.and_then(|a| a.attr("href")).map(String::from));
    }
    Some(hrefs)
}

/// Relies on regex's `Regex::new` and `Regex::captures`: the text of the
/// first group of the first match.
#[verifier::external_body]
fn first_group(pattern: &str, text: &str) -> (r: Option<String>)
    ensures
        opt_str(r) == regex_first_group(pattern@, text@),
{
    let re = Regex::new(pattern).ok()?;
    re.captures(text).and_then(|c| c.get(1)).map(|m| m.as_str().to_string())
}

/// Whether two strings hold the same characters.
fn same_chars(a: &str, b: &str) -> (r: bool)
    ensures
        r == (a@ == b@),
{
    let n: usize = a.unicode_len();
    if n != b.unicode_len() {
        return false;
    }
    let mut i: usize = 0;
    while i < n
        invariant
            n == a@.len(),
            n == b@.len(),
            i <= n,
            forall|k: int| 0 <= k < i ==> a@[k] == b@[k],
        decreases n - i,
    {
        if a.get_char(i) != b.get_char(i) {
            return false;
        }
        i += 1;
    }
    assert(a@ =~= b@);
    true
}

/// The content of the last meta element whose property is `property` and
/// that has a content; a later element overrides an earlier one.
pub open spec fn meta_value(
    tags: Seq<(Option<Seq<char>>, Option<Seq<char>>)>,
    property: Seq<char>,
) -> Option<Seq<char>>
    decreases tags.len(),
{
    if tags.len() == 0 {
        None
    } else if tags.last().0 == Some(property) && tags.last().1 is Some {
        tags.last().1
    } else {
        meta_value(tags.drop_last(), property)
    }
}

/// The Open Graph metadata that meta elements give: present exactly when both
/// `og:title` and `og:description` have a value.
pub open spec fn ogp_of(tags: Seq<(Option<Seq<char>>, Option<Seq<char>>)>) -> Option<
    (Seq<char>, Seq<char>, Option<Seq<char>>),
> {
    match (meta_value(tags, "og:title"@), meta_value(tags, "og:description"@)) {
        (Some(t), Some(d)) => Some((t, d, meta_value(tags, "og:image"@))),
        _ => None,
    }
}

/// The view of optional Open Graph metadata.
pub open spec fn ogp_view(o: Option<Ogp>) -> Option<(Seq<char>, Seq<char>, Option<Seq<char>>)> {
    match o {
        Some(g) => Some((g.title@, g.description@, opt_str(g.image))),
        None => None,
    }
}

/// The value that the meta elements give to one property.
fn find_meta_value(tags: &Vec<MetaTag>, property: &str) -> (r: Option<String>)
    ensures
        opt_str(r) == meta_value(meta_views(tags@), property@),
{
    let mut r: Option<String> = None;
    let mut i: usize = 0;
    while i < tags.len()
        invariant
            i <= tags.len(),
            opt_str(r) == meta_value(meta_views(tags@.take(i as int)), property@),
        decreases tags.len() - i,
    {
        let ghost prev = meta_views(tags@.take(i as int));
        assert(meta_views(tags@.take(i + 1)) =~= prev.push(
            (opt_str(tags@[i as int].property), opt_str(tags@[i as int].content)),
        ));
        assert(meta_views(tags@.take(i + 1)).drop_last() =~= prev);
        match (&tags[i].property, &tags[i].content) {
            (Some(p), Some(c)) => {
                if same_chars(p.as_str(), property) {
                    r = Some(c.clone());
                }
            },
            _ => {},
        }
        i += 1;
    }
    assert(tags@.take(tags.len() as int) =~= tags@);
    r
}

/// The Open Graph metadata of a page from its meta elements: none unless both
/// `og:title` and `og:description` have a value, whatever other `og:`
/// properties are there.
pub fn ogp_from_meta(tags: &Vec<MetaTag>) -> (r: Option<Ogp>)
    ensures
        ogp_view(r) == ogp_of(meta_views(tags@)),
{
    let title = find_meta_value(tags, "og:title");
    let description = find_meta_value(tags, "og:description");
    match (title, description) {
        (Some(title), Some(description)) => {
            let image = find_meta_value(tags, "og:image");
            Some(Ogp { title, description, image })
        },
        _ => None,
    }
}

/// The Open Graph metadata of an HTML page.
pub fn extract_ogp(html: &str) -> (r: Option<Ogp>)
    requires
        html@.len() <= MAX_HTML_CHARS,
    ensures
        ogp_view(r) == ogp_of(html_meta_tags(html@)),
{
    let tags = meta_tags(html);
    ogp_from_meta(&tags)
}

/// The pattern of a reference to a puzzle-notation file inside a script; its
/// first group is the file's URL.
pub const KIF_LINK_PATTERN: &'static str = "'(https://www\\.shogi\\.or\\.jp/tsume_shogi/data/[^/]+\\.kif)'";

/// The first capture of `pattern` over the texts, trying them in order.
pub open spec fn first_capture(pattern: Seq<char>, texts: Seq<Seq<char>>) -> Option<Seq<char>>
    decreases texts.len(),
{
    if texts.len() == 0 {
        None
    } else {
        match regex_first_group(pattern, texts[0]) {
            Some(m) => Some(m),
            None => first_capture(pattern, texts.drop_first()),
        }
    }
}

/// The first puzzle-notation URL that the scripts refer to, trying them in
/// order; none when no script matches.
pub fn extract_kif_from_scripts(scripts: &Vec<String>) -> (r: Option<String>)
    ensures
        opt_str(r) == first_capture(KIF_LINK_PATTERN@, str_views(scripts@)),
{
    let mut i: usize = 0;
    assert(str_views(scripts@).skip(0) =~= str_views(scripts@));
    while i < scripts.len()
        invariant
            i <= scripts.len(),
            first_capture(KIF_LINK_PATTERN@, str_views(scripts@)) == first_capture(
                KIF_LINK_PATTERN@,
                str_views(scripts@).skip(i as int),
            ),
        decreases scripts.len() - i,
    {
        let ghost rest = str_views(scripts@).skip(i as int);
        assert(rest.drop_first() =~= str_views(scripts@).skip(i + 1));
        assert(rest[0] == scripts@[i as int]@);
        let found = first_group(KIF_LINK_PATTERN, scripts[i].as_str());
        if found.is_some() {
            return found;
        }
        i += 1;
    }
    assert(str_views(scripts@).skip(i as int).len() == 0);
    None
}

/// The puzzle-notation URL that an HTML page's scripts refer to first.
pub fn extract_kif(html: &str) -> (r: Option<String>)
    requires
        html@.len() <= MAX_HTML_CHARS,
    ensures
        opt_str(r) == first_capture(KIF_LINK_PATTERN@, html_script_texts(html@)),
{
    let scripts = script_texts(html);
    extract_kif_from_scripts(&scripts)
}

/// The links of the listing's items that have one, in order.
pub open spec fn present_links(items: Seq<Option<Seq<char>>>) -> Seq<Seq<char>>
    decreases items.len(),
{
    if items.len() == 0 {
        seq![]
    } else {
        let rest = present_links(items.drop_last());
        match items.last() {
            Some(l) => rest.push(l),
            None => rest,
        }
    }
}

/// The links of the listing's items that have one, in order.
pub fn links_of_items(items: &Vec<Option<String>>) -> (r: Vec<String>)
    ensures
        str_views(r@) == present_links(opt_strs(items@)),
{
    let mut r: Vec<String> = Vec::new();
    let mut i: usize = 0;
    while i < items.len()
        invariant
            i <= items.len(),
            str_views(r@) == present_links(opt_strs(items@.take(i as int))),
        decreases items.len() - i,
    {
        let ghost before = r@;
        assert(opt_strs(items@.take(i + 1)).drop_last() =~= opt_strs(items@.take(i as int)));
        assert(opt_strs(items@.take(i + 1)).last() == opt_str(items@[i as int]));
        match &items[i] {
            Some(l) => {
                r.push(l.clone());
                assert(str_views(r@) =~= str_views(before).push(l@));
            },
            None => {},
        }
        i += 1;
    }
    assert(items@.take(items.len() as int) =~= items@);
    r
}

/// The puzzle links of the listing page, in document order; none when the
/// page has no list where the links stand.
pub fn collect_everyday_links(html: &str) -> (r: Vec<String>)
    requires
        html@.len() <= MAX_HTML_CHARS,
    ensures
        str_views(r@) == match html_list_hrefs(html@) {
            Some(items) => present_links(items),
            None => seq![],
        },
{
    match list_item_hrefs(html) {
        Some(items) => links_of_items(&items),
        None => {
            let r: Vec<String> = Vec::new();
            assert(str_views(r@) =~= seq![]);
            r
        },
    }
}

/// Open Graph metadata is absent exactly when `og:title` or `og:description`
/// has no value, whatever other `og:` properties the page has.
pub proof fn lemma_ogp_requires_title_and_description(
    tags: Seq<(Option<Seq<char>>, Option<Seq<char>>)>,
)
    ensures
        ogp_of(tags) is None <==> (meta_value(tags, "og:title"@) is None || meta_value(
            tags,
            "og:description"@,
        ) is None),
{
}

/// The capture over several texts is the capture of the first text in which
/// the pattern matches, and is absent exactly when it matches in none.
pub proof fn lemma_first_capture_is_first_match(pattern: Seq<char>, texts: Seq<Seq<char>>)
    ensures
        first_capture(pattern, texts) is None <==> forall|i: int|
            0 <= i < texts.len() ==> (#[trigger] regex_first_group(pattern, texts[i])) is None,
        first_capture(pattern, texts) matches Some(m) ==> exists|i: int|
            0 <= i < texts.len() && regex_first_group(pattern, texts[i]) == Some(m) && forall|
                j: int,
            | 0 <= j < i ==> (#[trigger] regex_first_group(pattern, texts[j])) is None,
    decreases texts.len(),
{
    if texts.len() > 0 {
        let rest = texts.drop_first();
        lemma_first_capture_is_first_match(pattern, rest);
        assert forall|i: int| 0 <= i < rest.len() implies rest[i] == texts[i + 1] by {}
        if regex_first_group(pattern, texts[0]) is None {
            assert forall|i: int|
                0 <= i < texts.len() && (forall|k: int|
                    0 <= k < rest.len() ==> (#[trigger] regex_first_group(pattern, rest[k])) is None)
                implies (#[trigger] regex_first_group(pattern, texts[i])) is None by {
                if i > 0 {
                    assert(texts[i] == rest[i - 1]);
                }
            }
            if first_capture(pattern, texts) is None {
                assert forall|k: int| 0 <= k < rest.len() implies (#[trigger] regex_first_group(
                    pattern,
                    rest[k],
                )) is None by {
                    assert(rest[k] == texts[k + 1]);
                }
            }
            if let Some(m) = first_capture(pattern, texts) {
                let i = choose|i: int|
                    0 <= i < rest.len() && regex_first_group(pattern, rest[i]) == Some(m) && forall|
                        j: int,
                    | 0 <= j < i ==> (#[trigger] regex_first_group(pattern, rest[j])) is None;
                assert(texts[i + 1] == rest[i]);
                assert forall|j: int| 0 <= j < i + 1 implies (#[trigger] regex_first_group(
                    pattern,
                    texts[j],
                )) is None by {
                    if j > 0 {
                        assert(texts[j] == rest[j - 1]);
                    }
                }
            }
        }
    }
}

/// A meta element whose property is none of `og:title`, `og:description` and
/// `og:image`, or that is not an `og:` property at all, changes nothing of the
/// Open Graph metadata, wherever it stands among the others.
pub proof fn lemma_other_meta_tags_ignored(
    tags: Seq<(Option<Seq<char>>, Option<Seq<char>>)>,
    i: int,
    t: (Option<Seq<char>>, Option<Seq<char>>),
)
    requires
        0 <= i <= tags.len(),
        t.0 != Some("og:title"@),
        t.0 != Some("og:description"@),
        t.0 != Some("og:image"@),
    ensures
        ogp_of(tags.insert(i, t)) == ogp_of(tags),
{
    lemma_meta_value_insert(tags, i, t, "og:title"@);
    lemma_meta_value_insert(tags, i, t, "og:description"@);
    lemma_meta_value_insert(tags, i, t, "og:image"@);
}

/// A meta element of another property leaves the value of `property` as it is.
proof fn lemma_meta_value_insert(
    tags: Seq<(Option<Seq<char>>, Option<Seq<char>>)>,
    i: int,
    t: (Option<Seq<char>>, Option<Seq<char>>),
    property: Seq<char>,
)
    requires
        0 <= i <= tags.len(),
        t.0 != Some(property),
    ensures
        meta_value(tags.insert(i, t), property) == meta_value(tags, property),
    decreases tags.len(),
{
    let ins = tags.insert(i, t);
    if i == tags.len() {
        assert(ins.drop_last() =~= tags);
        assert(ins.last() == t);
    } else {
        lemma_meta_value_insert(tags.drop_last(), i, t, property);
        assert(ins.drop_last() =~= tags.drop_last().insert(i, t));
        assert(ins.last() == tags.last());
    }
}

} // verus!
