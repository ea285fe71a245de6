//! Links referenced by earlier posts, and the link annotation of a new post.

use crate::scraper::str_views;
use vstd::prelude::*;
use vstd::utf8::encode_utf8;

verus! {

/// One feature of a rich-text annotation of a post.
pub enum FacetFeature {
    /// A link to the given URI.
    Link(String),
    /// Any other feature (a mention, a tag).
    Other,
}

/// A rich-text annotation: the features attached to a span of the text.
pub struct Facet {
    pub features: Vec<FacetFeature>,
}

/// What the deduplication reads from an earlier post.
pub struct PostRecord {
    /// The URI of the post's external-link embed, if it has one.
    pub external_uri: Option<String>,
    /// The post's rich-text annotations, if any.
    pub facets: Option<Vec<Facet>>,
}

/// The link URIs among the features, in order.
pub open spec fn feature_links(fs: Seq<FacetFeature>) -> Seq<Seq<char>>
    decreases fs.len(),
{
    if fs.len() == 0 {
        seq![]
    } else {
        let rest = feature_links(fs.drop_last());
        match fs.last() {
            FacetFeature::Link(u) => rest.push(u@),
            FacetFeature::Other => rest,
        }
    }
}

/// The link URIs of all features of all annotations, in order.
pub open spec fn facet_links(fs: Seq<Facet>) -> Seq<Seq<char>>
    decreases fs.len(),
{
    if fs.len() == 0 {
        seq![]
    } else {
        facet_links(fs.drop_last()) + feature_links(fs.last().features@)
    }
}

impl PostRecord {
    /// The links a post references: its external embed, then its link features.
    pub open spec fn uris(&self) -> Seq<Seq<char>> {
        let ext = match self.external_uri {
            Some(u) => seq![u@],
            None => seq![],
        };
        let fac = match self.facets {
            Some(fs) => facet_links(fs@),
            None => seq![],
        };
        ext + fac
    }
}

/// The links referenced by every post of a feed, post after post.
pub open spec fn feed_links(feed: Seq<PostRecord>) -> Seq<Seq<char>>
    decreases feed.len(),
{
    if feed.len() == 0 {
        seq![]
    } else {
        feed_links(feed.drop_last()) + feed.last().uris()
    }
}

fn push_feature_links(out: &mut Vec<String>, fs: &Vec<FacetFeature>)
    ensures
        str_views(final(out)@) == str_views(old(out)@) + feature_links(fs@),
{
    let mut i: usize = 0;
    while i < fs.len()
        invariant
            i <= fs.len(),
            str_views(out@) == str_views(old(out)@) + feature_links(fs@.take(i as int)),
        decreases fs.len() - i,
    {
        let ghost before = out@;
        assert(fs@.take(i + 1).drop_last() =~= fs@.take(i as int));
        assert(fs@.take(i + 1).last() == fs@[i as int]);
        match &fs[i] {
            FacetFeature::Link(u) => {
                out.push(u.clone());
                assert(str_views(out@) =~= str_views(before).push(u@));
            },
            FacetFeature::Other => {},
        }
        i += 1;
    }
    assert(fs@.take(fs.len() as int) =~= fs@);
}

fn push_uris(out: &mut Vec<String>, post: &PostRecord)
    ensures
        str_views(final(out)@) == str_views(old(out)@) + post.uris(),
{
    match &post.external_uri {
        Some(u) => {
            out.push(u.clone());
        },
        None => {},
    }
    assert(str_views(out@) =~= str_views(old(out)@) + post.uris().take(
        if post.external_uri is Some { 1 } else { 0 },
    ));
    let ghost mid = out@;
    match &post.facets {
        Some(fs) => {
            let mut i: usize = 0;
            while i < fs.len()
                invariant
                    i <= fs.len(),
                    post.facets == Some(*fs),
                    str_views(out@) == str_views(mid) + facet_links(fs@.take(i as int)),
                decreases fs.len() - i,
            {
                assert(fs@.take(i + 1).drop_last() =~= fs@.take(i as int));
                push_feature_links(out, &fs[i].features);
                i += 1;
                assert(str_views(out@) =~= str_views(mid) + facet_links(fs@.take(i as int)));
            }
            assert(fs@.take(fs.len() as int) =~= fs@);
        },
        None => {},
    }
    assert(str_views(out@) =~= str_views(old(out)@) + post.uris());
}

/// The links that one earlier post references: the URI of its external-link
/// embed, if any, then the URI of each link feature of its annotations.
pub fn collect_uris(post: &PostRecord) -> (r: Vec<String>)
    ensures
        str_views(r@) == post.uris(),
{
    let mut r: Vec<String> = Vec::new();
    push_uris(&mut r, post);
    assert(str_views(r@) =~= post.uris());
    r
}

/// The links already referenced by the posts of a feed.
pub fn seen_links(feed: &Vec<PostRecord>) -> (r: Vec<String>)
    ensures
        str_views(r@) == feed_links(feed@),
{
    let mut r: Vec<String> = Vec::new();
    let mut i: usize = 0;
    while i < feed.len()
        invariant
            i <= feed.len(),
            str_views(r@) == feed_links(feed@.take(i as int)),
        decreases feed.len() - i,
    {
        assert(feed@.take(i + 1).drop_last() =~= feed@.take(i as int));
        push_uris(&mut r, &feed[i]);
        i += 1;
    }
    assert(feed@.take(feed.len() as int) =~= feed@);
    r
}

/// Every link of the feed comes from one of its posts, and every link of each
/// post is in what the feed yields: the seen links are exactly the union of the
/// links of each post.
pub proof fn lemma_feed_links_union(feed: Seq<PostRecord>, u: Seq<char>)
    ensures
        feed_links(feed).contains(u) <==> exists|i: int|
            0 <= i < feed.len() && (#[trigger] feed[i]).uris().contains(u),
    decreases feed.len(),
{
    if feed.len() > 0 {
        let init = feed.drop_last();
        lemma_feed_links_union(init, u);
        let a = feed_links(init);
        let b = feed.last().uris();
        assert(feed_links(feed) == a + b);
        if (a + b).contains(u) {
            let k = choose|k: int| 0 <= k < (a + b).len() && (a + b)[k] == u;
            if k < a.len() {
                assert(a[k] == u);
                let i = choose|i: int| 0 <= i < init.len() && (#[trigger] init[i]).uris().contains(u);
                assert(feed[i] == init[i]);
            } else {
                assert(b[k - a.len()] == u);
                assert(feed[feed.len() - 1].uris().contains(u));
            }
        }
        if exists|i: int| 0 <= i < feed.len() && (#[trigger] feed[i]).uris().contains(u) {
            let i = choose|i: int| 0 <= i < feed.len() && (#[trigger] feed[i]).uris().contains(u);
            if i < feed.len() - 1 {
                assert(init[i] == feed[i]);
                assert(a.contains(u));
                let k = choose|k: int| 0 <= k < a.len() && a[k] == u;
                assert((a + b)[k] == u);
            } else {
                let k = choose|k: int| 0 <= k < b.len() && b[k] == u;
                assert((a + b)[a.len() + k] == u);
            }
        }
    }
}

/// Whether `pat` occurs in `hay` at byte offset `i`.
pub open spec fn occurs_at(hay: Seq<u8>, pat: Seq<u8>, i: int) -> bool {
    0 <= i && i + pat.len() <= hay.len() && hay.subrange(i, i + pat.len()) == pat
}

/// Whether `i` is the offset of the first occurrence of `pat` in `hay`.
pub open spec fn first_occurrence(hay: Seq<u8>, pat: Seq<u8>, i: int) -> bool {
    occurs_at(hay, pat, i) && forall|j: int| 0 <= j < i ==> !occurs_at(hay, pat, j)
}

/// The offset of the first occurrence of `pat` in `hay`, if it occurs.
fn find_bytes(hay: &[u8], pat: &[u8]) -> (r: Option<usize>)
    ensures
        match r {
            Some(i) => first_occurrence(hay@, pat@, i as int),
            None => forall|j: int| !occurs_at(hay@, pat@, j),
        },
{
    if pat.len() > hay.len() {
        return None;
    }
    let last: usize = hay.len() - pat.len();
    let mut i: usize = 0;
    while i <= last
        invariant
            last == hay.len() - pat.len(),
            i <= last + 1,
            forall|j: int| 0 <= j < i ==> !occurs_at(hay@, pat@, j),
        decreases last + 1 - i,
    {
        let mut k: usize = 0;
        while k < pat.len() && hay[i + k] == pat[k]
            invariant
                k <= pat.len(),
                i <= last,
                last == hay.len() - pat.len(),
                forall|m: int| 0 <= m < k ==> hay@[i + m] == pat@[m],
            decreases pat.len() - k,
        {
            k += 1;
        }
        if k == pat.len() {
            assert(hay@.subrange(i as int, i + pat.len()) =~= pat@);
            return Some(i);
        }
        assert(hay@.subrange(i as int, i + pat.len())[k as int] != pat@[k as int]);
        i += 1;
    }
    None
}

/// A link annotation: the bytes `[byte_start, byte_end)` of the text link to `uri`.
pub struct LinkFacet {
    pub byte_start: usize,
    pub byte_end: usize,
    pub uri: String,
}

/// The link annotation of a post: one facet over the first occurrence of the
/// URI in the text, measured in bytes of its UTF-8 encoding; none when the URI
/// does not occur in the text.
pub fn create_facets(text: String, uri: String) -> (r: Option<Vec<LinkFacet>>)
    ensures
        r is Some <==> exists|i: int| occurs_at(encode_utf8(text@), encode_utf8(uri@), i),
        r matches Some(v) ==> {
            &&& v.len() == 1
            &&& first_occurrence(encode_utf8(text@), encode_utf8(uri@), v[0].byte_start as int)
            &&& v[0].byte_end == v[0].byte_start + encode_utf8(uri@).len()
            &&& v[0].uri@ == uri@
        },
{
    let tb = text.as_str().as_bytes();
    let ub = uri.as_str().as_bytes();
    let tl: usize = tb.len();
    let found = find_bytes(tb, ub);
    match found {
        Some(pos) => {
            assert(pos + ub@.len() <= tl);
            let end: usize = pos + ub.len();
            let mut v: Vec<LinkFacet> = Vec::new();
            v.push(LinkFacet { byte_start: pos, byte_end: end, uri });
            Some(v)
        },
        None => None,
    }
}

} // verus!
