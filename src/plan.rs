//! The decisions of a run: which listed puzzles to announce, and the post that
//! announces one.

use crate::bsky::{create_facets, LinkFacet, occurs_at, first_occurrence};
use crate::scraper::{opt_str, str_views, Ogp};
use vstd::prelude::*;
use vstd::string::StringExecFns;
use vstd::utf8::{encode_scalar, encode_utf8};

verus! {

/// How many of the listed puzzles a run considers.
pub const RECENT_LINKS: usize = 3;

/// The last `RECENT_LINKS` links of the listing, last one first.
pub open spec fn recent_reversed(links: Seq<Seq<char>>) -> Seq<Seq<char>> {
    let k = if links.len() < RECENT_LINKS { links.len() } else { RECENT_LINKS as nat };
    Seq::new(k, |i: int| links[links.len() - 1 - i])
}

/// The links, in order, without those already seen.
pub open spec fn keep_unseen(links: Seq<Seq<char>>, seen: Seq<Seq<char>>) -> Seq<Seq<char>>
    decreases links.len(),
{
    if links.len() == 0 {
        seq![]
    } else {
        let rest = keep_unseen(links.drop_last(), seen);
        if seen.contains(links.last()) {
            rest
        } else {
            rest.push(links.last())
        }
    }
}

/// The links a run announces, in the order it announces them.
pub open spec fn candidates(links: Seq<Seq<char>>, seen: Seq<Seq<char>>) -> Seq<Seq<char>> {
    keep_unseen(recent_reversed(links), seen)
}

/// Whether a link is among the seen ones.
pub fn is_seen(seen: &Vec<String>, link: &String) -> (r: bool)
    ensures
        r == str_views(seen@).contains(link@),
{
    let mut i: usize = 0;
    while i < seen.len()
        invariant
            i <= seen.len(),
            forall|k: int| 0 <= k < i ==> seen@[k]@ != link@,
        decreases seen.len() - i,
    {
        if seen[i] == *link {
            assert(str_views(seen@)[i as int] == link@);
            return true;
        }
        i += 1;
    }
    assert forall|k: int| 0 <= k < str_views(seen@).len() implies str_views(seen@)[k] != link@ by {
        assert(str_views(seen@)[k] == seen@[k]@);
    }
    false
}

/// The links a run considers: the last `RECENT_LINKS` of the listing, last
/// one first.
pub fn recent_links(links: &Vec<String>) -> (r: Vec<String>)
    ensures
        str_views(r@) == recent_reversed(str_views(links@)),
{
    let n: usize = links.len();
    let k: usize = if n < RECENT_LINKS { n } else { RECENT_LINKS };
    let ghost recent = recent_reversed(str_views(links@));
    let mut r: Vec<String> = Vec::new();
    let mut i: usize = 0;
    while i < k
        invariant
            n == links.len(),
            k == recent.len(),
            i <= k,
            recent == recent_reversed(str_views(links@)),
            str_views(r@) == recent.take(i as int),
        decreases k - i,
    {
        let ghost before = r@;
        assert(recent[i as int] == links@[n - 1 - i]@);
        r.push(links[n - 1 - i].clone());
        assert(str_views(r@) =~= str_views(before).push(links@[n - 1 - i]@));
        i += 1;
        assert(str_views(r@) =~= recent.take(i as int));
    }
    assert(recent.take(k as int) =~= recent);
    r
}

/// The links to announce: the last `RECENT_LINKS` of the listing, last one
/// first, without those that earlier posts already reference.
pub fn select_candidates(links: &Vec<String>, seen: &Vec<String>) -> (r: Vec<String>)
    ensures
        str_views(r@) == candidates(str_views(links@), str_views(seen@)),
{
    let n: usize = links.len();
    let k: usize = if n < RECENT_LINKS { n } else { RECENT_LINKS };
    let ghost recent = recent_reversed(str_views(links@));
    let mut r: Vec<String> = Vec::new();
    let mut i: usize = 0;
    while i < k
        invariant
            n == links.len(),
            k == recent.len(),
            i <= k,
            recent == recent_reversed(str_views(links@)),
            str_views(r@) == keep_unseen(recent.take(i as int), str_views(seen@)),
        decreases k - i,
    {
        let ghost before = r@;
        assert(recent.take(i + 1).drop_last() =~= recent.take(i as int));
        assert(recent.take(i + 1).last() == links@[n - 1 - i]@);
        let link = &links[n - 1 - i];
        if !is_seen(seen, link) {
            r.push(link.clone());
            assert(str_views(r@) =~= str_views(before).push(link@));
        }
        i += 1;
    }
    assert(recent.take(k as int) =~= recent);
    r
}

/// What keep_unseen keeps is never among the seen links, and every link it
/// drops is.
pub proof fn lemma_keep_unseen(links: Seq<Seq<char>>, seen: Seq<Seq<char>>, l: Seq<char>)
    ensures
        keep_unseen(links, seen).contains(l) <==> (links.contains(l) && !seen.contains(l)),
    decreases links.len(),
{
    if links.len() > 0 {
        let init = links.drop_last();
        lemma_keep_unseen(init, seen, l);
        assert(links =~= init.push(links.last()));
        let rest = keep_unseen(init, seen);
        if links.contains(l) && l != links.last() {
            let k = choose|k: int| 0 <= k < links.len() && links[k] == l;
            assert(init[k] == l);
        }
        if init.contains(l) {
            let k = choose|k: int| 0 <= k < init.len() && init[k] == l;
            assert(links[k] == l);
        }
        if !seen.contains(links.last()) {
            assert(rest.push(links.last())[rest.len() as int] == links.last());
            if rest.push(links.last()).contains(l) && l != links.last() {
                let k = choose|k: int| 0 <= k < rest.len() + 1 && rest.push(links.last())[k] == l;
                assert(rest[k] == l);
            }
            if rest.contains(l) {
                let k = choose|k: int| 0 <= k < rest.len() && rest[k] == l;
                assert(rest.push(links.last())[k] == l);
            }
        }
        assert(links[links.len() - 1] == links.last());
    }
}

/// A link that earlier posts already reference is never announced, and a
/// link among the last `RECENT_LINKS` of the listing that none references is.
pub proof fn lemma_seen_links_never_announced(
    links: Seq<Seq<char>>,
    seen: Seq<Seq<char>>,
    l: Seq<char>,
)
    ensures
        seen.contains(l) ==> !candidates(links, seen).contains(l),
        candidates(links, seen).contains(l) <==> (recent_reversed(links).contains(l)
            && !seen.contains(l)),
{
    lemma_keep_unseen(recent_reversed(links), seen, l);
}

/// The embed that a post gets.
pub enum EmbedPlan {
    /// An image of the puzzle's diagram, drawn from the notation file at `kif_url`.
    Image { kif_url: String },
    /// A card for the link, with the image at `thumb_url` as its thumbnail, if any.
    External { thumb_url: Option<String> },
}

/// The embed of a puzzle's post: its diagram where the page refers to a
/// notation file, else a link card with the page's Open Graph image, if any.
pub fn plan_embed(ogp: &Ogp, kif: Option<String>) -> (r: EmbedPlan)
    ensures
        match (r, kif) {
            (EmbedPlan::Image { kif_url }, Some(k)) => kif_url@ == k@,
            (EmbedPlan::External { thumb_url }, None) => opt_str(thumb_url) == opt_str(ogp.image),
            _ => false,
        },
{
    match kif {
        Some(kif_url) => EmbedPlan::Image { kif_url },
        None => EmbedPlan::External { thumb_url: ogp.image.clone() },
    }
}

/// The text of a puzzle's post: its title, a line break, and its link.
pub fn post_text(ogp: &Ogp, link: &str) -> (r: String)
    ensures
        r@ == ogp.title@ + "\n"@ + link@,
{
    let mut t = ogp.title.clone();
    t.append("\n");
    t.append(link);
    t
}

/// The alternative text of a diagram image: its position in SFEN notation.
pub fn image_alt(sfen: &str) -> (r: String)
    ensures
        r@ == "sfen "@ + sfen@,
{
    let mut t = String::from_str("sfen ");
    t.append(sfen);
    t
}

/// A post to publish: its text, its embed and its link annotation.
pub struct PostPlan {
    pub text: String,
    pub embed: EmbedPlan,
    pub facets: Option<Vec<LinkFacet>>,
}

/// The post that announces the puzzle at `link`: the text of `post_text`, the
/// embed of `plan_embed`, and a link annotation over the link in the text.
pub fn plan_post(link: &str, ogp: &Ogp, kif: Option<String>) -> (r: PostPlan)
    ensures
        r.text@ == ogp.title@ + "\n"@ + link@,
        match (r.embed, kif) {
            (EmbedPlan::Image { kif_url }, Some(k)) => kif_url@ == k@,
            (EmbedPlan::External { thumb_url }, None) => opt_str(thumb_url) == opt_str(ogp.image),
            _ => false,
        },
        r.facets matches Some(v) && v.len() == 1 && v[0].uri@ == link@ && first_occurrence(
            encode_utf8(r.text@),
            encode_utf8(link@),
            v[0].byte_start as int,
        ) && v[0].byte_end == v[0].byte_start + encode_utf8(link@).len(),
{
    let text = post_text(ogp, link);
    let embed = plan_embed(ogp, kif);
    let facets = create_facets(text.clone(), String::from_str(link));
    proof {
        lemma_suffix_occurs(ogp.title@ + "\n"@, link@);
    }
    PostPlan { text, embed, facets }
}

/// A text that ends with `s` holds it.
proof fn lemma_suffix_occurs(p: Seq<char>, s: Seq<char>)
    ensures
        occurs_at(
            encode_utf8(p + s),
            encode_utf8(s),
            encode_utf8(p).len() as int,
        ),
{
    lemma_encode_concat(p, s);
    assert(encode_utf8(p + s).subrange(
        encode_utf8(p).len() as int,
        (encode_utf8(p).len() + encode_utf8(s).len()) as int,
    ) =~= encode_utf8(s));
}

/// The encoding of a concatenation is the concatenation of the encodings.
proof fn lemma_encode_concat(p: Seq<char>, s: Seq<char>)
    ensures
        encode_utf8(p + s) == encode_utf8(p) + encode_utf8(s),
    decreases p.len(),
{
    if p.len() == 0 {
        assert(p + s =~= s);
        assert(encode_utf8(p) + encode_utf8(s) =~= encode_utf8(s));
    } else {
        lemma_encode_concat(p.drop_first(), s);
        assert((p + s).drop_first() =~= p.drop_first() + s);
        assert((p + s)[0] == p[0]);
        assert(encode_utf8(p + s) =~= encode_scalar(p[0] as u32) + encode_utf8(p.drop_first() + s));
        assert(encode_utf8(p) + encode_utf8(s) =~= encode_scalar(p[0] as u32) + (encode_utf8(
            p.drop_first(),
        ) + encode_utf8(s)));
    }
}

} // verus!
