//! Finding the URLs in a text: links come from a link finder, and the URLs
//! among them are kept once each, in order of first appearance.
use vstd::prelude::*;
use crate::text::texts;

verus! {

/// The links that the link finder, with its default options, finds in a text:
/// each link's text, and whether it is a URL (otherwise an e-mail address).
pub uninterp spec fn links_in(text: Seq<char>) -> Seq<(Seq<char>, bool)>;

/// The text and kind of each link.
pub open spec fn link_views(v: Seq<(String, bool)>) -> Seq<(Seq<char>, bool)> {
    v.map_values(|l: (String, bool)| (l.0@, l.1))
}

/// The texts of the links that are URLs, each kept at its first appearance.
pub open spec fn unique_urls(links: Seq<(Seq<char>, bool)>) -> Seq<Seq<char>>
    decreases links.len(),
{
    if links.len() == 0 {
        seq![]
    } else {
        let found = unique_urls(links.drop_last());
        let (t, is_url) = links.last();
        if is_url && !found.contains(t) {
            found.push(t)
        } else {
            found
        }
    }
}

/// Relies on linkify's `LinkFinder::new` and `LinkFinder::links`: the links in
/// `text` in order, each with whether its kind is `LinkKind::Url`.
#[verifier::external_body]
fn find_links(text: &str) -> (r: Vec<(String, bool)>)
    ensures
        link_views(r@) == links_in(text@),
{
    let finder = linkify::LinkFinder::new();
    finder.links(text).map(|l| (l.as_str().to_string(), matches!(l.kind(), linkify::LinkKind::Url))).collect()
}

/// The URLs among `links`, without repeats, in order of first appearance.
pub fn urls_from_links(links: &[(String, bool)]) -> (r: Vec<String>)
    ensures
        texts(r@) == unique_urls(link_views(links@)),
{
    let ghost ls = link_views(links@);
    let mut r: Vec<String> = Vec::new();
    let mut i: usize = 0;
    while i < links.len()
        invariant
            ls == link_views(links@),
            i <= links.len(),
            texts(r@) == unique_urls(ls.take(i as int)),
        decreases links.len() - i,
    {
        assert(ls.take(i + 1).drop_last() =~= ls.take(i as int));
        let (t, is_url) = (&links[i].0, links[i].1);
        if is_url {
            let mut seen = false;
            let mut m: usize = 0;
            while m < r.len()
                invariant
                    m <= r.len(),
                    seen == exists|p: int| 0 <= p < m && r@[p]@ == t@,
                decreases r.len() - m,
            {
                if r[m] == *t {
                    seen = true;
                }
                m = m + 1;
            }
            proof {
                let found = texts(r@);
                if seen {
                    let p = choose|p: int| 0 <= p < r.len() && r@[p]@ == t@;
                    assert(found[p] == t@);
                } else {
                    assert(!found.contains(t@));
                }
            }
            if !seen {
                r.push(t.clone());
                assert(texts(r@) =~= unique_urls(ls.take(i as int)).push(t@));
            }
        }
        i = i + 1;
    }
    assert(ls.take(links.len() as int) =~= ls);
    r
}

/// Extracts all URLs from `text`, without repeats, preserving first-occurrence
/// order; e-mail addresses are left out.
pub fn extract_urls(text: &str) -> (r: Vec<String>)
    ensures
        texts(r@) == unique_urls(links_in(text@)),
{
    let links = find_links(text);
    urls_from_links(links.as_slice())
}

} // verus!
