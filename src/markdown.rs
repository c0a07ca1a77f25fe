//! The headings of a markdown body, as the CommonMark parser finds them.
use vstd::prelude::*;

verus! {

/// The headings that CommonMark parsing finds in a text, in document order:
/// each with its level, its 1-based start line, and the texts of its text
/// nodes, in order.
pub uninterp spec fn markdown_headings(body: Seq<char>) -> Seq<(u8, usize, Seq<Seq<char>>)>;

/// Relies on `comrak::parse_document` (default options) and on the source
/// positions it gives each node: the headings of `body`, in document order.
#[verifier::external_body]
pub(crate) fn parse_headings(body: &str) -> (r: Vec<(u8, usize, Vec<String>)>)
    ensures
        r.deep_view() == markdown_headings(body@),
{
    let arena = comrak::Arena::new();
    let root = comrak::parse_document(&arena, body, &comrak::Options::default());
    root.descendants().filter_map(|n| match &n.data().value {
        comrak::nodes::NodeValue::Heading(h) => Some((h.level, n.data().sourcepos.start.line,
            n.descendants().skip(1).filter_map(|c| c.data().value.text().map(String::from)).collect())),
        _ => None,
    }).collect()
}

} // verus!
