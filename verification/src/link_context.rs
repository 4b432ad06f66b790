//! Link-context filter: does a matched text lie inside a hyperlink?
//!
//! Of a document the filter reads nothing but the text nodes that stand inside
//! its anchor elements. [`LinkContext`] holds exactly those.

use vstd::prelude::*;
use crate::strings::{contains_text, occurs_in};

verus! {

/// The CSS selector of hyperlink anchors.
pub const ANCHOR_SELECTOR: &'static str = "a";

/// What `scraper` finds for a selector in a document: the text nodes below the
/// selected elements (`Html::parse_document`, `Html::select`,
/// `ElementRef::text`), element by element in the order in which `select`
/// yields them; nothing where `Selector::parse` refuses the selector.
pub uninterp spec fn selected_texts(document: Seq<char>, selector: Seq<char>) -> Option<
    Seq<Seq<char>>,
>;

/// Parses the selector with `Selector::parse` and the document with
/// `Html::parse_document`, walks the elements that `Html::select` yields and
/// copies out each text node that `ElementRef::text` yields below them. Parsing
/// a document never fails; a selector that is no valid CSS gives `None`.
#[verifier::external_body]
fn texts_under(document: &str, selector: &str) -> (texts: Option<Vec<String>>)
    ensures
        texts.deep_view() == selected_texts(document@, selector@),
{
    let chosen = scraper::Selector::parse(selector).ok()?;
    let parsed = scraper::Html::parse_document(document);
    Some(parsed.select(&chosen).flat_map(|element| element.text()).map(String::from).collect())
}

/// The text nodes that stand inside the anchors of one document.
#[derive(Debug, Clone, PartialEq, Eq)]
pub struct LinkContext {
    pub anchor_texts: Vec<String>,
}

impl View for LinkContext {
    type V = Seq<Seq<char>>;

    open spec fn view(&self) -> Seq<Seq<char>> {
        self.anchor_texts.deep_view()
    }
}

/// The view of a link context that may be missing.
pub open spec fn context_view(links: Option<LinkContext>) -> Option<Seq<Seq<char>>> {
    match links {
        Some(context) => Some(context@),
        None => None,
    }
}

impl LinkContext {
    /// A context with the given anchor texts.
    pub fn new(anchor_texts: Vec<String>) -> (links: LinkContext)
        ensures
            links@ == anchor_texts.deep_view(),
    {
        LinkContext { anchor_texts }
    }

    /// Reads the anchors of a document. There is no context where the anchor
    /// selector is refused.
    pub fn parse(document: &str) -> (links: Option<LinkContext>)
        ensures
            context_view(links) == selected_texts(document@, ANCHOR_SELECTOR@),
    {
        match texts_under(document, ANCHOR_SELECTOR) {
            Some(anchor_texts) => Some(LinkContext { anchor_texts }),
            None => None,
        }
    }
}

/// Whether `matched` occurs in one of the anchor texts.
pub open spec fn inside_link(anchor_texts: Seq<Seq<char>>, matched: Seq<char>) -> bool {
    exists|i: int| 0 <= i < anchor_texts.len() && occurs_in(matched, #[trigger] anchor_texts[i])
}

/// Decides whether `matched_text` occurs within the text of an anchor.
pub fn is_inside_link(links: &LinkContext, matched_text: &str) -> (inside: bool)
    ensures
        inside == inside_link(links@, matched_text@),
{
    for i in 0..links.anchor_texts.len()
        invariant
            forall|k: int| 0 <= k < i ==> !occurs_in(matched_text@, #[trigger] links@[k]),
    {
        if contains_text(links.anchor_texts[i].as_str(), matched_text) {
            assert(occurs_in(matched_text@, links@[i as int]));
            return true;
        }
    }
    false
}

} // verus!
