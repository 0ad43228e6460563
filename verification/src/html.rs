//! Queries against provider pages, answered by the `scraper` crate.
//!
//! Each function here parses a page and runs one CSS-selector query over it.
//! What such a query yields is a pure function of the page text and the
//! selector, so each result carries a name (`first_text_of`, ...) that the
//! extraction contracts in `providers` are stated over. A selector that does
//! not parse yields the empty result, as does a page with no match.

use crate::text::string_views;
use vstd::prelude::*;

verus! {

/// The collected text of the first element matching a selector, if any.
pub uninterp spec fn first_text_of(html: Seq<char>, sel: Seq<char>) -> Option<Seq<char>>;

/// The value of an attribute on the first element matching a selector: the
/// empty sequence when the element lacks the attribute, nothing when no
/// element matches.
pub uninterp spec fn first_attr_of(html: Seq<char>, sel: Seq<char>, attr: Seq<char>) -> Option<
    Seq<char>,
>;

/// One attribute value per element matching a selector, in document order;
/// an element without the attribute contributes the empty sequence.
pub uninterp spec fn attrs_of(html: Seq<char>, sel: Seq<char>, attr: Seq<char>) -> Seq<Seq<char>>;

/// The serialized markup of each element matching a selector, in document
/// order.
pub uninterp spec fn fragments_of(html: Seq<char>, sel: Seq<char>) -> Seq<Seq<char>>;

/// Relies on scraper's `Html::parse_document`, `Selector::parse`,
/// `Html::select` and `ElementRef::text`: the collected text of the first
/// matching element depends on the page and the selector alone.
#[verifier::external_body]
pub(crate) fn select_first_text(html: &str, sel: &str) -> (r: Option<String>)
    ensures
        match r {
            Some(t) => first_text_of(html@, sel@) == Some(t@),
            None => first_text_of(html@, sel@) is None,
        },
{
    let doc = scraper::Html::parse_document(html);
    let selector = match scraper::Selector::parse(sel) {
        Ok(s) => s,
        Err(_) => {
            return None;
        },
    };
    let found = doc.select(&selector).next();
    found.map(|el| el.text().collect::<String>())
}

/// Relies on scraper's `Html::parse_document`, `Selector::parse`,
/// `Html::select` and `ElementRef::attr`: the attribute of the first
/// matching element depends on the page, the selector and the attribute
/// name alone.
#[verifier::external_body]
pub(crate) fn select_first_attr(html: &str, sel: &str, attr: &str) -> (r: Option<String>)
    ensures
        match r {
            Some(t) => first_attr_of(html@, sel@, attr@) == Some(t@),
            None => first_attr_of(html@, sel@, attr@) is None,
        },
{
    let doc = scraper::Html::parse_document(html);
    let selector = match scraper::Selector::parse(sel) {
        Ok(s) => s,
        Err(_) => {
            return None;
        },
    };
    let found = doc.select(&selector).next();
    found.map(|el| el.attr(attr).unwrap_or("").to_owned())
}

/// Relies on scraper's `Html::parse_document`, `Selector::parse`,
/// `Html::select` and `ElementRef::attr`: the attributes of the matching
/// elements, in document order, depend on the page, the selector and the
/// attribute name alone.
#[verifier::external_body]
pub(crate) fn select_attrs(html: &str, sel: &str, attr: &str) -> (r: Vec<String>)
    ensures
        string_views(r@) == attrs_of(html@, sel@, attr@),
{
    let doc = scraper::Html::parse_document(html);
    let selector = match scraper::Selector::parse(sel) {
        Ok(s) => s,
        Err(_) => {
            return Vec::new();
        },
    };
    doc.select(&selector).map(|el| el.attr(attr).unwrap_or("").to_owned()).collect()
}

/// Relies on scraper's `Html::parse_document`, `Selector::parse`,
/// `Html::select` and `ElementRef::html`: the markup of the matching
/// elements, in document order, depends on the page and the selector alone.
#[verifier::external_body]
pub(crate) fn select_fragments(html: &str, sel: &str) -> (r: Vec<String>)
    ensures
        string_views(r@) == fragments_of(html@, sel@),
{
    let doc = scraper::Html::parse_document(html);
    let selector = match scraper::Selector::parse(sel) {
        Ok(s) => s,
        Err(_) => {
            return Vec::new();
        },
    };
    doc.select(&selector).map(|el| el.html()).collect()
}

} // verus!
