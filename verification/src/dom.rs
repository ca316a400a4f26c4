//! The parsed page: documents, selectors and elements of the `scraper` crate,
//! and the few questions that the extractor asks of them.
//!
//! Nothing in this file is proved. Each function hands one call on to the
//! crate, and a spec function without a body names what the call returns.

use vstd::prelude::*;
use ::scraper::{ElementRef, Html, Selector};

verus! {

/// `scraper::Html`, a parsed document. Nothing is known of what it holds
/// but through the functions below.
#[verifier::external_type_specification]
#[verifier::external_body]
pub struct ExHtml(Html);

/// `scraper::Selector`, a parsed group of CSS selectors.
#[verifier::external_type_specification]
#[verifier::external_body]
pub struct ExSelector(Selector);

/// `scraper::ElementRef`, an element of a document that is borrowed.
#[verifier::external_type_specification]
#[verifier::external_body]
pub struct ExElementRef<'a>(ElementRef<'a>);

/// The selector that a text is parsed to, if it is one.
pub uninterp spec fn selector_of(text: Seq<char>) -> Option<Selector>;

/// The document tree that a page is parsed to.
pub uninterp spec fn document_of(page: Seq<char>) -> Html;

/// The elements of a document that match a selector, in the order in which
/// the tree holds them.
pub uninterp spec fn document_matches(document: Html, selector: Selector) -> Seq<
    ElementRef<'static>,
>;

/// The elements below an element that match a selector, in the order of a
/// walk through its descendants.
pub uninterp spec fn element_matches(element: ElementRef, selector: Selector) -> Seq<
    ElementRef<'static>,
>;

/// The text nodes below an element, in the order of a walk through its
/// descendants.
pub uninterp spec fn element_texts(element: ElementRef) -> Seq<Seq<char>>;

/// The markup of an element, written out again.
pub uninterp spec fn element_markup(element: ElementRef) -> Seq<char>;

/// `Selector::parse` reads a group of CSS selectors. The result depends on
/// the text alone; the error, which says why a text is no selector, is left
/// out.
#[verifier::external_body]
pub(crate) fn parse_selector(text: &str) -> (selector: Option<Selector>)
    ensures
        selector == selector_of(text@),
{
    Selector::parse(text).ok()
}

/// `Html::parse_document` builds the tree of a page. It accepts every text,
/// and the tree depends on the text alone.
#[verifier::external_body]
pub(crate) fn parse_document(page: &str) -> (document: Html)
    ensures
        document == document_of(page@),
{
    Html::parse_document(page)
}

/// `Html::select` goes through the nodes of the tree and yields each element
/// that has a parent and matches the selector. The elements are gathered as
/// they come.
#[verifier::external_body]
pub(crate) fn select_in_document<'a>(document: &'a Html, selector: &Selector) -> (found: Vec<
    ElementRef<'a>,
>)
    ensures
        found@ == document_matches(*document, *selector),
{
    document.select(selector).collect()
}

/// `ElementRef::select` walks the descendants of the element in order and
/// yields each element that matches the selector. The elements are gathered
/// as they come.
#[verifier::external_body]
pub(crate) fn select_in_element<'a>(element: &ElementRef<'a>, selector: &Selector) -> (found: Vec<
    ElementRef<'a>,
>)
    ensures
        found@ == element_matches(*element, *selector),
{
    element.select(selector).collect()
}

/// `ElementRef::text` walks the descendants of the element and yields each
/// text node. Each is copied as it comes.
#[verifier::external_body]
pub(crate) fn texts_of(element: &ElementRef) -> (texts: Vec<String>)
    ensures
        texts.deep_view() == element_texts(*element),
{
    element.text().map(|text| text.to_owned()).collect()
}

/// `ElementRef::html` serializes the element with its descendants.
#[verifier::external_body]
pub(crate) fn markup_of(element: &ElementRef) -> (markup: String)
    ensures
        markup@ == element_markup(*element),
{
    element.html()
}

} // verus!
