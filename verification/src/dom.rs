//! The boundary to the HTML engine: documents, elements and structural queries.
//!
//! Everything the page parser learns about a document it learns through the
//! functions of this module. Each of them hands one question to the engine and
//! is believed, not proved: its contract names the engine's answer, so that the
//! parser's own contracts can say exactly which answers they were built from.

use vstd::prelude::*;
use vstd::std_specs::result::ok;

verus! {

/// A parsed HTML document, owned by the engine.
#[verifier::external_type_specification]
#[verifier::external_body]
pub struct ExHtml(scraper::Html);

/// A compiled structural query.
#[verifier::external_type_specification]
#[verifier::external_body]
pub struct ExSelector(scraper::Selector);

/// The reason a structural query did not compile.
#[verifier::external_type_specification]
#[verifier::external_body]
pub struct ExSelectorErrorKind(scraper::error::SelectorErrorKind);

/// A handle to one element of a parsed document.
#[verifier::external_type_specification]
#[verifier::external_body]
pub struct ExElementRef<'a>(scraper::ElementRef<'a>);

/// The document that the engine builds from a page's text.
pub uninterp spec fn parsed_document(text: Seq<char>) -> scraper::Html;

/// The query that the engine compiles from a query's text, where it compiles.
pub uninterp spec fn compiled_query(text: Seq<char>) -> Option<scraper::Selector>;

/// The elements of a document that match a query, in the order in which the
/// engine reports them.
pub uninterp spec fn document_matches(doc: scraper::Html, query: scraper::Selector) -> Seq<
    scraper::ElementRef<'static>,
>;

/// The descendants of an element that match a query, in document order.
pub uninterp spec fn element_matches(scope: scraper::ElementRef, query: scraper::Selector) -> Seq<
    scraper::ElementRef,
>;

/// The value of an element's attribute, where it has that attribute.
pub uninterp spec fn element_attr(element: scraper::ElementRef, name: Seq<char>) -> Option<
    Seq<char>,
>;

/// The first child of an element that is itself an element, where there is one.
pub uninterp spec fn element_first_child(element: scraper::ElementRef) -> Option<
    scraper::ElementRef,
>;

/// The first piece of text at or below an element, where there is one.
pub uninterp spec fn element_first_text(element: scraper::ElementRef) -> Option<Seq<char>>;

/// `scraper::Html::parse_document`: builds the document of a page's text.
/// The engine recovers from malformed markup, so every text has a document.
#[verifier::external_body]
pub(crate) fn parse_document(text: &str) -> (doc: scraper::Html)
    ensures
        doc == parsed_document(text@),
{
    scraper::Html::parse_document(text)
}

/// `scraper::Selector::parse`: compiles a query, or reports why it cannot.
#[verifier::external_body]
pub(crate) fn compile_query(text: &str) -> (query: Result<
    scraper::Selector,
    scraper::error::SelectorErrorKind,
>)
    ensures
        ok(query) == compiled_query(text@),
{
    scraper::Selector::parse(text)
}

/// `scraper::Html::select`, collected: every element of the document that
/// matches the query.
#[verifier::external_body]
pub(crate) fn select_in_document<'a>(doc: &'a scraper::Html, query: &scraper::Selector) -> (found:
    Vec<scraper::ElementRef<'a>>)
    ensures
        found@ == document_matches(*doc, *query),
{
    doc.select(query).collect()
}

/// `scraper::ElementRef::select`, collected: every descendant of the element
/// that matches the query.
#[verifier::external_body]
pub(crate) fn select_in_element<'a>(
    scope: &scraper::ElementRef<'a>,
    query: &scraper::Selector,
) -> (found: Vec<scraper::ElementRef<'a>>)
    ensures
        found@ == element_matches(*scope, *query),
{
    scope.select(query).collect()
}

/// `scraper::ElementRef::attr`: the value of the named attribute, or `None`
/// where the element has no such attribute.
#[verifier::external_body]
pub(crate) fn attribute(element: &scraper::ElementRef, name: &str) -> (value: Option<String>)
    ensures
        value.deep_view() == element_attr(*element, name@),
{
    element.attr(name).map(String::from)
}

/// `selectors::Element::first_element_child`, as `scraper::ElementRef`
/// implements it: the first child that is an element.
#[verifier::external_body]
pub(crate) fn first_child_element<'a>(element: &scraper::ElementRef<'a>) -> (child: Option<
    scraper::ElementRef<'a>,
>)
    ensures
        child == element_first_child(*element),
{
    scraper::Element::first_element_child(element)
}

/// The first item of `scraper::ElementRef::text`: the first text node met
/// when walking the element's subtree in document order.
#[verifier::external_body]
pub(crate) fn first_text(element: &scraper::ElementRef) -> (text: Option<String>)
    ensures
        text.deep_view() == element_first_text(*element),
{
    element.text().next().map(String::from)
}

} // verus!
