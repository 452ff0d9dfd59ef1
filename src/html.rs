//! Parsed markup, CSS queries on it, and what the library reads of each
//! matching element.

use vstd::prelude::*;

verus! {

/// `scraper::Html`, a parsed tree, held opaque.
#[verifier::external_type_specification]
#[verifier::external_body]
pub struct ExHtml(scraper::Html);

/// `scraper::Selector`, a compiled selector group, held opaque.
#[verifier::external_type_specification]
#[verifier::external_body]
pub struct ExSelector(scraper::Selector);

/// A parsed document or fragment, with the markup it was parsed from.
pub struct Document {
    source: String,
    fragment: bool,
    html: scraper::Html,
}

/// What a document is made from: its markup, and whether it was parsed as
/// a fragment (in a `body` context) rather than as a whole document.
pub struct DocView {
    pub source: Seq<char>,
    pub fragment: bool,
}

impl View for Document {
    type V = DocView;

    closed spec fn view(&self) -> DocView {
        DocView { source: self.source@, fragment: self.fragment }
    }
}

/// A compiled CSS selector group, with its text.
pub struct CssQuery {
    text: String,
    compiled: scraper::Selector,
}

impl View for CssQuery {
    type V = Seq<char>;

    closed spec fn view(&self) -> Seq<char> {
        self.text@
    }
}

/// What the library reads of an element that a query matched.
pub struct ElementData {
    /// Its text: all descendant text, in tree order.
    pub text: String,
    /// The values of the attributes asked for, in the order asked.
    pub attrs: Vec<Option<String>>,
    /// Its markup without its own tags.
    pub inner_html: String,
    /// Its markup with its own tags.
    pub html: String,
    /// The element names of its ancestors, nearest first (`None` for the
    /// document or fragment root).
    pub ancestors: Vec<Option<String>>,
}

pub struct ElementView {
    pub text: Seq<char>,
    pub attrs: Seq<Option<Seq<char>>>,
    pub inner_html: Seq<char>,
    pub html: Seq<char>,
    pub ancestors: Seq<Option<Seq<char>>>,
}

pub open spec fn opt_seq(o: Option<String>) -> Option<Seq<char>> {
    match o {
        Some(s) => Some(s@),
        None => None,
    }
}

pub open spec fn opt_seqs(v: Seq<Option<String>>) -> Seq<Option<Seq<char>>> {
    v.map_values(|o: Option<String>| opt_seq(o))
}

impl View for ElementData {
    type V = ElementView;

    open spec fn view(&self) -> ElementView {
        ElementView {
            text: self.text@,
            attrs: opt_seqs(self.attrs@),
            inner_html: self.inner_html@,
            html: self.html@,
            ancestors: opt_seqs(self.ancestors@),
        }
    }
}

pub open spec fn element_views(v: Seq<ElementData>) -> Seq<ElementView> {
    v.map_values(|e: ElementData| e@)
}

pub open spec fn name_views(v: Seq<&str>) -> Seq<Seq<char>> {
    v.map_values(|s: &str| s@)
}

/// Whether `Selector::parse` accepts a selector text.
pub uninterp spec fn css_valid(selector: Seq<char>) -> bool;

/// The elements that `Html::select` yields for a query on a document, as the
/// library reads them, asking for the attributes `names`.
pub uninterp spec fn selected(doc: DocView, selector: Seq<char>, names: Seq<Seq<char>>) -> Seq<
    ElementView,
>;

pub open spec fn nested_texts(v: Seq<Vec<String>>) -> Seq<Seq<Seq<char>>> {
    v.map_values(|r: Vec<String>| r@.map_values(|s: String| s@))
}

/// For each element that `outer` selects, the texts of the elements that
/// `inner` selects within it.
pub uninterp spec fn selected_within(doc: DocView, outer: Seq<char>, inner: Seq<char>) -> Seq<
    Seq<Seq<char>>,
>;

/// A plain element name: an ASCII letter, then ASCII letters and digits.
pub open spec fn is_type_selector(s: Seq<char>) -> bool {
    s.len() > 0 && ('a' <= s[0] <= 'z') && forall|i: int|
        0 <= i < s.len() ==> ('a' <= #[trigger] s[i] <= 'z') || ('0' <= s[i] <= '9')
}

/// Relies on `scraper::Html::parse_document`, which accepts any text.
#[verifier::external_body]
fn parse_html_document(source: &str) -> (r: Document)
    ensures
        r@ == (DocView { source: source@, fragment: false }),
{
    Document { source: source.to_string(), fragment: false, html: scraper::Html::parse_document(source) }
}

/// Relies on `scraper::Html::parse_fragment`, which accepts any text.
#[verifier::external_body]
fn parse_html_fragment(source: &str) -> (r: Document)
    ensures
        r@ == (DocView { source: source@, fragment: true }),
{
    Document { source: source.to_string(), fragment: true, html: scraper::Html::parse_fragment(source) }
}

impl Document {
    /// Parses a whole HTML document.
    pub fn parse(source: &str) -> (r: Document)
        ensures
            r@ == (DocView { source: source@, fragment: false }),
    {
        parse_html_document(source)
    }

    /// Parses HTML as a fragment, in a `body` context.
    pub fn parse_fragment(source: &str) -> (r: Document)
        ensures
            r@ == (DocView { source: source@, fragment: true }),
    {
        parse_html_fragment(source)
    }

    /// Relies on `scraper::Html::select`; reads each element's text
    /// (`ElementRef::text`), the attributes named (`Element::attr`), its
    /// markup (`ElementRef::inner_html`, `ElementRef::html`) and its
    /// ancestors' names (`NodeRef::ancestors`).
    #[verifier::external_body]
    pub(crate) fn select(&self, query: &CssQuery, names: &[&str]) -> (r: Vec<ElementData>)
        ensures
            element_views(r@) == selected(self@, query@, name_views(names@)),
            forall|i: int| 0 <= i < r@.len() ==> (#[trigger] r@[i]).attrs@.len() == names@.len(),
    {
        self.html.select(&query.compiled).map(|e| ElementData {
            text: e.text().collect(),
            attrs: names.iter().map(|a| e.attr(a).map(|v| v.to_string())).collect(),
            inner_html: e.inner_html(),
            html: e.html(),
            ancestors: e.ancestors().map(|a| a.value().as_element().map(|x| x.name().to_string())).collect(),
        }).collect()
    }

    /// Relies on `scraper::ElementRef::select` below each element that
    /// `Html::select` yields, reading the texts (`ElementRef::text`).
    #[verifier::external_body]
    pub(crate) fn select_within(&self, outer: &CssQuery, inner: &CssQuery) -> (r: Vec<Vec<String>>)
        ensures
            nested_texts(r@) == selected_within(self@, outer@, inner@),
    {
        self.html.select(&outer.compiled).map(|o| o.select(&inner.compiled).map(|e| e.text().collect()).collect()).collect()
    }
}

impl CssQuery {
    /// Relies on `scraper::Selector::parse`; on failure, the error's
    /// `Display` text. A plain element name parses as a type selector.
    #[verifier::external_body]
    pub(crate) fn parse(text: &str) -> (r: Result<CssQuery, String>)
        ensures
            r is Ok <==> css_valid(text@),
            r matches Ok(q) ==> q@ == text@,
            is_type_selector(text@) ==> r is Ok,
    {
        match scraper::Selector::parse(text) {
            Ok(compiled) => Ok(CssQuery { text: text.to_string(), compiled }),
            Err(e) => Err(e.to_string()),
        }
    }
}

} // verus!
