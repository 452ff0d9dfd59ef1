//! What scraping a page produces.

use vstd::prelude::*;

verus! {

/// A link: the anchor's text (or its `href` when the text is empty) and
/// the absolute URL it points to.
#[derive(Debug)]
pub struct Link {
    pub text: String,
    pub url: String,
}

/// An image: its alternative text (empty when absent) and absolute source.
#[derive(Debug)]
pub struct Image {
    pub alt: String,
    pub src: String,
}

/// A table's header cells and, per row that has data cells, their texts.
#[derive(Debug)]
pub struct Table {
    pub headers: Vec<String>,
    pub rows: Vec<Vec<String>>,
}

/// A block of code and the language its class names, if any.
#[derive(Debug)]
pub struct CodeBlock {
    pub content: String,
    pub language: Option<String>,
}

/// The page's descriptive meta tags and link relations.
#[derive(Debug)]
pub struct Metadata {
    pub description: Option<String>,
    pub keywords: Option<String>,
    pub author: Option<String>,
    pub og_title: Option<String>,
    pub og_description: Option<String>,
    pub og_image: Option<String>,
    pub og_url: Option<String>,
    pub canonical_url: Option<String>,
    pub favicon: Option<String>,
}

/// The non-blank texts of the elements that one selector matched.
#[derive(Debug)]
pub struct CustomSelectorResult {
    pub selector: String,
    pub matches: Vec<String>,
}

/// Everything extracted from one page.
#[derive(Debug)]
pub struct ScrapedData {
    pub url: String,
    pub status_code: u16,
    pub title: Option<String>,
    pub headings: Vec<String>,
    pub paragraphs: Vec<String>,
    pub links: Vec<Link>,
    pub images: Vec<Image>,
    pub tables: Vec<Table>,
    pub code_blocks: Vec<CodeBlock>,
    pub metadata: Option<Metadata>,
    pub custom_selectors: Vec<CustomSelectorResult>,
    pub depth: Option<usize>,
}

pub open spec fn texts(v: Seq<String>) -> Seq<Seq<char>> {
    v.map_values(|s: String| s@)
}

pub open spec fn link_views(v: Seq<Link>) -> Seq<(Seq<char>, Seq<char>)> {
    v.map_values(|l: Link| (l.text@, l.url@))
}

pub open spec fn image_views(v: Seq<Image>) -> Seq<(Seq<char>, Seq<char>)> {
    v.map_values(|i: Image| (i.alt@, i.src@))
}

pub open spec fn opt_view(o: Option<String>) -> Option<Seq<char>> {
    match o {
        Some(s) => Some(s@),
        None => None,
    }
}

pub open spec fn code_views(v: Seq<CodeBlock>) -> Seq<(Seq<char>, Option<Seq<char>>)> {
    v.map_values(|c: CodeBlock| (c.content@, opt_view(c.language)))
}

pub open spec fn row_views(v: Seq<Vec<String>>) -> Seq<Seq<Seq<char>>> {
    v.map_values(|r: Vec<String>| texts(r@))
}

pub open spec fn table_views(v: Seq<Table>) -> Seq<(Seq<Seq<char>>, Seq<Seq<Seq<char>>>)> {
    v.map_values(|t: Table| (texts(t.headers@), row_views(t.rows@)))
}

} // verus!
