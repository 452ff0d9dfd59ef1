//! The extraction pipeline: each facet of a page, read from its parsed
//! document independently of the others.

use vstd::prelude::*;
use crate::html::{
    css_valid, element_views, is_type_selector, name_views, nested_texts, selected,
    selected_within, CssQuery, DocView, Document, ElementData, ElementView,
};
use crate::model::{
    code_views, image_views, link_views, opt_view, row_views, table_views, texts, CodeBlock,
    CustomSelectorResult, Image, Link, Metadata, Table,
};
use crate::error::ScraperError;
use crate::text::{
    chars_of, concat_str, is_blank, is_white, is_white_char, lower_of, owned, starts_with_chars,
    string_of, to_lower, trim_chars, trim_str, trimmed,
};
use crate::url::{is_absolute, normalize_url, normalized, opens_with_scheme, same_text, WebUrl};

verus! {

/// The query for a plain element name.
pub fn tag_query(tag: &str) -> (r: CssQuery)
    requires
        is_type_selector(tag@),
    ensures
        r@ == tag@,
{
    match CssQuery::parse(tag) {
        Ok(q) => q,
        Err(_) => unreached(),
    }
}

/// The elements a plain element name selects, reading no attribute.
pub open spec fn tagged(doc: DocView, tag: Seq<char>) -> Seq<ElementView> {
    selected(doc, tag, Seq::empty())
}

/// The trimmed texts of the elements, blank ones left out.
pub open spec fn kept_texts(els: Seq<ElementView>) -> Seq<Seq<char>>
    decreases els.len(),
{
    if els.len() == 0 {
        Seq::empty()
    } else {
        let rest = kept_texts(els.drop_last());
        let t = trimmed(els.last().text);
        if t.len() > 0 {
            rest.push(t)
        } else {
            rest
        }
    }
}

proof fn lemma_prefix_step<A>(s: Seq<A>, i: int)
    requires
        0 <= i < s.len(),
    ensures
        s.subrange(0, i + 1).drop_last() == s.subrange(0, i),
        s.subrange(0, i + 1).last() == s[i],
        s.subrange(0, i + 1).len() == i + 1,
{
    assert(s.subrange(0, i + 1).drop_last() =~= s.subrange(0, i));
}

/// Appends the trimmed, non-blank texts of `els` to `out`.
fn push_kept_texts(out: &mut Vec<String>, els: &Vec<ElementData>)
    ensures
        texts(final(out)@) == texts(old(out)@) + kept_texts(element_views(els@)),
{
    let ghost start = texts(out@);
    let mut i: usize = 0;
    assert(element_views(els@).subrange(0, 0) =~= Seq::<ElementView>::empty());
    assert(start + Seq::<Seq<char>>::empty() =~= start);
    while i < els.len()
        invariant
            i <= els@.len(),
            texts(out@) == start + kept_texts(element_views(els@).subrange(0, i as int)),
        decreases els.len() - i,
    {
        proof {
            lemma_prefix_step(element_views(els@), i as int);
        }
        let t = trim_str(els[i].text.as_str());
        if !t.as_str().is_empty() {
            let ghost before = out@;
            out.push(t);
            proof {
                assert(texts(out@) =~= texts(before).push(t@));
                assert(start + kept_texts(element_views(els@).subrange(0, i as int)).push(t@) =~= (
                start + kept_texts(element_views(els@).subrange(0, i as int))).push(t@));
            }
        }
        i = i + 1;
    }
    assert(element_views(els@).subrange(0, els@.len() as int) =~= element_views(els@));
}

/// The trimmed, non-blank texts of the elements a query selects.
pub fn selected_texts(document: &Document, query: &CssQuery) -> (r: Vec<String>)
    ensures
        texts(r@) == kept_texts(selected(document@, query@, Seq::empty())),
{
    let names: [&str; 0] = [];
    let els = document.select(query, names.as_slice());
    assert(name_views(names@) =~= Seq::<Seq<char>>::empty());
    let mut out: Vec<String> = Vec::new();
    assert(texts(out@) =~= Seq::<Seq<char>>::empty());
    push_kept_texts(&mut out, &els);
    assert(Seq::<Seq<char>>::empty() + kept_texts(element_views(els@)) =~= kept_texts(element_views(els@)));
    out
}

/// The trimmed text of the first `title` element.
pub open spec fn title_of(doc: DocView) -> Option<Seq<char>> {
    let els = tagged(doc, "title"@);
    if els.len() > 0 {
        Some(trimmed(els[0].text))
    } else {
        None
    }
}

/// The page's title: the trimmed text of its first `title` element.
pub fn extract_title(document: &Document) -> (r: Option<String>)
    ensures
        match r {
            Some(t) => title_of(document@) == Some(t@),
            None => title_of(document@) is None,
        },
{
    proof {
        reveal_strlit("title");
    }
    let q = tag_query("title");
    let names: [&str; 0] = [];
    let els = document.select(&q, names.as_slice());
    assert(name_views(names@) =~= Seq::<Seq<char>>::empty());
    if els.len() > 0 {
        assert(element_views(els@)[0] == els@[0]@);
        Some(trim_str(els[0].text.as_str()))
    } else {
        None
    }
}

/// The non-blank heading texts: all `h1`, then all `h2`, down to `h6`.
pub open spec fn headings_of(doc: DocView) -> Seq<Seq<char>> {
    kept_texts(tagged(doc, "h1"@)) + kept_texts(tagged(doc, "h2"@)) + kept_texts(tagged(doc, "h3"@))
        + kept_texts(tagged(doc, "h4"@)) + kept_texts(tagged(doc, "h5"@)) + kept_texts(
        tagged(doc, "h6"@),
    )
}

fn push_tag_texts(out: &mut Vec<String>, document: &Document, tag: &str)
    requires
        is_type_selector(tag@),
    ensures
        texts(final(out)@) == texts(old(out)@) + kept_texts(tagged(document@, tag@)),
{
    let q = tag_query(tag);
    let names: [&str; 0] = [];
    let els = document.select(&q, names.as_slice());
    assert(name_views(names@) =~= Seq::<Seq<char>>::empty());
    push_kept_texts(out, &els);
}

/// The page's headings, level by level, trimmed, blank ones left out.
pub fn extract_headings(document: &Document) -> (r: Vec<String>)
    ensures
        texts(r@) == headings_of(document@),
{
    proof {
        reveal_strlit("h1");
        reveal_strlit("h2");
        reveal_strlit("h3");
        reveal_strlit("h4");
        reveal_strlit("h5");
        reveal_strlit("h6");
    }
    let mut out: Vec<String> = Vec::new();
    assert(texts(out@) =~= Seq::<Seq<char>>::empty());
    push_tag_texts(&mut out, document, "h1");
    push_tag_texts(&mut out, document, "h2");
    push_tag_texts(&mut out, document, "h3");
    push_tag_texts(&mut out, document, "h4");
    push_tag_texts(&mut out, document, "h5");
    push_tag_texts(&mut out, document, "h6");
    assert(texts(out@) =~= headings_of(document@));
    out
}

/// The page's paragraphs, trimmed, blank ones left out.
pub fn extract_paragraphs(document: &Document) -> (r: Vec<String>)
    ensures
        texts(r@) == kept_texts(tagged(document@, "p"@)),
{
    proof {
        reveal_strlit("p");
    }
    let mut out: Vec<String> = Vec::new();
    assert(texts(out@) =~= Seq::<Seq<char>>::empty());
    push_tag_texts(&mut out, document, "p");
    assert(texts(out@) =~= kept_texts(tagged(document@, "p"@)));
    out
}

/// The link an anchor gives, if it has an `href` that normalizes.
pub open spec fn link_of(e: ElementView, base: Seq<char>) -> Option<(Seq<char>, Seq<char>)> {
    match e.attrs[0] {
        None => None,
        Some(href) => match normalized(base, href) {
            None => None,
            Some(u) => Some(
                (if trimmed(e.text).len() == 0 {
                    href
                } else {
                    trimmed(e.text)
                }, u),
            ),
        },
    }
}

pub open spec fn links_from(els: Seq<ElementView>, base: Seq<char>) -> Seq<(Seq<char>, Seq<char>)>
    decreases els.len(),
{
    if els.len() == 0 {
        Seq::empty()
    } else {
        let rest = links_from(els.drop_last(), base);
        match link_of(els.last(), base) {
            Some(l) => rest.push(l),
            None => rest,
        }
    }
}

/// The page's links, in document order, with absolute URLs.
pub fn extract_links(document: &Document, base_url: &WebUrl) -> (r: Vec<Link>)
    ensures
        link_views(r@) == links_from(selected(document@, "a"@, seq!["href"@]), base_url@.href),
        forall|j: int| 0 <= j < r@.len() ==> opens_with_scheme(#[trigger] r@[j].url@),
        forall|j: int| 0 <= j < r@.len() ==> (is_absolute(base_url@.href) ==> is_absolute(
            #[trigger] r@[j].url@,
        ) || exists|h: Seq<char>| opens_with_scheme(h) && normalized(base_url@.href, h) == Some(
            r@[j].url@,
        )),
{
    proof {
        reveal_strlit("a");
    }
    let q = tag_query("a");
    let names: [&str; 1] = ["href"];
    let els = document.select(&q, names.as_slice());
    assert(name_views(names@) =~= seq!["href"@]);
    let ghost ev = element_views(els@);
    let mut out: Vec<Link> = Vec::new();
    let mut i: usize = 0;
    assert(ev.subrange(0, 0) =~= Seq::<ElementView>::empty());
    assert(link_views(out@) =~= Seq::<(Seq<char>, Seq<char>)>::empty());
    while i < els.len()
        invariant
            i <= els@.len(),
            ev == element_views(els@),
            forall|k: int| 0 <= k < els@.len() ==> (#[trigger] els@[k]).attrs@.len() == 1,
            link_views(out@) == links_from(ev.subrange(0, i as int), base_url@.href),
        forall|j: int| 0 <= j < out@.len() ==> opens_with_scheme(#[trigger] out@[j].url@),
        forall|j: int| 0 <= j < out@.len() ==> (is_absolute(base_url@.href) ==> is_absolute(
            #[trigger] out@[j].url@,
        ) || exists|h: Seq<char>| opens_with_scheme(h) && normalized(base_url@.href, h) == Some(
            out@[j].url@,
        )),
        decreases els.len() - i,
    {
        proof {
            lemma_prefix_step(ev, i as int);
        }
        let e = &els[i];
        assert(ev[i as int] == e@);
        assert(e@.attrs[0] == crate::html::opt_seq(e.attrs@[0]));
        match &e.attrs[0] {
            Some(href) => {
                let text = trim_str(e.text.as_str());
                match normalize_url(base_url, href.as_str()) {
                    Some(u) => {
                        let shown = if text.as_str().is_empty() {
                            owned(href.as_str())
                        } else {
                            text
                        };
                        let ghost before = out@;
                        proof {
                            if opens_with_scheme(href@) {
                                assert(normalized(base_url@.href, href@) == Some(u@));
                            }
                        }
                        out.push(Link { text: shown, url: u });
                        proof {
                            assert(link_views(out@) =~= link_views(before).push((shown@, u@)));
                        }
                    },
                    None => {},
                }
            },
            None => {},
        }
        i = i + 1;
    }
    assert(ev.subrange(0, els@.len() as int) =~= ev);
    out
}

/// The image an `img` element gives, if it has a `src` that normalizes.
pub open spec fn image_of(e: ElementView, base: Seq<char>) -> Option<(Seq<char>, Seq<char>)> {
    match e.attrs[0] {
        None => None,
        Some(src) => match normalized(base, src) {
            None => None,
            Some(u) => Some(
                (match e.attrs[1] {
                    Some(a) => a,
                    None => Seq::empty(),
                }, u),
            ),
        },
    }
}

pub open spec fn images_from(els: Seq<ElementView>, base: Seq<char>) -> Seq<(Seq<char>, Seq<char>)>
    decreases els.len(),
{
    if els.len() == 0 {
        Seq::empty()
    } else {
        let rest = images_from(els.drop_last(), base);
        match image_of(els.last(), base) {
            Some(l) => rest.push(l),
            None => rest,
        }
    }
}

/// The page's images, in document order, with absolute sources.
pub fn extract_images(document: &Document, base_url: &WebUrl) -> (r: Vec<Image>)
    ensures
        image_views(r@) == images_from(
            selected(document@, "img"@, seq!["src"@, "alt"@]),
            base_url@.href,
        ),
        forall|j: int| 0 <= j < r@.len() ==> opens_with_scheme(#[trigger] r@[j].src@),
        forall|j: int| 0 <= j < r@.len() ==> (is_absolute(base_url@.href) ==> is_absolute(
            #[trigger] r@[j].src@,
        ) || exists|h: Seq<char>| opens_with_scheme(h) && normalized(base_url@.href, h) == Some(
            r@[j].src@,
        )),
{
    proof {
        reveal_strlit("img");
    }
    let q = tag_query("img");
    let names: [&str; 2] = ["src", "alt"];
    let els = document.select(&q, names.as_slice());
    assert(name_views(names@) =~= seq!["src"@, "alt"@]);
    let ghost ev = element_views(els@);
    let mut out: Vec<Image> = Vec::new();
    let mut i: usize = 0;
    assert(ev.subrange(0, 0) =~= Seq::<ElementView>::empty());
    assert(image_views(out@) =~= Seq::<(Seq<char>, Seq<char>)>::empty());
    while i < els.len()
        invariant
            i <= els@.len(),
            ev == element_views(els@),
            forall|k: int| 0 <= k < els@.len() ==> (#[trigger] els@[k]).attrs@.len() == 2,
            image_views(out@) == images_from(ev.subrange(0, i as int), base_url@.href),
        forall|j: int| 0 <= j < out@.len() ==> opens_with_scheme(#[trigger] out@[j].src@),
        forall|j: int| 0 <= j < out@.len() ==> (is_absolute(base_url@.href) ==> is_absolute(
            #[trigger] out@[j].src@,
        ) || exists|h: Seq<char>| opens_with_scheme(h) && normalized(base_url@.href, h) == Some(
            out@[j].src@,
        )),
        decreases els.len() - i,
    {
        proof {
            lemma_prefix_step(ev, i as int);
        }
        let e = &els[i];
        assert(ev[i as int] == e@);
        assert(e@.attrs[0] == crate::html::opt_seq(e.attrs@[0]));
        assert(e@.attrs[1] == crate::html::opt_seq(e.attrs@[1]));
        match &e.attrs[0] {
            Some(src) => {
                let alt = match &e.attrs[1] {
                    Some(a) => owned(a.as_str()),
                    None => String::new(),
                };
                match normalize_url(base_url, src.as_str()) {
                    Some(u) => {
                        let ghost before = out@;
                        proof {
                            if opens_with_scheme(src@) {
                                assert(normalized(base_url@.href, src@) == Some(u@));
                            }
                        }
                        out.push(Image { alt, src: u });
                        proof {
                            assert(image_views(out@) =~= image_views(before).push((alt@, u@)));
                        }
                    },
                    None => {},
                }
            },
            None => {},
        }
        i = i + 1;
    }
    assert(ev.subrange(0, els@.len() as int) =~= ev);
    out
}

} // verus!

verus! {

/// The markup that a table's contents are re-parsed from.
pub open spec fn table_markup(inner: Seq<char>) -> Seq<char> {
    "<table>"@ + inner + "</table>"@
}

/// The isolated fragment of a table element.
pub open spec fn table_fragment(e: ElementView) -> DocView {
    DocView { source: table_markup(e.inner_html), fragment: true }
}

pub open spec fn trim_all(cells: Seq<Seq<char>>) -> Seq<Seq<char>> {
    cells.map_values(|c: Seq<char>| trimmed(c))
}

/// The rows that have at least one data cell, their cells trimmed.
pub open spec fn data_rows(rows: Seq<Seq<Seq<char>>>) -> Seq<Seq<Seq<char>>>
    decreases rows.len(),
{
    if rows.len() == 0 {
        Seq::empty()
    } else {
        let rest = data_rows(rows.drop_last());
        if rows.last().len() > 0 {
            rest.push(trim_all(rows.last()))
        } else {
            rest
        }
    }
}

/// How many rows have at least one data cell.
pub open spec fn rows_with_cells(rows: Seq<Seq<Seq<char>>>) -> nat
    decreases rows.len(),
{
    if rows.len() == 0 {
        0
    } else {
        rows_with_cells(rows.drop_last()) + if rows.last().len() > 0 {
            1nat
        } else {
            0nat
        }
    }
}

/// A table element's headers and data rows; none when it has neither.
pub open spec fn table_of(e: ElementView) -> Option<(Seq<Seq<char>>, Seq<Seq<Seq<char>>>)> {
    let frag = table_fragment(e);
    let headers = kept_texts(tagged(frag, "th"@));
    let rows = data_rows(selected_within(frag, "tr"@, "td"@));
    if headers.len() == 0 && rows.len() == 0 {
        None
    } else {
        Some((headers, rows))
    }
}

pub open spec fn tables_from(els: Seq<ElementView>) -> Seq<(Seq<Seq<char>>, Seq<Seq<Seq<char>>>)>
    decreases els.len(),
{
    if els.len() == 0 {
        Seq::empty()
    } else {
        let rest = tables_from(els.drop_last());
        match table_of(els.last()) {
            Some(t) => rest.push(t),
            None => rest,
        }
    }
}

/// The trimmed texts of a row's cells.
fn trim_cells(cells: &Vec<String>) -> (r: Vec<String>)
    ensures
        texts(r@) == trim_all(texts(cells@)),
{
    let mut out: Vec<String> = Vec::new();
    let mut i: usize = 0;
    while i < cells.len()
        invariant
            i <= cells@.len(),
            texts(out@) == trim_all(texts(cells@)).subrange(0, i as int),
        decreases cells.len() - i,
    {
        let t = trim_str(cells[i].as_str());
        let ghost before = out@;
        out.push(t);
        proof {
            assert(texts(out@) =~= trim_all(texts(cells@)).subrange(0, i + 1)) by {
                assert(texts(out@) =~= texts(before).push(t@));
            }
        }
        i = i + 1;
    }
    assert(trim_all(texts(cells@)).subrange(0, cells@.len() as int) =~= trim_all(texts(cells@)));
    out
}

/// The data rows of a table fragment.
fn table_rows(frag: &Document) -> (r: Vec<Vec<String>>)
    ensures
        row_views(r@) == data_rows(selected_within(frag@, "tr"@, "td"@)),
{
    proof {
        reveal_strlit("tr");
        reveal_strlit("td");
    }
    let tr = tag_query("tr");
    let td = tag_query("td");
    let rows = frag.select_within(&tr, &td);
    let ghost rv = nested_texts(rows@);
    let mut out: Vec<Vec<String>> = Vec::new();
    let mut i: usize = 0;
    assert(rv.subrange(0, 0) =~= Seq::<Seq<Seq<char>>>::empty());
    assert(row_views(out@) =~= Seq::<Seq<Seq<char>>>::empty());
    while i < rows.len()
        invariant
            i <= rows@.len(),
            rv == nested_texts(rows@),
            row_views(out@) == data_rows(rv.subrange(0, i as int)),
        decreases rows.len() - i,
    {
        proof {
            lemma_prefix_step(rv, i as int);
        }
        assert(rv[i as int] == texts(rows@[i as int]@));
        if rows[i].len() > 0 {
            let cells = trim_cells(&rows[i]);
            let ghost before = out@;
            out.push(cells);
            proof {
                assert(row_views(out@) =~= row_views(before).push(texts(cells@)));
            }
        }
        i = i + 1;
    }
    assert(rv.subrange(0, rows@.len() as int) =~= rv);
    out
}

/// The page's tables, each read from its contents re-parsed on their own;
/// tables with neither headers nor data rows are left out.
#[verifier::rlimit(30)]
pub fn extract_tables(document: &Document) -> (r: Vec<Table>)
    ensures
        table_views(r@) == tables_from(tagged(document@, "table"@)),
{
    proof {
        reveal_strlit("table");
        reveal_strlit("th");
    }
    let q = tag_query("table");
    let th = tag_query("th");
    let names: [&str; 0] = [];
    let els = document.select(&q, names.as_slice());
    assert(name_views(names@) =~= Seq::<Seq<char>>::empty());
    let ghost ev = element_views(els@);
    let mut out: Vec<Table> = Vec::new();
    let mut i: usize = 0;
    assert(ev.subrange(0, 0) =~= Seq::<ElementView>::empty());
    assert(table_views(out@) =~= Seq::<(Seq<Seq<char>>, Seq<Seq<Seq<char>>>)>::empty());
    while i < els.len()
        invariant
            i <= els@.len(),
            ev == element_views(els@),
            th@ == "th"@,
            table_views(out@) == tables_from(ev.subrange(0, i as int)),
        decreases els.len() - i,
    {
        proof {
            lemma_prefix_step(ev, i as int);
        }
        assert(ev[i as int] == els@[i as int]@);
        let open_tag = concat_str("<table>", els[i].inner_html.as_str());
        let markup = concat_str(open_tag.as_str(), "</table>");
        let frag = Document::parse_fragment(markup.as_str());
        let headers = selected_texts(&frag, &th);
        let rows = table_rows(&frag);
        if headers.len() > 0 || rows.len() > 0 {
            let ghost before = out@;
            let ghost tv = (texts(headers@), row_views(rows@));
            out.push(Table { headers, rows });
            proof {
                assert(table_views(out@) =~= table_views(before).push(tv));
            }
        }
        i = i + 1;
    }
    assert(ev.subrange(0, els@.len() as int) =~= ev);
    out
}

proof fn lemma_data_rows_count(rows: Seq<Seq<Seq<char>>>)
    ensures
        data_rows(rows).len() == rows_with_cells(rows),
    decreases rows.len(),
{
    if rows.len() > 0 {
        lemma_data_rows_count(rows.drop_last());
    }
}

/// A table without header cells yields no headers, and one row for each
/// `tr` that holds at least one `td`.
pub proof fn lemma_table_without_headers(e: ElementView)
    requires
        tagged(table_fragment(e), "th"@).len() == 0,
    ensures
        table_of(e) matches Some((headers, rows)) ==> headers.len() == 0 && rows.len()
            == rows_with_cells(selected_within(table_fragment(e), "tr"@, "td"@)),
        table_of(e) is None <==> rows_with_cells(
            selected_within(table_fragment(e), "tr"@, "td"@),
        ) == 0,
{
    assert(kept_texts(tagged(table_fragment(e), "th"@)) =~= Seq::<Seq<char>>::empty());
    lemma_data_rows_count(selected_within(table_fragment(e), "tr"@, "td"@));
}

} // verus!

verus! {

/// The white-space separated tokens of `s`, the token in progress being `cur`.
pub open spec fn tokens_from(s: Seq<char>, cur: Seq<char>) -> Seq<Seq<char>>
    decreases s.len(),
{
    if s.len() == 0 {
        if cur.len() > 0 {
            seq![cur]
        } else {
            Seq::empty()
        }
    } else if is_white(s[0]) {
        (if cur.len() > 0 {
            seq![cur]
        } else {
            Seq::empty()
        }) + tokens_from(s.drop_first(), Seq::empty())
    } else {
        tokens_from(s.drop_first(), cur.push(s[0]))
    }
}

/// The white-space separated tokens of `s`, as `str::split_whitespace`
/// gives them.
pub open spec fn ws_tokens(s: Seq<char>) -> Seq<Seq<char>> {
    tokens_from(s, Seq::empty())
}

pub open spec fn names_language(t: Seq<char>) -> bool {
    "language-"@.is_prefix_of(t) || "lang-"@.is_prefix_of(t)
}

/// A class token without its `language-` or `lang-` prefix.
pub open spec fn strip_language(t: Seq<char>) -> Seq<char> {
    if "language-"@.is_prefix_of(t) {
        t.subrange(9, t.len() as int)
    } else if "lang-"@.is_prefix_of(t) {
        t.subrange(5, t.len() as int)
    } else {
        t
    }
}

/// The language the first `language-` or `lang-` token names.
pub open spec fn language_in(tokens: Seq<Seq<char>>) -> Option<Seq<char>>
    decreases tokens.len(),
{
    if tokens.len() == 0 {
        None
    } else if names_language(tokens[0]) {
        Some(strip_language(tokens[0]))
    } else {
        language_in(tokens.drop_first())
    }
}

/// The language a `class` attribute names, if any.
pub open spec fn class_language(class: Option<Seq<char>>) -> Option<Seq<char>> {
    match class {
        None => None,
        Some(c) => language_in(ws_tokens(c)),
    }
}

/// The tail of `v` from position `k`.
fn suffix_from(v: &[char], k: usize) -> (r: Vec<char>)
    requires
        k <= v@.len(),
    ensures
        r@ == v@.subrange(k as int, v@.len() as int),
{
    let mut out: Vec<char> = Vec::new();
    let mut i: usize = k;
    while i < v.len()
        invariant
            k <= i <= v@.len(),
            out@ == v@.subrange(k as int, i as int),
        decreases v.len() - i,
    {
        out.push(v[i]);
        assert(out@ =~= v@.subrange(k as int, i + 1));
        i = i + 1;
    }
    out
}

/// The language a finished token names, if it names one.
fn token_language(t: &Vec<char>) -> (r: Option<String>)
    ensures
        names_language(t@) ==> opt_view(r) == Some(strip_language(t@)),
        !names_language(t@) ==> r is None,
{
    let long = chars_of("language-");
    let short = chars_of("lang-");
    proof {
        reveal_strlit("language-");
        reveal_strlit("lang-");
    }
    if starts_with_chars(t.as_slice(), long.as_slice()) {
        let rest = suffix_from(t.as_slice(), 9);
        Some(string_of(rest.as_slice()))
    } else if starts_with_chars(t.as_slice(), short.as_slice()) {
        let rest = suffix_from(t.as_slice(), 5);
        Some(string_of(rest.as_slice()))
    } else {
        None
    }
}

proof fn lemma_tokens_step(s: Seq<char>, i: int, cur: Seq<char>)
    requires
        0 <= i < s.len(),
    ensures
        is_white(s[i]) ==> tokens_from(s.subrange(i, s.len() as int), cur) == (if cur.len() > 0 {
            seq![cur]
        } else {
            Seq::<Seq<char>>::empty()
        }) + tokens_from(s.subrange(i + 1, s.len() as int), Seq::empty()),
        !is_white(s[i]) ==> tokens_from(s.subrange(i, s.len() as int), cur) == tokens_from(
            s.subrange(i + 1, s.len() as int),
            cur.push(s[i]),
        ),
{
    assert(s.subrange(i, s.len() as int).drop_first() =~= s.subrange(i + 1, s.len() as int));
}

proof fn lemma_language_cons(t: Seq<char>, rest: Seq<Seq<char>>)
    ensures
        language_in(seq![t] + rest) == (if names_language(t) {
            Some(strip_language(t))
        } else {
            language_in(rest)
        }),
{
    assert((seq![t] + rest).drop_first() =~= rest);
}

proof fn lemma_language_empty(rest: Seq<Seq<char>>)
    ensures
        language_in(Seq::<Seq<char>>::empty() + rest) == language_in(rest),
{
    assert(Seq::<Seq<char>>::empty() + rest =~= rest);
}

/// The language that a `class` attribute's first `language-` or `lang-`
/// token names.
#[verifier::rlimit(30)]
pub fn language_of_class(class: &str) -> (r: Option<String>)
    ensures
        opt_view(r) == class_language(Some(class@)),
{
    let s = chars_of(class);
    let n = s.len();
    let mut cur: Vec<char> = Vec::new();
    let mut i: usize = 0;
    assert(s@.subrange(0, n as int) =~= s@);
    assert(cur@ =~= Seq::<char>::empty());
    while i < n
        invariant
            i <= n == s@.len(),
            s@ == class@,
            language_in(ws_tokens(class@)) == language_in(tokens_from(s@.subrange(i as int, n as int), cur@)),
        decreases n - i,
    {
        proof {
            lemma_tokens_step(s@, i as int, cur@);
        }
        if is_white_char(s[i]) {
            let ghost rest = tokens_from(s@.subrange(i + 1, n as int), Seq::empty());
            if cur.len() > 0 {
                proof {
                    lemma_language_cons(cur@, rest);
                }
                let found = token_language(&cur);
                if found.is_some() {
                    return found;
                }
            } else {
                proof {
                    lemma_language_empty(rest);
                }
            }
            cur = Vec::new();
            assert(cur@ =~= Seq::<char>::empty());
        } else {
            cur.push(s[i]);
        }
        i = i + 1;
    }
    proof {
        assert(s@.subrange(n as int, n as int) =~= Seq::<char>::empty());
        if cur@.len() > 0 {
            lemma_language_cons(cur@, Seq::empty());
            assert(seq![cur@] + Seq::<Seq<char>>::empty() =~= seq![cur@]);
        }
    }
    if cur.len() > 0 {
        token_language(&cur)
    } else {
        None
    }
}

fn language_of_attr(class: &Option<String>) -> (r: Option<String>)
    ensures
        opt_view(r) == class_language(crate::html::opt_seq(*class)),
{
    match class {
        Some(c) => language_of_class(c.as_str()),
        None => None,
    }
}

/// The blocks of the `code` elements found inside one `pre`.
pub open spec fn blocks_of_codes(codes: Seq<ElementView>) -> Seq<(Seq<char>, Option<Seq<char>>)>
    decreases codes.len(),
{
    if codes.len() == 0 {
        Seq::empty()
    } else {
        let rest = blocks_of_codes(codes.drop_last());
        let c = codes.last();
        if !is_blank(c.text) {
            rest.push((c.text, class_language(c.attrs[0])))
        } else {
            rest
        }
    }
}

/// A `pre` element's own fragment, re-parsed from its markup.
pub open spec fn pre_fragment(p: ElementView) -> DocView {
    DocView { source: p.html, fragment: true }
}

/// The blocks one `pre` element gives: one per `code` inside it, or else
/// its own text, without a language.
pub open spec fn pre_blocks(p: ElementView) -> Seq<(Seq<char>, Option<Seq<char>>)> {
    let codes = selected(pre_fragment(p), "code"@, seq!["class"@]);
    if codes.len() > 0 {
        blocks_of_codes(codes)
    } else if !is_blank(p.text) {
        seq![(p.text, None)]
    } else {
        Seq::empty()
    }
}

pub open spec fn blocks_of_pres(pres: Seq<ElementView>) -> Seq<(Seq<char>, Option<Seq<char>>)>
    decreases pres.len(),
{
    if pres.len() == 0 {
        Seq::empty()
    } else {
        blocks_of_pres(pres.drop_last()) + pre_blocks(pres.last())
    }
}

/// Some ancestor of the element is a `pre`.
pub open spec fn under_pre(c: ElementView) -> bool {
    exists|k: int| 0 <= k < c.ancestors.len() && #[trigger] c.ancestors[k] == Some("pre"@)
}

/// The inline blocks: `code` elements with no `pre` above them.
pub open spec fn inline_blocks(codes: Seq<ElementView>) -> Seq<(Seq<char>, Option<Seq<char>>)>
    decreases codes.len(),
{
    if codes.len() == 0 {
        Seq::empty()
    } else {
        let rest = inline_blocks(codes.drop_last());
        let c = codes.last();
        if !under_pre(c) && !is_blank(c.text) {
            rest.push((c.text, class_language(c.attrs[0])))
        } else {
            rest
        }
    }
}

/// All code blocks of a page: those of its `pre` elements, then the inline ones.
pub open spec fn code_blocks_of(doc: DocView) -> Seq<(Seq<char>, Option<Seq<char>>)> {
    blocks_of_pres(tagged(doc, "pre"@)) + inline_blocks(selected(doc, "code"@, seq!["class"@]))
}

/// Appends the blocks of `codes`, or the inline ones among them.
#[verifier::rlimit(30)]
fn push_code_blocks(out: &mut Vec<CodeBlock>, codes: &Vec<ElementData>, inline_only: bool)
    requires
        forall|k: int| 0 <= k < codes@.len() ==> (#[trigger] codes@[k]).attrs@.len() == 1,
    ensures
        code_views(final(out)@) == code_views(old(out)@) + if inline_only {
            inline_blocks(element_views(codes@))
        } else {
            blocks_of_codes(element_views(codes@))
        },
{
    let ghost start = code_views(out@);
    let ghost ev = element_views(codes@);
    let mut i: usize = 0;
    assert(ev.subrange(0, 0) =~= Seq::<ElementView>::empty());
    assert(start + Seq::<(Seq<char>, Option<Seq<char>>)>::empty() =~= start);
    while i < codes.len()
        invariant
            i <= codes@.len(),
            ev == element_views(codes@),
            forall|k: int| 0 <= k < codes@.len() ==> (#[trigger] codes@[k]).attrs@.len() == 1,
            code_views(out@) == start + if inline_only {
                inline_blocks(ev.subrange(0, i as int))
            } else {
                blocks_of_codes(ev.subrange(0, i as int))
            },
        decreases codes.len() - i,
    {
        proof {
            lemma_prefix_step(ev, i as int);
        }
        let c = &codes[i];
        assert(ev[i as int] == c@);
        assert(c@.attrs[0] == crate::html::opt_seq(c.attrs@[0]));
        let above = has_pre_ancestor(&c.ancestors);
        proof {
            let anc = crate::html::opt_seqs(c.ancestors@);
            assert(c@.ancestors == anc);
            if above {
                let k = choose|k: int| 0 <= k < c.ancestors@.len() && #[trigger] crate::html::opt_seq(c.ancestors@[k]) == Some("pre"@);
                assert(anc[k] == Some("pre"@));
            }
            if under_pre(c@) {
                let k = choose|k: int| 0 <= k < anc.len() && #[trigger] anc[k] == Some("pre"@);
                assert(crate::html::opt_seq(c.ancestors@[k]) == Some("pre"@));
            }
            assert(above == under_pre(c@));
        }
        let keep = if inline_only {
            !above
        } else {
            true
        };
        let t = chars_of(c.text.as_str());
        let tt = trim_chars(t.as_slice());
        if keep && tt.len() > 0 {
            let language = language_of_attr(&c.attrs[0]);
            let content = owned(c.text.as_str());
            let ghost before = out@;
            out.push(CodeBlock { content, language });
            proof {
                assert(code_views(out@) =~= code_views(before).push((content@, opt_view(language))));
                if inline_only {
                    assert(code_views(out@) =~= start + inline_blocks(ev.subrange(0, i + 1)));
                } else {
                    assert(code_views(out@) =~= start + blocks_of_codes(ev.subrange(0, i + 1)));
                }
            }
        } else {
            proof {
                if inline_only {
                    assert(inline_blocks(ev.subrange(0, i + 1)) == inline_blocks(ev.subrange(0, i as int)));
                } else {
                    assert(blocks_of_codes(ev.subrange(0, i + 1)) == blocks_of_codes(ev.subrange(0, i as int)));
                }
            }
        }
        i = i + 1;
    }
    assert(ev.subrange(0, codes@.len() as int) =~= ev);
}

/// Whether the ancestor names include `pre`.
fn has_pre_ancestor(ancestors: &Vec<Option<String>>) -> (r: bool)
    ensures
        r == exists|k: int| 0 <= k < ancestors@.len() && #[trigger] crate::html::opt_seq(ancestors@[k]) == Some("pre"@),
{
    let mut i: usize = 0;
    while i < ancestors.len()
        invariant
            i <= ancestors@.len(),
            forall|k: int| 0 <= k < i ==> #[trigger] crate::html::opt_seq(ancestors@[k]) != Some("pre"@),
        decreases ancestors.len() - i,
    {
        match &ancestors[i] {
            Some(name) => {
                if same_text(name.as_str(), "pre") {
                    assert(crate::html::opt_seq(ancestors@[i as int]) == Some("pre"@));
                    return true;
                }
            },
            None => {},
        }
        i = i + 1;
    }
    false
}

/// The page's code blocks: for each `pre`, its `code` children (with the
/// language their class names) or its own text; then each `code` with no
/// `pre` above it. Blocks whose text is blank are left out.
#[verifier::rlimit(30)]
pub fn extract_code_blocks(document: &Document) -> (r: Vec<CodeBlock>)
    ensures
        code_views(r@) == code_blocks_of(document@),
{
    proof {
        reveal_strlit("pre");
        reveal_strlit("code");
    }
    let pre_q = tag_query("pre");
    let code_q = tag_query("code");
    let no_names: [&str; 0] = [];
    let class_name: [&str; 1] = ["class"];
    assert(name_views(no_names@) =~= Seq::<Seq<char>>::empty());
    assert(name_views(class_name@) =~= seq!["class"@]);
    let pres = document.select(&pre_q, no_names.as_slice());
    let ghost pv = element_views(pres@);
    let mut out: Vec<CodeBlock> = Vec::new();
    let mut i: usize = 0;
    assert(pv.subrange(0, 0) =~= Seq::<ElementView>::empty());
    assert(code_views(out@) =~= Seq::<(Seq<char>, Option<Seq<char>>)>::empty());
    while i < pres.len()
        invariant
            i <= pres@.len(),
            pv == element_views(pres@),
            code_q@ == "code"@,
            name_views(class_name@) == seq!["class"@],
            code_views(out@) == blocks_of_pres(pv.subrange(0, i as int)),
        decreases pres.len() - i,
    {
        proof {
            lemma_prefix_step(pv, i as int);
        }
        let p = &pres[i];
        assert(pv[i as int] == p@);
        let frag = Document::parse_fragment(p.html.as_str());
        let codes = frag.select(&code_q, class_name.as_slice());
        let ghost before = code_views(out@);
        if codes.len() > 0 {
            push_code_blocks(&mut out, &codes, false);
        } else {
            let t = chars_of(p.text.as_str());
            let tt = trim_chars(t.as_slice());
            if tt.len() > 0 {
                let content = owned(p.text.as_str());
                out.push(CodeBlock { content, language: None });
                proof {
                    assert(code_views(out@) =~= before + seq![(content@, None::<Seq<char>>)]);
                }
            } else {
                assert(before + Seq::<(Seq<char>, Option<Seq<char>>)>::empty() =~= before);
            }
        }
        i = i + 1;
    }
    assert(pv.subrange(0, pres@.len() as int) =~= pv);
    let codes = document.select(&code_q, class_name.as_slice());
    push_code_blocks(&mut out, &codes, true);
    out
}

} // verus!

verus! {

/// A `meta` element's key: its `name`, else its `property`.
pub open spec fn meta_key(e: ElementView) -> Option<Seq<char>> {
    match e.attrs[0] {
        Some(n) => Some(n),
        None => e.attrs[1],
    }
}

/// The `content` of the last `meta` element whose lower-cased key is `key`.
pub open spec fn meta_field(els: Seq<ElementView>, key: Seq<char>) -> Option<Seq<char>>
    decreases els.len(),
{
    if els.len() == 0 {
        None
    } else {
        let e = els.last();
        if meta_key(e) is Some && lower_of(meta_key(e)->Some_0) == key && e.attrs[2] is Some {
            e.attrs[2]
        } else {
            meta_field(els.drop_last(), key)
        }
    }
}

/// The `href` of the last `link` element whose lower-cased `rel` is one of `rels`.
pub open spec fn link_field(els: Seq<ElementView>, rels: Seq<Seq<char>>) -> Option<Seq<char>>
    decreases els.len(),
{
    if els.len() == 0 {
        None
    } else {
        let e = els.last();
        if e.attrs[0] is Some && rels.contains(lower_of(e.attrs[0]->Some_0)) && e.attrs[1] is Some {
            e.attrs[1]
        } else {
            link_field(els.drop_last(), rels)
        }
    }
}

pub open spec fn metas(doc: DocView) -> Seq<ElementView> {
    selected(doc, "meta"@, seq!["name"@, "property"@, "content"@])
}

pub open spec fn link_rels(doc: DocView) -> Seq<ElementView> {
    selected(doc, "link"@, seq!["rel"@, "href"@])
}

/// `m` is the metadata of the document: the `content` of the last `meta`
/// whose lower-cased key is each known key, and the `href` of the last
/// `link` whose lower-cased `rel` is `canonical`, and `icon` or
/// `shortcut icon`.
pub open spec fn is_page_metadata(m: Metadata, doc: DocView) -> bool {
    &&& opt_view(m.description) == meta_field(metas(doc), "description"@)
    &&& opt_view(m.keywords) == meta_field(metas(doc), "keywords"@)
    &&& opt_view(m.author) == meta_field(metas(doc), "author"@)
    &&& opt_view(m.og_title) == meta_field(metas(doc), "og:title"@)
    &&& opt_view(m.og_description) == meta_field(metas(doc), "og:description"@)
    &&& opt_view(m.og_image) == meta_field(metas(doc), "og:image"@)
    &&& opt_view(m.og_url) == meta_field(metas(doc), "og:url"@)
    &&& opt_view(m.canonical_url) == link_field(link_rels(doc), seq!["canonical"@])
    &&& opt_view(m.favicon) == link_field(link_rels(doc), seq!["icon"@, "shortcut icon"@])
}

/// Sets `field` to `content` when `key` is `wanted`.
fn set_if(field: &mut Option<String>, key: &str, wanted: &str, content: &str)
    ensures
        opt_view(*final(field)) == if key@ == wanted@ {
            Some(content@)
        } else {
            opt_view(*old(field))
        },
{
    if same_text(key, wanted) {
        *field = Some(owned(content));
    }
}

/// The page's descriptive metadata: the `content` of the last `meta` whose
/// `name` (or `property`), lower-cased, is each known key, and the `href`
/// of the last `link` whose `rel` is `canonical`, and `icon` or
/// `shortcut icon`.
#[verifier::rlimit(30)]
pub fn extract_metadata(document: &Document) -> (r: Metadata)
    ensures
        is_page_metadata(r, document@),
{
    proof {
        reveal_strlit("meta");
        reveal_strlit("link");
    }
    let mut m = Metadata {
        description: None,
        keywords: None,
        author: None,
        og_title: None,
        og_description: None,
        og_image: None,
        og_url: None,
        canonical_url: None,
        favicon: None,
    };
    let meta_q = tag_query("meta");
    let meta_names: [&str; 3] = ["name", "property", "content"];
    let els = document.select(&meta_q, meta_names.as_slice());
    assert(name_views(meta_names@) =~= seq!["name"@, "property"@, "content"@]);
    let ghost ev = element_views(els@);
    let mut i: usize = 0;
    assert(ev.subrange(0, 0) =~= Seq::<ElementView>::empty());
    while i < els.len()
        invariant
            i <= els@.len(),
            ev == element_views(els@),
            ev == metas(document@),
            forall|k: int| 0 <= k < els@.len() ==> (#[trigger] els@[k]).attrs@.len() == 3,
            opt_view(m.description) == meta_field(ev.subrange(0, i as int), "description"@),
            opt_view(m.keywords) == meta_field(ev.subrange(0, i as int), "keywords"@),
            opt_view(m.author) == meta_field(ev.subrange(0, i as int), "author"@),
            opt_view(m.og_title) == meta_field(ev.subrange(0, i as int), "og:title"@),
            opt_view(m.og_description) == meta_field(ev.subrange(0, i as int), "og:description"@),
            opt_view(m.og_image) == meta_field(ev.subrange(0, i as int), "og:image"@),
            opt_view(m.og_url) == meta_field(ev.subrange(0, i as int), "og:url"@),
            m.canonical_url is None,
            m.favicon is None,
        decreases els.len() - i,
    {
        proof {
            lemma_prefix_step(ev, i as int);
        }
        let e = &els[i];
        assert(ev[i as int] == e@);
        assert(e@.attrs[0] == crate::html::opt_seq(e.attrs@[0]));
        assert(e@.attrs[1] == crate::html::opt_seq(e.attrs@[1]));
        assert(e@.attrs[2] == crate::html::opt_seq(e.attrs@[2]));
        let name = match &e.attrs[0] {
            Some(n) => Some(n),
            None => match &e.attrs[1] {
                Some(p) => Some(p),
                None => None,
            },
        };
        match (name, &e.attrs[2]) {
            (Some(n), Some(content)) => {
                let key = to_lower(n.as_str());
                let k = key.as_str();
                let c = content.as_str();
                set_if(&mut m.description, k, "description", c);
                set_if(&mut m.keywords, k, "keywords", c);
                set_if(&mut m.author, k, "author", c);
                set_if(&mut m.og_title, k, "og:title", c);
                set_if(&mut m.og_description, k, "og:description", c);
                set_if(&mut m.og_image, k, "og:image", c);
                set_if(&mut m.og_url, k, "og:url", c);
            },
            _ => {},
        }
        i = i + 1;
    }
    assert(ev.subrange(0, els@.len() as int) =~= ev);
    let link_q = tag_query("link");
    let link_names: [&str; 2] = ["rel", "href"];
    let links = document.select(&link_q, link_names.as_slice());
    assert(name_views(link_names@) =~= seq!["rel"@, "href"@]);
    let ghost lv = element_views(links@);
    let ghost canon = seq!["canonical"@];
    let ghost icons = seq!["icon"@, "shortcut icon"@];
    let mut j: usize = 0;
    assert(lv.subrange(0, 0) =~= Seq::<ElementView>::empty());
    while j < links.len()
        invariant
            j <= links@.len(),
            lv == element_views(links@),
            lv == link_rels(document@),
            canon == seq!["canonical"@],
            icons == seq!["icon"@, "shortcut icon"@],
            forall|k: int| 0 <= k < links@.len() ==> (#[trigger] links@[k]).attrs@.len() == 2,
            opt_view(m.canonical_url) == link_field(lv.subrange(0, j as int), canon),
            opt_view(m.favicon) == link_field(lv.subrange(0, j as int), icons),
            opt_view(m.description) == meta_field(metas(document@), "description"@),
            opt_view(m.keywords) == meta_field(metas(document@), "keywords"@),
            opt_view(m.author) == meta_field(metas(document@), "author"@),
            opt_view(m.og_title) == meta_field(metas(document@), "og:title"@),
            opt_view(m.og_description) == meta_field(metas(document@), "og:description"@),
            opt_view(m.og_image) == meta_field(metas(document@), "og:image"@),
            opt_view(m.og_url) == meta_field(metas(document@), "og:url"@),
        decreases links.len() - j,
    {
        proof {
            lemma_prefix_step(lv, j as int);
        }
        let e = &links[j];
        assert(lv[j as int] == e@);
        assert(e@.attrs[0] == crate::html::opt_seq(e.attrs@[0]));
        assert(e@.attrs[1] == crate::html::opt_seq(e.attrs@[1]));
        match (&e.attrs[0], &e.attrs[1]) {
            (Some(rel), Some(href)) => {
                let r = to_lower(rel.as_str());
                let h = href.as_str();
                let ghost old_icon = opt_view(m.favicon);
                set_if(&mut m.canonical_url, r.as_str(), "canonical", h);
                proof {
                    assert(canon.contains(r@) == (r@ == "canonical"@)) by {
                        if r@ == "canonical"@ {
                            assert(canon[0] == r@);
                        }
                    }
                }
                let is_icon = same_text(r.as_str(), "icon") || same_text(r.as_str(), "shortcut icon");
                if is_icon {
                    m.favicon = Some(owned(h));
                }
                proof {
                    assert(icons.contains(r@) == is_icon) by {
                        if r@ == "icon"@ {
                            assert(icons[0] == r@);
                        }
                        if r@ == "shortcut icon"@ {
                            assert(icons[1] == r@);
                        }
                    }
                }
            },
            _ => {},
        }
        j = j + 1;
    }
    assert(lv.subrange(0, links@.len() as int) =~= lv);
    m
}

pub open spec fn custom_views(v: Seq<CustomSelectorResult>) -> Seq<(Seq<char>, Seq<Seq<char>>)> {
    v.map_values(|c: CustomSelectorResult| (c.selector@, texts(c.matches@)))
}

/// What one selector yields: itself, with the trimmed non-blank texts of
/// the elements it matches.
pub open spec fn selector_result(doc: DocView, s: Seq<char>) -> (Seq<char>, Seq<Seq<char>>) {
    (s, kept_texts(selected(doc, s, Seq::empty())))
}

/// Runs each selector in turn on the page. A selector that does not parse
/// fails the whole extraction, with an error that names it.
pub fn process_custom_selectors(document: &Document, selectors: &[String]) -> (r: Result<
    Vec<CustomSelectorResult>,
    ScraperError,
>)
    ensures
        r is Ok <==> forall|i: int| 0 <= i < selectors@.len() ==> css_valid(#[trigger] selectors@[i]@),
        r matches Ok(v) ==> v@.len() == selectors@.len() && forall|i: int|
            0 <= i < selectors@.len() ==> #[trigger] custom_views(v@)[i] == selector_result(
                document@,
                selectors@[i]@,
            ),
        r matches Err(e) ==> e matches ScraperError::InvalidSelector(m) && exists|i: int|
            0 <= i < selectors@.len() && !css_valid(#[trigger] selectors@[i]@) && (forall|j: int|
                0 <= j < i ==> css_valid(selectors@[j]@)) && (selectors@[i]@ + ": "@).is_prefix_of(
                m@,
            ),
{
    let mut out: Vec<CustomSelectorResult> = Vec::new();
    let mut i: usize = 0;
    while i < selectors.len()
        invariant
            i <= selectors@.len(),
            out@.len() == i,
            forall|j: int| 0 <= j < i ==> css_valid(#[trigger] selectors@[j]@),
            forall|j: int| 0 <= j < i ==> #[trigger] custom_views(out@)[j] == selector_result(
                document@,
                selectors@[j]@,
            ),
        decreases selectors.len() - i,
    {
        match CssQuery::parse(selectors[i].as_str()) {
            Ok(q) => {
                let matches = selected_texts(document, &q);
                let selector = owned(selectors[i].as_str());
                let ghost before = out@;
                out.push(CustomSelectorResult { selector, matches });
                proof {
                    assert forall|j: int| 0 <= j < i + 1 implies #[trigger] custom_views(out@)[j]
                        == selector_result(document@, selectors@[j]@) by {
                        if j < i {
                            assert(custom_views(out@)[j] == custom_views(before)[j]);
                        }
                    }
                }
            },
            Err(e) => {
                let head = concat_str(selectors[i].as_str(), ": ");
                let m = concat_str(head.as_str(), e.as_str());
                proof {
                    assert(m@.subrange(0, head@.len() as int) =~= head@);
                }
                return Err(ScraperError::InvalidSelector(m));
            },
        }
        i = i + 1;
    }
    Ok(out)
}

} // verus!

verus! {

/// A sequence of blocks none of whose contents is blank.
pub open spec fn none_blank(bs: Seq<(Seq<char>, Option<Seq<char>>)>) -> bool {
    forall|i: int| 0 <= i < bs.len() ==> !is_blank(#[trigger] bs[i].0)
}

proof fn lemma_codes_none_blank(codes: Seq<ElementView>)
    ensures
        none_blank(blocks_of_codes(codes)),
        none_blank(inline_blocks(codes)),
    decreases codes.len(),
{
    if codes.len() > 0 {
        lemma_codes_none_blank(codes.drop_last());
    }
}

proof fn lemma_pres_none_blank(pres: Seq<ElementView>)
    ensures
        none_blank(blocks_of_pres(pres)),
    decreases pres.len(),
{
    if pres.len() > 0 {
        lemma_pres_none_blank(pres.drop_last());
        let p = pres.last();
        lemma_codes_none_blank(selected(pre_fragment(p), "code"@, seq!["class"@]));
        let a = blocks_of_pres(pres.drop_last());
        let b = pre_blocks(p);
        assert forall|i: int| 0 <= i < (a + b).len() implies !is_blank(#[trigger] (a + b)[i].0) by {
            if i < a.len() {
                assert((a + b)[i] == a[i]);
            } else {
                assert((a + b)[i] == b[i - a.len()]);
            }
        }
    }
}

/// No code block has blank content: blank `pre` and `code` elements are
/// dropped.
pub proof fn lemma_code_blocks_not_blank(doc: DocView)
    ensures
        none_blank(code_blocks_of(doc)),
{
    let a = blocks_of_pres(tagged(doc, "pre"@));
    let b = inline_blocks(selected(doc, "code"@, seq!["class"@]));
    lemma_pres_none_blank(tagged(doc, "pre"@));
    lemma_codes_none_blank(selected(doc, "code"@, seq!["class"@]));
    assert forall|i: int| 0 <= i < (a + b).len() implies !is_blank(#[trigger] (a + b)[i].0) by {
        if i < a.len() {
            assert((a + b)[i] == a[i]);
        } else {
            assert((a + b)[i] == b[i - a.len()]);
        }
    }
}

} // verus!

verus! {

/// The `code` element gives an inline block: no `pre` above it and a
/// non-blank text.
pub open spec fn inline_kept(c: ElementView) -> bool {
    !under_pre(c) && !is_blank(c.text)
}

/// How many of the first `n` elements give an inline block.
pub open spec fn kept_before(codes: Seq<ElementView>, n: int) -> nat
    decreases n,
{
    if n <= 0 {
        0
    } else {
        kept_before(codes, n - 1) + if inline_kept(codes[n - 1]) {
            1nat
        } else {
            0nat
        }
    }
}

proof fn lemma_kept_monotone(codes: Seq<ElementView>, j: int, n: int)
    requires
        0 <= j <= n,
    ensures
        kept_before(codes, j) <= kept_before(codes, n),
    decreases n - j,
{
    if j < n {
        lemma_kept_monotone(codes, j, n - 1);
    }
}

proof fn lemma_inline_positions(codes: Seq<ElementView>, n: int)
    requires
        0 <= n <= codes.len(),
    ensures
        inline_blocks(codes.subrange(0, n)).len() == kept_before(codes, n),
        forall|k: int| 0 <= k < n && inline_kept(codes[k]) ==> #[trigger] inline_blocks(codes.subrange(0, n))[kept_before(codes, k) as int]
            == (codes[k].text, class_language(codes[k].attrs[0])),
    decreases n,
{
    if n > 0 {
        lemma_inline_positions(codes, n - 1);
        let prev = codes.subrange(0, n - 1);
        let cur = codes.subrange(0, n);
        assert(cur.drop_last() =~= prev);
        assert(cur.last() == codes[n - 1]);
        assert forall|k: int| 0 <= k < n && inline_kept(codes[k]) implies #[trigger] inline_blocks(cur)[kept_before(codes, k) as int]
            == (codes[k].text, class_language(codes[k].attrs[0])) by {
            if k < n - 1 {
                lemma_kept_monotone(codes, k + 1, n - 1);
                assert(inline_blocks(cur)[kept_before(codes, k) as int] == inline_blocks(prev)[kept_before(codes, k) as int]);
            }
        }
    }
}

/// Each `code` element with no `pre` above it and a non-blank text yields
/// exactly one block: the inline blocks follow the `pre` blocks, one per
/// such element, in order, so its block stands at the position given by the
/// number of such elements before it, and no other element's block does.
pub proof fn lemma_inline_code_exactly_once(doc: DocView, k: int)
    requires
        0 <= k < selected(doc, "code"@, seq!["class"@]).len(),
        inline_kept(selected(doc, "code"@, seq!["class"@])[k]),
    ensures
        ({
            let codes = selected(doc, "code"@, seq!["class"@]);
            let pre_count = blocks_of_pres(tagged(doc, "pre"@)).len();
            &&& code_blocks_of(doc).len() == pre_count + kept_before(codes, codes.len() as int)
            &&& code_blocks_of(doc)[(pre_count + kept_before(codes, k)) as int] == (codes[k].text, class_language(codes[k].attrs[0]))
            &&& kept_before(codes, k + 1) == kept_before(codes, k) + 1
            &&& forall|j: int| 0 <= j < codes.len() && j != k && inline_kept(codes[j]) ==> #[trigger] kept_before(codes, j) != kept_before(codes, k)
        }),
{
    let codes = selected(doc, "code"@, seq!["class"@]);
    let pres = blocks_of_pres(tagged(doc, "pre"@));
    assert(codes.subrange(0, codes.len() as int) =~= codes);
    lemma_inline_positions(codes, codes.len() as int);
    let inl = inline_blocks(codes);
    lemma_kept_monotone(codes, k + 1, codes.len() as int);
    assert(kept_before(codes, k + 1) == kept_before(codes, k) + 1);
    assert((pres + inl)[(pres.len() + kept_before(codes, k)) as int] == inl[kept_before(codes, k) as int]);
    assert forall|j: int| 0 <= j < codes.len() && j != k && inline_kept(codes[j]) implies #[trigger] kept_before(codes, j) != kept_before(codes, k) by {
        if j < k {
            lemma_kept_monotone(codes, j + 1, k);
        } else {
            lemma_kept_monotone(codes, k + 1, j);
        }
    }
}

} // verus!
