//! The plain-text report of scraped pages.

use vstd::prelude::*;
use crate::model::{texts, CodeBlock, CustomSelectorResult, Image, Link, Metadata, ScrapedData, Table};
use vstd::seq_lib::lemma_concat_associative;
use crate::text::{decimal, push_decimal, push_text, truncate_text, truncated};

verus! {

/// The concatenation of `item(s)` over the strings, in order.
pub open spec fn rendered(items: Seq<Seq<char>>, item: spec_fn(Seq<char>) -> Seq<char>) -> Seq<char>
    decreases items.len(),
{
    if items.len() == 0 {
        Seq::empty()
    } else {
        rendered(items.drop_last(), item) + item(items.last())
    }
}

proof fn lemma_rendered_step(items: Seq<Seq<char>>, item: spec_fn(Seq<char>) -> Seq<char>, i: int)
    requires
        0 <= i < items.len(),
    ensures
        rendered(items.subrange(0, i + 1), item) == rendered(items.subrange(0, i), item) + item(items[i]),
{
    assert(items.subrange(0, i + 1).drop_last() =~= items.subrange(0, i));
}

pub open spec fn min(a: nat, b: nat) -> nat {
    if a < b { a } else { b }
}

/// The line that counts the items left out of a preview.
pub open spec fn more_line(lead: Seq<char>, n: nat, limit: nat) -> Seq<char> {
    if n > limit {
        lead + decimal((n - limit) as nat) + " more\n"@
    } else {
        Seq::empty()
    }
}

/// A titled list: its heading with the item count, the first `limit` items
/// as `item` renders them, and a count of the rest; nothing when empty.
pub open spec fn list_section(
    title: Seq<char>,
    items: Seq<Seq<char>>,
    limit: nat,
    item: spec_fn(Seq<char>) -> Seq<char>,
) -> Seq<char> {
    if items.len() == 0 {
        Seq::empty()
    } else {
        "\n"@ + title + " ("@ + decimal(items.len()) + "):\n"@ + rendered(
            items.take(min(items.len(), limit) as int),
            item,
        ) + more_line("  ... and "@, items.len(), limit)
    }
}

/// Appends a titled list of items, each rendered by `format_fn`, showing at
/// most `preview_limit` of them.
pub fn format_text_list<F: Fn(&str) -> String>(
    output: &mut String,
    title: &str,
    items: &[String],
    preview_limit: usize,
    format_fn: F,
    rendering: Ghost<spec_fn(Seq<char>) -> Seq<char>>,
)
    requires
        forall|s: &str| #[trigger] format_fn.requires((s,)),
        forall|s: &str, r: String| format_fn.ensures((s,), r) ==> r@ == (rendering@)(s@),
    ensures
        final(output)@ == old(output)@ + list_section(
            title@,
            texts(items@),
            preview_limit as nat,
            rendering@,
        ),
{
    let ghost views = texts(items@);
    let ghost out0 = output@;
    if items.len() == 0 {
        assert(out0 + Seq::<char>::empty() =~= out0);
        return;
    }
    push_text(output, "\n");
    push_text(output, title);
    push_text(output, " (");
    push_decimal(output, items.len() as u64);
    push_text(output, "):\n");
    let ghost start = output@;
    let shown = if items.len() < preview_limit { items.len() } else { preview_limit };
    let mut i: usize = 0;
    assert(views.subrange(0, 0) =~= Seq::<Seq<char>>::empty());
    assert(start + Seq::<char>::empty() =~= start);
    while i < shown
        invariant
            i <= shown <= items@.len(),
            views == texts(items@),
            forall|s: &str| #[trigger] format_fn.requires((s,)),
            forall|s: &str, r: String| format_fn.ensures((s,), r) ==> r@ == (rendering@)(s@),
            output@ == start + rendered(views.subrange(0, i as int), rendering@),
        decreases shown - i,
    {
        proof {
            lemma_rendered_step(views, rendering@, i as int);
        }
        let line = format_fn(items[i].as_str());
        push_text(output, line.as_str());
        proof {
            assert(output@ =~= start + rendered(views.subrange(0, i + 1), rendering@));
        }
        i = i + 1;
    }
    assert(views.take(min(views.len(), preview_limit as nat) as int) =~= views.subrange(0, shown as int));
    let ghost mid = output@;
    if items.len() > preview_limit {
        push_text(output, "  ... and ");
        push_decimal(output, (items.len() - preview_limit) as u64);
        push_text(output, " more\n");
    }
    assert(output@ =~= mid + more_line("  ... and "@, views.len(), preview_limit as nat));
    assert(output@ =~= out0 + list_section(title@, views, preview_limit as nat, rendering@));
}

} // verus!

verus! {

/// A labelled line for a value that is present.
pub open spec fn opt_line(label: Seq<char>, v: Option<String>) -> Seq<char> {
    match v {
        Some(s) => label + s@ + "\n"@,
        None => Seq::empty(),
    }
}

fn push_opt_line(out: &mut String, label: &str, v: &Option<String>)
    ensures
        final(out)@ == old(out)@ + opt_line(label@, *v),
{
    match v {
        Some(s) => {
            push_text(out, label);
            push_text(out, s.as_str());
            push_text(out, "\n");
        },
        None => {
            assert(old(out)@ + Seq::<char>::empty() =~= old(out)@);
        },
    }
}

/// The metadata section of the report.
pub open spec fn metadata_text(m: Metadata) -> Seq<char> {
    "\nMetadata:\n"@ + opt_line("  Description: "@, m.description) + opt_line("  Keywords: "@, m.keywords)
        + opt_line("  Author: "@, m.author) + opt_line("  OG Title: "@, m.og_title) + opt_line(
        "  OG Image: "@,
        m.og_image,
    )
}

/// The metadata section: description, keywords, author, Open Graph title
/// and image, each when present.
pub fn format_text_metadata(metadata: &Metadata) -> (r: String)
    ensures
        r@ == metadata_text(*metadata),
{
    let mut out = String::new();
    push_text(&mut out, "\nMetadata:\n");
    push_opt_line(&mut out, "  Description: ", &metadata.description);
    push_opt_line(&mut out, "  Keywords: ", &metadata.keywords);
    push_opt_line(&mut out, "  Author: ", &metadata.author);
    push_opt_line(&mut out, "  OG Title: ", &metadata.og_title);
    push_opt_line(&mut out, "  OG Image: ", &metadata.og_image);
    assert(out@ =~= metadata_text(*metadata));
    out
}

/// Numbered match lines, from 1.
pub open spec fn match_lines(ms: Seq<Seq<char>>) -> Seq<char>
    decreases ms.len(),
{
    if ms.len() == 0 {
        Seq::empty()
    } else {
        match_lines(ms.drop_last()) + "    "@ + decimal(ms.len()) + ". "@ + ms.last() + "\n"@
    }
}

/// One selector's block: its count and its first three matches.
pub open spec fn selector_block(r: CustomSelectorResult) -> Seq<char> {
    let ms = texts(r.matches@);
    "  '"@ + r.selector@ + "' ("@ + decimal(ms.len()) + " matches):\n"@ + match_lines(
        ms.take(min(ms.len(), 3) as int),
    ) + more_line("    ... and "@, ms.len(), 3)
}

pub open spec fn selector_blocks(rs: Seq<CustomSelectorResult>) -> Seq<char>
    decreases rs.len(),
{
    if rs.len() == 0 {
        Seq::empty()
    } else {
        selector_blocks(rs.drop_last()) + selector_block(rs.last())
    }
}

pub open spec fn custom_selectors_text(rs: Seq<CustomSelectorResult>) -> Seq<char> {
    "\nCustom Selectors:\n"@ + selector_blocks(rs)
}

fn push_selector_block(out: &mut String, r: &CustomSelectorResult)
    ensures
        final(out)@ == old(out)@ + selector_block(*r),
{
    let ghost ms = texts(r.matches@);
    let n = r.matches.len();
    push_text(out, "  '");
    push_text(out, r.selector.as_str());
    push_text(out, "' (");
    push_decimal(out, n as u64);
    push_text(out, " matches):\n");
    let ghost start = out@;
    let shown = if n < 3 { n } else { 3 };
    let mut i: usize = 0;
    assert(start + match_lines(ms.subrange(0, 0)) =~= start);
    while i < shown
        invariant
            i <= shown <= n == r.matches@.len(),
            ms == texts(r.matches@),
            out@ == start + match_lines(ms.subrange(0, i as int)),
        decreases shown - i,
    {
        assert(ms.subrange(0, i + 1).drop_last() =~= ms.subrange(0, i as int));
        push_text(out, "    ");
        push_decimal(out, (i + 1) as u64);
        push_text(out, ". ");
        push_text(out, r.matches[i].as_str());
        push_text(out, "\n");
        assert(out@ =~= start + match_lines(ms.subrange(0, i + 1)));
        i = i + 1;
    }
    assert(ms.take(min(ms.len(), 3) as int) =~= ms.subrange(0, shown as int));
    let ghost mid = out@;
    if n > 3 {
        push_text(out, "    ... and ");
        push_decimal(out, (n - 3) as u64);
        push_text(out, " more\n");
    }
    assert(out@ =~= mid + more_line("    ... and "@, ms.len(), 3));
    assert(out@ =~= old(out)@ + selector_block(*r));
}

/// The custom-selector section: per selector, its match count and its first
/// three matches, numbered.
pub fn format_text_custom_selectors(custom_selectors: &[CustomSelectorResult]) -> (r: String)
    ensures
        r@ == custom_selectors_text(custom_selectors@),
{
    let mut out = String::new();
    push_text(&mut out, "\nCustom Selectors:\n");
    let ghost start = out@;
    let mut i: usize = 0;
    assert(start + selector_blocks(custom_selectors@.subrange(0, 0)) =~= start);
    while i < custom_selectors.len()
        invariant
            i <= custom_selectors@.len(),
            out@ == start + selector_blocks(custom_selectors@.subrange(0, i as int)),
        decreases custom_selectors.len() - i,
    {
        assert(custom_selectors@.subrange(0, i + 1).drop_last() =~= custom_selectors@.subrange(0, i as int));
        push_selector_block(&mut out, &custom_selectors[i]);
        assert(out@ =~= start + selector_blocks(custom_selectors@.subrange(0, i + 1)));
        i = i + 1;
    }
    assert(custom_selectors@.subrange(0, custom_selectors@.len() as int) =~= custom_selectors@);
    out
}

} // verus!

verus! {

pub open spec fn heading_line(s: Seq<char>) -> Seq<char> {
    "  - "@ + s + "\n"@
}

pub open spec fn heading_lines(hs: Seq<Seq<char>>) -> Seq<char>
    decreases hs.len(),
{
    if hs.len() == 0 {
        Seq::empty()
    } else {
        heading_lines(hs.drop_last()) + heading_line(hs.last())
    }
}

/// Every heading, one per line.
pub open spec fn headings_section(hs: Seq<Seq<char>>) -> Seq<char> {
    if hs.len() == 0 {
        Seq::empty()
    } else {
        "\n"@ + "Headings"@ + " ("@ + decimal(hs.len()) + "):\n"@ + heading_lines(hs)
    }
}

proof fn lemma_rendered_headings(hs: Seq<Seq<char>>, f: spec_fn(Seq<char>) -> Seq<char>)
    requires
        forall|s: Seq<char>| #[trigger] f(s) == heading_line(s),
    ensures
        rendered(hs, f) == heading_lines(hs),
    decreases hs.len(),
{
    if hs.len() > 0 {
        lemma_rendered_headings(hs.drop_last(), f);
    }
}

pub open spec fn paragraph_entry(k: nat, p: Seq<char>) -> Seq<char> {
    "  "@ + decimal(k) + ". "@ + truncated(p, 100) + "\n"@
}

pub open spec fn paragraph_lines(ps: Seq<Seq<char>>) -> Seq<char>
    decreases ps.len(),
{
    if ps.len() == 0 {
        Seq::empty()
    } else {
        paragraph_lines(ps.drop_last()) + paragraph_entry(ps.len(), ps.last())
    }
}

/// The first five paragraphs, numbered and cut to 100 bytes.
pub open spec fn paragraphs_section(ps: Seq<Seq<char>>) -> Seq<char> {
    if ps.len() == 0 {
        Seq::empty()
    } else {
        "\nParagraphs ("@ + decimal(ps.len()) + "):\n"@ + paragraph_lines(ps.take(min(ps.len(), 5) as int))
            + more_line("  ... and "@, ps.len(), 5)
    }
}

pub open spec fn link_entry(l: Link) -> Seq<char> {
    "  - "@ + l.text@ + " ("@ + l.url@ + ")\n"@
}

pub open spec fn link_lines(ls: Seq<Link>) -> Seq<char>
    decreases ls.len(),
{
    if ls.len() == 0 {
        Seq::empty()
    } else {
        link_lines(ls.drop_last()) + link_entry(ls.last())
    }
}

/// The first ten links, with their URLs.
pub open spec fn links_section(ls: Seq<Link>) -> Seq<char> {
    if ls.len() == 0 {
        Seq::empty()
    } else {
        "\nLinks ("@ + decimal(ls.len()) + "):\n"@ + link_lines(ls.take(min(ls.len(), 10) as int))
            + more_line("  ... and "@, ls.len(), 10)
    }
}

pub open spec fn alt_shown(alt: Seq<char>) -> Seq<char> {
    if alt.len() == 0 {
        "No alt text"@
    } else {
        alt
    }
}

pub open spec fn image_entry(i: Image) -> Seq<char> {
    "  - "@ + alt_shown(i.alt@) + " ("@ + i.src@ + ")\n"@
}

pub open spec fn image_lines(is: Seq<Image>) -> Seq<char>
    decreases is.len(),
{
    if is.len() == 0 {
        Seq::empty()
    } else {
        image_lines(is.drop_last()) + image_entry(is.last())
    }
}

/// The first five images, with their sources.
pub open spec fn images_section(is: Seq<Image>) -> Seq<char> {
    if is.len() == 0 {
        Seq::empty()
    } else {
        "\nImages ("@ + decimal(is.len()) + "):\n"@ + image_lines(is.take(min(is.len(), 5) as int))
            + more_line("  ... and "@, is.len(), 5)
    }
}

/// The strings, separated by `sep`.
pub open spec fn join_with(items: Seq<Seq<char>>, sep: Seq<char>) -> Seq<char>
    decreases items.len(),
{
    if items.len() == 0 {
        Seq::empty()
    } else if items.len() == 1 {
        items[0]
    } else {
        join_with(items.drop_last(), sep) + sep + items.last()
    }
}

pub open spec fn table_entry(k: nat, t: Table) -> Seq<char> {
    "  Table "@ + decimal(k) + ":\n"@ + (if t.headers@.len() > 0 {
        "    Headers: "@ + join_with(texts(t.headers@), ", "@) + "\n"@
    } else {
        Seq::empty()
    }) + "    Rows: "@ + decimal(t.rows@.len()) + "\n"@
}

pub open spec fn table_lines(ts: Seq<Table>) -> Seq<char>
    decreases ts.len(),
{
    if ts.len() == 0 {
        Seq::empty()
    } else {
        table_lines(ts.drop_last()) + table_entry(ts.len(), ts.last())
    }
}

/// The first three tables: headers and row counts.
pub open spec fn tables_section(ts: Seq<Table>) -> Seq<char> {
    if ts.len() == 0 {
        Seq::empty()
    } else {
        "\nTables ("@ + decimal(ts.len()) + "):\n"@ + table_lines(ts.take(min(ts.len(), 3) as int))
            + more_line("  ... and "@, ts.len(), 3)
    }
}

pub open spec fn code_entry(k: nat, c: CodeBlock) -> Seq<char> {
    "  "@ + decimal(k) + ". "@ + truncated(c.content@, 60) + (match c.language {
        Some(l) => " ("@ + l@ + ")"@,
        None => Seq::empty(),
    }) + "\n"@
}

pub open spec fn code_lines(cs: Seq<CodeBlock>) -> Seq<char>
    decreases cs.len(),
{
    if cs.len() == 0 {
        Seq::empty()
    } else {
        code_lines(cs.drop_last()) + code_entry(cs.len(), cs.last())
    }
}

/// The first three code blocks, cut to 60 bytes, with their language.
pub open spec fn code_section(cs: Seq<CodeBlock>) -> Seq<char> {
    if cs.len() == 0 {
        Seq::empty()
    } else {
        "\nCode Blocks ("@ + decimal(cs.len()) + "):\n"@ + code_lines(cs.take(min(cs.len(), 3) as int))
            + more_line("  ... and "@, cs.len(), 3)
    }
}

/// A rule of 80 `=` characters.
pub open spec fn rule() -> Seq<char> {
    Seq::new(80, |i: int| '=')
}

/// The opening of one page's report; pages after the first open with a rule.
pub open spec fn page_head(index: nat, p: ScrapedData) -> Seq<char> {
    separator_part(index) + status_part(p) + depth_part(p) + title_part(p)
}

pub open spec fn title_part(p: ScrapedData) -> Seq<char> {
    match p.title {
        Some(t) => "Title: "@ + t@ + "\n"@,
        None => Seq::empty(),
    }
}

pub open spec fn metadata_part(p: ScrapedData) -> Seq<char> {
    match p.metadata {
        Some(m) => metadata_text(m),
        None => Seq::empty(),
    }
}

/// The facet sections of one page's report.
pub open spec fn page_body(p: ScrapedData) -> Seq<char> {
    headings_section(texts(p.headings@)) + paragraphs_section(texts(p.paragraphs@))
        + links_section(p.links@) + images_section(p.images@) + tables_section(p.tables@)
        + code_section(p.code_blocks@) + metadata_part(p) + (if p.custom_selectors@.len() > 0 {
        custom_selectors_text(p.custom_selectors@)
    } else {
        Seq::empty()
    })
}

/// The report of one page.
pub open spec fn page_text(index: nat, p: ScrapedData) -> Seq<char> {
    page_head(index, p) + page_body(p)
}

pub open spec fn pages_text(ps: Seq<ScrapedData>) -> Seq<char>
    decreases ps.len(),
{
    if ps.len() == 0 {
        Seq::empty()
    } else {
        pages_text(ps.drop_last()) + page_text((ps.len() - 1) as nat, ps.last())
    }
}

fn push_paragraph_entry(out: &mut String, k: usize, p: &String)
    ensures
        final(out)@ == old(out)@ + paragraph_entry(k as nat, p@),
{
    push_text(out, "  ");
    push_decimal(out, k as u64);
    push_text(out, ". ");
    let t = truncate_text(p.as_str(), 100);
    push_text(out, t.as_str());
    push_text(out, "\n");
    assert(out@ =~= old(out)@ + paragraph_entry(k as nat, p@));
}

fn push_link_entry(out: &mut String, l: &Link)
    ensures
        final(out)@ == old(out)@ + link_entry(*l),
{
    push_text(out, "  - ");
    push_text(out, l.text.as_str());
    push_text(out, " (");
    push_text(out, l.url.as_str());
    push_text(out, ")\n");
    assert(out@ =~= old(out)@ + link_entry(*l));
}

fn push_image_entry(out: &mut String, i: &Image)
    ensures
        final(out)@ == old(out)@ + image_entry(*i),
{
    push_text(out, "  - ");
    if i.alt.as_str().is_empty() {
        push_text(out, "No alt text");
    } else {
        push_text(out, i.alt.as_str());
    }
    push_text(out, " (");
    push_text(out, i.src.as_str());
    push_text(out, ")\n");
    assert(out@ =~= old(out)@ + image_entry(*i));
}

fn push_paragraphs(out: &mut String, ps: &Vec<String>)
    ensures
        final(out)@ == old(out)@ + paragraphs_section(texts(ps@)),
{
    let ghost v = texts(ps@);
    if ps.len() == 0 {
        assert(old(out)@ + Seq::<char>::empty() =~= old(out)@);
        return;
    }
    push_text(out, "\nParagraphs (");
    push_decimal(out, ps.len() as u64);
    push_text(out, "):\n");
    let ghost start = out@;
    let shown = if ps.len() < 5 { ps.len() } else { 5 };
    let mut i: usize = 0;
    assert(start + paragraph_lines(v.subrange(0, 0)) =~= start);
    while i < shown
        invariant
            i <= shown <= ps@.len(),
            v == texts(ps@),
            out@ == start + paragraph_lines(v.subrange(0, i as int)),
        decreases shown - i,
    {
        assert(v.subrange(0, i + 1).drop_last() =~= v.subrange(0, i as int));
        push_paragraph_entry(out, i + 1, &ps[i]);
        proof {
            lemma_concat_associative(start, paragraph_lines(v.subrange(0, i as int)), paragraph_entry((i + 1) as nat, v[i as int]));
        }
        i = i + 1;
    }
    assert(v.take(min(v.len(), 5) as int) =~= v.subrange(0, shown as int));
    let ghost mid = out@;
    if ps.len() > 5 {
        push_text(out, "  ... and ");
        push_decimal(out, (ps.len() - 5) as u64);
        push_text(out, " more\n");
    }
    assert(out@ =~= mid + more_line("  ... and "@, v.len(), 5));
    assert(out@ =~= old(out)@ + paragraphs_section(v));
}

fn push_links(out: &mut String, ls: &Vec<Link>)
    ensures
        final(out)@ == old(out)@ + links_section(ls@),
{
    if ls.len() == 0 {
        assert(old(out)@ + Seq::<char>::empty() =~= old(out)@);
        return;
    }
    push_text(out, "\nLinks (");
    push_decimal(out, ls.len() as u64);
    push_text(out, "):\n");
    let ghost start = out@;
    let shown = if ls.len() < 10 { ls.len() } else { 10 };
    let mut i: usize = 0;
    assert(start + link_lines(ls@.subrange(0, 0)) =~= start);
    while i < shown
        invariant
            i <= shown <= ls@.len(),
            out@ == start + link_lines(ls@.subrange(0, i as int)),
        decreases shown - i,
    {
        assert(ls@.subrange(0, i + 1).drop_last() =~= ls@.subrange(0, i as int));
        push_link_entry(out, &ls[i]);
        proof {
            lemma_concat_associative(start, link_lines(ls@.subrange(0, i as int)), link_entry(ls@[i as int]));
        }
        i = i + 1;
    }
    assert(ls@.take(min(ls@.len(), 10) as int) =~= ls@.subrange(0, shown as int));
    let ghost mid = out@;
    if ls.len() > 10 {
        push_text(out, "  ... and ");
        push_decimal(out, (ls.len() - 10) as u64);
        push_text(out, " more\n");
    }
    assert(out@ =~= mid + more_line("  ... and "@, ls@.len(), 10));
    assert(out@ =~= old(out)@ + links_section(ls@));
}

fn push_images(out: &mut String, is: &Vec<Image>)
    ensures
        final(out)@ == old(out)@ + images_section(is@),
{
    if is.len() == 0 {
        assert(old(out)@ + Seq::<char>::empty() =~= old(out)@);
        return;
    }
    push_text(out, "\nImages (");
    push_decimal(out, is.len() as u64);
    push_text(out, "):\n");
    let ghost start = out@;
    let shown = if is.len() < 5 { is.len() } else { 5 };
    let mut i: usize = 0;
    assert(start + image_lines(is@.subrange(0, 0)) =~= start);
    while i < shown
        invariant
            i <= shown <= is@.len(),
            out@ == start + image_lines(is@.subrange(0, i as int)),
        decreases shown - i,
    {
        assert(is@.subrange(0, i + 1).drop_last() =~= is@.subrange(0, i as int));
        push_image_entry(out, &is[i]);
        proof {
            lemma_concat_associative(start, image_lines(is@.subrange(0, i as int)), image_entry(is@[i as int]));
        }
        i = i + 1;
    }
    assert(is@.take(min(is@.len(), 5) as int) =~= is@.subrange(0, shown as int));
    let ghost mid = out@;
    if is.len() > 5 {
        push_text(out, "  ... and ");
        push_decimal(out, (is.len() - 5) as u64);
        push_text(out, " more\n");
    }
    assert(out@ =~= mid + more_line("  ... and "@, is@.len(), 5));
    assert(out@ =~= old(out)@ + images_section(is@));
}

fn push_joined(out: &mut String, items: &Vec<String>, sep: &str)
    ensures
        final(out)@ == old(out)@ + join_with(texts(items@), sep@),
{
    let ghost v = texts(items@);
    let mut i: usize = 0;
    assert(old(out)@ + join_with(v.subrange(0, 0), sep@) =~= old(out)@);
    while i < items.len()
        invariant
            i <= items@.len(),
            v == texts(items@),
            out@ == old(out)@ + join_with(v.subrange(0, i as int), sep@),
        decreases items.len() - i,
    {
        assert(v.subrange(0, i + 1).drop_last() =~= v.subrange(0, i as int));
        if i > 0 {
            push_text(out, sep);
        }
        push_text(out, items[i].as_str());
        proof {
            if i == 0 {
                assert(v.subrange(0, 1)[0] == v[0]);
            }
        }
        assert(out@ =~= old(out)@ + join_with(v.subrange(0, i + 1), sep@));
        i = i + 1;
    }
    assert(v.subrange(0, items@.len() as int) =~= v);
}

fn push_table_entry(out: &mut String, k: usize, t: &Table)
    ensures
        final(out)@ == old(out)@ + table_entry(k as nat, *t),
{
    push_text(out, "  Table ");
    push_decimal(out, k as u64);
    push_text(out, ":\n");
    let ghost mid = out@;
    if t.headers.len() > 0 {
        push_text(out, "    Headers: ");
        push_joined(out, &t.headers, ", ");
        push_text(out, "\n");
    }
    assert(out@ =~= mid + (if t.headers@.len() > 0 {
        "    Headers: "@ + join_with(texts(t.headers@), ", "@) + "\n"@
    } else {
        Seq::<char>::empty()
    }));
    push_text(out, "    Rows: ");
    push_decimal(out, t.rows.len() as u64);
    push_text(out, "\n");
    assert(out@ =~= old(out)@ + table_entry(k as nat, *t));
}

fn push_code_entry(out: &mut String, k: usize, c: &CodeBlock)
    ensures
        final(out)@ == old(out)@ + code_entry(k as nat, *c),
{
    push_text(out, "  ");
    push_decimal(out, k as u64);
    push_text(out, ". ");
    let t = truncate_text(c.content.as_str(), 60);
    push_text(out, t.as_str());
    match &c.language {
        Some(l) => {
            push_text(out, " (");
            push_text(out, l.as_str());
            push_text(out, ")");
        },
        None => {},
    }
    push_text(out, "\n");
    assert(out@ =~= old(out)@ + code_entry(k as nat, *c));
}

fn push_tables(out: &mut String, ts: &Vec<Table>)
    ensures
        final(out)@ == old(out)@ + tables_section(ts@),
{
    if ts.len() == 0 {
        assert(old(out)@ + Seq::<char>::empty() =~= old(out)@);
        return;
    }
    push_text(out, "\nTables (");
    push_decimal(out, ts.len() as u64);
    push_text(out, "):\n");
    let ghost start = out@;
    let shown = if ts.len() < 3 { ts.len() } else { 3 };
    let mut i: usize = 0;
    assert(start + table_lines(ts@.subrange(0, 0)) =~= start);
    while i < shown
        invariant
            i <= shown <= ts@.len(),
            out@ == start + table_lines(ts@.subrange(0, i as int)),
        decreases shown - i,
    {
        assert(ts@.subrange(0, i + 1).drop_last() =~= ts@.subrange(0, i as int));
        push_table_entry(out, i + 1, &ts[i]);
        proof {
            lemma_concat_associative(start, table_lines(ts@.subrange(0, i as int)), table_entry((i + 1) as nat, ts@[i as int]));
        }
        assert(table_lines(ts@.subrange(0, i + 1)) == table_lines(ts@.subrange(0, i as int)) + table_entry((i + 1) as nat, ts@[i as int]));
        i = i + 1;
    }
    assert(ts@.take(min(ts@.len(), 3) as int) =~= ts@.subrange(0, shown as int));
    let ghost mid = out@;
    if ts.len() > 3 {
        push_text(out, "  ... and ");
        push_decimal(out, (ts.len() - 3) as u64);
        push_text(out, " more\n");
    }
    assert(out@ =~= mid + more_line("  ... and "@, ts@.len(), 3));
    assert(out@ =~= old(out)@ + tables_section(ts@));
}

fn push_code_blocks(out: &mut String, cs: &Vec<CodeBlock>)
    ensures
        final(out)@ == old(out)@ + code_section(cs@),
{
    if cs.len() == 0 {
        assert(old(out)@ + Seq::<char>::empty() =~= old(out)@);
        return;
    }
    push_text(out, "\nCode Blocks (");
    push_decimal(out, cs.len() as u64);
    push_text(out, "):\n");
    let ghost start = out@;
    let shown = if cs.len() < 3 { cs.len() } else { 3 };
    let mut i: usize = 0;
    assert(start + code_lines(cs@.subrange(0, 0)) =~= start);
    while i < shown
        invariant
            i <= shown <= cs@.len(),
            out@ == start + code_lines(cs@.subrange(0, i as int)),
        decreases shown - i,
    {
        assert(cs@.subrange(0, i + 1).drop_last() =~= cs@.subrange(0, i as int));
        push_code_entry(out, i + 1, &cs[i]);
        proof {
            lemma_concat_associative(start, code_lines(cs@.subrange(0, i as int)), code_entry((i + 1) as nat, cs@[i as int]));
        }
        assert(code_lines(cs@.subrange(0, i + 1)) == code_lines(cs@.subrange(0, i as int)) + code_entry((i + 1) as nat, cs@[i as int]));
        i = i + 1;
    }
    assert(cs@.take(min(cs@.len(), 3) as int) =~= cs@.subrange(0, shown as int));
    let ghost mid = out@;
    if cs.len() > 3 {
        push_text(out, "  ... and ");
        push_decimal(out, (cs.len() - 3) as u64);
        push_text(out, " more\n");
    }
    assert(out@ =~= mid + more_line("  ... and "@, cs@.len(), 3));
    assert(out@ =~= old(out)@ + code_section(cs@));
}

fn push_rule(out: &mut String)
    ensures
        final(out)@ == old(out)@ + rule(),
{
    let mut v: Vec<char> = Vec::new();
    let mut i: usize = 0;
    while i < 80
        invariant
            i <= 80,
            v@ == Seq::new(i as nat, |k: int| '='),
        decreases 80 - i,
    {
        v.push('=');
        assert(v@ =~= Seq::new((i + 1) as nat, |k: int| '='));
        i = i + 1;
    }
    let s = crate::text::string_of(v.as_slice());
    push_text(out, s.as_str());
}

/// One heading's line.
fn heading_item(heading: &str) -> (r: String)
    ensures
        r@ == heading_line(heading@),
{
    let mut line = String::new();
    push_text(&mut line, "  - ");
    push_text(&mut line, heading);
    push_text(&mut line, "\n");
    line
}

pub open spec fn separator_part(index: nat) -> Seq<char> {
    if index > 0 {
        "\n\n"@ + rule() + "\n\n"@
    } else {
        Seq::empty()
    }
}

pub open spec fn status_part(p: ScrapedData) -> Seq<char> {
    "URL: "@ + p.url@ + "\n"@ + "Status: "@ + decimal(p.status_code as nat) + "\n"@
}

pub open spec fn depth_part(p: ScrapedData) -> Seq<char> {
    match p.depth {
        Some(d) => "Depth: "@ + decimal(d as nat) + "\n"@,
        None => Seq::empty(),
    }
}

fn push_separator(out: &mut String, index: usize)
    ensures
        final(out)@ == old(out)@ + separator_part(index as nat),
{
    if index > 0 {
        push_text(out, "\n\n");
        push_rule(out);
        push_text(out, "\n\n");
        assert(out@ =~= old(out)@ + separator_part(index as nat));
    } else {
        assert(out@ =~= old(out)@ + separator_part(index as nat));
    }
}

fn push_status(out: &mut String, data: &ScrapedData)
    ensures
        final(out)@ == old(out)@ + status_part(*data),
{
    push_text(out, "URL: ");
    push_text(out, data.url.as_str());
    push_text(out, "\n");
    push_text(out, "Status: ");
    push_decimal(out, data.status_code as u64);
    push_text(out, "\n");
    assert(out@ =~= old(out)@ + status_part(*data));
}

fn push_depth(out: &mut String, data: &ScrapedData)
    ensures
        final(out)@ == old(out)@ + depth_part(*data),
{
    match data.depth {
        Some(d) => {
            push_text(out, "Depth: ");
            push_decimal(out, d as u64);
            push_text(out, "\n");
        },
        None => {},
    }
    assert(out@ =~= old(out)@ + depth_part(*data));
}

fn push_title(out: &mut String, data: &ScrapedData)
    ensures
        final(out)@ == old(out)@ + title_part(*data),
{
    match &data.title {
        Some(t) => {
            push_text(out, "Title: ");
            push_text(out, t.as_str());
            push_text(out, "\n");
        },
        None => {},
    }
    assert(out@ =~= old(out)@ + title_part(*data));
}

#[verifier::rlimit(30)]
fn push_page_head(out: &mut String, index: usize, data: &ScrapedData)
    ensures
        final(out)@ == old(out)@ + page_head(index as nat, *data),
{
    let ghost o0 = out@;
    let ghost a = separator_part(index as nat);
    let ghost b = status_part(*data);
    let ghost c = depth_part(*data);
    let ghost d = title_part(*data);
    push_separator(out, index);
    push_status(out, data);
    proof { lemma_concat_associative(o0, a, b); }
    push_depth(out, data);
    proof { lemma_concat_associative(o0, a + b, c); }
    push_title(out, data);
    proof {
        lemma_concat_associative(o0, a + b + c, d);
        assert(page_head(index as nat, *data) == a + b + c + d);
    }
}

fn push_headings(out: &mut String, hs: &Vec<String>)
    ensures
        final(out)@ == old(out)@ + headings_section(texts(hs@)),
{
    let ghost f = |s: Seq<char>| heading_line(s);
    format_text_list(out, "Headings", hs.as_slice(), hs.len(), heading_item, Ghost(f));
    proof {
        let v = texts(hs@);
        lemma_rendered_headings(v.take(v.len() as int), f);
        assert(v.take(v.len() as int) =~= v);
        assert(more_line("  ... and "@, v.len(), v.len()) =~= Seq::<char>::empty());
        assert(list_section("Headings"@, v, v.len(), f) =~= headings_section(v));
    }
}

#[verifier::rlimit(30)]
fn push_page_body(out: &mut String, data: &ScrapedData)
    ensures
        final(out)@ == old(out)@ + page_body(*data),
{
    let ghost o0 = out@;
    let ghost a = headings_section(texts(data.headings@));
    let ghost b = paragraphs_section(texts(data.paragraphs@));
    let ghost c = links_section(data.links@);
    let ghost d = images_section(data.images@);
    let ghost e = tables_section(data.tables@);
    let ghost f = code_section(data.code_blocks@);
    let ghost g = metadata_part(*data);
    let ghost h = if data.custom_selectors@.len() > 0 {
        custom_selectors_text(data.custom_selectors@)
    } else {
        Seq::<char>::empty()
    };
    push_headings(out, &data.headings);
    push_paragraphs(out, &data.paragraphs);
    proof { lemma_concat_associative(o0, a, b); }
    push_links(out, &data.links);
    proof { lemma_concat_associative(o0, a + b, c); }
    push_images(out, &data.images);
    proof { lemma_concat_associative(o0, a + b + c, d); }
    push_tables(out, &data.tables);
    proof { lemma_concat_associative(o0, a + b + c + d, e); }
    push_code_blocks(out, &data.code_blocks);
    proof { lemma_concat_associative(o0, a + b + c + d + e, f); }
    let ghost o6 = out@;
    match &data.metadata {
        Some(m) => {
            let t = format_text_metadata(m);
            push_text(out, t.as_str());
        },
        None => {},
    }
    assert(out@ =~= o6 + g);
    proof { lemma_concat_associative(o0, a + b + c + d + e + f, g); }
    let ghost o7 = out@;
    if data.custom_selectors.len() > 0 {
        let t = format_text_custom_selectors(data.custom_selectors.as_slice());
        push_text(out, t.as_str());
    }
    assert(out@ =~= o7 + h);
    proof {
        lemma_concat_associative(o0, a + b + c + d + e + f + g, h);
        assert(page_body(*data) == a + b + c + d + e + f + g + h);
    }
}

/// Appends the report of one page.
fn push_page(out: &mut String, index: usize, data: &ScrapedData)
    ensures
        final(out)@ == old(out)@ + page_text(index as nat, *data),
{
    push_page_head(out, index, data);
    push_page_body(out, data);
    assert(out@ =~= old(out)@ + page_text(index as nat, *data));
}

/// The plain-text report of the pages, in order.
pub fn format_text(results: &[ScrapedData]) -> (r: String)
    ensures
        r@ == pages_text(results@),
{
    let mut out = String::new();
    let mut i: usize = 0;
    assert(out@ =~= pages_text(results@.subrange(0, 0)));
    while i < results.len()
        invariant
            i <= results@.len(),
            out@ == pages_text(results@.subrange(0, i as int)),
        decreases results.len() - i,
    {
        assert(results@.subrange(0, i + 1).drop_last() =~= results@.subrange(0, i as int));
        push_page(&mut out, i, &results[i]);
        assert(out@ =~= pages_text(results@.subrange(0, i + 1)));
        i = i + 1;
    }
    assert(results@.subrange(0, results@.len() as int) =~= results@);
    out
}

} // verus!
