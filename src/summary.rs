//! The one-row-per-page CSV summary of scraped pages.

use vstd::prelude::*;
use crate::model::{texts, ScrapedData};
use crate::text::{decimal, decimal_string, owned};

verus! {

/// What a `csv::Writer` with default settings writes for one record.
pub uninterp spec fn csv_record(fields: Seq<Seq<char>>) -> Seq<char>;

/// Relies on `csv::Writer::write_record` into an in-memory buffer, read
/// back with `Writer::into_inner` and `String::from_utf8`. None of them
/// fails here: a fresh writer checks field counts only against earlier
/// records, writing into a `Vec` cannot fail, and the fields are UTF-8.
#[verifier::external_body]
fn write_csv_record(fields: &Vec<String>) -> (r: Option<String>)
    ensures
        r is Some,
        r matches Some(s) ==> s@ == csv_record(texts(fields@)),
{
    let mut writer = csv::Writer::from_writer(vec![]);
    writer.write_record(fields).ok()?;
    let bytes = writer.into_inner().ok()?;
    String::from_utf8(bytes).ok()
}

/// The column names of the summary.
pub open spec fn summary_header() -> Seq<Seq<char>> {
    seq![
        "url"@,
        "status_code"@,
        "title"@,
        "headings_count"@,
        "paragraphs_count"@,
        "links_count"@,
        "images_count"@,
        "tables_count"@,
        "code_blocks_count"@,
        "depth"@,
    ]
}

/// One page's summary fields: URL, status, title (empty when absent), the
/// count of each facet, and depth (empty when absent).
pub open spec fn summary_fields(p: ScrapedData) -> Seq<Seq<char>> {
    seq![
        p.url@,
        decimal(p.status_code as nat),
        match p.title {
            Some(t) => t@,
            None => Seq::empty(),
        },
        decimal(p.headings@.len()),
        decimal(p.paragraphs@.len()),
        decimal(p.links@.len()),
        decimal(p.images@.len()),
        decimal(p.tables@.len()),
        decimal(p.code_blocks@.len()),
        match p.depth {
            Some(d) => decimal(d as nat),
            None => Seq::empty(),
        },
    ]
}

pub open spec fn summary_rows(ps: Seq<ScrapedData>) -> Seq<char>
    decreases ps.len(),
{
    if ps.len() == 0 {
        Seq::empty()
    } else {
        summary_rows(ps.drop_last()) + csv_record(summary_fields(ps.last()))
    }
}

fn header_fields() -> (r: Vec<String>)
    ensures
        texts(r@) == summary_header(),
{
    let mut v: Vec<String> = Vec::new();
    v.push(owned("url"));
    v.push(owned("status_code"));
    v.push(owned("title"));
    v.push(owned("headings_count"));
    v.push(owned("paragraphs_count"));
    v.push(owned("links_count"));
    v.push(owned("images_count"));
    v.push(owned("tables_count"));
    v.push(owned("code_blocks_count"));
    v.push(owned("depth"));
    assert(texts(v@) =~= summary_header());
    v
}

fn page_fields(p: &ScrapedData) -> (r: Vec<String>)
    ensures
        texts(r@) == summary_fields(*p),
{
    let mut v: Vec<String> = Vec::new();
    v.push(owned(p.url.as_str()));
    v.push(decimal_string(p.status_code as u64));
    v.push(match &p.title {
        Some(t) => owned(t.as_str()),
        None => String::new(),
    });
    v.push(decimal_string(p.headings.len() as u64));
    v.push(decimal_string(p.paragraphs.len() as u64));
    v.push(decimal_string(p.links.len() as u64));
    v.push(decimal_string(p.images.len() as u64));
    v.push(decimal_string(p.tables.len() as u64));
    v.push(decimal_string(p.code_blocks.len() as u64));
    v.push(match p.depth {
        Some(d) => decimal_string(d as u64),
        None => String::new(),
    });
    assert(texts(v@) =~= summary_fields(*p));
    v
}

/// The CSV summary: a header row, then one row per page, in order.
pub fn format_csv(results: &[ScrapedData]) -> (r: String)
    ensures
        r@ == csv_record(summary_header()) + summary_rows(results@),
{
    let header = header_fields();
    let mut out = match write_csv_record(&header) {
        Some(s) => s,
        None => unreached(),
    };
    let ghost start = out@;
    let mut i: usize = 0;
    assert(start + summary_rows(results@.subrange(0, 0)) =~= start);
    while i < results.len()
        invariant
            i <= results@.len(),
            start == csv_record(summary_header()),
            out@ == start + summary_rows(results@.subrange(0, i as int)),
        decreases results.len() - i,
    {
        assert(results@.subrange(0, i + 1).drop_last() =~= results@.subrange(0, i as int));
        let fields = page_fields(&results[i]);
        let row = match write_csv_record(&fields) {
            Some(s) => s,
            None => unreached(),
        };
        crate::text::push_text(&mut out, row.as_str());
        assert(out@ =~= start + summary_rows(results@.subrange(0, i + 1)));
        i = i + 1;
    }
    assert(results@.subrange(0, results@.len() as int) =~= results@);
    out
}

} // verus!
