//! Absolute URLs and the resolution of links found on a page.

use vstd::prelude::*;
use crate::text::{chars_of, starts_with_chars, string_of};

verus! {

/// `url::Url`, held opaque.
#[verifier::external_type_specification]
#[verifier::external_body]
pub struct ExUrl(url::Url);

/// What the library reads of a parsed URL: its serialization and, where its
/// host is a domain name (not an IP address), that domain.
pub struct UrlView {
    pub href: Seq<char>,
    pub domain: Option<Seq<char>>,
}

/// A URL that parsed, with its serialization and domain held as plain strings.
pub struct WebUrl {
    href: String,
    domain: Option<String>,
    inner: url::Url,
}

/// What `url::Url::parse` makes of a string, when it accepts it.
pub uninterp spec fn url_parse(s: Seq<char>) -> Option<UrlView>;

/// What `url::Url::join` makes of a reference against a base URL, when it
/// accepts it.
pub uninterp spec fn url_join(base: Seq<char>, reference: Seq<char>) -> Option<UrlView>;

pub open spec fn opt_text(o: Option<String>) -> Option<Seq<char>> {
    match o {
        Some(s) => Some(s@),
        None => None,
    }
}

pub open spec fn opt_url(o: Option<WebUrl>) -> Option<UrlView> {
    match o {
        Some(u) => Some(u@),
        None => None,
    }
}

impl View for WebUrl {
    type V = UrlView;

    closed spec fn view(&self) -> UrlView {
        UrlView { href: self.href@, domain: opt_text(self.domain) }
    }
}

pub open spec fn is_scheme_char(c: char) -> bool {
    ('a' <= c <= 'z') || ('A' <= c <= 'Z') || ('0' <= c <= '9') || c == '+' || c == '-' || c
        == '.'
}

pub open spec fn is_tab_or_newline(c: char) -> bool {
    c == '\t' || c == '\n' || c == '\r'
}

/// `r` opens with a scheme as the URL parser reads one: past its leading
/// control characters and spaces, an ASCII letter, then scheme characters
/// (tabs and newlines are skipped), then a colon.
pub open spec fn opens_with_scheme(r: Seq<char>) -> bool {
    exists|k: int, i: int| #[trigger] scheme_spans(r, k, i)
}

/// `r[k..i]` is a scheme and `r[i]` its colon, with only control characters
/// and spaces before `k`.
pub open spec fn scheme_spans(r: Seq<char>, k: int, i: int) -> bool {
    &&& 0 <= k < i < r.len()
    &&& r[i] == ':'
    &&& forall|m: int| 0 <= m < k ==> (#[trigger] r[m] as u32) <= 0x20
    &&& ('a' <= r[k] <= 'z') || ('A' <= r[k] <= 'Z')
    &&& forall|m: int| k < m < i ==> is_scheme_char(#[trigger] r[m]) || is_tab_or_newline(r[m])
}

pub open spec fn ends_authority(c: char) -> bool {
    c == '/' || c == '?' || c == '#'
}

/// `s` opens with `http://` or `https://` and a character that does not end
/// the authority at once, so its authority is not empty. This checks the
/// prefix only: it says nothing of what follows.
pub open spec fn is_absolute(s: Seq<char>) -> bool {
    (seq!['h', 't', 't', 'p', ':', '/', '/'].is_prefix_of(s) && s.len() > 7 && !ends_authority(
        s[7],
    )) || (seq!['h', 't', 't', 'p', 's', ':', '/', '/'].is_prefix_of(s) && s.len() > 8
        && !ends_authority(s[8]))
}

/// Relies on `url::Url::parse`, and reads the result's serialization
/// (`Url::as_str`) and domain (`Url::domain`).
#[verifier::external_body]
pub(crate) fn parse_url(s: &str) -> (r: Option<WebUrl>)
    ensures
        opt_url(r) == url_parse(s@),
{
    match url::Url::parse(s) {
        Ok(u) => Some(
            WebUrl { href: u.as_str().to_string(), domain: u.domain().map(|d| d.to_string()), inner: u },
        ),
        Err(_) => None,
    }
}

/// Relies on `url::Url::join`, and reads the result as `parse_url` does.
/// A URL's serialization opens with its scheme and a colon
/// (`Url::check_invariants`).
/// A reference that opens with no scheme is resolved relative to the base
/// (`Parser::parse_relative`): the result keeps an `http`/`https` base's
/// scheme, and a special scheme's host is never empty (`ParseError::EmptyHost`).
#[verifier::external_body]
pub(crate) fn join_url(base: &WebUrl, reference: &str) -> (r: Option<WebUrl>)
    ensures
        opt_url(r) == url_join(base@.href, reference@),
        r matches Some(u) ==> opens_with_scheme(u@.href),
        r matches Some(u) ==> (is_absolute(base@.href) && !opens_with_scheme(reference@)
            ==> is_absolute(u@.href)),
{
    match base.inner.join(reference) {
        Ok(u) => Some(
            WebUrl { href: u.as_str().to_string(), domain: u.domain().map(|d| d.to_string()), inner: u },
        ),
        Err(_) => None,
    }
}

impl WebUrl {
    /// Parses an absolute URL.
    pub fn parse(s: &str) -> (r: Option<WebUrl>)
        ensures
            opt_url(r) == url_parse(s@),
    {
        parse_url(s)
    }

    /// The URL's serialization.
    pub fn as_str(&self) -> (r: &str)
        ensures
            r@ == self@.href,
    {
        self.href.as_str()
    }

    /// The URL's host, where that host is a domain name.
    pub fn domain(&self) -> (r: Option<&str>)
        ensures
            match r {
                Some(d) => self@.domain == Some(d@),
                None => self@.domain is None,
            },
    {
        match &self.domain {
            Some(d) => Some(d.as_str()),
            None => None,
        }
    }
}

/// `"https:"` followed by `r`.
pub open spec fn https_colon() -> Seq<char> {
    seq!['h', 't', 't', 'p', 's', ':']
}

pub open spec fn http_prefix() -> Seq<char> {
    seq!['h', 't', 't', 'p', ':', '/', '/']
}

pub open spec fn https_prefix() -> Seq<char> {
    seq!['h', 't', 't', 'p', 's', ':', '/', '/']
}

/// A protocol-relative reference (`//host...`) that names a host: something
/// follows the `//` and does not end the authority at once.
pub open spec fn names_host(r: Seq<char>) -> bool {
    r.len() > 2 && !ends_authority(r[2])
}

/// The absolute form of a reference found on the page at `base`: unchanged
/// when it already names `http` or `https`; given `https:` when it is
/// protocol-relative, names a host and then parses as a URL (none
/// otherwise); else resolved against the base.
pub open spec fn normalized(base: Seq<char>, r: Seq<char>) -> Option<Seq<char>> {
    if http_prefix().is_prefix_of(r) || https_prefix().is_prefix_of(r) {
        Some(r)
    } else if seq!['/', '/'].is_prefix_of(r) {
        if names_host(r) && url_parse(https_colon() + r) is Some {
            Some(https_colon() + r)
        } else {
            None
        }
    } else {
        match url_join(base, r) {
            Some(v) => Some(v.href),
            None => None,
        }
    }
}

fn http_prefix_exec() -> (r: Vec<char>)
    ensures
        r@ == http_prefix(),
{
    let mut v: Vec<char> = Vec::new();
    v.push('h');
    v.push('t');
    v.push('t');
    v.push('p');
    v.push(':');
    v.push('/');
    v.push('/');
    proof {
        assert(v@ =~= http_prefix());
    }
    v
}

fn https_prefix_exec() -> (r: Vec<char>)
    ensures
        r@ == https_prefix(),
{
    let mut v: Vec<char> = Vec::new();
    v.push('h');
    v.push('t');
    v.push('t');
    v.push('p');
    v.push('s');
    v.push(':');
    v.push('/');
    v.push('/');
    proof {
        assert(v@ =~= https_prefix());
    }
    v
}

/// Resolves a link or image reference found on the page at `base_url` into
/// an absolute URL string; `None` when it cannot be made one. The result
/// always opens with a scheme; for a reference that names none, against an
/// `http`/`https` base, it is an `http`/`https` URL with an authority.
pub fn normalize_url(base_url: &WebUrl, relative_url: &str) -> (r: Option<String>)
    ensures
        opt_text(r) == normalized(base_url@.href, relative_url@),
        r matches Some(out) ==> opens_with_scheme(out@),
        r matches Some(out) ==> (is_absolute(base_url@.href) && !opens_with_scheme(relative_url@)
            ==> is_absolute(out@)),
{
    let cs = chars_of(relative_url);
    let http = http_prefix_exec();
    let https = https_prefix_exec();
    if starts_with_chars(cs.as_slice(), http.as_slice()) || starts_with_chars(
        cs.as_slice(),
        https.as_slice(),
    ) {
        proof {
            if http_prefix().is_prefix_of(cs@) {
                assert(cs@.subrange(0, 7) == http_prefix());
                assert(cs@[0] == 'h' && cs@[1] == 't' && cs@[2] == 't' && cs@[3] == 'p' && cs@[4] == ':') by {
                    assert(cs@[0] == cs@.subrange(0, 7)[0]);
                    assert(cs@[1] == cs@.subrange(0, 7)[1]);
                    assert(cs@[2] == cs@.subrange(0, 7)[2]);
                    assert(cs@[3] == cs@.subrange(0, 7)[3]);
                    assert(cs@[4] == cs@.subrange(0, 7)[4]);
                }
                assert(scheme_spans(cs@, 0, 4));
            } else {
                assert(cs@.subrange(0, 8) == https_prefix());
                assert(cs@[0] == 'h' && cs@[1] == 't' && cs@[2] == 't' && cs@[3] == 'p' && cs@[4] == 's' && cs@[5] == ':') by {
                    assert(cs@[0] == cs@.subrange(0, 8)[0]);
                    assert(cs@[1] == cs@.subrange(0, 8)[1]);
                    assert(cs@[2] == cs@.subrange(0, 8)[2]);
                    assert(cs@[3] == cs@.subrange(0, 8)[3]);
                    assert(cs@[4] == cs@.subrange(0, 8)[4]);
                    assert(cs@[5] == cs@.subrange(0, 8)[5]);
                }
                assert(scheme_spans(cs@, 0, 5));
            }
        }
        return Some(string_of(cs.as_slice()));
    }
    let mut slashes: Vec<char> = Vec::new();
    slashes.push('/');
    slashes.push('/');
    assert(slashes@ =~= seq!['/', '/']);
    if starts_with_chars(cs.as_slice(), slashes.as_slice()) {
        let mut out: Vec<char> = Vec::new();
        out.push('h');
        out.push('t');
        out.push('t');
        out.push('p');
        out.push('s');
        out.push(':');
        let mut i: usize = 0;
        while i < cs.len()
            invariant
                i <= cs@.len(),
                out@ == https_colon() + cs@.subrange(0, i as int),
            decreases cs.len() - i,
        {
            out.push(cs[i]);
            proof {
                assert(out@ =~= https_colon() + cs@.subrange(0, i + 1));
            }
            i = i + 1;
        }
        assert(cs@.subrange(0, cs@.len() as int) =~= cs@);
        if cs.len() <= 2 || cs[2] == '/' || cs[2] == '?' || cs[2] == '#' {
            return None;
        }
        let candidate = string_of(out.as_slice());
        if parse_url(candidate.as_str()).is_none() {
            return None;
        }
        proof {
            assert(out@[8] == cs@[2]);
            assert(https_prefix().is_prefix_of(out@)) by {
                assert(out@.subrange(0, 8) =~= https_prefix());
            }
            assert(out@[0] == 'h' && out@[1] == 't' && out@[2] == 't' && out@[3] == 'p' && out@[4] == 's' && out@[5] == ':');
            assert(scheme_spans(out@, 0, 5));
        }
        return Some(candidate);
    }
    match join_url(base_url, relative_url) {
        Some(u) => Some(u.href),
        None => None,
    }
}

/// Whether `a` and `b` hold the same characters.
pub fn same_text(a: &str, b: &str) -> (r: bool)
    ensures
        r == (a@ == b@),
{
    let x = chars_of(a);
    let y = chars_of(b);
    if x.len() != y.len() {
        return false;
    }
    let mut i: usize = 0;
    while i < x.len()
        invariant
            x@.len() == y@.len(),
            x@ == a@,
            y@ == b@,
            i <= x@.len(),
            forall|m: int| 0 <= m < i ==> x@[m] == y@[m],
        decreases x.len() - i,
    {
        if x[i] != y[i] {
            return false;
        }
        i = i + 1;
    }
    assert(x@ =~= y@);
    true
}

/// Whether `url` parses as an absolute URL whose domain is `base_domain`.
pub fn is_same_domain(url: &str, base_domain: &str) -> (r: bool)
    ensures
        r == (match url_parse(url@) {
            Some(v) => v.domain == Some(base_domain@),
            None => false,
        }),
{
    match parse_url(url) {
        Some(u) => match u.domain() {
            Some(d) => same_text(d, base_domain),
            None => false,
        },
        None => false,
    }
}

} // verus!

verus! {

/// The URLs a list of lines names: each line trimmed, blank lines and
/// `#` comments skipped, lines that do not parse as a URL dropped.
pub open spec fn url_lines(lines: Seq<Seq<char>>) -> Seq<Seq<char>>
    decreases lines.len(),
{
    if lines.len() == 0 {
        Seq::empty()
    } else {
        let rest = url_lines(lines.drop_last());
        let t = crate::text::trimmed(lines.last());
        if t.len() == 0 || t[0] == '#' || url_parse(t) is None {
            rest
        } else {
            rest.push(t)
        }
    }
}

pub open spec fn line_views(v: Seq<String>) -> Seq<Seq<char>> {
    v.map_values(|s: String| s@)
}

/// The valid URLs of a URL list, one per line, in order.
pub fn select_url_lines(lines: &Vec<String>) -> (r: Vec<String>)
    ensures
        line_views(r@) == url_lines(line_views(lines@)),
{
    let ghost lv = line_views(lines@);
    let mut out: Vec<String> = Vec::new();
    let mut i: usize = 0;
    assert(lv.subrange(0, 0) =~= Seq::<Seq<char>>::empty());
    assert(line_views(out@) =~= Seq::<Seq<char>>::empty());
    while i < lines.len()
        invariant
            i <= lines@.len(),
            lv == line_views(lines@),
            line_views(out@) == url_lines(lv.subrange(0, i as int)),
        decreases lines.len() - i,
    {
        assert(lv.subrange(0, i + 1).drop_last() =~= lv.subrange(0, i as int));
        assert(lv.subrange(0, i + 1).last() == lines@[i as int]@);
        let t = crate::text::trim_str(lines[i].as_str());
        let tc = chars_of(t.as_str());
        if tc.len() > 0 && tc[0] != '#' {
            match parse_url(t.as_str()) {
                Some(_) => {
                    let ghost before = out@;
                    let ghost tv = t@;
                    out.push(t);
                    assert(line_views(out@) =~= line_views(before).push(tv));
                },
                None => {},
            }
        }
        i = i + 1;
    }
    assert(lv.subrange(0, lines@.len() as int) =~= lv);
    out
}

} // verus!

verus! {

/// The valid URLs of a URL list read from `file_path`; an error naming the
/// file when there is none.
pub fn urls_from_lines(lines: &Vec<String>, file_path: &str) -> (r: Result<Vec<String>, String>)
    ensures
        r is Ok <==> url_lines(line_views(lines@)).len() > 0,
        r matches Ok(v) ==> line_views(v@) == url_lines(line_views(lines@)),
        r matches Err(m) ==> m@ == "No valid URLs found in file '"@ + file_path@ + "'"@,
{
    let urls = select_url_lines(lines);
    if urls.len() == 0 {
        let head = crate::text::concat_str("No valid URLs found in file '", file_path);
        return Err(crate::text::concat_str(head.as_str(), "'"));
    }
    Ok(urls)
}

} // verus!
