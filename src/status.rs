//! Classification of HTTP response status codes.

use vstd::prelude::*;
use crate::error::ScraperError;
use crate::text::{concat_str, decimal, decimal_string};

verus! {

/// The message for a status code that is neither a success nor 429.
pub open spec fn status_message(code: u16, url: Seq<char>) -> Seq<char> {
    if code == 400 {
        "Bad Request - The server couldn't understand the request to "@ + url
    } else if code == 401 {
        "Unauthorized - Authentication required to access "@ + url
    } else if code == 403 {
        "Forbidden - Access denied to "@ + url + ". This may indicate bot protection."@
    } else if code == 404 {
        "Not Found - The page "@ + url + " does not exist"@
    } else if code == 500 {
        "Internal Server Error - The server at "@ + url + " encountered an error"@
    } else if code == 502 {
        "Bad Gateway - The server at "@ + url + " received an invalid response"@
    } else if code == 503 {
        "Service Unavailable - The server at "@ + url + " is temporarily unavailable"@
    } else if code == 504 {
        "Gateway Timeout - The server at "@ + url + " took too long to respond"@
    } else {
        "HTTP error "@ + decimal(code as nat) + " while accessing "@ + url
    }
}

/// The message for a 429 response.
pub open spec fn rate_limit_message(url: Seq<char>) -> Seq<char> {
    "Too many requests to "@ + url + ". Please slow down and try again later."@
}

pub open spec fn is_success(code: u16) -> bool {
    200 <= code <= 299
}

/// The text around `url`.
fn around(before: &str, url: &str, after: &str) -> (r: String)
    ensures
        r@ == before@ + url@ + after@,
{
    let a = concat_str(before, url);
    concat_str(a.as_str(), after)
}

/// Classifies a response status: success for 2xx, a rate limit for 429, and
/// a descriptive failure carrying the code for anything else.
pub fn classify_http_status(status_code: u16, url: &str) -> (r: Result<(), ScraperError>)
    ensures
        is_success(status_code) <==> r is Ok,
        status_code == 429 ==> (r matches Err(ScraperError::RateLimited(m)) && m@
            == rate_limit_message(url@)),
        !is_success(status_code) && status_code != 429 ==> (r matches Err(
            ScraperError::HttpStatus(c, m),
        ) && c == status_code && m@ == status_message(status_code, url@)),
{
    if 200 <= status_code && status_code <= 299 {
        return Ok(());
    }
    if status_code == 429 {
        let m = around("Too many requests to ", url, ". Please slow down and try again later.");
        return Err(ScraperError::RateLimited(m));
    }
    let m = if status_code == 400 {
        concat_str("Bad Request - The server couldn't understand the request to ", url)
    } else if status_code == 401 {
        concat_str("Unauthorized - Authentication required to access ", url)
    } else if status_code == 403 {
        around("Forbidden - Access denied to ", url, ". This may indicate bot protection.")
    } else if status_code == 404 {
        around("Not Found - The page ", url, " does not exist")
    } else if status_code == 500 {
        around("Internal Server Error - The server at ", url, " encountered an error")
    } else if status_code == 502 {
        around("Bad Gateway - The server at ", url, " received an invalid response")
    } else if status_code == 503 {
        around("Service Unavailable - The server at ", url, " is temporarily unavailable")
    } else if status_code == 504 {
        around("Gateway Timeout - The server at ", url, " took too long to respond")
    } else {
        let d = decimal_string(status_code as u64);
        let a = concat_str("HTTP error ", d.as_str());
        around(a.as_str(), " while accessing ", url)
    };
    Err(ScraperError::HttpStatus(status_code, m))
}

} // verus!

verus! {

/// A 404 response's message always says "Not Found", whatever the URL.
pub proof fn lemma_not_found_message(url: Seq<char>)
    ensures
        crate::text::has_infix(status_message(404, url), "Not Found"@),
{
    reveal_strlit("Not Found - The page ");
    reveal_strlit("Not Found");
    let m = status_message(404, url);
    assert(m.subrange(0, 9) =~= "Not Found"@);
    assert(crate::text::occurs_at(m, "Not Found"@, 0));
}

} // verus!
