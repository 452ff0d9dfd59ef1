//! The kinds of failure that scraping a page can meet.

use vstd::prelude::*;
use crate::text::{concat_str, decimal, decimal_string};

verus! {

/// `reqwest::Error`, a transport failure, held opaque.
#[verifier::external_type_specification]
#[verifier::external_body]
pub struct ExReqwestError(reqwest::Error);

/// Why a page, or a whole run, could not be scraped.
#[derive(Debug)]
pub enum ScraperError {
    InvalidUrl(String),
    HttpError(reqwest::Error),
    InvalidSelector(String),
    Timeout(u64),
    DepthExceeded(usize),
    HttpStatus(u16, String),
    AntiBotDetected(String),
    NetworkError(String),
    RateLimited(String),
}

/// The message of each kind of failure; a transport error's own text is not
/// modelled.
pub open spec fn error_message(e: ScraperError) -> Seq<char> {
    match e {
        ScraperError::InvalidUrl(s) => "Invalid URL: "@ + s@,
        ScraperError::HttpError(_) => "HTTP request failed: "@,
        ScraperError::InvalidSelector(s) => "Invalid CSS selector: "@ + s@,
        ScraperError::Timeout(n) => "Timeout: Request took longer than "@ + decimal(n as nat)
            + " seconds"@,
        ScraperError::DepthExceeded(n) => "Crawl depth exceeded maximum: "@ + decimal(n as nat),
        ScraperError::HttpStatus(c, s) => "HTTP "@ + decimal(c as nat) + ": "@ + s@,
        ScraperError::AntiBotDetected(s) => "Anti-bot protection detected: "@ + s@,
        ScraperError::NetworkError(s) => "Network error: "@ + s@,
        ScraperError::RateLimited(s) => "Rate limited: "@ + s@,
    }
}

/// Relies on `reqwest::Error`'s `Display`.
#[verifier::external_body]
fn transport_error_text(e: &reqwest::Error) -> String {
    e.to_string()
}

impl ScraperError {
    /// Whether this failure ends the whole run rather than one page: an
    /// invalid selector is a configuration error.
    pub fn ends_run(&self) -> (r: bool)
        ensures
            r == (self is InvalidSelector),
    {
        match self {
            ScraperError::InvalidSelector(_) => true,
            _ => false,
        }
    }

    /// The human-readable message of this failure.
    pub fn message(&self) -> (r: String)
        ensures
            self is HttpError ==> error_message(*self).is_prefix_of(r@),
            !(self is HttpError) ==> r@ == error_message(*self),
    {
        match self {
            ScraperError::InvalidUrl(s) => concat_str("Invalid URL: ", s.as_str()),
            ScraperError::HttpError(e) => {
                let t = transport_error_text(e);
                let r = concat_str("HTTP request failed: ", t.as_str());
                assert(r@.subrange(0, error_message(*self).len() as int) =~= error_message(*self));
                r
            },
            ScraperError::InvalidSelector(s) => concat_str("Invalid CSS selector: ", s.as_str()),
            ScraperError::Timeout(n) => {
                let d = decimal_string(*n);
                let a = concat_str("Timeout: Request took longer than ", d.as_str());
                concat_str(a.as_str(), " seconds")
            },
            ScraperError::DepthExceeded(n) => {
                let d = decimal_string(*n as u64);
                concat_str("Crawl depth exceeded maximum: ", d.as_str())
            },
            ScraperError::HttpStatus(c, s) => {
                let d = decimal_string(*c as u64);
                let a = concat_str("HTTP ", d.as_str());
                let b = concat_str(a.as_str(), ": ");
                concat_str(b.as_str(), s.as_str())
            },
            ScraperError::AntiBotDetected(s) => concat_str("Anti-bot protection detected: ", s.as_str()),
            ScraperError::NetworkError(s) => concat_str("Network error: ", s.as_str()),
            ScraperError::RateLimited(s) => concat_str("Rate limited: ", s.as_str()),
        }
    }
}

} // verus!
