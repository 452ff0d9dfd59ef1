//! Recognition of bot-challenge pages by the signatures that the common
//! protection services leave in the markup or the title.

use vstd::prelude::*;
use crate::text::{chars_of, concat_str, has_infix, has_text, lower_of, owned, to_lower};

verus! {

pub open spec fn cloudflare_reason() -> Seq<char> {
    "Cloudflare protection detected. The site is checking if you're a bot."@
}

pub open spec fn cloudflare_error_reason() -> Seq<char> {
    "Cloudflare error page detected. Access may be restricted."@
}

pub open spec fn recaptcha_reason() -> Seq<char> {
    "reCAPTCHA detected. Human verification required."@
}

pub open spec fn hcaptcha_reason() -> Seq<char> {
    "hCaptcha detected. Human verification required."@
}

pub open spec fn perimeterx_reason() -> Seq<char> {
    "PerimeterX bot detection detected."@
}

pub open spec fn datadome_reason() -> Seq<char> {
    "DataDome bot protection detected."@
}

pub open spec fn akamai_reason() -> Seq<char> {
    "Akamai bot protection detected."@
}

pub open spec fn js_challenge_reason() -> Seq<char> {
    "Cloudflare JavaScript challenge detected."@
}

/// The reason given for a title that announces a restriction.
pub open spec fn title_reason(title: Seq<char>) -> Seq<char> {
    "Access restriction detected: '"@ + title + "'"@
}

/// The lower-cased title holds one of the words of a refusal.
pub open spec fn title_flags(lowered: Seq<char>) -> bool {
    has_infix(lowered, "access denied"@) || has_infix(lowered, "blocked"@) || has_infix(
        lowered,
        "forbidden"@,
    ) || has_infix(lowered, "captcha"@)
}

/// The first signature, in a fixed order, that a page shows.
pub open spec fn anti_bot_reason(html: Seq<char>, title: Option<Seq<char>>) -> Option<Seq<char>> {
    if has_infix(html, "cf-browser-verification"@) || (has_infix(html, "Cloudflare"@) && has_infix(
        html,
        "challenge-platform"@,
    )) {
        Some(cloudflare_reason())
    } else if has_infix(html, "Cloudflare Ray ID"@) || has_infix(html, "cf-ray"@) {
        Some(cloudflare_error_reason())
    } else if has_infix(html, "recaptcha"@) || has_infix(html, "g-recaptcha"@) {
        Some(recaptcha_reason())
    } else if has_infix(html, "hcaptcha"@) || has_infix(html, "h-captcha"@) {
        Some(hcaptcha_reason())
    } else if has_infix(html, "PerimeterX"@) || has_infix(html, "px-captcha"@) {
        Some(perimeterx_reason())
    } else if has_infix(html, "datadome"@) || has_infix(html, "DataDome"@) {
        Some(datadome_reason())
    } else if has_infix(html, "akamai"@) && (has_infix(html, "bot"@) || has_infix(
        html,
        "challenge"@,
    )) {
        Some(akamai_reason())
    } else if title is Some && title_flags(lower_of(title->Some_0)) {
        Some(title_reason(title->Some_0))
    } else if has_infix(html, "Just a moment"@) || has_infix(html, "Checking your browser"@) {
        Some(js_challenge_reason())
    } else {
        None
    }
}

pub open spec fn opt_str(o: Option<&str>) -> Option<Seq<char>> {
    match o {
        Some(s) => Some(s@),
        None => None,
    }
}

/// Whether a title announces a restriction.
fn title_is_flagged(title: &str) -> (r: bool)
    ensures
        r == title_flags(lower_of(title@)),
{
    let lowered = to_lower(title);
    let l = chars_of(lowered.as_str());
    has_text(l.as_slice(), "access denied") || has_text(l.as_slice(), "blocked") || has_text(
        l.as_slice(),
        "forbidden",
    ) || has_text(l.as_slice(), "captcha")
}

/// The reason to treat a page as a bot challenge, if its markup or title
/// shows one of the known signatures; the first that matches, in a fixed
/// order.
pub fn detect_anti_bot_features(html: &str, title: Option<&str>) -> (r: Option<String>)
    ensures
        match r {
            Some(s) => anti_bot_reason(html@, opt_str(title)) == Some(s@),
            None => anti_bot_reason(html@, opt_str(title)) is None,
        },
{
    let h = chars_of(html);
    let h = h.as_slice();
    if has_text(h, "cf-browser-verification") || (has_text(h, "Cloudflare") && has_text(
        h,
        "challenge-platform",
    )) {
        return Some(owned("Cloudflare protection detected. The site is checking if you're a bot."));
    }
    if has_text(h, "Cloudflare Ray ID") || has_text(h, "cf-ray") {
        return Some(owned("Cloudflare error page detected. Access may be restricted."));
    }
    if has_text(h, "recaptcha") || has_text(h, "g-recaptcha") {
        return Some(owned("reCAPTCHA detected. Human verification required."));
    }
    if has_text(h, "hcaptcha") || has_text(h, "h-captcha") {
        return Some(owned("hCaptcha detected. Human verification required."));
    }
    if has_text(h, "PerimeterX") || has_text(h, "px-captcha") {
        return Some(owned("PerimeterX bot detection detected."));
    }
    if has_text(h, "datadome") || has_text(h, "DataDome") {
        return Some(owned("DataDome bot protection detected."));
    }
    if has_text(h, "akamai") && (has_text(h, "bot") || has_text(h, "challenge")) {
        return Some(owned("Akamai bot protection detected."));
    }
    if let Some(t) = title {
        if title_is_flagged(t) {
            let head = concat_str("Access restriction detected: '", t);
            return Some(concat_str(head.as_str(), "'"));
        }
    }
    if has_text(h, "Just a moment") || has_text(h, "Checking your browser") {
        return Some(owned("Cloudflare JavaScript challenge detected."));
    }
    None
}

} // verus!

verus! {

/// A page whose markup holds `cf-browser-verification` is always reported
/// as a Cloudflare challenge, whatever its title.
pub proof fn lemma_cloudflare_marker(html: Seq<char>, title: Option<Seq<char>>)
    requires
        has_infix(html, "cf-browser-verification"@),
    ensures
        anti_bot_reason(html, title) == Some(cloudflare_reason()),
        has_infix(cloudflare_reason(), "Cloudflare"@),
{
    reveal_strlit("Cloudflare protection detected. The site is checking if you're a bot.");
    reveal_strlit("Cloudflare");
    assert(cloudflare_reason().subrange(0, 10) =~= "Cloudflare"@);
    assert(crate::text::occurs_at(cloudflare_reason(), "Cloudflare"@, 0));
}

} // verus!
