//! Which links a crawl may follow: allow and block lists of domains and the
//! cross-domain switch.

use vstd::prelude::*;
use crate::strset::TextSet;
use crate::text::{chars_of, lemma_split_nonempty, lower_of, split_on, string_of, to_lower, trim_chars, trimmed};
use crate::url::{join_url, parse_url, same_text, url_join, url_parse, UrlView, WebUrl};

verus! {

/// The entry that one comma-separated piece contributes: trimmed and lower-cased.
pub open spec fn domain_entry(piece: Seq<char>) -> Seq<char> {
    lower_of(trimmed(piece))
}

/// The non-empty entries of the given pieces.
pub open spec fn domain_set(pieces: Seq<Seq<char>>) -> Set<Seq<char>>
    decreases pieces.len(),
{
    if pieces.len() == 0 {
        Set::empty()
    } else {
        let rest = domain_set(pieces.drop_last());
        if domain_entry(pieces.last()).len() > 0 {
            rest.insert(domain_entry(pieces.last()))
        } else {
            rest
        }
    }
}

/// The domains that a comma-separated list names.
pub open spec fn domain_list(s: Seq<char>) -> Set<Seq<char>> {
    domain_set(split_on(s, ','))
}

/// `ps` with `cur` put in front of its first piece.
pub open spec fn prepend_first(cur: Seq<char>, ps: Seq<Seq<char>>) -> Seq<Seq<char>> {
    ps.update(0, cur + ps[0])
}

proof fn lemma_split_step(s: Seq<char>, i: int, pieces: Seq<Seq<char>>, cur: Seq<char>, sep: char)
    requires
        0 <= i < s.len(),
        split_on(s, sep) == pieces + prepend_first(cur, split_on(s.subrange(i, s.len() as int), sep)),
    ensures
        s[i] == sep ==> split_on(s, sep) == pieces.push(cur) + prepend_first(
            Seq::empty(),
            split_on(s.subrange(i + 1, s.len() as int), sep),
        ),
        s[i] != sep ==> split_on(s, sep) == pieces + prepend_first(
            cur.push(s[i]),
            split_on(s.subrange(i + 1, s.len() as int), sep),
        ),
{
    let tail = s.subrange(i, s.len() as int);
    let rest = split_on(s.subrange(i + 1, s.len() as int), sep);
    assert(tail.drop_first() =~= s.subrange(i + 1, s.len() as int));
    lemma_split_nonempty(s.subrange(i + 1, s.len() as int), sep);
    if s[i] == sep {
        assert(split_on(tail, sep) == seq![Seq::<char>::empty()] + rest);
        assert(prepend_first(cur, seq![Seq::<char>::empty()] + rest) =~= seq![cur] + rest);
        assert(prepend_first(Seq::empty(), rest) =~= rest);
        assert(pieces + (seq![cur] + rest) =~= pieces.push(cur) + rest);
    } else {
        assert(split_on(tail, sep) == rest.update(0, seq![s[i]] + rest[0]));
        assert(cur + (seq![s[i]] + rest[0]) =~= cur.push(s[i]) + rest[0]);
        assert(prepend_first(cur, rest.update(0, seq![s[i]] + rest[0])) =~= prepend_first(
            cur.push(s[i]),
            rest,
        ));
    }
}

/// Adds the entry of `piece` to `set`, when it is not empty.
fn add_entry(set: &mut TextSet, piece: &Vec<char>, ghost_pieces: Ghost<Seq<Seq<char>>>)
    requires
        old(set)@ == domain_set(ghost_pieces@),
    ensures
        final(set)@ == domain_set(ghost_pieces@.push(piece@)),
{
    let t = trim_chars(piece.as_slice());
    let ts = string_of(t.as_slice());
    let lowered = to_lower(ts.as_str());
    proof {
        assert(ghost_pieces@.push(piece@).drop_last() =~= ghost_pieces@);
    }
    if !lowered.as_str().is_empty() {
        proof {
            assert(lowered@.len() > 0);
        }
        set.insert(lowered);
    } else {
        proof {
            assert(lowered@.len() == 0);
        }
    }
}

/// The set of domains named by a comma-separated list: each entry trimmed and
/// lower-cased, empty entries left out.
#[verifier::rlimit(30)]
pub fn parse_domain_list(domains_str: &str) -> (r: TextSet)
    ensures
        r@ == domain_list(domains_str@),
{
    let s = chars_of(domains_str);
    let n = s.len();
    let mut set = TextSet::new();
    let mut cur: Vec<char> = Vec::new();
    let ghost pieces: Seq<Seq<char>> = Seq::empty();
    let mut i: usize = 0;
    proof {
        lemma_split_nonempty(s@, ',');
        assert(s@.subrange(0, n as int) =~= s@);
        assert(prepend_first(Seq::empty(), split_on(s@, ',')) =~= split_on(s@, ','));
        assert(pieces + split_on(s@, ',') =~= split_on(s@, ','));
        assert(set@ == domain_set(pieces)) by {
            assert(set@ =~= Set::<Seq<char>>::empty());
        }
    }
    while i < n
        invariant
            i <= n == s@.len(),
            s@ == domains_str@,
            split_on(s@, ',') == pieces + prepend_first(cur@, split_on(s@.subrange(i as int, n as int), ',')),
            set@ == domain_set(pieces),
        decreases n - i,
    {
        proof {
            lemma_split_step(s@, i as int, pieces, cur@, ',');
        }
        if s[i] == ',' {
            add_entry(&mut set, &cur, Ghost(pieces));
            proof {
                pieces = pieces.push(cur@);
            }
            cur = Vec::new();
            proof {
                assert(cur@ =~= Seq::<char>::empty());
            }
        } else {
            cur.push(s[i]);
        }
        i = i + 1;
    }
    proof {
        assert(s@.subrange(n as int, n as int) =~= Seq::<char>::empty());
        assert(split_on(Seq::<char>::empty(), ',') == seq![Seq::<char>::empty()]);
        assert(prepend_first(cur@, seq![Seq::<char>::empty()]) =~= seq![cur@]);
        assert(pieces + seq![cur@] =~= pieces.push(cur@));
    }
    add_entry(&mut set, &cur, Ghost(pieces));
    set
}

/// A link's absolute form: parsed as an absolute URL, else resolved against
/// the base.
pub open spec fn resolved(link: Seq<char>, base: Seq<char>) -> Option<UrlView> {
    match url_parse(link) {
        Some(v) => Some(v),
        None => url_join(base, link),
    }
}

/// Whether a (lower-cased) domain passes the lists: the block list first,
/// then the allow list (which always admits the base domain), then the
/// cross-domain switch, else the base domain alone.
pub open spec fn admits(
    d: Seq<char>,
    base_domain: Seq<char>,
    allow: Set<Seq<char>>,
    block: Set<Seq<char>>,
    cross_domain: bool,
) -> bool {
    if block.contains(d) {
        false
    } else if allow.len() > 0 {
        d == base_domain || allow.contains(d)
    } else if cross_domain {
        true
    } else {
        d == base_domain
    }
}

/// The URL under which a link found on a page joins the frontier, if it does.
pub open spec fn enqueue_decision(
    link: Seq<char>,
    base: Seq<char>,
    base_domain: Seq<char>,
    visited: Set<Seq<char>>,
    allow: Set<Seq<char>>,
    block: Set<Seq<char>>,
    cross_domain: bool,
) -> Option<Seq<char>> {
    match resolved(link, base) {
        None => None,
        Some(v) => if visited.contains(v.href) {
            None
        } else {
            match v.domain {
                None => None,
                Some(d) => if admits(lower_of(d), base_domain, allow, block, cross_domain) {
                    Some(v.href)
                } else {
                    None
                },
            }
        },
    }
}

/// Decides whether a link found on a page joins the crawl frontier, and
/// under which absolute URL.
pub fn should_add_to_crawl_queue(
    link_url: &str,
    base_url: &WebUrl,
    base_domain: &str,
    visited: &TextSet,
    allow_domains: &TextSet,
    block_domains: &TextSet,
    cross_domain: bool,
) -> (r: Option<String>)
    ensures
        match r {
            Some(u) => enqueue_decision(link_url@, base_url@.href, base_domain@, visited@, allow_domains@, block_domains@, cross_domain) == Some(u@),
            None => enqueue_decision(link_url@, base_url@.href, base_domain@, visited@, allow_domains@, block_domains@, cross_domain) is None,
        },
{
    let parsed = match parse_url(link_url) {
        Some(u) => u,
        None => match join_url(base_url, link_url) {
            Some(u) => u,
            None => return None,
        },
    };
    let url_str = string_of(chars_of(parsed.as_str()).as_slice());
    if visited.contains(url_str.as_str()) {
        return None;
    }
    let link_domain = match parsed.domain() {
        Some(d) => to_lower(d),
        None => return None,
    };
    if !block_domains.is_empty() && block_domains.contains(link_domain.as_str()) {
        return None;
    }
    if !allow_domains.is_empty() {
        if same_text(link_domain.as_str(), base_domain) || allow_domains.contains(link_domain.as_str()) {
            return Some(url_str);
        } else {
            return None;
        }
    }
    if cross_domain {
        return Some(url_str);
    }
    if same_text(link_domain.as_str(), base_domain) {
        Some(url_str)
    } else {
        None
    }
}

/// The block list wins: a link whose domain is listed both as blocked and
/// as allowed is never enqueued, whatever the cross-domain switch says.
pub proof fn lemma_block_wins(
    link: Seq<char>,
    base: Seq<char>,
    base_domain: Seq<char>,
    visited: Set<Seq<char>>,
    allow: Set<Seq<char>>,
    block: Set<Seq<char>>,
    cross_domain: bool,
)
    requires
        resolved(link, base) matches Some(v) && v.domain matches Some(d) && block.contains(
            lower_of(d),
        ) && allow.contains(lower_of(d)),
    ensures
        enqueue_decision(link, base, base_domain, visited, allow, block, cross_domain) is None,
{
}

/// With cross-domain crawling on and no lists, every absolute URL that has a
/// domain and was not visited yet is enqueued, as it serializes.
pub proof fn lemma_cross_domain_admits_all(
    link: Seq<char>,
    base: Seq<char>,
    base_domain: Seq<char>,
    visited: Set<Seq<char>>,
)
    requires
        url_parse(link) matches Some(v) && v.domain is Some && !visited.contains(v.href),
    ensures
        enqueue_decision(link, base, base_domain, visited, Set::empty(), Set::empty(), true)
            == Some(url_parse(link)->Some_0.href),
{
}

} // verus!
