//! The crawl controller: a breadth-first frontier with a visited set, depth
//! and page caps. It decides; the caller fetches each page it hands out and
//! reports back.

use std::collections::VecDeque;
use vstd::prelude::*;
use crate::domain::{enqueue_decision, should_add_to_crawl_queue};
use crate::error::ScraperError;
use crate::model::{Link, ScrapedData};
use crate::strset::TextSet;
use crate::text::{concat_str, owned};
use crate::url::{parse_url, url_parse, WebUrl};

verus! {

/// The limits and domain policy of one crawl, fixed for the run.
pub struct CrawlConfig {
    pub max_depth: usize,
    pub max_pages: usize,
    pub cross_domain: bool,
    pub allow_domains: TextSet,
    pub block_domains: TextSet,
}

/// A frontier entry: a URL and the depth at which it was found.
pub open spec fn entry_views(v: Seq<(String, usize)>) -> Seq<(Seq<char>, nat)> {
    v.map_values(|e: (String, usize)| (e.0@, e.1 as nat))
}

pub open spec fn page_urls(v: Seq<ScrapedData>) -> Seq<Seq<char>> {
    v.map_values(|p: ScrapedData| p.url@)
}

/// The state of one crawl.
pub struct Crawler {
    config: CrawlConfig,
    base: WebUrl,
    base_domain: String,
    frontier: VecDeque<(String, usize)>,
    visited: TextSet,
    results: Vec<ScrapedData>,
    in_flight: Option<(String, usize)>,
    stopped: bool,
}

/// Index of the first pending entry that may be fetched: not visited yet and
/// within the depth cap; `pending.len()` when there is none.
pub open spec fn first_fetchable(pending: Seq<(Seq<char>, nat)>, visited: Set<Seq<char>>, max_depth: nat) -> int
    decreases pending.len(),
{
    if pending.len() == 0 {
        0
    } else if !visited.contains(pending[0].0) && pending[0].1 <= max_depth {
        0
    } else {
        1 + first_fetchable(pending.drop_first(), visited, max_depth)
    }
}

/// The entries that a fetched page adds to the frontier: its links, in
/// order, as the domain filter accepts them, one level deeper; none at the
/// depth cap.
pub open spec fn discovered(
    links: Seq<Seq<char>>,
    base: Seq<char>,
    base_domain: Seq<char>,
    visited: Set<Seq<char>>,
    allow: Set<Seq<char>>,
    block: Set<Seq<char>>,
    cross_domain: bool,
    depth: nat,
) -> Seq<(Seq<char>, nat)>
    decreases links.len(),
{
    if links.len() == 0 {
        Seq::empty()
    } else {
        let rest = discovered(links.drop_last(), base, base_domain, visited, allow, block, cross_domain, depth);
        match enqueue_decision(links.last(), base, base_domain, visited, allow, block, cross_domain) {
            Some(u) => rest.push((u, depth + 1)),
            None => rest,
        }
    }
}

/// `q` is the page `p`, filed under its own URL and depth.
pub open spec fn same_content(p: ScrapedData, q: ScrapedData) -> bool {
    &&& q.status_code == p.status_code
    &&& q.title == p.title
    &&& q.headings == p.headings
    &&& q.paragraphs == p.paragraphs
    &&& q.links == p.links
    &&& q.images == p.images
    &&& q.tables == p.tables
    &&& q.code_blocks == p.code_blocks
    &&& q.metadata == p.metadata
    &&& q.custom_selectors == p.custom_selectors
}

pub open spec fn link_urls(v: Seq<Link>) -> Seq<Seq<char>> {
    v.map_values(|l: Link| l.url@)
}

impl Crawler {
    /// The state's invariant.
    pub closed spec fn wf(&self) -> bool {
        &&& self.results@.len() <= self.config.max_pages
        &&& page_urls(self.results@).no_duplicates()
        &&& forall|i: int| 0 <= i < self.results@.len() ==> self.visited@.contains(#[trigger] self.results@[i].url@)
        &&& forall|i: int| 0 <= i < self.frontier@.len() ==> (#[trigger] self.frontier@[i]).1 <= self.config.max_depth
        &&& self.in_flight matches Some((u, d)) ==> (self.visited@.contains(u@) && d <= self.config.max_depth
            && self.results@.len() < self.config.max_pages && !page_urls(self.results@).contains(u@))
    }

    /// The entries still waiting, in order.
    pub closed spec fn pending(&self) -> Seq<(Seq<char>, nat)> {
        entry_views(self.frontier@)
    }

    pub closed spec fn visited_set(&self) -> Set<Seq<char>> {
        self.visited@
    }

    pub closed spec fn page_count(&self) -> nat {
        self.results@.len()
    }

    /// The pages recorded so far, in order.
    pub closed spec fn recorded(&self) -> Seq<ScrapedData> {
        self.results@
    }

    pub closed spec fn result_urls(&self) -> Seq<Seq<char>> {
        page_urls(self.results@)
    }

    pub closed spec fn limits(&self) -> (nat, nat) {
        (self.config.max_depth as nat, self.config.max_pages as nat)
    }

    pub closed spec fn current(&self) -> Option<(Seq<char>, nat)> {
        match self.in_flight {
            Some((u, d)) => Some((u@, d as nat)),
            None => None,
        }
    }

    /// The crawl was ended by a configuration error.
    pub closed spec fn stopped(&self) -> bool {
        self.stopped
    }

    pub closed spec fn base_view(&self) -> (Seq<char>, Seq<char>) {
        (self.base@.href, self.base_domain@)
    }

    pub closed spec fn policy(&self) -> (Set<Seq<char>>, Set<Seq<char>>, bool) {
        (self.config.allow_domains@, self.config.block_domains@, self.config.cross_domain)
    }

    /// Starts a crawl at `start_url`, which must parse and have a domain.
    pub fn new(start_url: &str, config: CrawlConfig) -> (r: Result<Crawler, ScraperError>)
        ensures
            r is Ok <==> (url_parse(start_url@) matches Some(v) && v.domain is Some),
            url_parse(start_url@) is None ==> (r matches Err(ScraperError::InvalidUrl(m)) && m@
                == start_url@ + ": not an absolute URL"@),
            url_parse(start_url@) matches Some(v) && v.domain is None ==> (r matches Err(
                ScraperError::InvalidUrl(m),
            ) && m@ == "URL has no domain"@),
            r matches Ok(c) ==> c.wf() && c.pending() == seq![(start_url@, 0nat)] && c.page_count() == 0
                && c.visited_set() == Set::<Seq<char>>::empty() && c.current() is None && !c.stopped()
                && c.limits() == (config.max_depth as nat, config.max_pages as nat)
                && c.base_view() == (url_parse(start_url@)->Some_0.href, url_parse(start_url@)->Some_0.domain->Some_0)
                && c.policy() == (config.allow_domains@, config.block_domains@, config.cross_domain),
    {
        let base = match parse_url(start_url) {
            Some(u) => u,
            None => return Err(ScraperError::InvalidUrl(concat_str(start_url, ": not an absolute URL"))),
        };
        let base_domain = match base.domain() {
            Some(d) => owned(d),
            None => return Err(ScraperError::InvalidUrl(owned("URL has no domain"))),
        };
        let mut frontier: VecDeque<(String, usize)> = VecDeque::new();
        frontier.push_back((owned(start_url), 0));
        let r = Crawler {
            config,
            base,
            base_domain,
            frontier,
            visited: TextSet::new(),
            results: Vec::new(),
            in_flight: None,
            stopped: false,
        };
        proof {
            assert(page_urls(r.results@) =~= Seq::<Seq<char>>::empty());
            assert(r.pending() =~= seq![(start_url@, 0nat)]);
        }
        Ok(r)
    }

    /// Hands out the next page to fetch, skipping entries already visited
    /// or deeper than the cap, and marks it visited. `None` once the
    /// frontier is empty or the page cap is reached.
    #[verifier::rlimit(30)]
    pub fn next_fetch(&mut self) -> (r: Option<(String, usize)>)
        requires
            old(self).wf(),
            old(self).current() is None,
        ensures
            final(self).wf(),
            final(self).page_count() == old(self).page_count(),
            final(self).result_urls() == old(self).result_urls(),
            final(self).recorded() == old(self).recorded(),
            final(self).limits() == old(self).limits(),
            final(self).base_view() == old(self).base_view(),
            final(self).policy() == old(self).policy(),
            final(self).stopped() == old(self).stopped(),
            old(self).stopped() || old(self).page_count() >= old(self).limits().1 ==> r is None
                && final(self).pending() == old(self).pending() && final(self).visited_set() == old(self).visited_set(),
            !old(self).stopped() && old(self).page_count() < old(self).limits().1 ==> ({
                let k = first_fetchable(old(self).pending(), old(self).visited_set(), old(self).limits().0);
                if k < old(self).pending().len() {
                    r matches Some((u, d)) && (u@, d as nat) == old(self).pending()[k]
                        && final(self).pending() == old(self).pending().subrange(k + 1, old(self).pending().len() as int)
                        && final(self).visited_set() == old(self).visited_set().insert(u@)
                } else {
                    r is None && final(self).pending() == Seq::<(Seq<char>, nat)>::empty()
                        && final(self).visited_set() == old(self).visited_set()
                }
            }),
            r matches Some((u, d)) ==> d <= old(self).limits().0 && !old(self).visited_set().contains(u@)
                && final(self).current() == Some((u@, d as nat)),
            r is None ==> final(self).current() is None,
    {
        if self.stopped || self.results.len() >= self.config.max_pages {
            return None;
        }
        let ghost start = self.pending();
        let ghost popped: int = 0;
        loop
            invariant
                self.wf(),
                self.in_flight is None,
                self.results@.len() < self.config.max_pages,
                start == old(self).pending(),
                0 <= popped <= start.len(),
                self.pending() == start.subrange(popped, start.len() as int),
                first_fetchable(start, self.visited@, self.config.max_depth as nat) == popped
                    + first_fetchable(self.pending(), self.visited@, self.config.max_depth as nat),
                self.config == old(self).config,
                self.results == old(self).results,
                self.base == old(self).base,
                self.base_domain == old(self).base_domain,
                self.visited@ == old(self).visited@,
                self.stopped == old(self).stopped,
                !old(self).stopped,
            decreases self.frontier@.len(),
        {
            let ghost p = self.pending();
            match self.frontier.pop_front() {
                None => {
                    proof {
                        assert(self.pending() =~= Seq::<(Seq<char>, nat)>::empty());
                    }
                    return None;
                },
                Some(entry) => {
                    let (url, depth) = entry;
                    assert(p[0] == (url@, depth as nat));
                    assert(p.drop_first() =~= self.pending());
                    proof {
                        assert(start.subrange(popped + 1, start.len() as int) =~= self.pending());
                        popped = popped + 1;
                    }
                    let seen = self.visited.contains(url.as_str());
                    if !seen && depth <= self.config.max_depth {
                        let ghost before = self.visited@;
                        proof {
                            let md = self.config.max_depth as nat;
                            assert(first_fetchable(p, before, md) == 0);
                            assert(start[popped - 1] == p[0]);
                            if page_urls(self.results@).contains(url@) {
                                let j = choose|j: int| 0 <= j < self.results@.len() && page_urls(self.results@)[j] == url@;
                                assert(self.visited@.contains(self.results@[j].url@));
                            }
                        }
                        self.visited.insert(owned(url.as_str()));
                        self.in_flight = Some((owned(url.as_str()), depth));
                        return Some((url, depth));
                    }
                },
            }
        }
    }

    /// Records the page just fetched: it joins the results, and, below the
    /// depth cap, its links join the frontier as the domain filter admits
    /// them. The page is filed under the URL and depth it was fetched at.
    #[verifier::rlimit(30)]
    pub fn record_page(&mut self, page: ScrapedData)
        requires
            old(self).wf(),
            old(self).current() is Some,
        ensures
            final(self).wf(),
            final(self).current() is None,
            final(self).page_count() == old(self).page_count() + 1,
            final(self).result_urls() == old(self).result_urls().push(old(self).current()->Some_0.0),
            final(self).recorded().drop_last() == old(self).recorded(),
            final(self).recorded().len() == old(self).recorded().len() + 1,
            same_content(page, final(self).recorded().last()),
            final(self).recorded().last().depth == Some(old(self).current()->Some_0.1 as usize),
            final(self).stopped() == old(self).stopped(),
            final(self).visited_set() == old(self).visited_set(),
            final(self).limits() == old(self).limits(),
            final(self).base_view() == old(self).base_view(),
            final(self).policy() == old(self).policy(),
            final(self).pending() == old(self).pending() + if old(self).current()->Some_0.1 < old(self).limits().0 {
                discovered(
                    link_urls(page.links@),
                    old(self).base_view().0,
                    old(self).base_view().1,
                    old(self).visited_set(),
                    old(self).policy().0,
                    old(self).policy().1,
                    old(self).policy().2,
                    old(self).current()->Some_0.1,
                )
            } else {
                Seq::empty()
            },
    {
        let (url, depth) = match self.in_flight.take() {
            Some(e) => e,
            None => return,
        };
        let ghost p0 = self.pending();
        if depth < self.config.max_depth {
            let mut i: usize = 0;
            assert(link_urls(page.links@).subrange(0, 0) =~= Seq::<Seq<char>>::empty());
            assert(p0 + Seq::<(Seq<char>, nat)>::empty() =~= p0);
            while i < page.links.len()
                invariant
                    i <= page.links@.len(),
                    depth < self.config.max_depth,
                    forall|k: int| 0 <= k < self.frontier@.len() ==> (#[trigger] self.frontier@[k]).1 <= self.config.max_depth,
                    self.pending() == p0 + discovered(
                        link_urls(page.links@).subrange(0, i as int),
                        self.base@.href,
                        self.base_domain@,
                        self.visited@,
                        self.config.allow_domains@,
                        self.config.block_domains@,
                        self.config.cross_domain,
                        depth as nat,
                    ),
                    self.config == old(self).config,
                    self.results == old(self).results,
                    self.base == old(self).base,
                    self.base_domain == old(self).base_domain,
                    self.visited@ == old(self).visited@,
                    self.in_flight is None,
                    self.stopped == old(self).stopped,
                decreases page.links.len() - i,
            {
                let ghost lu = link_urls(page.links@);
                assert(lu.subrange(0, i + 1).drop_last() =~= lu.subrange(0, i as int));
                assert(lu.subrange(0, i + 1).last() == page.links@[i as int].url@);
                match should_add_to_crawl_queue(
                    page.links[i].url.as_str(),
                    &self.base,
                    self.base_domain.as_str(),
                    &self.visited,
                    &self.config.allow_domains,
                    &self.config.block_domains,
                    self.config.cross_domain,
                ) {
                    Some(u) => {
                        let ghost before = self.pending();
                        let ghost uv = u@;
                        self.frontier.push_back((u, depth + 1));
                        assert(self.pending() =~= before.push((uv, (depth + 1) as nat)));
                    },
                    None => {},
                }
                i = i + 1;
            }
            assert(link_urls(page.links@).subrange(0, page.links@.len() as int) =~= link_urls(page.links@));
        } else {
            assert(p0 + Seq::<(Seq<char>, nat)>::empty() =~= p0);
        }
        let mut page = page;
        let ghost uv = url@;
        page.url = url;
        page.depth = Some(depth);
        let ghost before = self.results@;
        self.results.push(page);
        proof {
            assert(self.results@.drop_last() =~= before);
            assert(page_urls(self.results@) =~= page_urls(before).push(uv));
            assert forall|i: int| 0 <= i < self.results@.len() implies self.visited@.contains(#[trigger] self.results@[i].url@) by {
                if i < before.len() {
                    assert(self.results@[i] == before[i]);
                }
            }
        }
    }

    /// Records that fetching the page just handed out failed: it yields no
    /// result, and the crawl goes on.
    pub fn record_failure(&mut self)
        requires
            old(self).wf(),
        ensures
            final(self).wf(),
            final(self).current() is None,
            final(self).pending() == old(self).pending(),
            final(self).visited_set() == old(self).visited_set(),
            final(self).page_count() == old(self).page_count(),
            final(self).result_urls() == old(self).result_urls(),
            final(self).recorded() == old(self).recorded(),
            final(self).limits() == old(self).limits(),
            final(self).base_view() == old(self).base_view(),
            final(self).policy() == old(self).policy(),
            final(self).stopped() == old(self).stopped(),
    {
        self.in_flight = None;
    }

    /// Records how fetching the page just handed out ended. A page joins the
    /// results as `record_page` says; a per-page failure yields no result
    /// and the crawl goes on; an invalid selector, a configuration error,
    /// ends the whole crawl and is handed back.
    pub fn record_outcome(&mut self, outcome: Result<ScrapedData, ScraperError>) -> (r: Result<(), ScraperError>)
        requires
            old(self).wf(),
            old(self).current() is Some,
        ensures
            final(self).wf(),
            final(self).current() is None,
            final(self).limits() == old(self).limits(),
            final(self).base_view() == old(self).base_view(),
            final(self).policy() == old(self).policy(),
            final(self).visited_set() == old(self).visited_set(),
            outcome matches Ok(page) ==> r is Ok && final(self).stopped() == old(self).stopped()
                && final(self).page_count() == old(self).page_count() + 1
                && final(self).recorded().drop_last() == old(self).recorded()
                && same_content(page, final(self).recorded().last())
                && final(self).result_urls() == old(self).result_urls().push(old(self).current()->Some_0.0),
            outcome matches Err(e) && !(e is InvalidSelector) ==> r is Ok && final(self).stopped() == old(self).stopped()
                && final(self).recorded() == old(self).recorded() && final(self).pending() == old(self).pending(),
            outcome matches Err(ScraperError::InvalidSelector(m)) ==> (r matches Err(ScraperError::InvalidSelector(m2))
                && m2 == m) && final(self).stopped() && final(self).recorded() == old(self).recorded(),
    {
        match outcome {
            Ok(page) => {
                self.record_page(page);
                Ok(())
            },
            Err(ScraperError::InvalidSelector(m)) => {
                self.record_failure();
                self.stopped = true;
                Err(ScraperError::InvalidSelector(m))
            },
            Err(_) => {
                self.record_failure();
                Ok(())
            },
        }
    }

    /// The entries still waiting, in order.
    pub fn frontier(&self) -> (r: Vec<(String, usize)>)
        requires
            self.wf(),
        ensures
            entry_views(r@) == self.pending(),
    {
        let mut out: Vec<(String, usize)> = Vec::new();
        let mut i: usize = 0;
        assert(entry_views(out@) =~= Seq::<(Seq<char>, nat)>::empty());
        while i < self.frontier.len()
            invariant
                i <= self.frontier@.len(),
                entry_views(out@) == entry_views(self.frontier@).subrange(0, i as int),
            decreases self.frontier.len() - i,
        {
            let ghost before = out@;
            let e = (owned(self.frontier[i].0.as_str()), self.frontier[i].1);
            assert(e.0@ == self.frontier@[i as int].0@);
            out.push(e);
            assert(entry_views(out@) =~= entry_views(before).push((e.0@, e.1 as nat)));
            assert(entry_views(out@) =~= entry_views(self.frontier@).subrange(0, i + 1));
            i = i + 1;
        }
        out
    }

    /// The number of pages recorded so far.
    pub fn page_total(&self) -> (r: usize)
        requires
            self.wf(),
        ensures
            r == self.page_count(),
            r <= self.limits().1,
    {
        self.results.len()
    }

    /// The pages recorded, in the order they were fetched: never more than
    /// the page cap, and never two for one URL.
    pub fn into_results(self) -> (r: Vec<ScrapedData>)
        requires
            self.wf(),
        ensures
            r@ == self.recorded(),
            r@.len() <= self.limits().1,
            page_urls(r@) == self.result_urls(),
            page_urls(r@).no_duplicates(),
    {
        self.results
    }
}

} // verus!
