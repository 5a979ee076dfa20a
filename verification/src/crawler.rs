//! The event crawler, as a machine that decides and leaves the fetching to
//! its caller.
//!
//! A crawl starts with a request for the event's root page. The caller
//! fetches what a request asks for, after the delay it asks for, and hands the
//! body to [`Crawl::advance`], which answers with the next request or with the
//! matches of the whole event. Pages are asked for one at a time, in the order
//! in which they were found: the series of the root page, then each further
//! page of the event, each followed by its own series. Every page is asked
//! for under the scheme and host of the address that the crawl was given.

use vstd::prelude::*;
use crate::dom::{parse_document, parsed_document};
use crate::model::{Match, MatchView};
use crate::parser::document::{
    event_links, leads_to_page, lemma_page_links, lemma_parsed_matches_wf, parse_matches,
    series_links, spec_event_links, spec_links, spec_parse_matches, spec_series_links,
    EVENT_PAGE_QUERY,
};
use crate::parser::error::ParseError;
use crate::url::{origin, spec_origin};

verus! {

/// The seconds to wait before every fetch but the first.
pub const FETCH_DELAY_SECS: u64 = 1;

/// The kinds of page that a crawl asks for.
#[derive(Debug, Clone, Copy, PartialEq, Eq, Structural)]
pub enum PageKind {
    /// The page that the crawl starts from.
    Root,
    /// A further page of the event, found in the root's sub-navigation.
    Event,
    /// The page of a series, found among an event page's bracket items.
    Series,
}

/// One fetch that a crawl asks for.
#[derive(Debug, PartialEq, Eq)]
pub struct Request {
    /// The kind of page that is asked for.
    pub kind: PageKind,
    /// The link as it was found; for the root, the address the crawl was given.
    pub target: String,
    /// The address to fetch.
    pub url: String,
    /// The seconds to wait before fetching.
    pub delay_secs: u64,
}

/// What a [`Request`] is to a contract.
pub struct RequestView {
    pub kind: PageKind,
    pub target: Seq<char>,
    pub url: Seq<char>,
    pub delay_secs: u64,
}

impl View for Request {
    type V = RequestView;

    open spec fn view(&self) -> RequestView {
        RequestView {
            kind: self.kind,
            target: self.target@,
            url: self.url@,
            delay_secs: self.delay_secs,
        }
    }
}

/// A crawl between two fetches.
pub struct Crawl {
    host: String,
    awaiting: PageKind,
    series: Vec<String>,
    next_series: usize,
    pages: Vec<String>,
    next_page: usize,
    matches: Vec<Match>,
}

/// What a [`Crawl`] is to a contract.
pub struct CrawlView {
    /// The scheme and host of the event's address, under which every page is
    /// fetched.
    pub host: Seq<char>,
    /// The kind of the page that has been asked for and not been handed in.
    pub awaiting: PageKind,
    /// The links to the series that are still to be fetched before the next
    /// page of the event, in order.
    pub series: Seq<Seq<char>>,
    /// The links to the pages of the event that are still to be fetched, in
    /// order.
    pub pages: Seq<Seq<char>>,
    /// The matches found so far, in the order of discovery.
    pub matches: Seq<MatchView>,
}

/// What a crawl does next.
pub enum Step {
    /// There is a page to fetch: the crawl goes on with its body.
    Fetch(Crawl, Request),
    /// Every page has been read: these are the matches of the event.
    Done(Vec<Match>),
}

impl CrawlView {
    /// What holds of every crawl: no page that is still to be fetched is a
    /// single match's, and every match found is well formed.
    pub open spec fn inv(self) -> bool {
        &&& forall|i: int| 0 <= i < self.pages.len() ==> leads_to_page(#[trigger] self.pages[i])
        &&& forall|i: int| 0 <= i < self.matches.len() ==> (#[trigger] self.matches[i]).wf()
    }
}

/// The crawl that has asked for the root page of an event and seen nothing
/// yet.
pub open spec fn spec_start(event_url: Seq<char>) -> CrawlView {
    CrawlView {
        host: spec_origin(event_url),
        awaiting: PageKind::Root,
        series: Seq::empty(),
        pages: Seq::empty(),
        matches: Seq::empty(),
    }
}

/// The request for an event's root page: it is fetched at once.
pub open spec fn spec_root_request(event_url: Seq<char>) -> RequestView {
    RequestView { kind: PageKind::Root, target: event_url, url: event_url, delay_secs: 0 }
}

/// The request for a series page: its link under the event's host, after
/// the delay.
pub open spec fn spec_series_request(host: Seq<char>, link: Seq<char>) -> RequestView {
    RequestView {
        kind: PageKind::Series,
        target: link,
        url: host + link,
        delay_secs: FETCH_DELAY_SECS,
    }
}

/// The request for a further page of the event: its link under the event's
/// host, after the delay.
pub open spec fn spec_event_request(host: Seq<char>, link: Seq<char>) -> RequestView {
    RequestView {
        kind: PageKind::Event,
        target: link,
        url: host + link,
        delay_secs: FETCH_DELAY_SECS,
    }
}

/// A crawl once it has taken in the body of the page it was waiting for.
///
/// The root page gives the links to its series and to the other pages of the
/// event; a further event page gives the links to its series; a series page
/// gives matches, which are added to those found before. A page that cannot
/// be read fails the crawl.
pub open spec fn spec_receive(state: CrawlView, body: Seq<char>) -> Result<CrawlView, ParseError> {
    match state.awaiting {
        PageKind::Root => match spec_series_links(body) {
            Err(e) => Err(e),
            Ok(series) => match spec_event_links(body) {
                Err(e) => Err(e),
                Ok(pages) => Ok(CrawlView { series, pages, ..state }),
            },
        },
        PageKind::Event => match spec_series_links(body) {
            Err(e) => Err(e),
            Ok(series) => Ok(CrawlView { series, ..state }),
        },
        PageKind::Series => match spec_parse_matches(body) {
            Err(e) => Err(e),
            Ok(found) => Ok(CrawlView { matches: state.matches + found, ..state }),
        },
    }
}

/// The request that a crawl makes next, if any: the first series that is
/// still to be fetched, else the first page of the event that is.
pub open spec fn spec_next_request(state: CrawlView) -> Option<RequestView> {
    if state.series.len() > 0 {
        Some(spec_series_request(state.host, state.series[0]))
    } else if state.pages.len() > 0 {
        Some(spec_event_request(state.host, state.pages[0]))
    } else {
        None
    }
}

/// A crawl once it has made its next request.
pub open spec fn spec_after_request(state: CrawlView) -> CrawlView {
    if state.series.len() > 0 {
        CrawlView { awaiting: PageKind::Series, series: state.series.skip(1), ..state }
    } else if state.pages.len() > 0 {
        CrawlView { awaiting: PageKind::Event, pages: state.pages.skip(1), ..state }
    } else {
        state
    }
}

/// What holds of a crawl holds after every step: taking in a page that can
/// be read and making the next request leaves no single match's page to be
/// fetched and no match that is not well formed. The request that is made
/// asks for the delay, and where it is for a page of the event, it does not
/// target a single match.
pub proof fn lemma_step_keeps_inv(state: CrawlView, body: Seq<char>)
    requires
        state.inv(),
    ensures
        spec_receive(state, body) matches Ok(taken) ==> {
            &&& taken.inv()
            &&& spec_after_request(taken).inv()
            &&& spec_after_request(taken).host == state.host
            &&& spec_next_request(taken) matches Some(request) ==> {
                &&& request.url == state.host + request.target
                &&& request.delay_secs == FETCH_DELAY_SECS
                &&& request.kind != PageKind::Root
                &&& request.kind == PageKind::Event ==> leads_to_page(request.target)
            }
        },
{
    if let Ok(taken) = spec_receive(state, body) {
        match state.awaiting {
            PageKind::Root => {
                if let Ok(links) = spec_links(parsed_document(body), EVENT_PAGE_QUERY@) {
                    lemma_page_links(links);
                }
            },
            PageKind::Event => {},
            PageKind::Series => {
                lemma_parsed_matches_wf(body);
                assert(forall|i: int|
                    0 <= i < taken.matches.len() ==> (#[trigger] taken.matches[i]).wf());
            },
        }
        let after = spec_after_request(taken);
        assert(forall|i: int|
            0 <= i < after.pages.len() ==> leads_to_page(#[trigger] after.pages[i]));
    }
}

/// The requests of a crawl from a given point on, the pending one first, on
/// a web that answers each address with one body. The crawl ends where no
/// request is left, or where a page cannot be read.
pub open spec fn spec_fetches(
    web: spec_fn(Seq<char>) -> Seq<char>,
    state: CrawlView,
    request: RequestView,
) -> Seq<RequestView>
    decreases
        (if state.awaiting == PageKind::Root {
            1nat
        } else {
            0nat
        }),
        state.pages.len(),
        (if state.awaiting == PageKind::Event {
            1nat
        } else {
            0nat
        }),
        state.series.len(),
{
    match spec_receive(state, web(request.url)) {
        Err(_) => seq![request],
        Ok(taken) => match spec_next_request(taken) {
            None => seq![request],
            Some(next) => seq![request] + spec_fetches(web, spec_after_request(taken), next),
        },
    }
}

/// The matches of a crawl from a given point on: those found before and those
/// of every page that is still fetched, in the order of the fetches; or the
/// error of the first page that cannot be read.
pub open spec fn spec_outcome(
    web: spec_fn(Seq<char>) -> Seq<char>,
    state: CrawlView,
    request: RequestView,
) -> Result<Seq<MatchView>, ParseError>
    decreases
        (if state.awaiting == PageKind::Root {
            1nat
        } else {
            0nat
        }),
        state.pages.len(),
        (if state.awaiting == PageKind::Event {
            1nat
        } else {
            0nat
        }),
        state.series.len(),
{
    match spec_receive(state, web(request.url)) {
        Err(e) => Err(e),
        Ok(taken) => match spec_next_request(taken) {
            None => Ok(taken.matches),
            Some(next) => spec_outcome(web, spec_after_request(taken), next),
        },
    }
}

/// The matches of an event on a given web: the outcome of the crawl that
/// starts at the event's root page.
pub open spec fn spec_crawl(web: spec_fn(Seq<char>) -> Seq<char>, event_url: Seq<char>) -> Result<
    Seq<MatchView>,
    ParseError,
> {
    spec_outcome(web, spec_start(event_url), spec_root_request(event_url))
}

/// From any point of a crawl on, every request after the pending one is for
/// a link under the event's host and asks for the delay, and no request for a
/// page of the event targets a single match, on whatever web.
pub proof fn lemma_fetches(
    web: spec_fn(Seq<char>) -> Seq<char>,
    state: CrawlView,
    request: RequestView,
)
    requires
        state.inv(),
    ensures
        spec_fetches(web, state, request).len() >= 1,
        spec_fetches(web, state, request)[0] == request,
        forall|i: int|
            1 <= i < spec_fetches(web, state, request).len() ==> {
                let later = #[trigger] spec_fetches(web, state, request)[i];
                &&& later.url == state.host + later.target
                &&& later.delay_secs == FETCH_DELAY_SECS
                &&& later.kind != PageKind::Root
                &&& later.kind == PageKind::Event ==> leads_to_page(later.target)
            },
    decreases
        (if state.awaiting == PageKind::Root {
            1nat
        } else {
            0nat
        }),
        state.pages.len(),
        (if state.awaiting == PageKind::Event {
            1nat
        } else {
            0nat
        }),
        state.series.len(),
{
    lemma_step_keeps_inv(state, web(request.url));
    if let Ok(taken) = spec_receive(state, web(request.url)) {
        if let Some(next) = spec_next_request(taken) {
            lemma_fetches(web, spec_after_request(taken), next);
        }
    }
}

/// A crawl stays under the host of its event, never fetches a single match's
/// page in place of a page of the event, and waits before every fetch but the
/// first: on whatever web, the first request of a crawl is for the address
/// given, without delay, and every later request is for a link under the
/// scheme and host of that address, asks for the delay and, where it is for a
/// page of the event, targets no single match.
pub proof fn lemma_crawl_fetches(web: spec_fn(Seq<char>) -> Seq<char>, event_url: Seq<char>)
    ensures
        ({
            let fetches = spec_fetches(
                web,
                spec_start(event_url),
                spec_root_request(event_url),
            );
            &&& fetches.len() >= 1
            &&& fetches[0] == spec_root_request(event_url)
            &&& fetches[0].delay_secs == 0
            &&& forall|i: int|
                1 <= i < fetches.len() ==> {
                    let later = #[trigger] fetches[i];
                    &&& later.url == spec_origin(event_url) + later.target
                    &&& later.delay_secs == FETCH_DELAY_SECS
                    &&& later.kind != PageKind::Root
                    &&& later.kind == PageKind::Event ==> leads_to_page(later.target)
                }
        }),
{
    lemma_fetches(web, spec_start(event_url), spec_root_request(event_url));
}

impl View for Crawl {
    type V = CrawlView;

    closed spec fn view(&self) -> CrawlView {
        CrawlView {
            host: self.host@,
            awaiting: self.awaiting,
            series: self.series.deep_view().skip(self.next_series as int),
            pages: self.pages.deep_view().skip(self.next_page as int),
            matches: self.matches.deep_view(),
        }
    }
}

impl Crawl {
    #[verifier::type_invariant]
    spec fn well_formed(self) -> bool {
        &&& self.next_series <= self.series.len()
        &&& self.next_page <= self.pages.len()
        &&& self@.inv()
    }

    /// Starts the crawl of an event: asks for its root page, without delay,
    /// and keeps the scheme and host of its address for the pages to come.
    pub fn start(event_url: &str) -> (started: (Crawl, Request))
        ensures
            started.0@ == spec_start(event_url@),
            started.0@.inv(),
            started.1@ == spec_root_request(event_url@),
            forall|web: spec_fn(Seq<char>) -> Seq<char>| #[trigger]
                spec_crawl(web, event_url@) == spec_outcome(web, started.0@, started.1@),
    {
        let series: Vec<String> = Vec::new();
        let pages: Vec<String> = Vec::new();
        let matches: Vec<Match> = Vec::new();
        let crawl = Crawl {
            host: origin(event_url),
            awaiting: PageKind::Root,
            series,
            next_series: 0,
            pages,
            next_page: 0,
            matches,
        };
        let request = Request {
            kind: PageKind::Root,
            target: event_url.to_owned(),
            url: event_url.to_owned(),
            delay_secs: 0,
        };
        proof {
            assert(crawl@.pages =~= Seq::<Seq<char>>::empty());
            assert(crawl@.matches =~= Seq::<MatchView>::empty());
        }
        (crawl, request)
    }

    /// Takes in the body of the page that was asked for, and says what to do
    /// next.
    ///
    /// A body that cannot be read ends the crawl with the error, and with it
    /// everything found before. Every request but the root's is for a link
    /// under the event's host and asks for the delay, and no request for a
    /// page of the event targets a single match. A step leaves the outcome of
    /// the crawl as it was: on a web that answers the pending request with
    /// this body, the crawl ends as the rest of it ends.
    pub fn advance(self, body: &str) -> (step: Result<Step, ParseError>)
        ensures
            match step {
                Err(e) => spec_receive(self@, body@) == Err::<CrawlView, ParseError>(e),
                Ok(Step::Fetch(next, request)) => {
                    &&& spec_receive(self@, body@) matches Ok(taken)
                    &&& spec_next_request(taken) == Some(request@)
                    &&& next@ == spec_after_request(taken)
                    &&& next@.inv()
                    &&& next@.host == self@.host
                    &&& request.url@ == self@.host + request.target@
                    &&& request.delay_secs == FETCH_DELAY_SECS
                    &&& request.kind == PageKind::Event ==> leads_to_page(request.target@)
                },
                Ok(Step::Done(matches)) => {
                    &&& spec_receive(self@, body@) matches Ok(taken)
                    &&& spec_next_request(taken) is None
                    &&& matches.deep_view() == taken.matches
                    &&& forall|i: int| 0 <= i < matches.len() ==> (#[trigger] matches[i])@.wf()
                },
            },
            forall|web: spec_fn(Seq<char>) -> Seq<char>, asked: RequestView|
                web(asked.url) == body@ ==> #[trigger] spec_outcome(web, self@, asked) == (
                match step {
                    Err(e) => Err(e),
                    Ok(Step::Fetch(next, request)) => spec_outcome(web, next@, request@),
                    Ok(Step::Done(matches)) => Ok(matches.deep_view()),
                }),
    {
        proof {
            use_type_invariant(&self);
        }
        let Crawl { host, awaiting, series, next_series, pages, next_page, matches } = self;
        let taken = match awaiting {
            PageKind::Root => {
                let doc = parse_document(body);
                let series = series_links(&doc)?;
                let pages = event_links(&doc)?;
                proof {
                    assert(series.deep_view().skip(0) =~= series.deep_view());
                    assert(pages.deep_view().skip(0) =~= pages.deep_view());
                }
                Crawl { host, awaiting, series, next_series: 0, pages, next_page: 0, matches }
            },
            PageKind::Event => {
                let doc = parse_document(body);
                let series = series_links(&doc)?;
                proof {
                    assert(series.deep_view().skip(0) =~= series.deep_view());
                }
                Crawl { host, awaiting, series, next_series: 0, pages, next_page, matches }
            },
            PageKind::Series => {
                let mut found = parse_matches(body)?;
                let mut matches = matches;
                let ghost before = matches.deep_view();
                let ghost added = found.deep_view();
                matches.append(&mut found);
                proof {
                    assert(matches.deep_view() =~= before + added);
                    assert(forall|i: int|
                        0 <= i < matches.len() ==> (#[trigger] matches.deep_view()[i]).wf());
                }
                Crawl { host, awaiting, series, next_series, pages, next_page, matches }
            },
        };
        Ok(taken.next())
    }

    /// Makes the next request, or hands out the matches where none is left.
    fn next(self) -> (step: Step)
        ensures
            match step {
                Step::Fetch(next, request) => {
                    &&& spec_next_request(self@) == Some(request@)
                    &&& next@ == spec_after_request(self@)
                    &&& next@.inv()
                    &&& request.delay_secs == FETCH_DELAY_SECS
                    &&& request.kind == PageKind::Event ==> leads_to_page(request.target@)
                },
                Step::Done(matches) => {
                    &&& spec_next_request(self@) is None
                    &&& matches.deep_view() == self@.matches
                    &&& forall|i: int| 0 <= i < matches.len() ==> (#[trigger] matches[i])@.wf()
                },
            },
    {
        proof {
            use_type_invariant(&self);
        }
        let ghost old_view = self@;
        let Crawl { host, awaiting, series, next_series, pages, next_page, matches } = self;
        if next_series < series.len() {
            let link = series[next_series].clone();
            let url = host.clone().concat(link.as_str());
            let request = Request {
                kind: PageKind::Series,
                target: link,
                url,
                delay_secs: FETCH_DELAY_SECS,
            };
            proof {
                assert(series.deep_view().skip(next_series + 1) =~= old_view.series.skip(1));
            }
            let next = Crawl {
                host,
                awaiting: PageKind::Series,
                series,
                next_series: next_series + 1,
                pages,
                next_page,
                matches,
            };
            Step::Fetch(next, request)
        } else if next_page < pages.len() {
            let link = pages[next_page].clone();
            let url = host.clone().concat(link.as_str());
            let request = Request {
                kind: PageKind::Event,
                target: link,
                url,
                delay_secs: FETCH_DELAY_SECS,
            };
            proof {
                let left = pages.deep_view().skip(next_page + 1);
                assert(left =~= old_view.pages.skip(1));
                assert(forall|i: int| 0 <= i < left.len() ==> leads_to_page(#[trigger] left[i]));
            }
            let next = Crawl {
                host,
                awaiting: PageKind::Event,
                series,
                next_series,
                pages,
                next_page: next_page + 1,
                matches,
            };
            Step::Fetch(next, request)
        } else {
            assert forall|i: int| 0 <= i < matches.len() implies (#[trigger] matches[i])@.wf() by {
                assert(old_view.matches[i].wf());
            }
            Step::Done(matches)
        }
    }
}

} // verus!
