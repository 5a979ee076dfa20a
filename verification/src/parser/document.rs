//! Whole pages: the matches of a series page and the links of an event page.

use vstd::prelude::*;
use crate::dom::{
    attribute, compile_query, compiled_query, document_matches, element_attr, parse_document,
    parsed_document, select_in_document,
};
use crate::model::{Match, MatchView};
use crate::parser::error::{yields_deep, ParseError};
use crate::parser::fragment::{read_game_tab, spec_game_tab, GAME_ID_ATTR, GAME_QUERY, SUMMARY_ID};
use crate::parser::tab::{assemble_match, lemma_assembled_wf, spec_assemble};
use crate::text::{contains, occurs_in};

verus! {

/// The links to the series of an event page: its bracket items.
pub const SERIES_LINK_QUERY: &'static str = "a.bracket-item";

/// The links to the other pages of an event: the items of the sub-navigation
/// but the active one.
pub const EVENT_PAGE_QUERY: &'static str = ".wf-subnav-item:not(.mod-active)";

/// The attribute that holds a link's target.
pub const LINK_ATTR: &'static str = "href";

/// What the target of a link to a single match holds. Such a link leads to no
/// page of the event.
pub const SINGLE_MATCH_MARK: &'static str = "showmatch";

/// Whether a game tab is the one that sums up the series.
pub open spec fn spec_is_summary(tab: scraper::ElementRef) -> bool {
    element_attr(tab, GAME_ID_ATTR@) == Some(SUMMARY_ID@)
}

/// The matches of the game tabs, in order, the summary left out. The first tab
/// that shows no match decides the error.
pub open spec fn spec_games(tabs: Seq<scraper::ElementRef>) -> Result<Seq<MatchView>, ParseError>
    decreases tabs.len(),
{
    if tabs.len() == 0 {
        Ok(Seq::empty())
    } else {
        match spec_games(tabs.drop_last()) {
            Err(e) => Err(e),
            Ok(games) => if spec_is_summary(tabs.last()) {
                Ok(games)
            } else {
                match spec_game_tab(tabs.last()) {
                    Err(e) => Err(e),
                    Ok(tab) => match spec_assemble(tab) {
                        Err(e) => Err(e),
                        Ok(game) => Ok(games.push(game)),
                    },
                }
            },
        }
    }
}

/// The matches that a series page shows, in the order in which the engine
/// reports its game tabs.
pub open spec fn spec_parse_matches(page: Seq<char>) -> Result<Seq<MatchView>, ParseError> {
    match compiled_query(GAME_QUERY@) {
        None => Err(ParseError::BadQuery),
        Some(query) => spec_games(document_matches(parsed_document(page), query)),
    }
}

/// The targets of the anchors, in order. The first anchor without a target
/// decides the error.
pub open spec fn spec_targets(anchors: Seq<scraper::ElementRef>) -> Result<
    Seq<Seq<char>>,
    ParseError,
>
    decreases anchors.len(),
{
    if anchors.len() == 0 {
        Ok(Seq::empty())
    } else {
        match spec_targets(anchors.drop_last()) {
            Err(e) => Err(e),
            Ok(targets) => match element_attr(anchors.last(), LINK_ATTR@) {
                None => Err(ParseError::MissingAttribute),
                Some(target) => Ok(targets.push(target)),
            },
        }
    }
}

/// The targets of the anchors that a query selects in a document.
pub open spec fn spec_links(doc: scraper::Html, query: Seq<char>) -> Result<
    Seq<Seq<char>>,
    ParseError,
> {
    match compiled_query(query) {
        None => Err(ParseError::BadQuery),
        Some(compiled) => spec_targets(document_matches(doc, compiled)),
    }
}

/// Whether a link leads to a page of the event, not to a single match.
pub open spec fn leads_to_page(link: Seq<char>) -> bool {
    !occurs_in(SINGLE_MATCH_MARK@, link)
}

/// The links among `links` that lead to pages of the event, in order.
pub open spec fn page_links(links: Seq<Seq<char>>) -> Seq<Seq<char>> {
    links.filter(|link: Seq<char>| leads_to_page(link))
}

/// The links from an event page to the series of its bracket.
pub open spec fn spec_series_links(page: Seq<char>) -> Result<Seq<Seq<char>>, ParseError> {
    spec_links(parsed_document(page), SERIES_LINK_QUERY@)
}

/// The links from an event page to the other pages of the event: what the
/// sub-navigation offers besides the active page, without the links to
/// single matches.
pub open spec fn spec_event_links(page: Seq<char>) -> Result<Seq<Seq<char>>, ParseError> {
    match spec_links(parsed_document(page), EVENT_PAGE_QUERY@) {
        Err(e) => Err(e),
        Ok(links) => Ok(page_links(links)),
    }
}

/// Every match that the game tabs show is well formed.
pub proof fn lemma_games_wf(tabs: Seq<scraper::ElementRef>)
    ensures
        spec_games(tabs) matches Ok(games) ==> forall|i: int|
            0 <= i < games.len() ==> (#[trigger] games[i]).wf(),
    decreases tabs.len(),
{
    if tabs.len() > 0 {
        lemma_games_wf(tabs.drop_last());
        if let Ok(tab) = spec_game_tab(tabs.last()) {
            lemma_assembled_wf(tab);
        }
    }
}

/// Every match that a series page shows is well formed: none lacks the agent
/// of a player of either roster.
pub proof fn lemma_parsed_matches_wf(page: Seq<char>)
    ensures
        spec_parse_matches(page) matches Ok(games) ==> forall|i: int|
            0 <= i < games.len() ==> (#[trigger] games[i]).wf(),
{
    if let Some(query) = compiled_query(GAME_QUERY@) {
        lemma_games_wf(document_matches(parsed_document(page), query));
    }
}

/// No link that is kept as a link to a page of the event leads to a single
/// match.
pub proof fn lemma_page_links(links: Seq<Seq<char>>)
    ensures
        forall|i: int|
            0 <= i < page_links(links).len() ==> leads_to_page(#[trigger] page_links(links)[i]),
    decreases links.len(),
{
    reveal(Seq::filter);
    if links.len() > 0 {
        lemma_page_links(links.drop_last());
    }
}

/// Once a leading part of the tabs shows an error, so does the whole.
proof fn lemma_games_fail(tabs: Seq<scraper::ElementRef>, n: int)
    requires
        0 <= n <= tabs.len(),
        spec_games(tabs.take(n)) is Err,
    ensures
        spec_games(tabs) == spec_games(tabs.take(n)),
    decreases tabs.len() - n,
{
    if n < tabs.len() {
        assert(tabs.take(n + 1).drop_last() == tabs.take(n));
        lemma_games_fail(tabs, n + 1);
    } else {
        assert(tabs.take(n) == tabs);
    }
}

/// Once a leading part of the anchors shows an error, so does the whole.
proof fn lemma_targets_fail(anchors: Seq<scraper::ElementRef>, n: int)
    requires
        0 <= n <= anchors.len(),
        spec_targets(anchors.take(n)) is Err,
    ensures
        spec_targets(anchors) == spec_targets(anchors.take(n)),
    decreases anchors.len() - n,
{
    if n < anchors.len() {
        assert(anchors.take(n + 1).drop_last() == anchors.take(n));
        lemma_targets_fail(anchors, n + 1);
    } else {
        assert(anchors.take(n) == anchors);
    }
}

/// Whether a game tab is the one that sums up the series.
fn is_summary(tab: &scraper::ElementRef) -> (summary: bool)
    ensures
        summary == spec_is_summary(*tab),
{
    match attribute(tab, GAME_ID_ATTR) {
        Some(id) => id == SUMMARY_ID.to_owned(),
        None => false,
    }
}

/// Reads the matches of a series page, one for each game tab but the
/// summary, in the order in which the engine reports the tabs.
///
/// A single tab that cannot be read fails the whole page: nothing of a page
/// is returned unless all of it is. Every match returned is well formed, so
/// none lacks the agent of a player of either roster.
pub fn parse_matches(page_cont: &str) -> (matches: Result<Vec<Match>, ParseError>)
    ensures
        yields_deep(matches, spec_parse_matches(page_cont@)),
        matches matches Ok(games) ==> forall|i: int|
            0 <= i < games.len() ==> (#[trigger] games[i])@.wf(),
{
    let doc = parse_document(page_cont);
    let query = match compile_query(GAME_QUERY) {
        Ok(q) => q,
        Err(_) => {
            return Err(ParseError::BadQuery);
        },
    };
    let tabs = select_in_document(&doc, &query);
    let mut games: Vec<Match> = Vec::new();
    let mut i: usize = 0;
    assert(games.deep_view() == Seq::<MatchView>::empty());
    while i < tabs.len()
        invariant
            i <= tabs.len(),
            spec_parse_matches(page_cont@) == spec_games(tabs@),
            spec_games(tabs@.take(i as int)) == Ok::<Seq<MatchView>, ParseError>(games.deep_view()),
            forall|k: int| 0 <= k < games.len() ==> (#[trigger] games[k])@.wf(),
        decreases tabs.len() - i,
    {
        proof {
            assert(tabs@.take(i + 1).drop_last() == tabs@.take(i as int));
        }
        if !is_summary(&tabs[i]) {
            let tab = match read_game_tab(&tabs[i]) {
                Ok(tab) => tab,
                Err(e) => {
                    proof {
                        lemma_games_fail(tabs@, i + 1);
                    }
                    return Err(e);
                },
            };
            let game = match assemble_match(&tab) {
                Ok(game) => game,
                Err(e) => {
                    proof {
                        lemma_games_fail(tabs@, i + 1);
                    }
                    return Err(e);
                },
            };
            let ghost before = games.deep_view();
            games.push(game);
            assert(games.deep_view() == before.push(game@));
        }
        i += 1;
    }
    assert(tabs@.take(tabs.len() as int) == tabs@);
    Ok(games)
}

/// The targets of the anchors that a query selects in a document, in the
/// order in which the engine reports them. An anchor without a target fails
/// the whole.
pub fn extract_links(doc: &scraper::Html, query: &str) -> (links: Result<Vec<String>, ParseError>)
    ensures
        yields_deep(links, spec_links(*doc, query@)),
{
    let compiled = match compile_query(query) {
        Ok(q) => q,
        Err(_) => {
            return Err(ParseError::BadQuery);
        },
    };
    let anchors = select_in_document(doc, &compiled);
    let mut targets: Vec<String> = Vec::new();
    let mut i: usize = 0;
    assert(targets.deep_view() == Seq::<Seq<char>>::empty());
    while i < anchors.len()
        invariant
            i <= anchors.len(),
            spec_links(*doc, query@) == spec_targets(anchors@),
            spec_targets(anchors@.take(i as int)) == Ok::<Seq<Seq<char>>, ParseError>(
                targets.deep_view(),
            ),
        decreases anchors.len() - i,
    {
        proof {
            assert(anchors@.take(i + 1).drop_last() == anchors@.take(i as int));
        }
        match attribute(&anchors[i], LINK_ATTR) {
            None => {
                proof {
                    lemma_targets_fail(anchors@, i + 1);
                }
                return Err(ParseError::MissingAttribute);
            },
            Some(target) => {
                let ghost before = targets.deep_view();
                targets.push(target);
                assert(targets.deep_view() == before.push(target@));
            },
        }
        i += 1;
    }
    assert(anchors@.take(anchors.len() as int) == anchors@);
    Ok(targets)
}

/// Keeps the links that lead to pages of the event, in order, and drops those
/// to single matches.
pub fn keep_page_links(links: Vec<String>) -> (kept: Vec<String>)
    ensures
        kept.deep_view() == page_links(links.deep_view()),
        forall|i: int| 0 <= i < kept.len() ==> leads_to_page(#[trigger] kept[i]@),
{
    let mut kept: Vec<String> = Vec::new();
    let mut i: usize = 0;
    proof {
        reveal(Seq::filter);
    }
    while i < links.len()
        invariant
            i <= links.len(),
            kept.deep_view() == page_links(links.deep_view().take(i as int)),
            forall|k: int| 0 <= k < kept.len() ==> leads_to_page(#[trigger] kept[k]@),
        decreases links.len() - i,
    {
        proof {
            reveal(Seq::filter);
            assert(links.deep_view().take(i + 1).drop_last() == links.deep_view().take(i as int));
        }
        if !contains(links[i].as_str(), SINGLE_MATCH_MARK) {
            kept.push(links[i].clone());
        }
        i += 1;
    }
    assert(links.deep_view().take(links.len() as int) == links.deep_view());
    kept
}

/// The links from an event page to the series of its bracket, in the order
/// in which the page shows them.
pub fn series_links(doc: &scraper::Html) -> (links: Result<Vec<String>, ParseError>)
    ensures
        yields_deep(links, spec_links(*doc, SERIES_LINK_QUERY@)),
{
    extract_links(doc, SERIES_LINK_QUERY)
}

/// The links from an event page to the other pages of the event. None of them
/// leads to a single match.
pub fn event_links(doc: &scraper::Html) -> (links: Result<Vec<String>, ParseError>)
    ensures
        match links {
            Ok(kept) => spec_links(*doc, EVENT_PAGE_QUERY@) matches Ok(all) && kept.deep_view()
                == page_links(all),
            Err(e) => spec_links(*doc, EVENT_PAGE_QUERY@) == Err::<Seq<Seq<char>>, ParseError>(e),
        },
        links matches Ok(kept) ==> forall|i: int|
            0 <= i < kept.len() ==> leads_to_page(#[trigger] kept[i]@),
{
    let all = extract_links(doc, EVENT_PAGE_QUERY)?;
    Ok(keep_page_links(all))
}

} // verus!
