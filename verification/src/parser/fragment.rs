//! Fragments of a page: what a team, a roster row and a game tab show.
//!
//! A page is read by structural queries. Which elements a query selects, and
//! what an element holds, is the HTML engine's answer (see [`crate::dom`]);
//! which questions are asked, in which order, and what is made of the answers
//! is decided here. The `spec_` functions state those decisions over the
//! engine's answers, and the executable functions are proved to follow them.

use vstd::prelude::*;
use crate::dom::{
    attribute, compile_query, compiled_query, element_attr, element_first_child,
    element_first_text, element_matches, first_child_element, first_text, select_in_element,
};
use crate::parser::error::{yields, yields_deep, ParseError};
use crate::parser::tab::{
    GameTab, GameTabView, RosterRow, RosterRowView, TeamEntry, TeamEntryView,
};
use crate::text::{trim, trimmed};

verus! {

/// Game tabs of a series page.
pub const GAME_QUERY: &'static str = ".vm-stats-game";

/// The attribute that identifies a game tab.
pub const GAME_ID_ATTR: &'static str = "data-game-id";

/// The identifier of the tab that sums up a series and is no game.
pub const SUMMARY_ID: &'static str = "all";

/// The header of a game tab.
pub const HEADER_QUERY: &'static str = ".vm-stats-game-header";

/// The map container within a header.
pub const MAP_QUERY: &'static str = ".map";

/// The teams within a header.
pub const TEAM_QUERY: &'static str = ".team";

/// The name within a team.
pub const TEAM_NAME_QUERY: &'static str = ".team-name";

/// The score of a team that carries the mark of the winner.
pub const WIN_SCORE_QUERY: &'static str = ".score.mod-win";

/// The score of a team.
pub const SCORE_QUERY: &'static str = ".score";

/// The roster tables of a game tab.
pub const TABLE_QUERY: &'static str = "table.mod-overview";

/// The rows of a roster table.
pub const ROW_QUERY: &'static str = "tbody>tr";

/// The player's name within a roster row.
pub const PLAYER_QUERY: &'static str = ".mod-player .text-of";

/// The agent's image within a roster row.
pub const AGENT_QUERY: &'static str = ".mod-agent img";

/// The attribute of an agent's image that names the agent.
pub const AGENT_ATTR: &'static str = "title";

/// The elements below `scope` that a query selects.
pub open spec fn spec_select(scope: scraper::ElementRef, query: Seq<char>) -> Result<
    Seq<scraper::ElementRef>,
    ParseError,
> {
    match compiled_query(query) {
        Some(compiled) => Ok(element_matches(scope, compiled)),
        None => Err(ParseError::BadQuery),
    }
}

/// The first element below `scope` that a query selects.
pub open spec fn spec_find(scope: scraper::ElementRef, query: Seq<char>) -> Result<
    scraper::ElementRef,
    ParseError,
> {
    match spec_select(scope, query) {
        Ok(found) => if found.len() > 0 {
            Ok(found[0])
        } else {
            Err(ParseError::MissingElement)
        },
        Err(e) => Err(e),
    }
}

/// The first text of an element, trimmed.
pub open spec fn spec_text(element: scraper::ElementRef) -> Result<Seq<char>, ParseError> {
    match element_first_text(element) {
        Some(text) => Ok(trimmed(text)),
        None => Err(ParseError::MissingText),
    }
}

/// The name of a team, read from the team's fragment.
pub open spec fn spec_team_name(team: scraper::ElementRef) -> Result<Seq<char>, ParseError> {
    match spec_find(team, TEAM_NAME_QUERY@) {
        Ok(name) => spec_text(name),
        Err(e) => Err(e),
    }
}

/// Compiles a query.
fn compile(query: &str) -> (compiled: Result<scraper::Selector, ParseError>)
    ensures
        match compiled {
            Ok(q) => compiled_query(query@) == Some(q),
            Err(e) => e == ParseError::BadQuery && compiled_query(query@) is None,
        },
{
    match compile_query(query) {
        Ok(q) => Ok(q),
        Err(_) => Err(ParseError::BadQuery),
    }
}

/// Every element below `scope` that the query selects, in document order.
fn select<'a>(scope: &scraper::ElementRef<'a>, query: &str) -> (found: Result<
    Vec<scraper::ElementRef<'a>>,
    ParseError,
>)
    ensures
        yields(found, spec_select(*scope, query@)),
{
    let compiled = compile(query)?;
    Ok(select_in_element(scope, &compiled))
}

/// The first element below `scope` that the query selects.
fn find<'a>(scope: &scraper::ElementRef<'a>, query: &str) -> (found: Result<
    scraper::ElementRef<'a>,
    ParseError,
>)
    ensures
        found == spec_find(*scope, query@),
{
    let elements = select(scope, query)?;
    if elements.len() > 0 {
        Ok(elements[0])
    } else {
        Err(ParseError::MissingElement)
    }
}

/// The first text of an element, trimmed.
fn text_of(element: &scraper::ElementRef) -> (text: Result<String, ParseError>)
    ensures
        yields(text, spec_text(*element)),
{
    match first_text(element) {
        Some(text) => Ok(trim(text.as_str()).to_owned()),
        None => Err(ParseError::MissingText),
    }
}

/// The name of a team: the trimmed first text of the name fragment within the
/// team's fragment.
pub fn parse_team_name(team_elem: &scraper::ElementRef) -> (name: Result<String, ParseError>)
    ensures
        yields(name, spec_team_name(*team_elem)),
{
    let name = find(team_elem, TEAM_NAME_QUERY)?;
    text_of(&name)
}

/// A team as its fragment shows it. A team whose fragment holds a marked
/// score is the winner, and that score is its score; any other team's score
/// is the first score in its fragment.
pub open spec fn spec_team(team: scraper::ElementRef) -> Result<TeamEntryView, ParseError> {
    match spec_team_name(team) {
        Err(e) => Err(e),
        Ok(name) => match spec_select(team, WIN_SCORE_QUERY@) {
            Err(e) => Err(e),
            Ok(marked) => if marked.len() > 0 {
                match spec_text(marked[0]) {
                    Err(e) => Err(e),
                    Ok(score) => Ok(TeamEntryView { name, winner: true, score }),
                }
            } else {
                match spec_find(team, SCORE_QUERY@) {
                    Err(e) => Err(e),
                    Ok(plain) => match spec_text(plain) {
                        Err(e) => Err(e),
                        Ok(score) => Ok(TeamEntryView { name, winner: false, score }),
                    },
                }
            },
        },
    }
}

/// A roster row as its fragment shows it: the player's name is the trimmed
/// text of the name fragment, the agent's name the title of the agent's image.
pub open spec fn spec_row(row: scraper::ElementRef) -> Result<RosterRowView, ParseError> {
    match spec_find(row, PLAYER_QUERY@) {
        Err(e) => Err(e),
        Ok(name) => match spec_text(name) {
            Err(e) => Err(e),
            Ok(player) => match spec_find(row, AGENT_QUERY@) {
                Err(e) => Err(e),
                Ok(image) => match element_attr(image, AGENT_ATTR@) {
                    None => Err(ParseError::MissingAttribute),
                    Some(agent) => Ok(RosterRowView { player, agent }),
                },
            },
        },
    }
}

/// The rows of a table, read in order. The first row that cannot be read
/// decides the error.
pub open spec fn spec_rows(rows: Seq<scraper::ElementRef>) -> Result<Seq<RosterRowView>, ParseError>
    decreases rows.len(),
{
    if rows.len() == 0 {
        Ok(Seq::empty())
    } else {
        match spec_rows(rows.drop_last()) {
            Err(e) => Err(e),
            Ok(read) => match spec_row(rows.last()) {
                Err(e) => Err(e),
                Ok(row) => Ok(read.push(row)),
            },
        }
    }
}

/// A roster table as its fragment shows it.
pub open spec fn spec_table(table: scraper::ElementRef) -> Result<Seq<RosterRowView>, ParseError> {
    match spec_select(table, ROW_QUERY@) {
        Err(e) => Err(e),
        Ok(rows) => spec_rows(rows),
    }
}

/// The name of the map that a header shows: the trimmed first text of the
/// first child of the first child of the header's one map container.
pub open spec fn spec_map_name(header: scraper::ElementRef) -> Result<Seq<char>, ParseError> {
    match spec_select(header, MAP_QUERY@) {
        Err(e) => Err(e),
        Ok(containers) => if containers.len() != 1 {
            Err(ParseError::Cardinality)
        } else {
            match element_first_child(containers[0]) {
                None => Err(ParseError::MissingElement),
                Some(outer) => match element_first_child(outer) {
                    None => Err(ParseError::MissingElement),
                    Some(inner) => spec_text(inner),
                },
            }
        },
    }
}

/// A game tab as its fragment shows it: the map and the two teams of its
/// header, then its two roster tables.
pub open spec fn spec_game_tab(tab: scraper::ElementRef) -> Result<GameTabView, ParseError> {
    match spec_find(tab, HEADER_QUERY@) {
        Err(e) => Err(e),
        Ok(header) => match spec_map_name(header) {
            Err(e) => Err(e),
            Ok(map) => match spec_select(header, TEAM_QUERY@) {
                Err(e) => Err(e),
                Ok(teams) => if teams.len() != 2 {
                    Err(ParseError::Cardinality)
                } else {
                    match spec_team(teams[0]) {
                        Err(e) => Err(e),
                        Ok(first) => match spec_team(teams[1]) {
                            Err(e) => Err(e),
                            Ok(second) => match spec_select(tab, TABLE_QUERY@) {
                                Err(e) => Err(e),
                                Ok(tables) => if tables.len() != 2 {
                                    Err(ParseError::Cardinality)
                                } else {
                                    match spec_table(tables[0]) {
                                        Err(e) => Err(e),
                                        Ok(first_rows) => match spec_table(tables[1]) {
                                            Err(e) => Err(e),
                                            Ok(second_rows) => Ok(
                                                GameTabView {
                                                    map,
                                                    first,
                                                    second,
                                                    first_rows,
                                                    second_rows,
                                                },
                                            ),
                                        },
                                    }
                                },
                            },
                        },
                    }
                },
            },
        },
    }
}

/// Reads a team from its fragment.
fn read_team(team: &scraper::ElementRef) -> (entry: Result<TeamEntry, ParseError>)
    ensures
        yields(entry, spec_team(*team)),
{
    let name = parse_team_name(team)?;
    let marked = select(team, WIN_SCORE_QUERY)?;
    if marked.len() > 0 {
        let score = text_of(&marked[0])?;
        Ok(TeamEntry { name, winner: true, score })
    } else {
        let plain = find(team, SCORE_QUERY)?;
        let score = text_of(&plain)?;
        Ok(TeamEntry { name, winner: false, score })
    }
}

/// Reads a roster row from its fragment.
fn read_row(row: &scraper::ElementRef) -> (read: Result<RosterRow, ParseError>)
    ensures
        yields(read, spec_row(*row)),
{
    let name = find(row, PLAYER_QUERY)?;
    let player = text_of(&name)?;
    let image = find(row, AGENT_QUERY)?;
    match attribute(&image, AGENT_ATTR) {
        None => Err(ParseError::MissingAttribute),
        Some(agent) => Ok(RosterRow { player, agent }),
    }
}

/// Reads a roster table from its fragment.
fn read_table(table: &scraper::ElementRef) -> (read: Result<Vec<RosterRow>, ParseError>)
    ensures
        yields_deep(read, spec_table(*table)),
{
    let rows = select(table, ROW_QUERY)?;
    let mut read: Vec<RosterRow> = Vec::new();
    let mut i: usize = 0;
    assert(read.deep_view() == Seq::<RosterRowView>::empty());
    while i < rows.len()
        invariant
            i <= rows.len(),
            spec_table(*table) == spec_rows(rows@),
            spec_rows(rows@.take(i as int)) == Ok::<Seq<RosterRowView>, ParseError>(
                read.deep_view(),
            ),
        decreases rows.len() - i,
    {
        proof {
            assert(rows@.take(i + 1).drop_last() == rows@.take(i as int));
        }
        match read_row(&rows[i]) {
            Err(e) => {
                proof {
                    lemma_rows_fail(rows@, i + 1);
                }
                return Err(e);
            },
            Ok(row) => {
                let ghost before = read.deep_view();
                read.push(row);
                assert(read.deep_view() == before.push(row@));
            },
        }
        i += 1;
    }
    assert(rows@.take(rows.len() as int) == rows@);
    Ok(read)
}

/// Once a leading part of the rows cannot be read, neither can the whole, and
/// for the same reason.
proof fn lemma_rows_fail(rows: Seq<scraper::ElementRef>, n: int)
    requires
        0 <= n <= rows.len(),
        spec_rows(rows.take(n)) is Err,
    ensures
        spec_rows(rows) == spec_rows(rows.take(n)),
    decreases rows.len() - n,
{
    if n < rows.len() {
        assert(rows.take(n + 1).drop_last() == rows.take(n));
        lemma_rows_fail(rows, n + 1);
    } else {
        assert(rows.take(n) == rows);
    }
}

/// The name of the map that a header shows.
fn read_map_name(header: &scraper::ElementRef) -> (name: Result<String, ParseError>)
    ensures
        yields(name, spec_map_name(*header)),
{
    let containers = select(header, MAP_QUERY)?;
    if containers.len() != 1 {
        return Err(ParseError::Cardinality);
    }
    match first_child_element(&containers[0]) {
        None => Err(ParseError::MissingElement),
        Some(outer) => match first_child_element(&outer) {
            None => Err(ParseError::MissingElement),
            Some(inner) => text_of(&inner),
        },
    }
}

/// Reads what a game tab shows: the map and the two teams of its header, then
/// its two roster tables. Nothing is made of the texts yet; a missing
/// fragment, or one that occurs too often, is an error.
pub fn read_game_tab(tab: &scraper::ElementRef) -> (read: Result<GameTab, ParseError>)
    ensures
        yields(read, spec_game_tab(*tab)),
{
    let header = find(tab, HEADER_QUERY)?;
    let map = read_map_name(&header)?;
    let teams = select(&header, TEAM_QUERY)?;
    if teams.len() != 2 {
        return Err(ParseError::Cardinality);
    }
    let first = read_team(&teams[0])?;
    let second = read_team(&teams[1])?;
    let tables = select(tab, TABLE_QUERY)?;
    if tables.len() != 2 {
        return Err(ParseError::Cardinality);
    }
    let first_rows = read_table(&tables[0])?;
    let second_rows = read_table(&tables[1])?;
    Ok(GameTab { map, first, second, first_rows, second_rows })
}

} // verus!
