//! What a game tab shows, as plain text, and the match that is made of it.
//!
//! Nothing here looks at a page: a [`GameTab`] holds text, and what is made
//! of it is stated exactly.

use vstd::prelude::*;
use crate::model::{
    has_pick, lemma_record, pick_index, picks_distinct, record, Agent, GameMap, Match, MatchView,
    Player, Team, TeamView,
};
use crate::parser::error::{yields, ParseError};
use crate::text::{decimal_u32, parse_u32};

verus! {

/// One team as a game tab's header shows it.
#[derive(Debug, PartialEq, Eq)]
pub struct TeamEntry {
    /// The team's name, trimmed.
    pub name: String,
    /// Whether the team's score carries the mark of the winner.
    pub winner: bool,
    /// The text of the team's score, trimmed: that of the marked score where
    /// there is one.
    pub score: String,
}

/// One row of a roster table.
#[derive(Debug, PartialEq, Eq)]
pub struct RosterRow {
    /// The player's name, trimmed.
    pub player: String,
    /// The agent's name, as the page gives it.
    pub agent: String,
}

/// What a game tab shows, as text: the fragments are in place and counted, and
/// nothing has been made of them yet.
#[derive(Debug, PartialEq, Eq)]
pub struct GameTab {
    /// The map's name, trimmed.
    pub map: String,
    /// The team that the header shows first.
    pub first: TeamEntry,
    /// The team that the header shows second.
    pub second: TeamEntry,
    /// The rows of the first roster table, which is the first team's.
    pub first_rows: Vec<RosterRow>,
    /// The rows of the second roster table, which is the second team's.
    pub second_rows: Vec<RosterRow>,
}

/// What a [`TeamEntry`] is to a contract.
pub struct TeamEntryView {
    pub name: Seq<char>,
    pub winner: bool,
    pub score: Seq<char>,
}

/// What a [`RosterRow`] is to a contract.
pub struct RosterRowView {
    pub player: Seq<char>,
    pub agent: Seq<char>,
}

/// What a [`GameTab`] is to a contract.
pub struct GameTabView {
    pub map: Seq<char>,
    pub first: TeamEntryView,
    pub second: TeamEntryView,
    pub first_rows: Seq<RosterRowView>,
    pub second_rows: Seq<RosterRowView>,
}

impl View for TeamEntry {
    type V = TeamEntryView;

    open spec fn view(&self) -> TeamEntryView {
        TeamEntryView { name: self.name@, winner: self.winner, score: self.score@ }
    }
}

impl View for RosterRow {
    type V = RosterRowView;

    open spec fn view(&self) -> RosterRowView {
        RosterRowView { player: self.player@, agent: self.agent@ }
    }
}

impl DeepView for RosterRow {
    type V = RosterRowView;

    open spec fn deep_view(&self) -> RosterRowView {
        self@
    }
}

impl View for GameTab {
    type V = GameTabView;

    open spec fn view(&self) -> GameTabView {
        GameTabView {
            map: self.map@,
            first: self.first@,
            second: self.second@,
            first_rows: self.first_rows.deep_view(),
            second_rows: self.second_rows.deep_view(),
        }
    }
}

/// The players of a roster table, in the order of its rows.
pub open spec fn players_of(rows: Seq<RosterRowView>) -> Seq<Seq<char>> {
    rows.map_values(|row: RosterRowView| row.player)
}

/// A list of picks once the rows have been written to it in order. Where a
/// player's name occurs twice, the later row decides the agent.
pub open spec fn recorded(picks: Seq<(Seq<char>, Seq<char>)>, rows: Seq<RosterRowView>) -> Seq<
    (Seq<char>, Seq<char>),
>
    decreases rows.len(),
{
    if rows.len() == 0 {
        picks
    } else {
        record(recorded(picks, rows.drop_last()), rows.last().player, rows.last().agent)
    }
}

/// The players that the tab lists under a team's name: the first table's
/// where the first team has that name, then the second table's where the
/// second team has it.
pub open spec fn roster_named(tab: GameTabView, name: Seq<char>) -> Seq<Seq<char>> {
    let first = if tab.first.name == name {
        players_of(tab.first_rows)
    } else {
        Seq::empty()
    };
    let second = if tab.second.name == name {
        players_of(tab.second_rows)
    } else {
        Seq::empty()
    };
    first + second
}

/// The match that a game tab shows.
///
/// Both scores must be unsigned numbers, and exactly one team must carry the
/// mark of the winner. The marked team has won, with its own score, whatever
/// the numbers are. Each team's roster is what the tab lists under the team's
/// name; where both teams bear one name, all of it goes to the winner. The
/// agents are those of both tables' rows.
pub open spec fn spec_assemble(tab: GameTabView) -> Result<MatchView, ParseError> {
    match (decimal_u32(tab.first.score), decimal_u32(tab.second.score)) {
        (Some(first_score), Some(second_score)) => if tab.first.winner == tab.second.winner {
            Err(ParseError::NoSingleWinner)
        } else {
            let won = if tab.first.winner {
                tab.first
            } else {
                tab.second
            };
            let lost = if tab.first.winner {
                tab.second
            } else {
                tab.first
            };
            Ok(
                MatchView {
                    map: tab.map,
                    team_won: TeamView { name: won.name, players: roster_named(tab, won.name) },
                    team_lost: TeamView {
                        name: lost.name,
                        players: if lost.name == won.name {
                            Seq::empty()
                        } else {
                            roster_named(tab, lost.name)
                        },
                    },
                    won_score: if tab.first.winner {
                        first_score
                    } else {
                        second_score
                    },
                    lost_score: if tab.first.winner {
                        second_score
                    } else {
                        first_score
                    },
                    agents: recorded(recorded(Seq::empty(), tab.first_rows), tab.second_rows),
                },
            )
        },
        _ => Err(ParseError::BadScore),
    }
}

/// Writing rows to a mapping leaves a mapping, with an entry for every player
/// that had one and for every player of the rows.
pub proof fn lemma_recorded(picks: Seq<(Seq<char>, Seq<char>)>, rows: Seq<RosterRowView>)
    requires
        picks_distinct(picks),
    ensures
        picks_distinct(recorded(picks, rows)),
        forall|player: Seq<char>|
            has_pick(picks, player) ==> has_pick(recorded(picks, rows), player),
        forall|i: int|
            0 <= i < rows.len() ==> has_pick(recorded(picks, rows), (#[trigger] rows[i]).player),
    decreases rows.len(),
{
    if rows.len() > 0 {
        let before = recorded(picks, rows.drop_last());
        lemma_recorded(picks, rows.drop_last());
        lemma_record(before, rows.last().player, rows.last().agent);
        assert forall|i: int| 0 <= i < rows.len() implies has_pick(
            recorded(picks, rows),
            (#[trigger] rows[i]).player,
        ) by {
            if i < rows.len() - 1 {
                assert(rows.drop_last()[i] == rows[i]);
            }
        }
    }
}

/// Every match that a game tab shows is well formed: its agents are a
/// mapping, and no player of either roster is missing from it.
pub proof fn lemma_assembled_wf(tab: GameTabView)
    ensures
        spec_assemble(tab) matches Ok(m) ==> m.wf(),
{
    if let Ok(m) = spec_assemble(tab) {
        let first = recorded(Seq::empty(), tab.first_rows);
        lemma_recorded(Seq::empty(), tab.first_rows);
        lemma_recorded(first, tab.second_rows);
        assert(forall|name: Seq<char>, i: int|
            0 <= i < roster_named(tab, name).len() ==> has_pick(
                m.agents,
                #[trigger] roster_named(tab, name)[i],
            ));
    }
}

/// Writes one pick to a mapping.
fn record_pick(agents: &mut Vec<(Player, Agent)>, player: &String, agent: &String)
    requires
        picks_distinct(old(agents).deep_view()),
    ensures
        final(agents).deep_view() == record(old(agents).deep_view(), player@, agent@),
{
    let ghost before = agents.deep_view();
    let mut i: usize = 0;
    while i < agents.len()
        invariant
            i <= agents.len(),
            agents.deep_view() == before,
            before == old(agents).deep_view(),
            picks_distinct(before),
            forall|k: int| 0 <= k < i ==> (#[trigger] before[k]).0 != player@,
        decreases agents.len() - i,
    {
        if agents[i].0.name == *player {
            proof {
                assert(before[i as int].0 == player@);
                assert(pick_index(before, player@) == i);
            }
            agents.set(i, (Player { name: player.clone() }, Agent { name: agent.clone() }));
            return ;
        }
        i += 1;
    }
    agents.push((Player { name: player.clone() }, Agent { name: agent.clone() }));
}

/// Writes the picks of a table's rows to a mapping, in order.
fn record_rows(agents: &mut Vec<(Player, Agent)>, rows: &Vec<RosterRow>)
    requires
        picks_distinct(old(agents).deep_view()),
    ensures
        final(agents).deep_view() == recorded(old(agents).deep_view(), rows.deep_view()),
        picks_distinct(final(agents).deep_view()),
{
    let ghost start = agents.deep_view();
    let mut i: usize = 0;
    while i < rows.len()
        invariant
            i <= rows.len(),
            picks_distinct(start),
            agents.deep_view() == recorded(start, rows.deep_view().take(i as int)),
        decreases rows.len() - i,
    {
        proof {
            assert(rows.deep_view().take(i + 1).drop_last() == rows.deep_view().take(i as int));
            lemma_recorded(start, rows.deep_view().take(i as int));
        }
        record_pick(agents, &rows[i].player, &rows[i].agent);
        i += 1;
    }
    proof {
        assert(rows.deep_view().take(rows.len() as int) == rows.deep_view());
        lemma_recorded(start, rows.deep_view());
    }
}

/// Adds the players of a table's rows to a roster, in order.
fn list_players(roster: &mut Vec<Player>, rows: &Vec<RosterRow>)
    ensures
        final(roster).deep_view() == old(roster).deep_view() + players_of(rows.deep_view()),
{
    let ghost start = roster.deep_view();
    let mut i: usize = 0;
    while i < rows.len()
        invariant
            i <= rows.len(),
            roster.deep_view() == start + players_of(rows.deep_view()).take(i as int),
        decreases rows.len() - i,
    {
        let ghost before = roster.deep_view();
        roster.push(Player { name: rows[i].player.clone() });
        assert(roster.deep_view() == before.push(rows[i as int].player@));
        i += 1;
    }
}

/// The players that the tab lists under a team's name.
fn roster_of(tab: &GameTab, name: &String) -> (roster: Vec<Player>)
    ensures
        roster.deep_view() == roster_named(tab@, name@),
{
    let mut roster: Vec<Player> = Vec::new();
    if tab.first.name == *name {
        list_players(&mut roster, &tab.first_rows);
    }
    if tab.second.name == *name {
        list_players(&mut roster, &tab.second_rows);
    }
    roster
}

/// Makes a match of what a game tab shows.
///
/// Fails with `BadScore` where a score is no unsigned number, and otherwise
/// with `NoSingleWinner` where the winner's mark is on both teams or on
/// neither. On every other tab it succeeds, and the match is well formed.
pub fn assemble_match(tab: &GameTab) -> (assembled: Result<Match, ParseError>)
    ensures
        yields(assembled, spec_assemble(tab@)),
        assembled matches Ok(m) ==> m@.wf(),
{
    let first_score: u32 = match parse_u32(tab.first.score.as_str()) {
        Some(n) => n,
        None => {
            return Err(ParseError::BadScore);
        },
    };
    let second_score: u32 = match parse_u32(tab.second.score.as_str()) {
        Some(n) => n,
        None => {
            return Err(ParseError::BadScore);
        },
    };
    if tab.first.winner == tab.second.winner {
        return Err(ParseError::NoSingleWinner);
    }
    let (won, lost) = if tab.first.winner {
        (&tab.first, &tab.second)
    } else {
        (&tab.second, &tab.first)
    };
    let won_players = roster_of(tab, &won.name);
    let lost_players = if lost.name == won.name {
        Vec::new()
    } else {
        roster_of(tab, &lost.name)
    };
    let mut agents: Vec<(Player, Agent)> = Vec::new();
    assert(agents.deep_view() == Seq::<(Seq<char>, Seq<char>)>::empty());
    record_rows(&mut agents, &tab.first_rows);
    record_rows(&mut agents, &tab.second_rows);
    let assembled = Match {
        map: GameMap { name: tab.map.clone() },
        team_won: Team { name: won.name.clone(), players: won_players },
        team_lost: Team { name: lost.name.clone(), players: lost_players },
        won_score: if tab.first.winner {
            first_score
        } else {
            second_score
        },
        lost_score: if tab.first.winner {
            second_score
        } else {
            first_score
        },
        agents,
    };
    proof {
        assert(lost_players.deep_view() == if lost.name@ == won.name@ {
            Seq::<Seq<char>>::empty()
        } else {
            roster_named(tab@, lost.name@)
        });
        lemma_assembled_wf(tab@);
    }
    Ok(assembled)
}

} // verus!
