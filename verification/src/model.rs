//! The domain model: maps, agents, players, teams and matches.
//!
//! The records are plain values, built once and read afterwards. Contracts
//! speak of them through their views, in which every name is a sequence of
//! characters.

use vstd::prelude::*;
use vstd::seq_lib::to_multiset_contains;

verus! {

/// A playable arena. Two maps are the same map when their names are equal.
#[derive(Debug, PartialEq, Eq, Hash)]
pub struct GameMap {
    pub name: String,
}

/// A selectable in-game character, ordered by name.
#[derive(Debug, PartialEq, Eq, Hash, PartialOrd, Ord)]
pub struct Agent {
    pub name: String,
}

/// A competitor. Two players are the same player when their names are equal.
#[derive(Debug, PartialEq, Eq, Hash)]
pub struct Player {
    pub name: String,
}

/// One side of a match: its name and its roster, in the order of the page.
#[derive(Debug, PartialEq, Eq)]
pub struct Team {
    pub name: String,
    pub players: Vec<Player>,
}

/// One completed game.
///
/// `agents` pairs each player with the agent the player fielded. It stands for
/// a mapping, so a well-formed match names no player twice in it, and the
/// order of the pairs tells nothing: matches are compared by
/// [`Match::same_as`].
#[derive(Debug)]
pub struct Match {
    pub map: GameMap,
    pub team_won: Team,
    pub team_lost: Team,
    pub won_score: u32,
    pub lost_score: u32,
    pub agents: Vec<(Player, Agent)>,
}

/// What a [`Team`] is to a contract.
pub struct TeamView {
    pub name: Seq<char>,
    pub players: Seq<Seq<char>>,
}

/// What a [`Match`] is to a contract. `agents` holds pairs of a player's name
/// and an agent's name.
pub struct MatchView {
    pub map: Seq<char>,
    pub team_won: TeamView,
    pub team_lost: TeamView,
    pub won_score: u32,
    pub lost_score: u32,
    pub agents: Seq<(Seq<char>, Seq<char>)>,
}

impl View for GameMap {
    type V = Seq<char>;

    open spec fn view(&self) -> Seq<char> {
        self.name@
    }
}

impl DeepView for GameMap {
    type V = Seq<char>;

    open spec fn deep_view(&self) -> Seq<char> {
        self.name@
    }
}

impl View for Agent {
    type V = Seq<char>;

    open spec fn view(&self) -> Seq<char> {
        self.name@
    }
}

impl DeepView for Agent {
    type V = Seq<char>;

    open spec fn deep_view(&self) -> Seq<char> {
        self.name@
    }
}

impl View for Player {
    type V = Seq<char>;

    open spec fn view(&self) -> Seq<char> {
        self.name@
    }
}

impl DeepView for Player {
    type V = Seq<char>;

    open spec fn deep_view(&self) -> Seq<char> {
        self.name@
    }
}

impl View for Team {
    type V = TeamView;

    open spec fn view(&self) -> TeamView {
        TeamView { name: self.name@, players: self.players.deep_view() }
    }
}

impl DeepView for Team {
    type V = TeamView;

    open spec fn deep_view(&self) -> TeamView {
        self@
    }
}

impl View for Match {
    type V = MatchView;

    open spec fn view(&self) -> MatchView {
        MatchView {
            map: self.map@,
            team_won: self.team_won@,
            team_lost: self.team_lost@,
            won_score: self.won_score,
            lost_score: self.lost_score,
            agents: self.agents.deep_view(),
        }
    }
}

impl DeepView for Match {
    type V = MatchView;

    open spec fn deep_view(&self) -> MatchView {
        self@
    }
}

/// Whether a list of picks has an entry for the player.
pub open spec fn has_pick(picks: Seq<(Seq<char>, Seq<char>)>, player: Seq<char>) -> bool {
    exists|i: int| 0 <= i < picks.len() && (#[trigger] picks[i]).0 == player
}

/// No player has two entries in a list of picks: the list is a mapping.
pub open spec fn picks_distinct(picks: Seq<(Seq<char>, Seq<char>)>) -> bool {
    forall|i: int, j: int|
        0 <= i < j < picks.len() ==> (#[trigger] picks[i]).0 != (#[trigger] picks[j]).0
}

/// Where a list of picks has its entry for the player, if it has one.
pub open spec fn pick_index(picks: Seq<(Seq<char>, Seq<char>)>, player: Seq<char>) -> int {
    choose|i: int| 0 <= i < picks.len() && (#[trigger] picks[i]).0 == player
}

/// A list of picks once a player's agent is written to it: the player's entry
/// is replaced where there is one, and a new entry is added at the end where
/// there is none.
pub open spec fn record(
    picks: Seq<(Seq<char>, Seq<char>)>,
    player: Seq<char>,
    agent: Seq<char>,
) -> Seq<(Seq<char>, Seq<char>)> {
    if has_pick(picks, player) {
        picks.update(pick_index(picks, player), (player, agent))
    } else {
        picks.push((player, agent))
    }
}

/// Writing a pick keeps a mapping a mapping, and gives an entry to the player
/// written and to nobody else.
pub proof fn lemma_record(picks: Seq<(Seq<char>, Seq<char>)>, player: Seq<char>, agent: Seq<char>)
    requires
        picks_distinct(picks),
    ensures
        picks_distinct(record(picks, player, agent)),
        forall|other: Seq<char>|
            has_pick(record(picks, player, agent), other) <==> (has_pick(picks, other) || other
                == player),
{
    let after = record(picks, player, agent);
    assert forall|other: Seq<char>| has_pick(after, other) <==> (has_pick(picks, other) || other
        == player) by {
        if has_pick(picks, other) {
            let i = choose|i: int| 0 <= i < picks.len() && (#[trigger] picks[i]).0 == other;
            assert(after[i].0 == other);
        }
        if other == player && !has_pick(picks, player) {
            assert(after[picks.len() as int].0 == player);
        }
    }
}

impl MatchView {
    /// Every player of either roster has an entry in `agents`.
    pub open spec fn rosters_covered(self) -> bool {
        &&& forall|i: int|
            0 <= i < self.team_won.players.len() ==> has_pick(
                self.agents,
                #[trigger] self.team_won.players[i],
            )
        &&& forall|i: int|
            0 <= i < self.team_lost.players.len() ==> has_pick(
                self.agents,
                #[trigger] self.team_lost.players[i],
            )
    }

    /// The invariant of a match: `agents` is a mapping, and it covers both
    /// rosters.
    pub open spec fn wf(self) -> bool {
        picks_distinct(self.agents) && self.rosters_covered()
    }
}

/// Whether every pick of one list is a pick of the other.
pub open spec fn picks_within(
    one: Seq<(Seq<char>, Seq<char>)>,
    other: Seq<(Seq<char>, Seq<char>)>,
) -> bool {
    forall|i: int| 0 <= i < one.len() ==> other.contains(#[trigger] one[i])
}

/// Whether two lists hold the same picks, in whatever order. Of two mappings
/// it says that they are the same mapping.
pub open spec fn same_picks(
    one: Seq<(Seq<char>, Seq<char>)>,
    other: Seq<(Seq<char>, Seq<char>)>,
) -> bool {
    picks_within(one, other) && picks_within(other, one)
}

impl MatchView {
    /// Whether two matches are the same: the same map, teams and scores, and
    /// the same picks in whatever order.
    pub open spec fn same_as(self, other: MatchView) -> bool {
        &&& self.map == other.map
        &&& self.team_won == other.team_won
        &&& self.team_lost == other.team_lost
        &&& self.won_score == other.won_score
        &&& self.lost_score == other.lost_score
        &&& same_picks(self.agents, other.agents)
    }
}

/// Picks that are listed in another order are the same picks: a match that
/// is written out and read back with its picks in any order is the same
/// match.
pub proof fn lemma_reordered_picks(
    one: Seq<(Seq<char>, Seq<char>)>,
    other: Seq<(Seq<char>, Seq<char>)>,
)
    requires
        one.to_multiset() == other.to_multiset(),
    ensures
        same_picks(one, other),
{
    assert forall|i: int| 0 <= i < one.len() implies other.contains(#[trigger] one[i]) by {
        assert(one.contains(one[i]));
        to_multiset_contains(one, one[i]);
        to_multiset_contains(other, one[i]);
    }
    assert forall|i: int| 0 <= i < other.len() implies one.contains(#[trigger] other[i]) by {
        assert(other.contains(other[i]));
        to_multiset_contains(one, other[i]);
        to_multiset_contains(other, other[i]);
    }
}

/// Whether the list holds the pick.
fn holds_pick(picks: &Vec<(Player, Agent)>, player: &String, agent: &String) -> (found: bool)
    ensures
        found == picks.deep_view().contains((player@, agent@)),
{
    let mut i: usize = 0;
    while i < picks.len()
        invariant
            i <= picks.len(),
            forall|k: int| 0 <= k < i ==> picks.deep_view()[k] != (player@, agent@),
        decreases picks.len() - i,
    {
        if picks[i].0.name == *player && picks[i].1.name == *agent {
            assert(picks.deep_view()[i as int] == (player@, agent@));
            return true;
        }
        i += 1;
    }
    false
}

/// Whether every pick of one list is a pick of the other.
fn all_picks_within(one: &Vec<(Player, Agent)>, other: &Vec<(Player, Agent)>) -> (within: bool)
    ensures
        within == picks_within(one.deep_view(), other.deep_view()),
{
    let mut i: usize = 0;
    while i < one.len()
        invariant
            i <= one.len(),
            forall|k: int| 0 <= k < i ==> other.deep_view().contains(#[trigger] one.deep_view()[k]),
        decreases one.len() - i,
    {
        if !holds_pick(other, &one[i].0.name, &one[i].1.name) {
            assert(!other.deep_view().contains(one.deep_view()[i as int]));
            return false;
        }
        i += 1;
    }
    true
}

impl Team {
    /// Whether two teams have the same name and the same roster, player for
    /// player.
    pub fn same_as(&self, other: &Team) -> (same: bool)
        ensures
            same == (self@ == other@),
    {
        if !(self.name == other.name) || self.players.len() != other.players.len() {
            assert(self@.players.len() == self.players.len());
            assert(other@.players.len() == other.players.len());
            return false;
        }
        let mut i: usize = 0;
        while i < self.players.len()
            invariant
                i <= self.players.len(),
                self.players.len() == other.players.len(),
                self.name@ == other.name@,
                forall|k: int| 0 <= k < i ==> self@.players[k] == other@.players[k],
            decreases self.players.len() - i,
        {
            if !(self.players[i].name == other.players[i].name) {
                assert(self@.players[i as int] != other@.players[i as int]);
                return false;
            }
            i += 1;
        }
        assert(self@.players =~= other@.players);
        true
    }
}

impl Match {
    /// Whether two matches are the same: the same map, teams and scores, and
    /// the same picks in whatever order the two list them.
    pub fn same_as(&self, other: &Match) -> (same: bool)
        ensures
            same == self@.same_as(other@),
    {
        self.map.name == other.map.name && self.team_won.same_as(&other.team_won)
            && self.team_lost.same_as(&other.team_lost) && self.won_score == other.won_score
            && self.lost_score == other.lost_score && all_picks_within(&self.agents, &other.agents)
            && all_picks_within(&other.agents, &self.agents)
    }
}

impl Clone for GameMap {
    fn clone(&self) -> (copy: GameMap)
        ensures
            copy == *self,
    {
        GameMap { name: self.name.clone() }
    }
}

impl Clone for Agent {
    fn clone(&self) -> (copy: Agent)
        ensures
            copy == *self,
    {
        Agent { name: self.name.clone() }
    }
}

impl Clone for Player {
    fn clone(&self) -> (copy: Player)
        ensures
            copy == *self,
    {
        Player { name: self.name.clone() }
    }
}

} // verus!
