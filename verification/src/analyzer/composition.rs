//! Compositions: the agents that a team fielded, in canonical form.

use vstd::prelude::*;
use vstd::relations::{sorted_by, total_ordering};
use vstd::seq_lib::{lemma_sorted_unique, to_multiset_build, to_multiset_insert};
use crate::model::{Agent, Match, MatchView, Player, Team, TeamView};
use crate::text::{lemma_name_leq_total, name_leq, name_precedes};

verus! {

/// The order of names, as a relation.
pub open spec fn name_order() -> spec_fn(Seq<char>, Seq<char>) -> bool {
    |a: Seq<char>, b: Seq<char>| name_leq(a, b)
}

/// The agents that a roster fielded: those of the picks whose player is on
/// the roster, in the order of the picks.
pub open spec fn fielded(picks: Seq<(Seq<char>, Seq<char>)>, roster: Seq<Seq<char>>) -> Seq<
    Seq<char>,
>
    decreases picks.len(),
{
    if picks.len() == 0 {
        Seq::empty()
    } else {
        let before = fielded(picks.drop_last(), roster);
        if roster.contains(picks.last().0) {
            before.push(picks.last().1)
        } else {
            before
        }
    }
}

/// The canonical form of a list of agents: the same agents, sorted by name.
pub open spec fn canonical(agents: Seq<Seq<char>>) -> Seq<Seq<char>> {
    agents.sort_by(name_order())
}

/// The composition that a team fielded in a match: the agents of its roster,
/// in canonical form.
pub open spec fn composition(m: MatchView, team: TeamView) -> Seq<Seq<char>> {
    canonical(fielded(m.agents, team.players))
}

/// What makes a list the canonical form of another: it is sorted by name and
/// holds the same agents, each as often.
pub proof fn lemma_canonical(agents: Seq<Seq<char>>, sorted: Seq<Seq<char>>)
    ensures
        sorted_by(canonical(agents), name_order()),
        canonical(agents).to_multiset() == agents.to_multiset(),
        sorted_by(sorted, name_order()) && sorted.to_multiset() == agents.to_multiset() ==> sorted
            == canonical(agents),
{
    lemma_name_leq_total();
    agents.lemma_sort_by_ensures(name_order());
    if sorted_by(sorted, name_order()) && sorted.to_multiset() == agents.to_multiset() {
        lemma_sorted_unique(sorted, canonical(agents), name_order());
    }
}

/// Two line-ups of the same agents have the same canonical form, in whatever
/// order each lists them.
pub proof fn lemma_canonical_ignores_order(one: Seq<Seq<char>>, other: Seq<Seq<char>>)
    requires
        one.to_multiset() == other.to_multiset(),
    ensures
        canonical(one) == canonical(other),
{
    lemma_canonical(one, canonical(other));
    lemma_canonical(other, canonical(other));
}

/// Two rosters that fielded the same agents fielded the same composition, in
/// whatever order their matches list the agents.
pub proof fn lemma_composition_ignores_order(
    one: MatchView,
    team: TeamView,
    other: MatchView,
    rival: TeamView,
)
    requires
        fielded(one.agents, team.players).to_multiset() == fielded(
            other.agents,
            rival.players,
        ).to_multiset(),
    ensures
        composition(one, team) == composition(other, rival),
{
    lemma_canonical_ignores_order(
        fielded(one.agents, team.players),
        fielded(other.agents, rival.players),
    );
}

/// Whether the roster lists a player of the given name.
fn on_roster(roster: &Vec<Player>, name: &String) -> (listed: bool)
    ensures
        listed == roster.deep_view().contains(name@),
{
    let mut i: usize = 0;
    while i < roster.len()
        invariant
            i <= roster.len(),
            forall|k: int| 0 <= k < i ==> roster.deep_view()[k] != name@,
        decreases roster.len() - i,
    {
        if roster[i].name == *name {
            assert(roster.deep_view()[i as int] == name@);
            return true;
        }
        i += 1;
    }
    false
}

/// The agents that a team fielded in a match, in the order of the match's
/// picks.
pub(crate) fn fielded_agents(m: &Match, team: &Team) -> (agents: Vec<Agent>)
    ensures
        agents.deep_view() == fielded(m@.agents, team@.players),
{
    let mut agents: Vec<Agent> = Vec::new();
    let ghost picks = m@.agents;
    let mut i: usize = 0;
    while i < m.agents.len()
        invariant
            i <= m.agents.len(),
            picks == m@.agents,
            picks.len() == m.agents.len(),
            agents.deep_view() == fielded(picks.take(i as int), team@.players),
        decreases m.agents.len() - i,
    {
        proof {
            assert(picks.take(i + 1).drop_last() == picks.take(i as int));
        }
        if on_roster(&team.players, &m.agents[i].0.name) {
            agents.push(m.agents[i].1.clone());
        }
        i += 1;
    }
    assert(picks.take(m.agents.len() as int) == picks);
    agents
}

/// Sorts agents by name.
pub(crate) fn sort_agents(agents: Vec<Agent>) -> (sorted: Vec<Agent>)
    ensures
        sorted.deep_view() == canonical(agents.deep_view()),
{
    let ghost given = agents.deep_view();
    let mut sorted: Vec<Agent> = Vec::new();
    let mut i: usize = 0;
    assert(sorted.deep_view() == Seq::<Seq<char>>::empty());
    assert(given.take(0) == Seq::<Seq<char>>::empty());
    while i < agents.len()
        invariant
            i <= agents.len(),
            given == agents.deep_view(),
            sorted.len() == i,
            sorted_by(sorted.deep_view(), name_order()),
            sorted.deep_view().to_multiset() == given.take(i as int).to_multiset(),
        decreases agents.len() - i,
    {
        let agent = agents[i].clone();
        let ghost before = sorted.deep_view();
        let mut at: usize = 0;
        while at < sorted.len() && name_precedes(sorted[at].name.as_str(), agent.name.as_str())
            invariant
                at <= sorted.len(),
                before == sorted.deep_view(),
                forall|k: int| 0 <= k < at ==> name_leq(#[trigger] before[k], agent@),
            decreases sorted.len() - at,
        {
            at += 1;
        }
        sorted.insert(at, agent);
        proof {
            let after = sorted.deep_view();
            assert(after == before.insert(at as int, agent@));
            lemma_name_leq_total();
            assert forall|a: int, b: int| 0 <= a < b < after.len() implies name_order()(
                after[a],
                after[b],
            ) by {
                if a == at {
                    // The search stopped at a name that the agent precedes,
                    // and that name precedes every later one.
                    let stop = before[at as int];
                    assert(name_order()(stop, agent@) || name_order()(agent@, stop));
                    assert(name_order()(agent@, stop) && name_order()(stop, before[b - 1])
                        ==> name_order()(agent@, before[b - 1]));
                }
            }
            to_multiset_insert(before, at as int, agent@);
            assert(given.take(i + 1) == given.take(i as int).push(agent@));
            to_multiset_build(given.take(i as int), agent@);
        }
        i += 1;
    }
    proof {
        assert(given.take(agents.len() as int) == given);
        lemma_canonical(given, sorted.deep_view());
    }
    sorted
}

} // verus!
