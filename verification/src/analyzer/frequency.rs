//! The frequency table of a map: how often each composition was fielded on
//! it.

use vstd::prelude::*;
use crate::analyzer::composition::{composition, fielded_agents, sort_agents};
use crate::model::{Agent, Match, MatchView};

verus! {

/// How often a composition was seen on a map, out of how many sightings.
///
/// The rate of the composition is `count / total`.
#[derive(Debug, PartialEq, Eq)]
pub struct CompositionRate {
    /// The composition, in canonical form.
    pub agents: Vec<Agent>,
    /// The number of times a team fielded the composition on the map.
    pub count: usize,
    /// The number of times any team fielded any composition on the map: two
    /// for each match played on it.
    pub total: usize,
}

/// What a [`CompositionRate`] is to a contract.
pub struct CompositionRateView {
    pub agents: Seq<Seq<char>>,
    pub count: nat,
    pub total: nat,
}

impl View for CompositionRate {
    type V = CompositionRateView;

    open spec fn view(&self) -> CompositionRateView {
        CompositionRateView {
            agents: self.agents.deep_view(),
            count: self.count as nat,
            total: self.total as nat,
        }
    }
}

impl DeepView for CompositionRate {
    type V = CompositionRateView;

    open spec fn deep_view(&self) -> CompositionRateView {
        self@
    }
}

/// The number of matches that were played on a map.
pub open spec fn played_on(matches: Seq<MatchView>, map: Seq<char>) -> nat
    decreases matches.len(),
{
    if matches.len() == 0 {
        0
    } else {
        played_on(matches.drop_last(), map) + if matches.last().map == map {
            1nat
        } else {
            0nat
        }
    }
}

/// The compositions seen on a map: for each match played on it, in order, the
/// winner's composition and then the loser's.
pub open spec fn observations(matches: Seq<MatchView>, map: Seq<char>) -> Seq<Seq<Seq<char>>>
    decreases matches.len(),
{
    if matches.len() == 0 {
        Seq::empty()
    } else {
        let before = observations(matches.drop_last(), map);
        let m = matches.last();
        if m.map == map {
            before.push(composition(m, m.team_won)).push(composition(m, m.team_lost))
        } else {
            before
        }
    }
}

/// How often a composition occurs among the sightings.
pub open spec fn count_of(seen: Seq<Seq<Seq<char>>>, agents: Seq<Seq<char>>) -> nat
    decreases seen.len(),
{
    if seen.len() == 0 {
        0
    } else {
        count_of(seen.drop_last(), agents) + if seen.last() == agents {
            1nat
        } else {
            0nat
        }
    }
}

/// Where a composition first occurs among the sightings, if it occurs.
pub open spec fn first_seen(seen: Seq<Seq<Seq<char>>>, agents: Seq<Seq<char>>) -> int
    decreases seen.len(),
{
    if seen.len() == 0 {
        0
    } else if count_of(seen.drop_last(), agents) > 0 {
        first_seen(seen.drop_last(), agents)
    } else {
        seen.len() - 1
    }
}

/// The sum of the counts of the rows.
pub open spec fn total_count(rows: Seq<CompositionRateView>) -> nat
    decreases rows.len(),
{
    if rows.len() == 0 {
        0
    } else {
        total_count(rows.drop_last()) + rows.last().count
    }
}

/// Whether the rows hold a row for the composition.
pub open spec fn has_row(rows: Seq<CompositionRateView>, agents: Seq<Seq<char>>) -> bool {
    exists|i: int| 0 <= i < rows.len() && (#[trigger] rows[i]).agents == agents
}

/// Whether one row must stand before another: it has the lower count, or the
/// same count and the earlier first sighting.
pub open spec fn ranks_before(
    seen: Seq<Seq<Seq<char>>>,
    one: CompositionRateView,
    other: CompositionRateView,
) -> bool {
    one.count < other.count || (one.count == other.count && first_seen(seen, one.agents)
        < first_seen(seen, other.agents))
}

/// What makes rows the frequency table of the sightings on a map.
///
/// Every composition that was seen has one row, and there is no other row; a
/// row counts how often its composition was seen, out of all sightings; the
/// rows stand in ascending order of count, and rows of equal count in the
/// order in which their compositions were first seen.
pub open spec fn is_frequency_table(
    rows: Seq<CompositionRateView>,
    seen: Seq<Seq<Seq<char>>>,
) -> bool {
    &&& forall|i: int|
        0 <= i < rows.len() ==> {
            &&& (#[trigger] rows[i]).total == seen.len()
            &&& rows[i].count == count_of(seen, rows[i].agents)
            &&& rows[i].count > 0
        }
    &&& forall|i: int, j: int|
        0 <= i < j < rows.len() ==> {
            &&& (#[trigger] rows[i]).agents != (#[trigger] rows[j]).agents
            &&& ranks_before(seen, rows[i], rows[j])
        }
    &&& forall|k: int| 0 <= k < seen.len() ==> has_row(rows, #[trigger] seen[k])
    &&& total_count(rows) == seen.len()
}

/// A composition occurs no more often than there are sightings.
pub proof fn lemma_count_of_bound(seen: Seq<Seq<Seq<char>>>, agents: Seq<Seq<char>>)
    ensures
        count_of(seen, agents) <= seen.len(),
    decreases seen.len(),
{
    if seen.len() > 0 {
        lemma_count_of_bound(seen.drop_last(), agents);
    }
}

/// A composition that was seen at some position has a positive count.
pub proof fn lemma_count_of_seen(seen: Seq<Seq<Seq<char>>>, k: int)
    requires
        0 <= k < seen.len(),
    ensures
        count_of(seen, seen[k]) > 0,
    decreases seen.len(),
{
    if k < seen.len() - 1 {
        lemma_count_of_seen(seen.drop_last(), k);
    }
}

/// A composition that was seen was first seen at `first_seen`: it stands
/// there, and nowhere before.
pub proof fn lemma_first_seen(seen: Seq<Seq<Seq<char>>>, agents: Seq<Seq<char>>)
    requires
        count_of(seen, agents) > 0,
    ensures
        0 <= first_seen(seen, agents) < seen.len(),
        seen[first_seen(seen, agents)] == agents,
        forall|k: int| 0 <= k < first_seen(seen, agents) ==> seen[k] != agents,
    decreases seen.len(),
{
    let before = seen.drop_last();
    if count_of(before, agents) > 0 {
        lemma_first_seen(before, agents);
        assert forall|k: int| 0 <= k < first_seen(seen, agents) implies seen[k] != agents by {
            assert(before[k] != agents);
        }
    } else {
        assert forall|k: int| 0 <= k < seen.len() - 1 implies seen[k] != agents by {
            if seen[k] == agents {
                lemma_count_of_seen(before, k);
            }
        }
    }
}

/// Two sightings are made for each match on the map.
pub proof fn lemma_observations_len(matches: Seq<MatchView>, map: Seq<char>)
    ensures
        observations(matches, map).len() == 2 * played_on(matches, map),
    decreases matches.len(),
{
    if matches.len() > 0 {
        lemma_observations_len(matches.drop_last(), map);
    }
}

/// Every sighting on a map stems from a match that was played on that map:
/// it is the composition of that match's winner or of its loser.
pub proof fn lemma_observations_on_map(matches: Seq<MatchView>, map: Seq<char>, k: int)
    requires
        0 <= k < observations(matches, map).len(),
    ensures
        exists|i: int|
            0 <= i < matches.len() && (#[trigger] matches[i]).map == map && (observations(
                matches,
                map,
            )[k] == composition(matches[i], matches[i].team_won) || observations(matches, map)[k]
                == composition(matches[i], matches[i].team_lost)),
    decreases matches.len(),
{
    let before = matches.drop_last();
    let m = matches.last();
    if k < observations(before, map).len() {
        lemma_observations_on_map(before, map, k);
        let i = choose|i: int|
            0 <= i < before.len() && (#[trigger] before[i]).map == map && (observations(
                before,
                map,
            )[k] == composition(before[i], before[i].team_won) || observations(before, map)[k]
                == composition(before[i], before[i].team_lost));
        assert(matches[i] == before[i]);
    } else {
        assert(matches[matches.len() - 1] == m);
    }
}

/// Whether the rows count sightings, each out of all, and stand in order.
spec fn is_ranked(rows: Seq<CompositionRateView>, seen: Seq<Seq<Seq<char>>>) -> bool {
    &&& forall|i: int|
        0 <= i < rows.len() ==> (#[trigger] rows[i]).total == seen.len() && rows[i].count
            == count_of(seen, rows[i].agents)
    &&& forall|i: int, j: int|
        0 <= i < j < rows.len() ==> ranks_before(seen, #[trigger] rows[i], #[trigger] rows[j])
}

/// Ranked rows for the same compositions are the same rows.
proof fn lemma_ranked_unique(
    one: Seq<CompositionRateView>,
    other: Seq<CompositionRateView>,
    seen: Seq<Seq<Seq<char>>>,
)
    requires
        is_ranked(one, seen),
        is_ranked(other, seen),
        forall|i: int| 0 <= i < one.len() ==> has_row(other, (#[trigger] one[i]).agents),
        forall|i: int| 0 <= i < other.len() ==> has_row(one, (#[trigger] other[i]).agents),
    ensures
        one == other,
    decreases one.len(),
{
    if one.len() == 0 {
        if other.len() > 0 {
            assert(has_row(one, other[0].agents));
        }
        assert(one =~= other);
    } else {
        assert(has_row(other, one[0].agents));
        let j = choose|j: int|
            0 <= j < other.len() && (#[trigger] other[j]).agents == one[0].agents;
        assert(has_row(one, other[0].agents));
        let i = choose|i: int| 0 <= i < one.len() && (#[trigger] one[i]).agents == other[0].agents;
        assert(one[0] == other[j]);
        assert(other[0] == one[i]);
        if i > 0 {
            assert(ranks_before(seen, one[0], one[i]));
            if j > 0 {
                assert(ranks_before(seen, other[0], other[j]));
            }
        }
        assert(one[0] == other[0]);
        let rest = one.skip(1);
        let others = other.skip(1);
        assert forall|k: int| 0 <= k < rest.len() implies has_row(
            others,
            (#[trigger] rest[k]).agents,
        ) by {
            assert(has_row(other, one[k + 1].agents));
            let at = choose|at: int|
                0 <= at < other.len() && (#[trigger] other[at]).agents == one[k + 1].agents;
            if at == 0 {
                assert(ranks_before(seen, one[0], one[k + 1]));
            }
            assert(others[at - 1].agents == rest[k].agents);
        }
        assert forall|k: int| 0 <= k < others.len() implies has_row(
            rest,
            (#[trigger] others[k]).agents,
        ) by {
            assert(has_row(one, other[k + 1].agents));
            let at = choose|at: int|
                0 <= at < one.len() && (#[trigger] one[at]).agents == other[k + 1].agents;
            if at == 0 {
                assert(ranks_before(seen, other[0], other[k + 1]));
            }
            assert(rest[at - 1].agents == others[k].agents);
        }
        assert forall|a: int, b: int| 0 <= a < b < rest.len() implies ranks_before(
            seen,
            #[trigger] rest[a],
            #[trigger] rest[b],
        ) by {
            assert(ranks_before(seen, one[a + 1], one[b + 1]));
        }
        assert forall|a: int, b: int| 0 <= a < b < others.len() implies ranks_before(
            seen,
            #[trigger] others[a],
            #[trigger] others[b],
        ) by {
            assert(ranks_before(seen, other[a + 1], other[b + 1]));
        }
        lemma_ranked_unique(rest, others, seen);
        assert(one =~= seq![one[0]] + rest);
        assert(other =~= seq![other[0]] + others);
    }
}

/// The sightings have one frequency table: two tables of the same sightings
/// are the same, row for row.
pub proof fn lemma_frequency_table_unique(
    one: Seq<CompositionRateView>,
    other: Seq<CompositionRateView>,
    seen: Seq<Seq<Seq<char>>>,
)
    requires
        is_frequency_table(one, seen),
        is_frequency_table(other, seen),
    ensures
        one == other,
{
    assert forall|i: int| 0 <= i < one.len() implies has_row(other, (#[trigger] one[i]).agents) by {
        lemma_first_seen(seen, one[i].agents);
        assert(has_row(other, seen[first_seen(seen, one[i].agents)]));
    }
    assert forall|i: int| 0 <= i < other.len() implies has_row(
        one,
        (#[trigger] other[i]).agents,
    ) by {
        lemma_first_seen(seen, other[i].agents);
        assert(has_row(one, seen[first_seen(seen, other[i].agents)]));
    }
    lemma_ranked_unique(one, other, seen);
}

/// A composition that was seen twice has a count of two at least.
pub proof fn lemma_count_of_twice(seen: Seq<Seq<Seq<char>>>, a: int, b: int)
    requires
        0 <= a < b < seen.len(),
        seen[a] == seen[b],
    ensures
        count_of(seen, seen[a]) >= 2,
    decreases seen.len(),
{
    if b < seen.len() - 1 {
        lemma_count_of_twice(seen.drop_last(), a, b);
    } else {
        lemma_count_of_seen(seen.drop_last(), a);
    }
}

/// Two sightings of one composition are counted in one row of the table,
/// whichever teams made them.
pub proof fn lemma_one_row_for_equal_sightings(
    rows: Seq<CompositionRateView>,
    seen: Seq<Seq<Seq<char>>>,
    a: int,
    b: int,
)
    requires
        is_frequency_table(rows, seen),
        0 <= a < b < seen.len(),
        seen[a] == seen[b],
    ensures
        exists|i: int|
            0 <= i < rows.len() && (#[trigger] rows[i]).agents == seen[a] && rows[i].agents
                == seen[b] && rows[i].count >= 2,
{
    lemma_count_of_twice(seen, a, b);
    assert(has_row(rows, seen[a]));
    let i = choose|i: int| 0 <= i < rows.len() && (#[trigger] rows[i]).agents == seen[a];
    assert(rows[i].count == count_of(seen, seen[a]));
}

/// The rates of a table that has a row add up to one: every row is out of
/// the same total, which is not zero, and the counts add up to that total.
pub proof fn lemma_rates_add_up_to_one(rows: Seq<CompositionRateView>, seen: Seq<Seq<Seq<char>>>)
    requires
        is_frequency_table(rows, seen),
        rows.len() > 0,
    ensures
        rows[0].total > 0,
        forall|i: int| 0 <= i < rows.len() ==> (#[trigger] rows[i]).total == rows[0].total,
        total_count(rows) == rows[0].total,
{
    lemma_count_of_bound(seen, rows[0].agents);
}

/// Every row of a map's table stems from a match that was played on that
/// map: its composition is that of the match's winner or of its loser.
pub proof fn lemma_rows_stem_from_map(
    matches: Seq<MatchView>,
    map: Seq<char>,
    rows: Seq<CompositionRateView>,
    i: int,
)
    requires
        is_frequency_table(rows, observations(matches, map)),
        0 <= i < rows.len(),
    ensures
        exists|k: int|
            0 <= k < matches.len() && (#[trigger] matches[k]).map == map && (rows[i].agents
                == composition(matches[k], matches[k].team_won) || rows[i].agents == composition(
                matches[k],
                matches[k].team_lost,
            )),
{
    let seen = observations(matches, map);
    lemma_first_seen(seen, rows[i].agents);
    lemma_observations_on_map(matches, map, first_seen(seen, rows[i].agents));
}

/// What makes rows the tally of the sightings so far, out of `total` in all.
///
/// Every composition seen so far has one row, which counts its sightings, and
/// the rows stand in the order in which their compositions were first seen.
spec fn is_tally(
    rows: Seq<CompositionRateView>,
    seen: Seq<Seq<Seq<char>>>,
    total: nat,
) -> bool {
    &&& forall|i: int|
        0 <= i < rows.len() ==> {
            &&& (#[trigger] rows[i]).total == total
            &&& rows[i].count == count_of(seen, rows[i].agents)
            &&& rows[i].count > 0
        }
    &&& forall|i: int, j: int|
        0 <= i < j < rows.len() ==> {
            &&& (#[trigger] rows[i]).agents != (#[trigger] rows[j]).agents
            &&& first_seen(seen, rows[i].agents) < first_seen(seen, rows[j].agents)
        }
    &&& forall|k: int| 0 <= k < seen.len() ==> has_row(rows, #[trigger] seen[k])
    &&& total_count(rows) == seen.len()
}

/// Replacing a row changes the sum of the counts by the difference of the
/// two rows' counts.
proof fn lemma_total_count_update(rows: Seq<CompositionRateView>, at: int, row: CompositionRateView)
    requires
        0 <= at < rows.len(),
    ensures
        total_count(rows.update(at, row)) + rows[at].count == total_count(rows) + row.count,
    decreases rows.len(),
{
    if at < rows.len() - 1 {
        assert(rows.update(at, row).drop_last() == rows.drop_last().update(at, row));
        lemma_total_count_update(rows.drop_last(), at, row);
    } else {
        assert(rows.update(at, row).drop_last() == rows.drop_last());
    }
}

/// Inserting a row adds its count to the sum of the counts.
proof fn lemma_total_count_insert(rows: Seq<CompositionRateView>, at: int, row: CompositionRateView)
    requires
        0 <= at <= rows.len(),
    ensures
        total_count(rows.insert(at, row)) == total_count(rows) + row.count,
    decreases rows.len(),
{
    if at < rows.len() {
        assert(rows.insert(at, row).drop_last() == rows.drop_last().insert(at, row));
        lemma_total_count_insert(rows.drop_last(), at, row);
    } else {
        assert(rows.insert(at, row).drop_last() == rows);
    }
}

/// A copy of a list of agents.
fn copy_agents(agents: &Vec<Agent>) -> (copy: Vec<Agent>)
    ensures
        copy.deep_view() == agents.deep_view(),
{
    let mut copy: Vec<Agent> = Vec::new();
    let mut i: usize = 0;
    while i < agents.len()
        invariant
            i <= agents.len(),
            copy.len() == i,
            forall|k: int| 0 <= k < i ==> copy.deep_view()[k] == agents.deep_view()[k],
        decreases agents.len() - i,
    {
        copy.push(agents[i].clone());
        i += 1;
    }
    copy
}

/// Whether two lists hold agents of the same names in the same order.
fn same_agents(one: &Vec<Agent>, other: &Vec<Agent>) -> (same: bool)
    ensures
        same == (one.deep_view() == other.deep_view()),
{
    if one.len() != other.len() {
        assert(one.deep_view().len() != other.deep_view().len());
        return false;
    }
    let mut i: usize = 0;
    while i < one.len()
        invariant
            i <= one.len(),
            one.len() == other.len(),
            forall|k: int| 0 <= k < i ==> one.deep_view()[k] == other.deep_view()[k],
        decreases one.len() - i,
    {
        if !(one[i].name == other[i].name) {
            assert(one.deep_view()[i as int] != other.deep_view()[i as int]);
            return false;
        }
        i += 1;
    }
    assert(one.deep_view() =~= other.deep_view());
    true
}

/// The compositions seen on a map: two for each match played on it.
fn compositions_on(matches: &Vec<Match>, map: &str) -> (seen: Vec<Vec<Agent>>)
    ensures
        seen.deep_view() == observations(matches.deep_view(), map@),
{
    let wanted = map.to_owned();
    let ghost all = matches.deep_view();
    let mut seen: Vec<Vec<Agent>> = Vec::new();
    let mut i: usize = 0;
    while i < matches.len()
        invariant
            i <= matches.len(),
            all == matches.deep_view(),
            wanted@ == map@,
            seen.deep_view() == observations(all.take(i as int), map@),
        decreases matches.len() - i,
    {
        let m = &matches[i];
        proof {
            assert(all.take(i + 1).drop_last() == all.take(i as int));
        }
        if m.map.name == wanted {
            let won = sort_agents(fielded_agents(m, &m.team_won));
            let lost = sort_agents(fielded_agents(m, &m.team_lost));
            seen.push(won);
            seen.push(lost);
        }
        i += 1;
    }
    assert(all.take(matches.len() as int) == all);
    seen
}

/// Where the table has its row for a composition, or the table's length
/// where it has none.
fn find_row(table: &Vec<CompositionRate>, agents: &Vec<Agent>) -> (at: usize)
    ensures
        at <= table.len(),
        at < table.len() ==> table.deep_view()[at as int].agents == agents.deep_view(),
        forall|k: int|
            0 <= k < at ==> (#[trigger] table.deep_view()[k]).agents != agents.deep_view(),
{
    let mut at: usize = 0;
    while at < table.len()
        invariant
            at <= table.len(),
            forall|k: int|
                0 <= k < at ==> (#[trigger] table.deep_view()[k]).agents != agents.deep_view(),
        decreases table.len() - at,
    {
        if same_agents(&table[at].agents, agents) {
            return at;
        }
        at += 1;
    }
    at
}

/// Counts the sightings of each composition.
fn tally(seen: &Vec<Vec<Agent>>) -> (table: Vec<CompositionRate>)
    ensures
        is_tally(table.deep_view(), seen.deep_view(), seen.len() as nat),
{
    let ghost all = seen.deep_view();
    let total: usize = seen.len();
    let mut table: Vec<CompositionRate> = Vec::new();
    let mut k: usize = 0;
    while k < seen.len()
        invariant
            k <= seen.len(),
            total == seen.len(),
            all == seen.deep_view(),
            is_tally(table.deep_view(), all.take(k as int), total as nat),
        decreases seen.len() - k,
    {
        let ghost rows = table.deep_view();
        let ghost past = all.take(k as int);
        let ghost now = all.take(k + 1);
        let ghost agents = all[k as int];
        proof {
            assert(now.drop_last() == past);
            assert forall|i: int| 0 <= i < rows.len() implies first_seen(now, rows[i].agents)
                == first_seen(past, (#[trigger] rows[i]).agents) && first_seen(
                past,
                rows[i].agents,
            ) < k by {
                lemma_first_seen(past, rows[i].agents);
            }
        }
        let at: usize = find_row(&table, &seen[k]);
        if at < table.len() {
            let row = table.remove(at);
            proof {
                lemma_count_of_bound(past, agents);
            }
            let counted = CompositionRate { agents: row.agents, count: row.count + 1, total };
            table.insert(at, counted);
            proof {
                let after = table.deep_view();
                assert(after == rows.update(at as int, counted@));
                lemma_total_count_update(rows, at as int, counted@);
                assert(forall|i: int|
                    0 <= i < after.len() ==> (#[trigger] after[i]).agents == rows[i].agents);
                assert forall|n: int| 0 <= n < now.len() implies has_row(
                    after,
                    #[trigger] now[n],
                ) by {
                    if n < k {
                        assert(has_row(rows, past[n]));
                        let i = choose|i: int|
                            0 <= i < rows.len() && (#[trigger] rows[i]).agents == past[n];
                        assert(after[i].agents == now[n]);
                    } else {
                        assert(after[at as int].agents == now[n]);
                    }
                }
            }
        } else {
            proof {
                assert(count_of(past, agents) == 0) by {
                    if count_of(past, agents) > 0 {
                        lemma_first_seen(past, agents);
                        assert(has_row(rows, past[first_seen(past, agents)]));
                    }
                }
            }
            let counted = CompositionRate { agents: copy_agents(&seen[k]), count: 1, total };
            table.push(counted);
            proof {
                let after = table.deep_view();
                assert(after.drop_last() == rows);
                assert forall|i: int| 0 <= i < after.len() implies {
                    &&& (#[trigger] after[i]).total == total as nat
                    &&& after[i].count == count_of(now, after[i].agents)
                    &&& after[i].count > 0
                } by {
                    if i < rows.len() {
                        assert(after[i] == rows[i]);
                    }
                }
                assert forall|i: int, j: int| 0 <= i < j < after.len() implies {
                    &&& (#[trigger] after[i]).agents != (#[trigger] after[j]).agents
                    &&& first_seen(now, after[i].agents) < first_seen(now, after[j].agents)
                } by {
                    assert(after[i] == rows[i]);
                    if j < rows.len() {
                        assert(after[j] == rows[j]);
                    }
                }
                assert forall|n: int| 0 <= n < now.len() implies has_row(
                    after,
                    #[trigger] now[n],
                ) by {
                    if n < k {
                        assert(has_row(rows, past[n]));
                        let i = choose|i: int|
                            0 <= i < rows.len() && (#[trigger] rows[i]).agents == past[n];
                        assert(after[i].agents == now[n]);
                    } else {
                        assert(after[rows.len() as int].agents == now[n]);
                    }
                }
            }
        }
        k += 1;
    }
    assert(all.take(seen.len() as int) == all);
    table
}

/// Puts the rows of a tally in ascending order of count, and leaves rows of
/// equal count in the order of the tally.
fn rank(table: &Vec<CompositionRate>, Ghost(seen): Ghost<Seq<Seq<Seq<char>>>>) -> (ranked: Vec<
    CompositionRate,
>)
    requires
        is_tally(table.deep_view(), seen, seen.len()),
    ensures
        is_frequency_table(ranked.deep_view(), seen),
{
    let ghost rows = table.deep_view();
    let ghost mut origin: Seq<int> = Seq::empty();
    let mut ranked: Vec<CompositionRate> = Vec::new();
    let mut n: usize = 0;
    while n < table.len()
        invariant
            n <= table.len(),
            rows == table.deep_view(),
            ranked.len() == n,
            origin.len() == n,
            forall|i: int|
                0 <= i < n ==> 0 <= #[trigger] origin[i] < n && ranked.deep_view()[i]
                    == rows[origin[i]],
            forall|t: int| 0 <= t < n ==> #[trigger] origin.contains(t),
            forall|i: int, j: int|
                0 <= i < j < n ==> {
                    let one = #[trigger] ranked.deep_view()[i];
                    let other = #[trigger] ranked.deep_view()[j];
                    one.count < other.count || (one.count == other.count && origin[i]
                        < origin[j])
                },
            total_count(ranked.deep_view()) == total_count(rows.take(n as int)),
        decreases table.len() - n,
    {
        let ghost before = ranked.deep_view();
        let ghost came = origin;
        let row = CompositionRate {
            agents: copy_agents(&table[n].agents),
            count: table[n].count,
            total: table[n].total,
        };
        let mut at: usize = 0;
        while at < ranked.len() && ranked[at].count <= row.count
            invariant
                at <= ranked.len(),
                before == ranked.deep_view(),
                forall|i: int| 0 <= i < at ==> (#[trigger] before[i]).count <= row.count,
            decreases ranked.len() - at,
        {
            at += 1;
        }
        ranked.insert(at, row);
        proof {
            origin = came.insert(at as int, n as int);
            let after = ranked.deep_view();
            assert(after == before.insert(at as int, row@));
            lemma_total_count_insert(before, at as int, row@);
            assert(rows.take(n + 1).drop_last() == rows.take(n as int));
            assert forall|t: int| 0 <= t < n + 1 implies #[trigger] origin.contains(t) by {
                if t < n {
                    assert(came.contains(t));
                    let i = choose|i: int| 0 <= i < n && came[i] == t;
                    if i < at {
                        assert(origin[i] == t);
                    } else {
                        assert(origin[i + 1] == t);
                    }
                } else {
                    assert(origin[at as int] == t);
                }
            }
            assert forall|i: int, j: int| 0 <= i < j < n + 1 implies {
                let one = #[trigger] after[i];
                let other = #[trigger] after[j];
                one.count < other.count || (one.count == other.count && origin[i] < origin[j])
            } by {
                if i == at && (at as int) < j - 1 {
                    // The search stopped at a row of a larger count, which
                    // every later row has at least.
                    let one = before[at as int];
                    let other = before[j - 1];
                    assert(one.count <= other.count);
                }
            }
        }
        n += 1;
    }
    proof {
        let out = ranked.deep_view();
        assert(rows.take(table.len() as int) == rows);
        assert forall|i: int| 0 <= i < out.len() implies {
            &&& (#[trigger] out[i]).total == seen.len()
            &&& out[i].count == count_of(seen, out[i].agents)
            &&& out[i].count > 0
        } by {
            assert(out[i] == rows[origin[i]]);
        }
        assert forall|i: int, j: int| 0 <= i < j < out.len() implies {
            &&& (#[trigger] out[i]).agents != (#[trigger] out[j]).agents
            &&& ranks_before(seen, out[i], out[j])
        } by {
            assert(out[i] == rows[origin[i]] && out[j] == rows[origin[j]]);
        }
        assert forall|k: int| 0 <= k < seen.len() implies has_row(out, #[trigger] seen[k]) by {
            assert(has_row(rows, seen[k]));
            let t = choose|t: int| 0 <= t < rows.len() && (#[trigger] rows[t]).agents == seen[k];
            assert(origin.contains(t));
            let i = choose|i: int| 0 <= i < out.len() && origin[i] == t;
            assert(out[i].agents == seen[k]);
        }
    }
    ranked
}

/// The frequency table of a map: how often each composition was fielded on
/// it, rarest first.
///
/// Each match played on the map counts twice, once for the winner's
/// composition and once for the loser's; matches on other maps do not count.
/// A composition is the sorted list of the agents of a roster, so two
/// line-ups of the same agents are one composition. The counts of the rows add
/// up to the number of sightings, so the rates add up to one wherever there
/// is a row. A map on which no match was played has the empty table.
pub fn analyze_meta(matches: &Vec<Match>, map: &str) -> (rates: Vec<CompositionRate>)
    ensures
        is_frequency_table(rates.deep_view(), observations(matches.deep_view(), map@)),
        observations(matches.deep_view(), map@).len() == 2 * played_on(matches.deep_view(), map@),
{
    let seen = compositions_on(matches, map);
    let table = tally(&seen);
    proof {
        lemma_observations_len(matches.deep_view(), map@);
    }
    rank(&table, Ghost(seen.deep_view()))
}

} // verus!
