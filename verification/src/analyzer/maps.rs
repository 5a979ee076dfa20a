//! The maps of a dataset.

use vstd::prelude::*;
use crate::model::{GameMap, Match, MatchView};

verus! {

/// The map of each match, in the order of the matches.
pub open spec fn map_names(matches: Seq<MatchView>) -> Seq<Seq<char>> {
    matches.map_values(|m: MatchView| m.map)
}

/// The members of `names`, each once, in the order in which they first appear.
pub open spec fn distinct(names: Seq<Seq<char>>) -> Seq<Seq<char>>
    decreases names.len(),
{
    if names.len() == 0 {
        Seq::empty()
    } else {
        let before = distinct(names.drop_last());
        if before.contains(names.last()) {
            before
        } else {
            before.push(names.last())
        }
    }
}

/// `distinct` keeps every member, adds none, and repeats none.
pub proof fn lemma_distinct(names: Seq<Seq<char>>)
    ensures
        distinct(names).no_duplicates(),
        forall|name: Seq<char>| distinct(names).contains(name) <==> names.contains(name),
    decreases names.len(),
{
    if names.len() > 0 {
        let before = names.drop_last();
        let last = names.last();
        lemma_distinct(before);
        assert(names == before.push(last));
        assert forall|name: Seq<char>| distinct(names).contains(name) <==> names.contains(
            name,
        ) by {
            assert(names.contains(name) <==> before.contains(name) || name == last);
            if !distinct(before).contains(last) {
                let d = distinct(before);
                if d.contains(name) {
                    let k = choose|k: int| 0 <= k < d.len() && d[k] == name;
                    assert(d.push(last)[k] == name);
                }
                if name == last {
                    assert(d.push(last)[d.len() as int] == name);
                }
            }
        }
    }
}

/// Whether `maps` holds a map of the given name.
fn holds_map(maps: &Vec<GameMap>, name: &String) -> (found: bool)
    ensures
        found == maps.deep_view().contains(name@),
{
    let mut i: usize = 0;
    while i < maps.len()
        invariant
            i <= maps.len(),
            forall|k: int| 0 <= k < i ==> maps.deep_view()[k] != name@,
        decreases maps.len() - i,
    {
        if maps[i].name == *name {
            assert(maps.deep_view()[i as int] == name@);
            return true;
        }
        i += 1;
    }
    false
}

/// The distinct maps of a dataset, each once, in the order in which the
/// matches first show them.
pub fn get_maps(matches: &Vec<Match>) -> (maps: Vec<GameMap>)
    ensures
        maps.deep_view() == distinct(map_names(matches.deep_view())),
        maps.deep_view().no_duplicates(),
        forall|name: Seq<char>|
            maps.deep_view().contains(name) <==> map_names(matches.deep_view()).contains(name),
{
    let mut maps: Vec<GameMap> = Vec::new();
    let ghost names = map_names(matches.deep_view());
    let mut i: usize = 0;
    while i < matches.len()
        invariant
            i <= matches.len(),
            names == map_names(matches.deep_view()),
            names.len() == matches.len(),
            maps.deep_view() == distinct(names.take(i as int)),
        decreases matches.len() - i,
    {
        let m = &matches[i];
        proof {
            assert(names.take(i + 1).drop_last() == names.take(i as int));
        }
        if !holds_map(&maps, &m.map.name) {
            maps.push(m.map.clone());
        }
        i += 1;
    }
    proof {
        assert(names.take(matches.len() as int) == names);
        lemma_distinct(names);
    }
    maps
}

} // verus!
