use vlrx::{assemble_match, Agent, GameMap, GameTab, Match, ParseError, Player, RosterRow, Team, TeamEntry};

fn entry(name: &str, winner: bool, score: &str) -> TeamEntry {
    TeamEntry { name: name.to_string(), winner, score: score.to_string() }
}

fn rows(list: &[(&str, &str)]) -> Vec<RosterRow> {
    list.iter()
        .map(|(player, agent)| RosterRow { player: player.to_string(), agent: agent.to_string() })
        .collect()
}

fn players(names: &[&str]) -> Vec<Player> {
    names.iter().map(|name| Player { name: name.to_string() }).collect()
}

fn picks(list: &[(&str, &str)]) -> Vec<(Player, Agent)> {
    list.iter()
        .map(|(player, agent)| {
            (Player { name: player.to_string() }, Agent { name: agent.to_string() })
        })
        .collect()
}

fn shown(first: TeamEntry, second: TeamEntry) -> GameTab {
    GameTab {
        map: "Ascent".to_string(),
        first,
        second,
        first_rows: rows(&[("p1", "Jett"), ("p2", "Sova")]),
        second_rows: rows(&[("p3", "Omen"), ("p4", "Viper")]),
    }
}

#[test]
fn first_team_wins() {
    let tab = shown(entry("A", true, "13"), entry("B", false, "5"));
    assert!(assemble_match(&tab).unwrap().same_as(&Match {
            map: GameMap { name: "Ascent".to_string() },
            team_won: Team { name: "A".to_string(), players: players(&["p1", "p2"]) },
            team_lost: Team { name: "B".to_string(), players: players(&["p3", "p4"]) },
            won_score: 13,
            lost_score: 5,
            agents: picks(&[("p1", "Jett"), ("p2", "Sova"), ("p3", "Omen"), ("p4", "Viper")]),
        }));
}

#[test]
fn second_team_wins() {
    let tab = shown(entry("A", false, "11"), entry("B", true, "13"));
    assert!(assemble_match(&tab).unwrap().same_as(&Match {
            map: GameMap { name: "Ascent".to_string() },
            team_won: Team { name: "B".to_string(), players: players(&["p3", "p4"]) },
            team_lost: Team { name: "A".to_string(), players: players(&["p1", "p2"]) },
            won_score: 13,
            lost_score: 11,
            agents: picks(&[("p1", "Jett"), ("p2", "Sova"), ("p3", "Omen"), ("p4", "Viper")]),
        }));
}

#[test]
fn winner_keeps_its_own_score_even_if_lower() {
    let game = assemble_match(&shown(entry("A", false, "13"), entry("B", true, "4"))).unwrap();
    assert_eq!(game.team_won.name, "B");
    assert_eq!((game.won_score, game.lost_score), (4, 13));
}

#[test]
fn scores_are_decimal_numbers() {
    let game = assemble_match(&shown(entry("A", true, "+0013"), entry("B", false, "0"))).unwrap();
    assert_eq!((game.won_score, game.lost_score), (13, 0));
    let game =
        assemble_match(&shown(entry("A", true, "4294967295"), entry("B", false, "+0"))).unwrap();
    assert_eq!((game.won_score, game.lost_score), (4294967295, 0));
}

#[test]
fn bad_score_is_refused() {
    for bad in ["", "+", "-1", " 1", "1 ", "1_0", "0x10", "4294967296", "99999999999", "१३", "1+"] {
        assert_eq!(assemble_match(&shown(entry("A", true, bad), entry("B", false, "5"))).err(), Some(ParseError::BadScore));
        assert_eq!(assemble_match(&shown(entry("A", true, "13"), entry("B", false, bad))).err(), Some(ParseError::BadScore));
    }
}

#[test]
fn bad_score_is_reported_before_the_winner() {
    assert_eq!(assemble_match(&shown(entry("A", true, "x"), entry("B", true, "5"))).err(), Some(ParseError::BadScore));
}

#[test]
fn exactly_one_winner_is_needed() {
    assert_eq!(assemble_match(&shown(entry("A", true, "13"), entry("B", true, "5"))).err(), Some(ParseError::NoSingleWinner));
    assert_eq!(assemble_match(&shown(entry("A", false, "13"), entry("B", false, "5"))).err(), Some(ParseError::NoSingleWinner));
}

#[test]
fn last_row_of_a_player_decides() {
    let tab = GameTab {
        map: "Bind".to_string(),
        first: entry("A", true, "13"),
        second: entry("B", false, "5"),
        first_rows: rows(&[("p1", "Jett"), ("p2", "Sova"), ("p1", "Raze")]),
        second_rows: rows(&[("p3", "Omen"), ("p2", "Sage")]),
    };
    let game = assemble_match(&tab).unwrap();
    assert_eq!(game.agents, picks(&[("p1", "Raze"), ("p2", "Sage"), ("p3", "Omen")]));
    assert_eq!(game.team_won.players, players(&["p1", "p2", "p1"]));
    assert_eq!(game.team_lost.players, players(&["p3", "p2"]));
}

#[test]
fn one_name_for_both_teams_gives_all_players_to_the_winner() {
    let game = assemble_match(&shown(entry("A", true, "13"), entry("A", false, "5"))).unwrap();
    assert_eq!(game.team_won.players, players(&["p1", "p2", "p3", "p4"]));
    assert_eq!(game.team_lost.name, "A");
    assert_eq!(game.team_lost.players, players(&[]));
}

#[test]
fn assembled_match_covers_its_rosters() {
    let tab = GameTab {
        map: "Bind".to_string(),
        first: entry("A", false, "3"),
        second: entry("B", true, "13"),
        first_rows: rows(&[("p1", "Jett"), ("p2", "Sova"), ("p1", "Raze")]),
        second_rows: rows(&[("p3", "Omen"), ("p2", "Sage"), ("p5", "Kayo")]),
    };
    let game = assemble_match(&tab).unwrap();
    for listed in game.team_won.players.iter().chain(game.team_lost.players.iter()) {
        assert_eq!(game.agents.iter().filter(|(player, _)| player == listed).count(), 1);
    }
}
