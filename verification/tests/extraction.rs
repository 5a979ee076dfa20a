use vlrx::{parse_matches, Agent, GameMap, Match, ParseError, Player, Team};

fn team_with(name_part: &str, score_part: &str) -> String {
    format!("<div class=\"team\">{}{}</div>", score_part, name_part)
}

fn name_part(name: &str) -> String {
    format!("<div><div class=\"team-name\">\n {} \n</div></div>", name)
}

fn score_part(score: &str, win: bool) -> String {
    let class = if win { "score mod-win" } else { "score" };
    format!("<div class=\"{}\"> {} </div>", class, score)
}

fn team(name: &str, score: &str, win: bool) -> String {
    team_with(&name_part(name), &score_part(score, win))
}

fn row(player: &str, agent: &str) -> String {
    format!(
        "<tr><td class=\"mod-player\"><a><div class=\"text-of\"> {} </div></a></td>\
         <td class=\"mod-agents\"><span class=\"mod-agent\"><img title=\"{}\"></span></td></tr>",
        player, agent
    )
}

fn table_of(rows: &str) -> String {
    format!("<table class=\"wf-table-inset mod-overview\"><tbody>{}</tbody></table>", rows)
}

fn table(rows: &[(&str, &str)]) -> String {
    let mut body = String::new();
    for (player, agent) in rows {
        body.push_str(&row(player, agent));
    }
    table_of(&body)
}

fn map_part(map: &str) -> String {
    format!(
        "<div class=\"map\"><div><span> {} <span class=\"picked\">PICK</span></span></div></div>",
        map
    )
}

fn header(parts: &str) -> String {
    format!("<div class=\"vm-stats-game-header\">{}</div>", parts)
}

fn tab_of(id: &str, content: &str) -> String {
    format!("<div class=\"vm-stats-game\" data-game-id=\"{}\">{}</div>", id, content)
}

fn tab(id: &str, map: &str, first: &str, second: &str, tables: &str) -> String {
    tab_of(id, &format!("{}{}", header(&format!("{}{}{}", first, map_part(map), second)), tables))
}

fn page(tabs: &str) -> String {
    format!("<!DOCTYPE html><html><head><title>series</title></head><body>{}</body></html>", tabs)
}

fn two_tables() -> String {
    format!("{}{}", table(&[("p1", "Jett"), ("p2", "Sova")]), table(&[("p3", "Omen"), ("p4", "Viper")]))
}

fn assert_same(found: &[Match], expected: &[Match]) {
    assert_eq!(found.len(), expected.len());
    for (one, other) in found.iter().zip(expected) {
        assert!(one.same_as(other), "{:?} is not {:?}", one, other);
    }
}

fn player(name: &str) -> Player {
    Player { name: name.to_string() }
}

fn pick(name: &str, agent: &str) -> (Player, Agent) {
    (player(name), Agent { name: agent.to_string() })
}

fn ascent_13_5() -> Match {
    Match {
        map: GameMap { name: "Ascent".to_string() },
        team_won: Team { name: "A".to_string(), players: vec![player("p1"), player("p2")] },
        team_lost: Team { name: "B".to_string(), players: vec![player("p3"), player("p4")] },
        won_score: 13,
        lost_score: 5,
        agents: vec![pick("p1", "Jett"), pick("p2", "Sova"), pick("p3", "Omen"), pick("p4", "Viper")],
    }
}

#[test]
fn one_game_tab_gives_one_match() {
    let doc = page(&tab("7", "Ascent", &team("A", "13", true), &team("B", "5", false), &two_tables()));
    assert_same(&parse_matches(&doc).unwrap(), &vec![ascent_13_5()]);
}

#[test]
fn summary_tab_is_no_game() {
    let game = tab("7", "Ascent", &team("A", "13", true), &team("B", "5", false), &two_tables());
    let summary = tab_of("all", "<p>nothing that could be read as a game</p>");
    let doc = page(&format!("{}{}", summary, game));
    assert_same(&parse_matches(&doc).unwrap(), &vec![ascent_13_5()]);
}

#[test]
fn page_without_game_tabs_has_no_matches() {
    assert!(parse_matches(&page("<p>no games</p>")).unwrap().is_empty());
    assert!(parse_matches("").unwrap().is_empty());
}

#[test]
fn tab_without_identifier_is_a_game() {
    let content = format!(
        "{}{}",
        header(&format!("{}{}{}", team("A", "13", true), map_part("Ascent"), team("B", "5", false))),
        two_tables()
    );
    let doc = page(&format!("<div class=\"vm-stats-game\">{}</div>", content));
    assert_same(&parse_matches(&doc).unwrap(), &vec![ascent_13_5()]);
}

#[test]
fn matches_come_in_document_order() {
    let first = tab("1", "Bind", &team("A", "13", true), &team("B", "11", false), &two_tables());
    let second = tab("2", "Haven", &team("A", "3", false), &team("B", "13", true), &two_tables());
    let matches = parse_matches(&page(&format!("{}{}", first, second))).unwrap();
    assert_eq!(matches.len(), 2);
    assert_eq!(matches[0].map.name, "Bind");
    assert_eq!(matches[0].team_won.name, "A");
    assert_eq!((matches[0].won_score, matches[0].lost_score), (13, 11));
    assert_eq!(matches[1].map.name, "Haven");
    assert_eq!(matches[1].team_won.name, "B");
    assert_eq!(matches[1].team_won.players, vec![player("p3"), player("p4")]);
    assert_eq!(matches[1].team_lost.name, "A");
    assert_eq!(matches[1].team_lost.players, vec![player("p1"), player("p2")]);
    assert_eq!((matches[1].won_score, matches[1].lost_score), (13, 3));
}

#[test]
fn marked_team_wins_whatever_the_numbers() {
    let doc = page(&tab("7", "Ascent", &team("A", "2", true), &team("B", "9", false), &two_tables()));
    let matches = parse_matches(&doc).unwrap();
    assert_eq!(matches[0].team_won.name, "A");
    assert_eq!((matches[0].won_score, matches[0].lost_score), (2, 9));
}

#[test]
fn every_roster_player_has_an_agent() {
    let first = tab("1", "Bind", &team("A", "13", true), &team("B", "11", false), &two_tables());
    let second = tab("2", "Haven", &team("A", "3", false), &team("B", "13", true), &two_tables());
    for game in parse_matches(&page(&format!("{}{}", first, second))).unwrap() {
        for listed in game.team_won.players.iter().chain(game.team_lost.players.iter()) {
            assert!(game.agents.iter().any(|(player, _)| player == listed));
        }
    }
}

#[test]
fn later_row_decides_the_agent_of_a_repeated_player() {
    let tables = format!("{}{}", table(&[("p1", "Jett"), ("p2", "Sova")]), table(&[("p1", "Omen")]));
    let doc = page(&tab("7", "Ascent", &team("A", "13", true), &team("B", "5", false), &tables));
    let matches = parse_matches(&doc).unwrap();
    assert_eq!(matches[0].agents, vec![pick("p1", "Omen"), pick("p2", "Sova")]);
    assert_eq!(matches[0].team_won.players, vec![player("p1"), player("p2")]);
    assert_eq!(matches[0].team_lost.players, vec![player("p1")]);
}

#[test]
fn teams_of_one_name_leave_every_player_to_the_winner() {
    let doc = page(&tab("7", "Ascent", &team("A", "5", false), &team("A", "13", true), &two_tables()));
    let matches = parse_matches(&doc).unwrap();
    assert_eq!(
        matches[0].team_won.players,
        vec![player("p1"), player("p2"), player("p3"), player("p4")]
    );
    assert_eq!(matches[0].team_lost.players, Vec::new());
    assert_eq!((matches[0].won_score, matches[0].lost_score), (13, 5));
}

#[test]
fn agent_title_is_taken_as_it_stands() {
    let tables = format!("{}{}", table(&[("p1", " Jett ")]), table(&[("p3", "Omen")]));
    let doc = page(&tab("7", "Ascent", &team("A", "13", true), &team("B", "5", false), &tables));
    let matches = parse_matches(&doc).unwrap();
    assert_eq!(matches[0].agents[0], pick("p1", " Jett "));
}

#[test]
fn score_may_carry_a_plus_sign() {
    let doc = page(&tab("7", "Ascent", &team("A", "+13", true), &team("B", "005", false), &two_tables()));
    let matches = parse_matches(&doc).unwrap();
    assert_eq!((matches[0].won_score, matches[0].lost_score), (13, 5));
}

#[test]
fn non_numeric_score_is_fatal() {
    for bad in ["x5", "-5", "5 0", "", "+", "4294967296", "1.5"] {
        let doc =
            page(&tab("7", "Ascent", &team("A", "13", true), &team("B", bad, false), &two_tables()));
        assert_eq!(parse_matches(&doc).err(), Some(ParseError::BadScore));
    }
    let doc = page(&tab("7", "Ascent", &team("A", "win", true), &team("B", "5", false), &two_tables()));
    assert_eq!(parse_matches(&doc).err(), Some(ParseError::BadScore));
}

#[test]
fn largest_score_is_read() {
    let doc = page(&tab(
        "7",
        "Ascent",
        &team("A", "4294967295", true),
        &team("B", "0", false),
        &two_tables(),
    ));
    let matches = parse_matches(&doc).unwrap();
    assert_eq!((matches[0].won_score, matches[0].lost_score), (4294967295, 0));
}

#[test]
fn two_winners_or_none_are_fatal() {
    let both = page(&tab("7", "Ascent", &team("A", "13", true), &team("B", "5", true), &two_tables()));
    assert_eq!(parse_matches(&both).err(), Some(ParseError::NoSingleWinner));
    let none = page(&tab("7", "Ascent", &team("A", "13", false), &team("B", "5", false), &two_tables()));
    assert_eq!(parse_matches(&none).err(), Some(ParseError::NoSingleWinner));
}

#[test]
fn one_bad_tab_fails_the_whole_page() {
    let good = tab("1", "Bind", &team("A", "13", true), &team("B", "11", false), &two_tables());
    let bad = tab("2", "Haven", &team("A", "3", false), &team("B", "?", true), &two_tables());
    assert_eq!(parse_matches(&page(&format!("{}{}", good, bad))).err(), Some(ParseError::BadScore));
    assert_eq!(parse_matches(&page(&format!("{}{}", bad, good))).err(), Some(ParseError::BadScore));
}

#[test]
fn missing_header_is_fatal() {
    let doc = page(&tab_of("7", &two_tables()));
    assert_eq!(parse_matches(&doc).err(), Some(ParseError::MissingElement));
}

#[test]
fn map_container_must_be_the_only_one() {
    let teams = format!("{}{}", team("A", "13", true), team("B", "5", false));
    let none = page(&tab_of("7", &format!("{}{}", header(&teams), two_tables())));
    assert_eq!(parse_matches(&none).err(), Some(ParseError::Cardinality));
    let two = format!("{}{}{}", teams, map_part("Ascent"), map_part("Bind"));
    let doc = page(&tab_of("7", &format!("{}{}", header(&two), two_tables())));
    assert_eq!(parse_matches(&doc).err(), Some(ParseError::Cardinality));
}

#[test]
fn map_name_needs_two_levels_of_children() {
    let teams = format!("{}{}", team("A", "13", true), team("B", "5", false));
    let flat = format!("{}<div class=\"map\">Ascent</div>", teams);
    let doc = page(&tab_of("7", &format!("{}{}", header(&flat), two_tables())));
    assert_eq!(parse_matches(&doc).err(), Some(ParseError::MissingElement));
    let shallow = format!("{}<div class=\"map\"><div>Ascent</div></div>", teams);
    let doc = page(&tab_of("7", &format!("{}{}", header(&shallow), two_tables())));
    assert_eq!(parse_matches(&doc).err(), Some(ParseError::MissingElement));
    let empty = format!("{}<div class=\"map\"><div><span></span></div></div>", teams);
    let doc = page(&tab_of("7", &format!("{}{}", header(&empty), two_tables())));
    assert_eq!(parse_matches(&doc).err(), Some(ParseError::MissingText));
}

#[test]
fn teams_must_be_two() {
    let one = format!("{}{}", team("A", "13", true), map_part("Ascent"));
    let doc = page(&tab_of("7", &format!("{}{}", header(&one), two_tables())));
    assert_eq!(parse_matches(&doc).err(), Some(ParseError::Cardinality));
    let three = format!(
        "{}{}{}{}",
        team("A", "13", true),
        map_part("Ascent"),
        team("B", "5", false),
        team("C", "1", false)
    );
    let doc = page(&tab_of("7", &format!("{}{}", header(&three), two_tables())));
    assert_eq!(parse_matches(&doc).err(), Some(ParseError::Cardinality));
}

#[test]
fn team_needs_name_and_score() {
    let nameless = team_with("", &score_part("13", true));
    let doc = page(&tab("7", "Ascent", &nameless, &team("B", "5", false), &two_tables()));
    assert_eq!(parse_matches(&doc).err(), Some(ParseError::MissingElement));
    let scoreless = team_with(&name_part("B"), "");
    let doc = page(&tab("7", "Ascent", &team("A", "13", true), &scoreless, &two_tables()));
    assert_eq!(parse_matches(&doc).err(), Some(ParseError::MissingElement));
    let wordless = team_with("<div class=\"team-name\"></div>", &score_part("5", false));
    let doc = page(&tab("7", "Ascent", &team("A", "13", true), &wordless, &two_tables()));
    assert_eq!(parse_matches(&doc).err(), Some(ParseError::MissingText));
}

#[test]
fn roster_tables_must_be_two() {
    let one = table(&[("p1", "Jett")]);
    let doc = page(&tab("7", "Ascent", &team("A", "13", true), &team("B", "5", false), &one));
    assert_eq!(parse_matches(&doc).err(), Some(ParseError::Cardinality));
    let three = format!("{}{}", two_tables(), table(&[("p5", "Sage")]));
    let doc = page(&tab("7", "Ascent", &team("A", "13", true), &team("B", "5", false), &three));
    assert_eq!(parse_matches(&doc).err(), Some(ParseError::Cardinality));
    let doc = page(&tab("7", "Ascent", &team("A", "13", true), &team("B", "5", false), ""));
    assert_eq!(parse_matches(&doc).err(), Some(ParseError::Cardinality));
}

#[test]
fn roster_row_needs_player_and_agent() {
    let no_player = "<tr><td class=\"mod-agents\"><span class=\"mod-agent\"><img title=\"Jett\"></span></td></tr>";
    let tables = format!("{}{}", table_of(no_player), table(&[("p3", "Omen")]));
    let doc = page(&tab("7", "Ascent", &team("A", "13", true), &team("B", "5", false), &tables));
    assert_eq!(parse_matches(&doc).err(), Some(ParseError::MissingElement));
    let no_image = "<tr><td class=\"mod-player\"><div class=\"text-of\">p1</div></td><td class=\"mod-agents\"></td></tr>";
    let tables = format!("{}{}", table(&[("p3", "Omen")]), table_of(no_image));
    let doc = page(&tab("7", "Ascent", &team("A", "13", true), &team("B", "5", false), &tables));
    assert_eq!(parse_matches(&doc).err(), Some(ParseError::MissingElement));
    let no_title = "<tr><td class=\"mod-player\"><div class=\"text-of\">p1</div></td><td><span class=\"mod-agent\"><img alt=\"Jett\"></span></td></tr>";
    let tables = format!("{}{}", table_of(no_title), table(&[("p3", "Omen")]));
    let doc = page(&tab("7", "Ascent", &team("A", "13", true), &team("B", "5", false), &tables));
    assert_eq!(parse_matches(&doc).err(), Some(ParseError::MissingAttribute));
    let no_text = "<tr><td class=\"mod-player\"><div class=\"text-of\"></div></td><td><span class=\"mod-agent\"><img title=\"Jett\"></span></td></tr>";
    let tables = format!("{}{}", table_of(no_text), table(&[("p3", "Omen")]));
    let doc = page(&tab("7", "Ascent", &team("A", "13", true), &team("B", "5", false), &tables));
    assert_eq!(parse_matches(&doc).err(), Some(ParseError::MissingText));
}

#[test]
fn empty_roster_tables_give_empty_rosters() {
    let tables = format!("{}{}", table(&[]), table(&[]));
    let doc = page(&tab("7", "Ascent", &team("A", "13", true), &team("B", "5", false), &tables));
    let matches = parse_matches(&doc).unwrap();
    assert_eq!(matches[0].team_won.players, Vec::new());
    assert_eq!(matches[0].team_lost.players, Vec::new());
    assert_eq!(matches[0].agents, Vec::new());
}
