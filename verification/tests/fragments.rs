use scraper::{Html, Selector};
use vlrx::{parse_team_name, read_game_tab, GameTab, ParseError, RosterRow, TeamEntry};

fn first_of<'a>(doc: &'a Html, query: &str) -> scraper::ElementRef<'a> {
    let selector = Selector::parse(query).unwrap();
    doc.select(&selector).next().unwrap()
}

#[test]
fn team_name_is_the_trimmed_first_text() {
    let doc = Html::parse_document(
        "<div class=\"team\"><div class=\"team-name\">\n\t Sentinels \n<span>SEN</span></div></div>",
    );
    let team = first_of(&doc, ".team");
    assert_eq!(parse_team_name(&team), Ok("Sentinels".to_string()));
}

#[test]
fn team_name_is_that_of_the_first_name_fragment() {
    let doc = Html::parse_document(
        "<div class=\"team\"><b class=\"team-name\">One</b><b class=\"team-name\">Two</b></div>",
    );
    let team = first_of(&doc, ".team");
    assert_eq!(parse_team_name(&team), Ok("One".to_string()));
}

#[test]
fn team_name_of_white_space_is_empty() {
    let doc = Html::parse_document("<div class=\"team\"><b class=\"team-name\"> \n </b></div>");
    let team = first_of(&doc, ".team");
    assert_eq!(parse_team_name(&team), Ok(String::new()));
}

#[test]
fn team_name_must_be_there() {
    let doc = Html::parse_document("<div class=\"team\"><b class=\"name\">One</b></div>");
    let team = first_of(&doc, ".team");
    assert_eq!(parse_team_name(&team), Err(ParseError::MissingElement));
    let doc = Html::parse_document("<div class=\"team\"><b class=\"team-name\"></b></div>");
    let team = first_of(&doc, ".team");
    assert_eq!(parse_team_name(&team), Err(ParseError::MissingText));
}

#[test]
fn team_name_is_sought_below_the_team_only() {
    let doc = Html::parse_document(
        "<b class=\"team-name\">Outside</b><div class=\"team\"><i>no name here</i></div>",
    );
    let team = first_of(&doc, ".team");
    assert_eq!(parse_team_name(&team), Err(ParseError::MissingElement));
}

#[test]
fn game_tab_is_read_as_text() {
    let doc = Html::parse_document(
        "<div class=\"vm-stats-game\" data-game-id=\"3\">\
           <div class=\"vm-stats-game-header\">\
             <div class=\"team\"><div class=\"team-name\"> A </div><div class=\"score\"> 7 </div></div>\
             <div class=\"map\"><div><span> Split </span></div></div>\
             <div class=\"team mod-right\"><div class=\"score mod-win\">13</div><div class=\"score\">99</div>\
               <div class=\"team-name\"> B </div></div>\
           </div>\
           <table class=\"mod-overview\"><tbody>\
             <tr><td class=\"mod-player\"><div class=\"text-of\"> p1 </div></td>\
                 <td><span class=\"mod-agent\"><img title=\"Jett\"></span></td></tr>\
           </tbody></table>\
           <table class=\"mod-overview\"><tbody>\
             <tr><td class=\"mod-player\"><div class=\"text-of\"> p2 </div></td>\
                 <td><span class=\"mod-agent\"><img title=\"Sova\"><img title=\"Other\"></span></td></tr>\
           </tbody></table>\
         </div>",
    );
    let tab = first_of(&doc, ".vm-stats-game");
    assert_eq!(
        read_game_tab(&tab),
        Ok(GameTab {
            map: "Split".to_string(),
            first: TeamEntry { name: "A".to_string(), winner: false, score: "7".to_string() },
            second: TeamEntry { name: "B".to_string(), winner: true, score: "13".to_string() },
            first_rows: vec![RosterRow { player: "p1".to_string(), agent: "Jett".to_string() }],
            second_rows: vec![RosterRow { player: "p2".to_string(), agent: "Sova".to_string() }],
        })
    );
}

#[test]
fn game_tab_keeps_scores_that_are_no_numbers() {
    let doc = Html::parse_document(
        "<div class=\"vm-stats-game\">\
           <div class=\"vm-stats-game-header\">\
             <div class=\"team\"><div class=\"team-name\">A</div><div class=\"score\">n/a</div></div>\
             <div class=\"map\"><div><span>Split</span></div></div>\
             <div class=\"team\"><div class=\"score\">-</div><div class=\"team-name\">B</div></div>\
           </div>\
           <table class=\"mod-overview\"></table><table class=\"mod-overview\"></table>\
         </div>",
    );
    let tab = first_of(&doc, ".vm-stats-game");
    let read = read_game_tab(&tab).unwrap();
    assert_eq!(read.first.score, "n/a");
    assert_eq!(read.second.score, "-");
    assert!(!read.first.winner && !read.second.winner);
    assert!(read.first_rows.is_empty() && read.second_rows.is_empty());
}

#[test]
fn rows_outside_a_table_body_are_no_rows() {
    let doc = Html::parse_document(
        "<div class=\"vm-stats-game\">\
           <div class=\"vm-stats-game-header\">\
             <div class=\"team\"><div class=\"team-name\">A</div><div class=\"score mod-win\">13</div></div>\
             <div class=\"map\"><div><span>Split</span></div></div>\
             <div class=\"team\"><div class=\"score\">1</div><div class=\"team-name\">B</div></div>\
           </div>\
           <table class=\"mod-overview\"><thead><tr><th>head</th></tr></thead><tbody></tbody></table>\
           <table class=\"mod-overview\"><tbody></tbody></table>\
         </div>",
    );
    let tab = first_of(&doc, ".vm-stats-game");
    let read = read_game_tab(&tab).unwrap();
    assert!(read.first_rows.is_empty());
}

#[test]
fn every_kind_of_white_space_is_trimmed_at_the_ends_only() {
    let doc = Html::parse_document(
        "<div class=\"team\"><b class=\"team-name\">\u{a0}\u{3000}\t\r\n Team  \n Liquid \u{2003}\u{85}</b></div>",
    );
    let team = first_of(&doc, ".team");
    assert_eq!(parse_team_name(&team), Ok("Team  \n Liquid".to_string()));
}

#[test]
fn what_is_no_white_space_is_not_trimmed() {
    let doc = Html::parse_document(
        "<div class=\"team\"><b class=\"team-name\">\u{200b}Team\u{feff}</b></div>",
    );
    let team = first_of(&doc, ".team");
    assert_eq!(parse_team_name(&team), Ok("\u{200b}Team\u{feff}".to_string()));
}

const WHITE_SPACE: [char; 25] = [
    '\u{9}', '\u{a}', '\u{b}', '\u{c}', '\u{d}', '\u{20}', '\u{85}', '\u{a0}', '\u{1680}',
    '\u{2000}', '\u{2001}', '\u{2002}', '\u{2003}', '\u{2004}', '\u{2005}', '\u{2006}',
    '\u{2007}', '\u{2008}', '\u{2009}', '\u{200a}', '\u{2028}', '\u{2029}', '\u{202f}',
    '\u{205f}', '\u{3000}',
];

#[test]
fn each_white_space_character_is_trimmed() {
    for space in WHITE_SPACE {
        let doc = Html::parse_document(&format!(
            "<div class=\"team\"><b class=\"team-name\">{}{}Team{}{}</b></div>",
            space, space, space, space
        ));
        let team = first_of(&doc, ".team");
        assert_eq!(parse_team_name(&team), Ok("Team".to_string()), "{:?}", space);
    }
}

#[test]
fn characters_next_to_white_space_are_kept() {
    for kept in [
        '\u{8}', '\u{e}', '\u{1c}', '\u{1f}', '\u{21}', '\u{84}', '\u{86}', '\u{9f}', '\u{a1}',
        '\u{167f}', '\u{1681}', '\u{180e}', '\u{1fff}', '\u{200b}', '\u{200c}', '\u{200d}',
        '\u{2027}', '\u{202a}', '\u{202e}', '\u{2030}', '\u{205e}', '\u{2060}', '\u{2fff}',
        '\u{3001}', '\u{feff}', '_', '.',
    ] {
        let doc = Html::parse_document(&format!(
            "<div class=\"team\"><b class=\"team-name\">{}Team{}</b></div>",
            kept, kept
        ));
        let team = first_of(&doc, ".team");
        assert_eq!(parse_team_name(&team), Ok(format!("{}Team{}", kept, kept)), "{:?}", kept);
    }
}
