//! Extraction and analysis of competitive match data from tournament pages.
//!
//! The [`parser`] reads the matches and links of a fetched page, the
//! [`crawler`] decides which pages of an event to fetch and in which order,
//! and the [`analyzer`] answers questions about the matches collected.

pub mod analyzer;
pub mod crawler;
pub mod dom;
pub mod model;
pub mod parser;
pub mod text;
pub mod url;

pub use analyzer::frequency::{analyze_meta, CompositionRate};
pub use analyzer::maps::get_maps;
pub use crawler::{Crawl, PageKind, Request, Step};
pub use model::{Agent, GameMap, Match, MatchView, Player, Team, TeamView};
pub use parser::document::{
    event_links, extract_links, keep_page_links, parse_matches, series_links,
};
pub use parser::error::ParseError;
pub use parser::fragment::{parse_team_name, read_game_tab};
pub use parser::tab::{assemble_match, GameTab, RosterRow, TeamEntry};
pub use url::{check_url, match_url, origin, validator_url, UrlError};
