//! Rows of the dimension tables.

use vstd::prelude::*;

verus! {

/// A row from the `game` dimension table.
///
/// `home_score` and `away_score` are `None` until the game is final.
#[derive(Debug, Clone, PartialEq)]
pub struct Game {
    /// Source-assigned game identifier, e.g. `"nba_stats_0022300001"`.
    pub id: String,
    pub league_id: String,
    /// Season label, e.g. `"2023-24"`. Matches `season.id`.
    pub season_id: String,
    /// One of `"Regular"`, `"Playoffs"`, `"PlayIn"`, `"AllStar"`, `"Preseason"`.
    pub season_type: String,
    /// ISO-8601 date string (`"YYYY-MM-DD"`).
    pub game_date: String,
    pub home_team_id: String,
    pub away_team_id: String,
    pub home_score: Option<i16>,
    pub away_score: Option<i16>,
    /// One of `"scheduled"`, `"live"`, `"final"`.
    pub status: String,
}

/// A row from the `player` dimension table.
///
/// `birth_date` is `None` when the source does not report it.
#[derive(Debug, Clone, PartialEq)]
pub struct Player {
    /// Composite key: `{LEAGUE}_{source_player_id}`, e.g. `"NBA_2544"`.
    pub id: String,
    /// League identifier, e.g. `"NBA"`.
    pub league_id: String,
    pub first_name: String,
    pub last_name: String,
    /// ISO-8601 date string (`"YYYY-MM-DD"`), or `None` when not reported.
    pub birth_date: Option<String>,
}

/// A row from the `team` dimension table.
#[derive(Debug, Clone, PartialEq)]
pub struct Team {
    /// Composite key: `{LEAGUE}_{abbreviation}`, e.g. `"NBA_BOS"`.
    pub id: String,
    /// League identifier, e.g. `"NBA"`.
    pub league_id: String,
    /// Short code used in box scores, e.g. `"BOS"`.
    pub abbreviation: String,
    pub full_name: String,
    pub city: String,
}

} // verus!
