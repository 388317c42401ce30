//! Errors of the compute operations and the season-rollup decision.

use vstd::prelude::*;
use vstd::string::StringExecFns;

use crate::aggregate::lines_have_width;
use crate::rollup::{
    box_views, fits_integer, is_player_rollup, is_team_rollup, opt32, player_season_totals, row_games,
    row_stat_sum, team_totals_sum_rows,
    team_season_totals, BoxScoreLine, PlayerSeasonCounts, TeamSeasonTotals,
    PLAYER_STAT_COLUMNS, TEAM_STAT_COLUMNS,
};
use crate::season::{season_label, Season};
use crate::text::{decimal, push_decimal};

verus! {

/// A failure of the store, carried as the store's own message.
#[derive(Debug)]
pub enum DbError {
    /// The database engine reported an error.
    DuckDb(String),
    /// Reading a file failed.
    Io(String),
}

/// The display text of a store failure.
pub open spec fn db_error_message(e: DbError) -> Seq<char> {
    match e {
        DbError::DuckDb(m) => "DuckDB: "@ + m@,
        DbError::Io(m) => "I/O: "@ + m@,
    }
}

impl DbError {
    /// The display text: the kind of failure followed by the store's message.
    pub fn to_string(&self) -> (s: String)
        ensures
            s@ == db_error_message(*self),
    {
        match self {
            DbError::DuckDb(m) => {
                let mut s = String::new();
                s.append("DuckDB: ");
                s.append(m.as_str());
                s
            },
            DbError::Io(m) => {
                let mut s = String::new();
                s.append("I/O: ");
                s.append(m.as_str());
                s
            },
        }
    }
}

/// Errors that can occur during a compute operation.
#[derive(Debug)]
pub enum ComputeError {
    /// No box score rows exist for the season and source.
    NoSourceData { season: String, start_year: u16, data_source: String },
    Db(DbError),
}

/// The text of a missing-source-data error, with the command that loads the data.
pub open spec fn no_source_data_message(season: Seq<char>, start_year: nat, source: Seq<char>) -> Seq<char> {
    "No player_game_box rows for season="@ + season + " source="@ + source
        + ". Did you forget: metis-cli load box-scores --season "@ + decimal(start_year)
        + " --source "@ + source + "?"@
}

/// The display text of a compute error.
pub open spec fn compute_error_message(e: ComputeError) -> Seq<char> {
    match e {
        ComputeError::NoSourceData { season, start_year, data_source } =>
            no_source_data_message(season@, start_year as nat, data_source@),
        ComputeError::Db(d) => db_error_message(d),
    }
}

impl ComputeError {
    /// The display text of the error; a store failure shows the store's text.
    pub fn to_string(&self) -> (s: String)
        ensures
            s@ == compute_error_message(*self),
    {
        match self {
            ComputeError::NoSourceData { season, start_year, data_source } => {
                let mut s = String::new();
                s.append("No player_game_box rows for season=");
                s.append(season.as_str());
                s.append(" source=");
                s.append(data_source.as_str());
                s.append(". Did you forget: metis-cli load box-scores --season ");
                push_decimal(&mut s, *start_year as u64);
                s.append(" --source ");
                s.append(data_source.as_str());
                s.append("?");
                s
            },
            ComputeError::Db(d) => d.to_string(),
        }
    }
}

/// Summary of a completed rollup run.
#[derive(Debug, Clone, PartialEq, Eq, Structural)]
pub struct RollupSummary {
    /// Number of `player_season_totals` rows written (inserts + updates).
    pub player_rows: u64,
    /// Number of `team_season_totals` rows written (inserts + updates).
    pub team_rows: u64,
}

/// The rows a season rollup writes, with its summary.
#[derive(Debug)]
pub struct SeasonRollup {
    pub summary: RollupSummary,
    pub player_totals: Vec<PlayerSeasonCounts>,
    pub team_totals: Vec<TeamSeasonTotals>,
}

/// The text of the error raised when a total does not fit its column.
pub open spec fn overflow_message() -> Seq<char> {
    "Conversion Error: season total out of range for INTEGER"@
}

/// The store failure raised when a total does not fit its 32-bit column.
fn overflow_error() -> (e: ComputeError)
    ensures
        e matches ComputeError::Db(DbError::DuckDb(m)) && m@ == overflow_message(),
{
    ComputeError::Db(DbError::DuckDb("Conversion Error: season total out of range for INTEGER".to_owned()))
}


/// The outcome of a season rollup over the given box score rows.
pub open spec fn is_season_rollup(
    season: Season,
    source: Seq<char>,
    player_rows: Seq<BoxScoreLine>,
    team_rows: Seq<BoxScoreLine>,
    r: Result<SeasonRollup, ComputeError>,
) -> bool {
    let players = box_views(player_rows);
    let teams = box_views(team_rows);
    if player_rows.len() == 0 {
        r matches Err(ComputeError::NoSourceData { season: s, start_year, data_source }) && s@
            == season_label(season.0 as nat) && start_year == season.0 && data_source@ == source
    } else if !fits_integer(players, PLAYER_STAT_COLUMNS as nat) || !fits_integer(teams, TEAM_STAT_COLUMNS as nat) {
        r matches Err(ComputeError::Db(DbError::DuckDb(m))) && m@ == overflow_message()
    } else {
        &&& r matches Ok(out)
        &&& is_player_rollup(players, out.player_totals@)
        &&& is_team_rollup(teams, season_label(season.0 as nat), source, out.team_totals@)
        &&& out.summary.player_rows == out.player_totals.len()
        &&& out.summary.team_rows == out.team_totals.len()
    }
}

/// Computes season rollups for all players and teams of `season` from the box
/// score rows of the given source: `player_rows` are the `player_game_box` rows
/// and `team_rows` the `team_game_box` rows of that season and source.
///
/// Fails with [`ComputeError::NoSourceData`] when there is no player box score
/// row, and with a store error when a total does not fit its column. The
/// summary counts the rows the rollup writes: one per player and season type,
/// and one per team and season type.
pub fn compute_season_rollups(
    season: Season,
    source: &str,
    player_rows: &Vec<BoxScoreLine>,
    team_rows: &Vec<BoxScoreLine>,
) -> (r: Result<SeasonRollup, ComputeError>)
    requires
        season.0 < u16::MAX,
        lines_have_width(box_views(player_rows@), PLAYER_STAT_COLUMNS as nat),
        lines_have_width(box_views(team_rows@), TEAM_STAT_COLUMNS as nat),
    ensures
        is_season_rollup(season, source@, player_rows@, team_rows@, r),
        r matches Ok(out) ==> forall|g: int, c: int| 0 <= g < out.player_totals.len() && 0 <= c < PLAYER_STAT_COLUMNS ==>
            opt32(#[trigger] out.player_totals@[g].stats@[c])
                == row_stat_sum(player_rows@, out.player_totals@[g].player_id@, out.player_totals@[g].season_type@, c),
        r matches Ok(out) ==> forall|g: int| 0 <= g < out.player_totals.len() ==>
            (#[trigger] out.player_totals@[g]).games_played
                == row_games(player_rows@, out.player_totals@[g].player_id@, out.player_totals@[g].season_type@).len(),
        r matches Ok(out) ==> forall|g: int| 0 <= g < out.team_totals.len() ==>
            team_totals_sum_rows(team_rows@, #[trigger] out.team_totals@[g]),
{
    let season_id = season.to_string();
    if player_rows.len() == 0 {
        return Err(ComputeError::NoSourceData {
            season: season_id,
            start_year: season.0,
            data_source: source.to_owned(),
        });
    }
    let player_totals = match player_season_totals(player_rows) {
        Some(rows) => rows,
        None => return Err(overflow_error()),
    };
    let team_totals = match team_season_totals(season_id.as_str(), source, team_rows) {
        Some(rows) => rows,
        None => return Err(overflow_error()),
    };
    let summary = RollupSummary {
        player_rows: player_totals.len() as u64,
        team_rows: team_totals.len() as u64,
    };
    Ok(SeasonRollup { summary, player_totals, team_totals })
}

} // verus!
