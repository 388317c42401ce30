//! Per-league game-structure constants.

use vstd::prelude::*;

verus! {

/// A basketball league supported (or planned).
///
/// Only `NBA` has its constants defined; the other variants exist so that no
/// code outside this module hardcodes league rules. The constant functions
/// therefore require `League::NBA`.
#[derive(Debug, Clone, Copy, PartialEq, Eq, Hash, Structural)]
pub enum League {
    NBA,
    WNBA,
    NCAAM,
    NCAAW,
    Euroleague,
}

/// Whether the league's game-structure constants are defined.
pub open spec fn league_defined(league: League) -> bool {
    league is NBA
}

/// Length of a single period in minutes.
pub open spec fn spec_period_length_min(league: League) -> nat {
    12
}

/// Number of regulation periods per game.
pub open spec fn spec_periods_per_game(league: League) -> nat {
    4
}

/// Number of games in a standard regular season.
pub open spec fn spec_regular_season_games(league: League) -> nat {
    82
}

impl League {
    /// Length of a single period in minutes.
    pub fn period_length_min(self) -> (minutes: u8)
        requires
            league_defined(self),
        ensures
            minutes == spec_period_length_min(self),
            minutes == 12,
    {
        match self {
            League::NBA => 12,
            _ => 0,
        }
    }

    /// Number of regulation periods per game.
    pub fn periods_per_game(self) -> (periods: u8)
        requires
            league_defined(self),
        ensures
            periods == spec_periods_per_game(self),
            periods == 4,
    {
        match self {
            League::NBA => 4,
            _ => 0,
        }
    }

    /// Number of games in a standard regular season.
    pub fn regular_season_games(self) -> (games: u16)
        requires
            league_defined(self),
        ensures
            games == spec_regular_season_games(self),
            games == 82,
    {
        match self {
            League::NBA => 82,
            _ => 0,
        }
    }

    /// Total regulation minutes per game: period length times periods per game.
    pub fn regulation_minutes(self) -> (minutes: u16)
        requires
            league_defined(self),
        ensures
            minutes == spec_period_length_min(self) * spec_periods_per_game(self),
            minutes == 48,
    {
        (self.period_length_min() as u16) * (self.periods_per_game() as u16)
    }
}

} // verus!
