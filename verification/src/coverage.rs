//! Historical coverage windows of statistics.

use vstd::prelude::*;

use crate::season::Season;

verus! {

/// Describes the historical coverage window for a stat.
///
/// `None` for `min_season` means "available from the earliest recorded season."
/// `None` for `max_season` means "available through the current season."
#[derive(Debug, Clone, PartialEq, Eq)]
pub struct Coverage {
    pub min_season: Option<Season>,
    pub max_season: Option<Season>,
}

/// Whether the window `[min, max]` (either end open when `None`) holds `season`.
pub open spec fn spec_covers(min: Option<Season>, max: Option<Season>, season: Season) -> bool {
    &&& (min matches Some(m) ==> m.0 <= season.0)
    &&& (max matches Some(m) ==> season.0 <= m.0)
}

impl Coverage {
    /// Coverage from `min` through the present.
    pub fn from(min: Season) -> (c: Self)
        ensures
            c.min_season == Some(min),
            c.max_season.is_none(),
    {
        Coverage { min_season: Some(min), max_season: None }
    }

    /// Coverage across the full recorded history.
    pub fn full() -> (c: Self)
        ensures
            c.min_season.is_none(),
            c.max_season.is_none(),
    {
        Coverage { min_season: None, max_season: None }
    }

    /// Returns `true` if `season` falls within this coverage window.
    pub fn covers(&self, season: Season) -> (b: bool)
        ensures
            b == spec_covers(self.min_season, self.max_season, season),
            b <==> (match self.min_season {
                Some(m) => m.0 <= season.0,
                None => true,
            }) && (match self.max_season {
                Some(m) => season.0 <= m.0,
                None => true,
            }),
    {
        let after_min = match self.min_season {
            Some(min) => season.0 >= min.0,
            None => true,
        };
        let before_max = match self.max_season {
            Some(max) => season.0 <= max.0,
            None => true,
        };
        after_min && before_max
    }
}

/// Full coverage covers every season.
pub proof fn lemma_full_covers_every_season(season: Season)
    ensures
        spec_covers(None, None, season),
{
}

/// Coverage from `min` covers exactly the seasons starting no earlier than
/// `min`.
pub proof fn lemma_from_covers_exactly_later_seasons(min: Season, season: Season)
    ensures
        spec_covers(Some(min), None, season) <==> min.0 <= season.0,
{
}

/// Identifies a computable statistic.
///
/// This enumeration grows as stat formulas are added; coverage metadata can be
/// associated with stats through it.
#[derive(Debug, Clone, Copy, PartialEq, Eq, Hash, Structural)]
#[non_exhaustive]
pub enum StatId {
    // --- Traditional box score ---
    Points,
    Rebounds,
    Assists,
    Steals,
    Blocks,
    Turnovers,
    PersonalFouls,
    MinutesPlayed,
    FieldGoalsMade,
    FieldGoalsAttempted,
    ThreePointersMade,
    ThreePointersAttempted,
    FreeThrowsMade,
    FreeThrowsAttempted,
    // --- Advanced (box-score derivable) ---
    TrueShootingPct,
    EffectiveFieldGoalPct,
    UsageRate,
    PlayerEfficiencyRating,
    BoxPlusMinus,
    ValueOverReplacementPlayer,
    WinShares,
    // --- Play-by-play derived ---
    PossessionsPlayed,
    // --- Tracking (2013+) ---
    AverageSpeed,
    Touches,
}

} // verus!
