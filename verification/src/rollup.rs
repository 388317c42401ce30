//! Season rollups: per-player and per-team season totals of the box score rows
//! of one season and one source.
//!
//! The rollup of a set of box score rows has one row per `(entity, season
//! type)`: `games_played` is the number of distinct games of the entity in that
//! season type, and each counting stat is the SQL `SUM` of the rows (NULLs
//! skipped; NULL when every row is NULL). Totals are stored as 32-bit
//! integers; a total that does not fit makes the rollup fail.

use vstd::prelude::*;

use crate::aggregate::{
    column_sum, group_lines, has_key, is_grouping, line_views, lines_have_width,
    opt_int, strs_view, tags_of, GroupTotal, KeyedLine, LineView,
};

verus! {

/// Number of counting-stat columns of a player box score row.
pub const PLAYER_STAT_COLUMNS: usize = 15;

/// Number of counting-stat columns of a team box score row.
pub const TEAM_STAT_COLUMNS: usize = 19;

/// One box score row as the rollups read it: the game, the player or team it
/// belongs to, its season type and its counting stats (`None` when the source
/// did not report the stat).
///
/// Player rows carry, in this order: points, offensive, defensive and total
/// rebounds, assists, steals, blocks, turnovers, personal fouls, field goals
/// made and attempted, three-pointers made and attempted, free throws made and
/// attempted. Team rows carry the same fifteen followed by fast-break points,
/// points in the paint, second-chance points and bench points.
#[derive(Debug, Clone, PartialEq)]
pub struct BoxScoreLine {
    pub game_id: String,
    pub entity_id: String,
    pub season_type: String,
    pub stats: Vec<Option<i16>>,
}

impl BoxScoreLine {
    pub open spec fn view(&self) -> LineView {
        LineView { key: seq![self.entity_id@, self.season_type@], tag: self.game_id@, values: self.stats@ }
    }
}

/// The views of box score rows.
pub open spec fn box_views(rows: Seq<BoxScoreLine>) -> Seq<LineView> {
    rows.map_values(|r: BoxScoreLine| r.view())
}

/// A nullable 32-bit integer as a mathematical one.
pub open spec fn opt32(o: Option<i32>) -> Option<int> {
    match o {
        None => None,
        Some(v) => Some(v as int),
    }
}

/// Every group of `lines` has a distinct-tag count and column sums that fit a
/// 32-bit integer column.
pub open spec fn fits_integer(lines: Seq<LineView>, width: nat) -> bool {
    forall|k: Seq<Seq<char>>| #[trigger] has_key(lines, k) ==> {
        &&& tags_of(lines, k).len() <= i32::MAX
        &&& forall|c: int| 0 <= c < width ==> (#[trigger] column_sum(lines, k, c) matches Some(v) ==> i32::MIN <= v <= i32::MAX)
    }
}

/// Season totals of one player in one season type.
#[derive(Debug, Clone, PartialEq)]
pub struct PlayerSeasonCounts {
    pub player_id: String,
    pub season_type: String,
    pub games_played: i32,
    /// The player counting stats, in the column order of [`BoxScoreLine`].
    pub stats: Vec<Option<i32>>,
}

impl PlayerSeasonCounts {
    pub open spec fn key(&self) -> Seq<Seq<char>> {
        seq![self.player_id@, self.season_type@]
    }
}

/// `out` is the player rollup of `lines`.
pub open spec fn is_player_rollup(lines: Seq<LineView>, out: Seq<PlayerSeasonCounts>) -> bool {
    &&& forall|g: int, h: int| 0 <= g < h < out.len() ==> (#[trigger] out[g]).key() != (#[trigger] out[h]).key()
    &&& forall|g: int| 0 <= g < out.len() ==> has_key(lines, (#[trigger] out[g]).key())
    &&& forall|k: Seq<Seq<char>>| #[trigger] has_key(lines, k) ==> exists|g: int| 0 <= g < out.len() && (#[trigger] out[g]).key() == k
    &&& forall|g: int| 0 <= g < out.len() ==> {
        &&& (#[trigger] out[g]).games_played == tags_of(lines, out[g].key()).len()
        &&& out[g].stats.len() == PLAYER_STAT_COLUMNS
        &&& forall|c: int| 0 <= c < PLAYER_STAT_COLUMNS ==> opt32(#[trigger] out[g].stats@[c]) == column_sum(lines, out[g].key(), c)
    }
}

/// A row of the `team_season_totals` table: one per team, season, season type
/// and source.
#[derive(Debug, Clone, PartialEq)]
pub struct TeamSeasonTotals {
    pub id: i64,
    pub team_id: String,
    pub season_id: String,
    pub season_type: String,
    pub source: String,
    pub games_played: i32,
    pub points: Option<i32>,
    pub rebounds_offensive: Option<i32>,
    pub rebounds_defensive: Option<i32>,
    pub rebounds_total: Option<i32>,
    pub assists: Option<i32>,
    pub steals: Option<i32>,
    pub blocks: Option<i32>,
    pub turnovers: Option<i32>,
    pub personal_fouls: Option<i32>,
    pub field_goals_made: Option<i32>,
    pub field_goals_attempted: Option<i32>,
    pub three_pointers_made: Option<i32>,
    pub three_pointers_attempted: Option<i32>,
    pub free_throws_made: Option<i32>,
    pub free_throws_attempted: Option<i32>,
    pub fast_break_points: Option<i32>,
    pub points_in_paint: Option<i32>,
    pub second_chance_points: Option<i32>,
    pub bench_points: Option<i32>,
    pub computed_at: Option<String>,
}

impl TeamSeasonTotals {
    pub open spec fn key(&self) -> Seq<Seq<char>> {
        seq![self.team_id@, self.season_type@]
    }

    /// The counting stats, in the column order of [`BoxScoreLine`].
    pub open spec fn stats(&self) -> Seq<Option<i32>> {
        seq![
            self.points, self.rebounds_offensive, self.rebounds_defensive, self.rebounds_total,
            self.assists, self.steals, self.blocks, self.turnovers, self.personal_fouls,
            self.field_goals_made, self.field_goals_attempted, self.three_pointers_made,
            self.three_pointers_attempted, self.free_throws_made, self.free_throws_attempted,
            self.fast_break_points, self.points_in_paint, self.second_chance_points, self.bench_points,
        ]
    }
}

/// `out` is the team rollup of `lines` for `season_id` and `source`, as rows
/// ready to be upserted (no id, no computation time).
pub open spec fn is_team_rollup(lines: Seq<LineView>, season_id: Seq<char>, source: Seq<char>, out: Seq<TeamSeasonTotals>) -> bool {
    &&& forall|g: int, h: int| 0 <= g < h < out.len() ==> (#[trigger] out[g]).key() != (#[trigger] out[h]).key()
    &&& forall|g: int| 0 <= g < out.len() ==> has_key(lines, (#[trigger] out[g]).key())
    &&& forall|k: Seq<Seq<char>>| #[trigger] has_key(lines, k) ==> exists|g: int| 0 <= g < out.len() && (#[trigger] out[g]).key() == k
    &&& forall|g: int| 0 <= g < out.len() ==> {
        &&& (#[trigger] out[g]).games_played == tags_of(lines, out[g].key()).len()
        &&& out[g].id == 0
        &&& out[g].season_id@ == season_id
        &&& out[g].source@ == source
        &&& out[g].computed_at is None
        &&& forall|c: int| 0 <= c < TEAM_STAT_COLUMNS ==> opt32(#[trigger] out[g].stats()[c]) == column_sum(lines, out[g].key(), c)
    }
}

/// The aggregation lines of box score rows.
fn keyed_lines(rows: &Vec<BoxScoreLine>) -> (lines: Vec<KeyedLine>)
    ensures
        line_views(lines@) == box_views(rows@),
{
    let mut lines: Vec<KeyedLine> = Vec::new();
    let mut i: usize = 0;
    while i < rows.len()
        invariant
            i <= rows.len(),
            lines.len() == i,
            forall|j: int| 0 <= j < i ==> (#[trigger] lines@[j]).view() == rows@[j].view(),
        decreases rows.len() - i,
    {
        let row = &rows[i];
        let mut key: Vec<String> = Vec::new();
        key.push(row.entity_id.clone());
        key.push(row.season_type.clone());
        let mut values: Vec<Option<i16>> = Vec::new();
        let mut c: usize = 0;
        while c < row.stats.len()
            invariant
                c <= row.stats.len(),
                values@ == row.stats@.subrange(0, c as int),
            decreases row.stats.len() - c,
        {
            values.push(row.stats[c]);
            c = c + 1;
            assert(values@ =~= row.stats@.subrange(0, c as int));
        }
        assert(values@ =~= row.stats@);
        let line = KeyedLine { key, tag: row.game_id.clone(), values };
        assert(line.view().key =~= row.view().key);
        lines.push(line);
        i = i + 1;
    }
    assert(line_views(lines@) =~= box_views(rows@));
    lines
}

/// A 32-bit copy of an exact nullable total, if it fits.
fn narrow(v: Option<i128>) -> (r: Option<Option<i32>>)
    ensures
        r is Some <==> (v matches Some(x) ==> i32::MIN <= x <= i32::MAX),
        r matches Some(n) ==> opt32(n) == opt_int(v),
{
    match v {
        None => Some(None),
        Some(x) => if i32::MIN as i128 <= x && x <= i32::MAX as i128 {
            Some(Some(x as i32))
        } else {
            None
        },
    }
}

/// The 32-bit column totals of a group, if every one fits.
fn narrow_sums(sums: &Vec<Option<i128>>) -> (r: Option<Vec<Option<i32>>>)
    ensures
        r is Some <==> forall|c: int| 0 <= c < sums.len() ==> (#[trigger] sums@[c] matches Some(x) ==> i32::MIN <= x <= i32::MAX),
        r matches Some(n) ==> n.len() == sums.len() && forall|c: int| 0 <= c < sums.len() ==> opt32(#[trigger] n@[c]) == opt_int(sums@[c]),
{
    let mut out: Vec<Option<i32>> = Vec::new();
    let mut c: usize = 0;
    while c < sums.len()
        invariant
            c <= sums.len(),
            out.len() == c,
            forall|d: int| 0 <= d < c ==> (#[trigger] sums@[d] matches Some(x) ==> i32::MIN <= x <= i32::MAX),
            forall|d: int| 0 <= d < c ==> opt32(#[trigger] out@[d]) == opt_int(sums@[d]),
        decreases sums.len() - c,
    {
        match narrow(sums[c]) {
            Some(n) => out.push(n),
            None => return None,
        }
        c = c + 1;
    }
    Some(out)
}

/// The groups of `lines` keyed by two strings, checked to fit 32-bit columns.
fn checked_groups(lines: &Vec<KeyedLine>, width: usize) -> (r: Option<(Vec<GroupTotal>, Vec<Vec<Option<i32>>>)>)
    requires
        lines_have_width(line_views(lines@), width as nat),
        forall|i: int| 0 <= i < lines.len() ==> (#[trigger] lines@[i]).key.len() == 2,
    ensures
        r is Some <==> fits_integer(line_views(lines@), width as nat),
        r matches Some((groups, sums)) ==> {
            &&& is_grouping(line_views(lines@), width as nat, groups@)
            &&& sums.len() == groups.len()
            &&& forall|g: int| 0 <= g < groups.len() ==> {
                &&& (#[trigger] groups@[g]).key.len() == 2
                &&& groups@[g].distinct_tags <= i32::MAX
                &&& sums@[g].len() == width
                &&& forall|c: int| 0 <= c < width ==> opt32(#[trigger] sums@[g]@[c]) == opt_int(groups@[g].sums@[c])
            }
        },
{
    let ghost lv = line_views(lines@);
    let groups = group_lines(lines, width);
    let mut all: Vec<Vec<Option<i32>>> = Vec::new();
    let mut g: usize = 0;
    while g < groups.len()
        invariant
            g <= groups.len(),
            all.len() == g,
            is_grouping(lv, width as nat, groups@),
            lv == line_views(lines@),
            forall|i: int| 0 <= i < lines.len() ==> (#[trigger] lines@[i]).key.len() == 2,
            forall|h: int| 0 <= h < g ==> {
                &&& (#[trigger] groups@[h]).key.len() == 2
                &&& groups@[h].distinct_tags <= i32::MAX
                &&& all@[h].len() == width
                &&& forall|c: int| 0 <= c < width ==> opt32(#[trigger] all@[h]@[c]) == opt_int(groups@[h].sums@[c])
            },
        decreases groups.len() - g,
    {
        let grp = &groups[g];
        proof {
            let j = choose|j: int| 0 <= j < lv.len() && #[trigger] lv[j].key == grp.key_view();
            assert(lv[j] == lines@[j].view());
            assert(strs_view(grp.key@).len() == 2);
        }
        let narrowed = narrow_sums(&grp.sums);
        if grp.distinct_tags > i32::MAX as usize || narrowed.is_none() {
            proof {
                let k = grp.key_view();
                assert(has_key(lv, k));
                if grp.distinct_tags <= i32::MAX as usize {
                    let c = choose|c: int| 0 <= c < grp.sums.len() && !(#[trigger] grp.sums@[c] matches Some(x) ==> i32::MIN <= x <= i32::MAX);
                    assert(opt_int(grp.sums@[c]) == column_sum(lv, k, c));
                }
            }
            return None;
        }
        all.push(narrowed.unwrap());
        g = g + 1;
    }
    proof {
        assert forall|k: Seq<Seq<char>>| #[trigger] has_key(lv, k) implies {
            &&& tags_of(lv, k).len() <= i32::MAX
            &&& forall|c: int| 0 <= c < width ==> (#[trigger] column_sum(lv, k, c) matches Some(v) ==> i32::MIN <= v <= i32::MAX)
        } by {
            let h = choose|h: int| 0 <= h < groups.len() && (#[trigger] groups@[h]).key_view() == k;
            assert forall|c: int| 0 <= c < width implies (#[trigger] column_sum(lv, k, c) matches Some(v) ==> i32::MIN <= v <= i32::MAX) by {
                assert(opt32(all@[h]@[c]) == opt_int(groups@[h].sums@[c]));
            }
        }
    }
    Some((groups, all))
}


/// The player season totals of the box score rows of one season and source, or
/// `None` when a total does not fit a 32-bit column.
pub fn player_season_totals(rows: &Vec<BoxScoreLine>) -> (r: Option<Vec<PlayerSeasonCounts>>)
    requires
        lines_have_width(box_views(rows@), PLAYER_STAT_COLUMNS as nat),
    ensures
        r is Some <==> fits_integer(box_views(rows@), PLAYER_STAT_COLUMNS as nat),
        r matches Some(out) ==> is_player_rollup(box_views(rows@), out@),
        r matches Some(out) ==> forall|g: int, c: int| 0 <= g < out.len() && 0 <= c < PLAYER_STAT_COLUMNS ==>
            opt32(#[trigger] out@[g].stats@[c]) == row_stat_sum(rows@, out@[g].player_id@, out@[g].season_type@, c),
        r matches Some(out) ==> forall|g: int| 0 <= g < out.len() ==>
            (#[trigger] out@[g]).games_played == row_games(rows@, out@[g].player_id@, out@[g].season_type@).len(),
{
    let lines = keyed_lines(rows);
    let ghost lv = box_views(rows@);
    proof {
        assert forall|i: int| 0 <= i < lines.len() implies (#[trigger] lines@[i]).key.len() == 2 by {
            assert(line_views(lines@).len() == lines@.len());
            assert(line_views(lines@)[i] == lines@[i].view());
            assert(box_views(rows@)[i] == rows@[i].view());
            assert(strs_view(lines@[i].key@).len() == 2);
        }
    }
    let checked = checked_groups(&lines, PLAYER_STAT_COLUMNS);
    match checked {
        None => None,
        Some((groups, sums)) => {
            let mut out: Vec<PlayerSeasonCounts> = Vec::new();
            let mut g: usize = 0;
            while g < groups.len()
                invariant
                    g <= groups.len(),
                    out.len() == g,
                    lv == line_views(lines@),
                    is_grouping(lv, PLAYER_STAT_COLUMNS as nat, groups@),
                    sums.len() == groups.len(),
                    forall|h: int| 0 <= h < groups.len() ==> {
                        &&& (#[trigger] groups@[h]).key.len() == 2
                        &&& groups@[h].distinct_tags <= i32::MAX
                        &&& sums@[h].len() == PLAYER_STAT_COLUMNS
                        &&& forall|c: int| 0 <= c < PLAYER_STAT_COLUMNS ==> opt32(#[trigger] sums@[h]@[c]) == opt_int(groups@[h].sums@[c])
                    },
                    forall|h: int| 0 <= h < g ==> {
                        &&& (#[trigger] out@[h]).key() == groups@[h].key_view()
                        &&& out@[h].games_played == groups@[h].distinct_tags
                        &&& out@[h].stats@ == sums@[h]@
                    },
                decreases groups.len() - g,
            {
                let grp = &groups[g];
                let row = PlayerSeasonCounts {
                    player_id: grp.key[0].clone(),
                    season_type: grp.key[1].clone(),
                    games_played: grp.distinct_tags as i32,
                    stats: clone_counts(&sums[g]),
                };
                assert(row.key() =~= grp.key_view());
                out.push(row);
                g = g + 1;
            }
            proof {
                assert forall|g: int, h: int| 0 <= g < h < out.len() implies (#[trigger] out@[g]).key() != (#[trigger] out@[h]).key() by {
                    assert(groups@[g].key_view() != groups@[h].key_view());
                }
                assert forall|g: int| 0 <= g < out.len() implies has_key(lv, (#[trigger] out@[g]).key()) by {
                    assert(has_key(lv, groups@[g].key_view()));
                }
                assert forall|k: Seq<Seq<char>>| #[trigger] has_key(lv, k) implies exists|g: int| 0 <= g < out.len() && (#[trigger] out@[g]).key() == k by {
                    let h = choose|h: int| 0 <= h < groups.len() && (#[trigger] groups@[h]).key_view() == k;
                    assert(out@[h].key() == k);
                }
                assert forall|g: int| 0 <= g < out.len() implies {
                    &&& (#[trigger] out@[g]).games_played == tags_of(lv, out@[g].key()).len()
                    &&& out@[g].stats.len() == PLAYER_STAT_COLUMNS
                    &&& forall|c: int| 0 <= c < PLAYER_STAT_COLUMNS ==> opt32(#[trigger] out@[g].stats@[c]) == column_sum(lv, out@[g].key(), c)
                } by {
                    assert(groups@[g].distinct_tags == tags_of(lv, groups@[g].key_view()).len());
                    assert forall|c: int| 0 <= c < PLAYER_STAT_COLUMNS implies opt32(#[trigger] out@[g].stats@[c]) == column_sum(lv, out@[g].key(), c) by {
                        assert(opt_int(groups@[g].sums@[c]) == column_sum(lv, groups@[g].key_view(), c));
                        assert(opt32(sums@[g]@[c]) == opt_int(groups@[g].sums@[c]));
                    }
                }
            }
            proof {
                lemma_player_totals_sum_rows(rows@, out@);
            }
            Some(out)
        },
    }
}

/// The `team_season_totals` row of a team group.
fn team_row(team_id: String, season_type: String, season_id: &str, source: &str, games_played: i32, c: &Vec<Option<i32>>) -> (t: TeamSeasonTotals)
    requires
        c.len() == TEAM_STAT_COLUMNS,
    ensures
        t.team_id@ == team_id@,
        t.season_type@ == season_type@,
        t.season_id@ == season_id@,
        t.source@ == source@,
        t.games_played == games_played,
        t.id == 0,
        t.computed_at is None,
        t.stats() == c@,
{
    let t = TeamSeasonTotals {
        id: 0,
        team_id,
        season_id: season_id.to_owned(),
        season_type,
        source: source.to_owned(),
        games_played,
        points: c[0],
        rebounds_offensive: c[1],
        rebounds_defensive: c[2],
        rebounds_total: c[3],
        assists: c[4],
        steals: c[5],
        blocks: c[6],
        turnovers: c[7],
        personal_fouls: c[8],
        field_goals_made: c[9],
        field_goals_attempted: c[10],
        three_pointers_made: c[11],
        three_pointers_attempted: c[12],
        free_throws_made: c[13],
        free_throws_attempted: c[14],
        fast_break_points: c[15],
        points_in_paint: c[16],
        second_chance_points: c[17],
        bench_points: c[18],
        computed_at: None,
    };
    assert(t.stats() =~= c@);
    t
}

/// The team season totals of the box score rows of season `season_id` and
/// source `source`, as rows ready to be upserted, or `None` when a total does
/// not fit a 32-bit column.
pub fn team_season_totals(season_id: &str, source: &str, rows: &Vec<BoxScoreLine>) -> (r: Option<Vec<TeamSeasonTotals>>)
    requires
        lines_have_width(box_views(rows@), TEAM_STAT_COLUMNS as nat),
    ensures
        r is Some <==> fits_integer(box_views(rows@), TEAM_STAT_COLUMNS as nat),
        r matches Some(out) ==> is_team_rollup(box_views(rows@), season_id@, source@, out@),
        r matches Some(out) ==> forall|g: int| 0 <= g < out.len() ==> team_totals_sum_rows(rows@, #[trigger] out@[g]),
{
    let lines = keyed_lines(rows);
    let ghost lv = box_views(rows@);
    proof {
        assert forall|i: int| 0 <= i < lines.len() implies (#[trigger] lines@[i]).key.len() == 2 by {
            assert(line_views(lines@).len() == lines@.len());
            assert(line_views(lines@)[i] == lines@[i].view());
            assert(box_views(rows@)[i] == rows@[i].view());
            assert(strs_view(lines@[i].key@).len() == 2);
        }
    }
    let checked = checked_groups(&lines, TEAM_STAT_COLUMNS);
    match checked {
        None => None,
        Some((groups, sums)) => {
            let mut out: Vec<TeamSeasonTotals> = Vec::new();
            let mut g: usize = 0;
            while g < groups.len()
                invariant
                    g <= groups.len(),
                    out.len() == g,
                    lv == line_views(lines@),
                    is_grouping(lv, TEAM_STAT_COLUMNS as nat, groups@),
                    sums.len() == groups.len(),
                    forall|h: int| 0 <= h < groups.len() ==> {
                        &&& (#[trigger] groups@[h]).key.len() == 2
                        &&& groups@[h].distinct_tags <= i32::MAX
                        &&& sums@[h].len() == TEAM_STAT_COLUMNS
                        &&& forall|c: int| 0 <= c < TEAM_STAT_COLUMNS ==> opt32(#[trigger] sums@[h]@[c]) == opt_int(groups@[h].sums@[c])
                    },
                    forall|h: int| 0 <= h < g ==> {
                        &&& (#[trigger] out@[h]).key() == groups@[h].key_view()
                        &&& out@[h].games_played == groups@[h].distinct_tags
                        &&& out@[h].stats() == sums@[h]@
                        &&& out@[h].id == 0
                        &&& out@[h].season_id@ == season_id@
                        &&& out@[h].source@ == source@
                        &&& out@[h].computed_at is None
                    },
                decreases groups.len() - g,
            {
                let grp = &groups[g];
                let row = team_row(grp.key[0].clone(), grp.key[1].clone(), season_id, source, grp.distinct_tags as i32, &sums[g]);
                assert(row.key() =~= grp.key_view());
                out.push(row);
                g = g + 1;
            }
            proof {
                assert forall|g: int, h: int| 0 <= g < h < out.len() implies (#[trigger] out@[g]).key() != (#[trigger] out@[h]).key() by {
                    assert(groups@[g].key_view() != groups@[h].key_view());
                }
                assert forall|g: int| 0 <= g < out.len() implies has_key(lv, (#[trigger] out@[g]).key()) by {
                    assert(has_key(lv, groups@[g].key_view()));
                }
                assert forall|k: Seq<Seq<char>>| #[trigger] has_key(lv, k) implies exists|g: int| 0 <= g < out.len() && (#[trigger] out@[g]).key() == k by {
                    let h = choose|h: int| 0 <= h < groups.len() && (#[trigger] groups@[h]).key_view() == k;
                    assert(out@[h].key() == k);
                }
                assert forall|g: int| 0 <= g < out.len() implies {
                    &&& (#[trigger] out@[g]).games_played == tags_of(lv, out@[g].key()).len()
                    &&& out@[g].id == 0
                    &&& out@[g].season_id@ == season_id@
                    &&& out@[g].source@ == source@
                    &&& out@[g].computed_at is None
                    &&& forall|c: int| 0 <= c < TEAM_STAT_COLUMNS ==> opt32(#[trigger] out@[g].stats()[c]) == column_sum(lv, out@[g].key(), c)
                } by {
                    assert(groups@[g].distinct_tags == tags_of(lv, groups@[g].key_view()).len());
                    assert forall|c: int| 0 <= c < TEAM_STAT_COLUMNS implies opt32(#[trigger] out@[g].stats()[c]) == column_sum(lv, out@[g].key(), c) by {
                        assert(opt_int(groups@[g].sums@[c]) == column_sum(lv, groups@[g].key_view(), c));
                        assert(opt32(sums@[g]@[c]) == opt_int(groups@[g].sums@[c]));
                    }
                }
            }
            proof {
                lemma_team_totals_sum_rows(rows@, season_id@, source@, out@);
            }
            Some(out)
        },
    }
}


/// The SQL `SUM` of stat column `c` over the box score rows of entity `entity`
/// and season type `season_type`: NULL values skipped, NULL when every value
/// is NULL.
pub open spec fn row_stat_sum(rows: Seq<BoxScoreLine>, entity: Seq<char>, season_type: Seq<char>, c: int) -> Option<int>
    decreases rows.len(),
{
    if rows.len() == 0 {
        None
    } else {
        let r = rows.last();
        let rest = row_stat_sum(rows.drop_last(), entity, season_type, c);
        if r.entity_id@ == entity && r.season_type@ == season_type {
            match r.stats@[c] {
                None => rest,
                Some(v) => match rest {
                    None => Some(v as int),
                    Some(t) => Some(t + v),
                },
            }
        } else {
            rest
        }
    }
}

/// The games of the box score rows of entity `entity` and season type
/// `season_type`.
pub open spec fn row_games(rows: Seq<BoxScoreLine>, entity: Seq<char>, season_type: Seq<char>) -> Set<Seq<char>>
    decreases rows.len(),
{
    if rows.len() == 0 {
        Set::empty()
    } else {
        let r = rows.last();
        let rest = row_games(rows.drop_last(), entity, season_type);
        if r.entity_id@ == entity && r.season_type@ == season_type {
            rest.insert(r.game_id@)
        } else {
            rest
        }
    }
}

/// Grouping the views of box score rows sums their stats column by column and
/// collects their games.
proof fn lemma_box_views_sum(rows: Seq<BoxScoreLine>, entity: Seq<char>, season_type: Seq<char>, c: int)
    ensures
        column_sum(box_views(rows), seq![entity, season_type], c) == row_stat_sum(rows, entity, season_type, c),
        tags_of(box_views(rows), seq![entity, season_type]) == row_games(rows, entity, season_type),
    decreases rows.len(),
{
    if rows.len() > 0 {
        let rest = rows.drop_last();
        lemma_box_views_sum(rest, entity, season_type, c);
        let v = box_views(rows);
        assert(v.drop_last() =~= box_views(rest));
        assert(v.last() == rows.last().view());
        let r = rows.last();
        let k = seq![entity, season_type];
        if r.entity_id@ == entity && r.season_type@ == season_type {
            assert(r.view().key =~= k);
        } else {
            if r.view().key == k {
                assert(r.view().key[0] == entity);
                assert(r.view().key[1] == season_type);
            }
        }
    }
}

/// Column `c` of a player's season totals is the SQL `SUM` of column `c` of
/// that player's box score rows in that season type, and games played is the
/// number of distinct games among those rows.
pub proof fn lemma_player_totals_sum_rows(rows: Seq<BoxScoreLine>, out: Seq<PlayerSeasonCounts>)
    requires
        is_player_rollup(box_views(rows), out),
    ensures
        forall|g: int, c: int| 0 <= g < out.len() && 0 <= c < PLAYER_STAT_COLUMNS ==>
            opt32(#[trigger] out[g].stats@[c]) == row_stat_sum(rows, out[g].player_id@, out[g].season_type@, c),
        forall|g: int| 0 <= g < out.len() ==>
            (#[trigger] out[g]).games_played == row_games(rows, out[g].player_id@, out[g].season_type@).len(),
{
    assert forall|g: int, c: int| 0 <= g < out.len() && 0 <= c < PLAYER_STAT_COLUMNS implies
        opt32(#[trigger] out[g].stats@[c]) == row_stat_sum(rows, out[g].player_id@, out[g].season_type@, c) by {
        lemma_box_views_sum(rows, out[g].player_id@, out[g].season_type@, c);
    }
    assert forall|g: int| 0 <= g < out.len() implies
        (#[trigger] out[g]).games_played == row_games(rows, out[g].player_id@, out[g].season_type@).len() by {
        lemma_box_views_sum(rows, out[g].player_id@, out[g].season_type@, 0);
    }
}

/// Each named total of a team season row is the SQL `SUM` of its column of the
/// team's box score rows in that season type: points column 0, offensive,
/// defensive and total rebounds 1-3, assists 4, steals 5, blocks 6, turnovers
/// 7, personal fouls 8, field goals made and attempted 9-10, three-pointers
/// 11-12, free throws 13-14, fast-break points 15, points in the paint 16,
/// second-chance points 17, bench points 18.
pub open spec fn team_totals_sum_rows(rows: Seq<BoxScoreLine>, t: TeamSeasonTotals) -> bool {
    &&& t.games_played == row_games(rows, t.team_id@, t.season_type@).len()
    &&& opt32(t.points) == row_stat_sum(rows, t.team_id@, t.season_type@, 0)
    &&& opt32(t.rebounds_offensive) == row_stat_sum(rows, t.team_id@, t.season_type@, 1)
    &&& opt32(t.rebounds_defensive) == row_stat_sum(rows, t.team_id@, t.season_type@, 2)
    &&& opt32(t.rebounds_total) == row_stat_sum(rows, t.team_id@, t.season_type@, 3)
    &&& opt32(t.assists) == row_stat_sum(rows, t.team_id@, t.season_type@, 4)
    &&& opt32(t.steals) == row_stat_sum(rows, t.team_id@, t.season_type@, 5)
    &&& opt32(t.blocks) == row_stat_sum(rows, t.team_id@, t.season_type@, 6)
    &&& opt32(t.turnovers) == row_stat_sum(rows, t.team_id@, t.season_type@, 7)
    &&& opt32(t.personal_fouls) == row_stat_sum(rows, t.team_id@, t.season_type@, 8)
    &&& opt32(t.field_goals_made) == row_stat_sum(rows, t.team_id@, t.season_type@, 9)
    &&& opt32(t.field_goals_attempted) == row_stat_sum(rows, t.team_id@, t.season_type@, 10)
    &&& opt32(t.three_pointers_made) == row_stat_sum(rows, t.team_id@, t.season_type@, 11)
    &&& opt32(t.three_pointers_attempted) == row_stat_sum(rows, t.team_id@, t.season_type@, 12)
    &&& opt32(t.free_throws_made) == row_stat_sum(rows, t.team_id@, t.season_type@, 13)
    &&& opt32(t.free_throws_attempted) == row_stat_sum(rows, t.team_id@, t.season_type@, 14)
    &&& opt32(t.fast_break_points) == row_stat_sum(rows, t.team_id@, t.season_type@, 15)
    &&& opt32(t.points_in_paint) == row_stat_sum(rows, t.team_id@, t.season_type@, 16)
    &&& opt32(t.second_chance_points) == row_stat_sum(rows, t.team_id@, t.season_type@, 17)
    &&& opt32(t.bench_points) == row_stat_sum(rows, t.team_id@, t.season_type@, 18)
}

/// A team season row holds, field by field, the sums of its team's box score
/// rows.
pub proof fn lemma_team_totals_sum_rows(rows: Seq<BoxScoreLine>, season_id: Seq<char>, source: Seq<char>, out: Seq<TeamSeasonTotals>)
    requires
        is_team_rollup(box_views(rows), season_id, source, out),
    ensures
        forall|g: int| 0 <= g < out.len() ==> team_totals_sum_rows(rows, #[trigger] out[g]),
{
    assert forall|g: int| 0 <= g < out.len() implies team_totals_sum_rows(rows, #[trigger] out[g]) by {
        let t = out[g];
        assert forall|c: int| 0 <= c < TEAM_STAT_COLUMNS implies
            column_sum(box_views(rows), t.key(), c) == row_stat_sum(rows, t.team_id@, t.season_type@, c) by {
            lemma_box_views_sum(rows, t.team_id@, t.season_type@, c);
        }
        lemma_box_views_sum(rows, t.team_id@, t.season_type@, 0);
        assert(opt32(t.stats()[0]) == column_sum(box_views(rows), t.key(), 0));
        assert(opt32(t.stats()[1]) == column_sum(box_views(rows), t.key(), 1));
        assert(opt32(t.stats()[2]) == column_sum(box_views(rows), t.key(), 2));
        assert(opt32(t.stats()[3]) == column_sum(box_views(rows), t.key(), 3));
        assert(opt32(t.stats()[4]) == column_sum(box_views(rows), t.key(), 4));
        assert(opt32(t.stats()[5]) == column_sum(box_views(rows), t.key(), 5));
        assert(opt32(t.stats()[6]) == column_sum(box_views(rows), t.key(), 6));
        assert(opt32(t.stats()[7]) == column_sum(box_views(rows), t.key(), 7));
        assert(opt32(t.stats()[8]) == column_sum(box_views(rows), t.key(), 8));
        assert(opt32(t.stats()[9]) == column_sum(box_views(rows), t.key(), 9));
        assert(opt32(t.stats()[10]) == column_sum(box_views(rows), t.key(), 10));
        assert(opt32(t.stats()[11]) == column_sum(box_views(rows), t.key(), 11));
        assert(opt32(t.stats()[12]) == column_sum(box_views(rows), t.key(), 12));
        assert(opt32(t.stats()[13]) == column_sum(box_views(rows), t.key(), 13));
        assert(opt32(t.stats()[14]) == column_sum(box_views(rows), t.key(), 14));
        assert(opt32(t.stats()[15]) == column_sum(box_views(rows), t.key(), 15));
        assert(opt32(t.stats()[16]) == column_sum(box_views(rows), t.key(), 16));
        assert(opt32(t.stats()[17]) == column_sum(box_views(rows), t.key(), 17));
        assert(opt32(t.stats()[18]) == column_sum(box_views(rows), t.key(), 18));
    }
}

/// A copy of a list of nullable totals.
fn clone_counts(v: &Vec<Option<i32>>) -> (r: Vec<Option<i32>>)
    ensures
        r@ == v@,
{
    let mut r: Vec<Option<i32>> = Vec::new();
    let mut i: usize = 0;
    while i < v.len()
        invariant
            i <= v.len(),
            r@ == v@.subrange(0, i as int),
        decreases v.len() - i,
    {
        r.push(v[i]);
        i = i + 1;
        assert(r@ =~= v@.subrange(0, i as int));
    }
    assert(r@ =~= v@);
    r
}

} // verus!
