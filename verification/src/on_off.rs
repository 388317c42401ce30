//! On/off splits of lineup stints: for every player, the possessions and
//! points of his team while he is on the floor, and while he is off it.
//!
//! A stint is a stretch of consecutive possessions in which one team's five
//! players do not change. A player's on-court totals sum the stints in which
//! he is one of the five (per team and season type); the team totals sum all
//! the team's stints; off-court totals are team totals minus on-court totals.
//! Totals are 32-bit integers; a total that does not fit makes the split fail.

use vstd::prelude::*;

use crate::aggregate::{
    column_sum, group_lines, has_key, is_grouping, line_views,
    opt_int, strs_equal, strs_view, GroupTotal, KeyedLine, LineView,
};

verus! {

/// Number of summed columns of a stint: offensive possessions, defensive
/// possessions, points for, points against.
pub const STINT_COLUMNS: usize = 4;

/// One lineup stint as the on/off split reads it.
#[derive(Debug, Clone, PartialEq)]
pub struct StintLine {
    pub team_id: String,
    pub season_type: String,
    /// The players on the floor; `None` for a slot the source did not track.
    pub players: Vec<Option<String>>,
    pub possessions_offense: i16,
    pub possessions_defense: i16,
    pub points_for: i16,
    pub points_against: i16,
}

impl StintLine {
    /// The summed columns of the stint.
    pub open spec fn values(&self) -> Seq<Option<i16>> {
        seq![Some(self.possessions_offense), Some(self.possessions_defense), Some(self.points_for), Some(self.points_against)]
    }

    /// The aggregation line of the stint for its team.
    pub open spec fn team_line(&self) -> LineView {
        LineView { key: seq![self.team_id@, self.season_type@], tag: Seq::empty(), values: self.values() }
    }

    /// The aggregation line of the stint for player `p`.
    pub open spec fn player_line(&self, p: Seq<char>) -> LineView {
        LineView { key: seq![p, self.team_id@, self.season_type@], tag: Seq::empty(), values: self.values() }
    }

    /// The player lines of the first `k` slots of the stint.
    pub open spec fn slot_lines(&self, k: nat) -> Seq<LineView>
        decreases k,
    {
        if k == 0 || k > self.players.len() {
            Seq::empty()
        } else {
            let rest = self.slot_lines((k - 1) as nat);
            match self.players@[k - 1] {
                Some(p) => rest.push(self.player_line(p@)),
                None => rest,
            }
        }
    }
}

/// The player lines of all stints: one per stint and tracked slot.
pub open spec fn on_court_lines(stints: Seq<StintLine>) -> Seq<LineView>
    decreases stints.len(),
{
    if stints.len() == 0 {
        Seq::empty()
    } else {
        on_court_lines(stints.drop_last()) + stints.last().slot_lines(stints.last().players.len() as nat)
    }
}

/// The team lines of all stints: one per stint.
pub open spec fn team_lines(stints: Seq<StintLine>) -> Seq<LineView> {
    stints.map_values(|s: StintLine| s.team_line())
}

/// On/off totals of one player for one team and season type.
#[derive(Debug, Clone, PartialEq)]
pub struct OnOffCounts {
    pub player_id: String,
    pub team_id: String,
    pub season_type: String,
    pub possessions_on_offense: i32,
    pub possessions_on_defense: i32,
    pub points_for_on: i32,
    pub points_against_on: i32,
    pub possessions_off_offense: i32,
    pub possessions_off_defense: i32,
    pub points_for_off: i32,
    pub points_against_off: i32,
}

impl OnOffCounts {
    pub open spec fn key(&self) -> Seq<Seq<char>> {
        seq![self.player_id@, self.team_id@, self.season_type@]
    }

    pub open spec fn team_key(&self) -> Seq<Seq<char>> {
        seq![self.team_id@, self.season_type@]
    }

    /// The on-court totals, in the column order of a stint.
    pub open spec fn on(&self) -> Seq<int> {
        seq![self.possessions_on_offense as int, self.possessions_on_defense as int, self.points_for_on as int, self.points_against_on as int]
    }

    /// The off-court totals, in the column order of a stint.
    pub open spec fn off(&self) -> Seq<int> {
        seq![self.possessions_off_offense as int, self.possessions_off_defense as int, self.points_for_off as int, self.points_against_off as int]
    }
}

/// The exact total of a column that is never NULL.
pub open spec fn total(o: Option<int>) -> int {
    match o {
        Some(v) => v,
        None => 0,
    }
}

/// The on-court total of column `c` for the key `k` (player, team, season type).
pub open spec fn on_total(stints: Seq<StintLine>, k: Seq<Seq<char>>, c: int) -> int {
    total(column_sum(on_court_lines(stints), k, c))
}

/// The team total of column `c` for the team and season type of `k`.
pub open spec fn team_total(stints: Seq<StintLine>, k: Seq<Seq<char>>, c: int) -> int {
    total(column_sum(team_lines(stints), k.drop_first(), c))
}

/// Every on-court total, team total and their difference fits a 32-bit column.
pub open spec fn on_off_fits(stints: Seq<StintLine>) -> bool {
    forall|k: Seq<Seq<char>>, c: int|
        #![trigger has_key(on_court_lines(stints), k), column_sum(on_court_lines(stints), k, c)]
        has_key(on_court_lines(stints), k) && 0 <= c < STINT_COLUMNS ==> {
            &&& i32::MIN <= on_total(stints, k, c) <= i32::MAX
            &&& i32::MIN <= team_total(stints, k, c) <= i32::MAX
            &&& i32::MIN <= team_total(stints, k, c) - on_total(stints, k, c) <= i32::MAX
        }
}

/// `out` is the on/off split of `stints`: one row per player, team and season
/// type with tracked stints, holding its on-court totals and the team totals
/// minus them.
pub open spec fn is_on_off(stints: Seq<StintLine>, out: Seq<OnOffCounts>) -> bool {
    let lines = on_court_lines(stints);
    &&& forall|g: int, h: int| 0 <= g < h < out.len() ==> (#[trigger] out[g]).key() != (#[trigger] out[h]).key()
    &&& forall|g: int| 0 <= g < out.len() ==> has_key(lines, (#[trigger] out[g]).key())
    &&& forall|k: Seq<Seq<char>>| #[trigger] has_key(lines, k) ==> exists|g: int| 0 <= g < out.len() && (#[trigger] out[g]).key() == k
    &&& forall|g: int, c: int| 0 <= g < out.len() && 0 <= c < STINT_COLUMNS ==>
        #[trigger] out[g].on()[c] == on_total(stints, out[g].key(), c)
    &&& forall|g: int, c: int| 0 <= g < out.len() && 0 <= c < STINT_COLUMNS ==>
        #[trigger] out[g].off()[c] == team_total(stints, out[g].key(), c) - on_total(stints, out[g].key(), c)
}


/// The player lines of a stint have its team, season type and values.
proof fn lemma_slot_lines(s: StintLine, k: nat, i: int)
    requires
        0 <= i < s.slot_lines(k).len(),
    ensures
        s.slot_lines(k)[i].key.len() == 3,
        s.slot_lines(k)[i].key.drop_first() == s.team_line().key,
        s.slot_lines(k)[i].values == s.values(),
    decreases k,
{
    if k > 0 && k <= s.players.len() {
        let rest = s.slot_lines((k - 1) as nat);
        if i < rest.len() {
            lemma_slot_lines(s, (k - 1) as nat, i);
        } else {
            let p = s.players@[k - 1]->Some_0;
            assert(s.slot_lines(k)[i] == s.player_line(p@));
            assert(s.player_line(p@).key.drop_first() =~= s.team_line().key);
        }
    }
}

/// Every on-court line comes from a stint of its team: its key is a player
/// followed by a team key of the team lines.
proof fn lemma_on_court_line(stints: Seq<StintLine>, i: int)
    requires
        0 <= i < on_court_lines(stints).len(),
    ensures
        on_court_lines(stints)[i].key.len() == 3,
        on_court_lines(stints)[i].values.len() == STINT_COLUMNS,
        has_key(team_lines(stints), on_court_lines(stints)[i].key.drop_first()),
    decreases stints.len(),
{
    let rest = stints.drop_last();
    let last = stints.last();
    let n = stints.len() - 1;
    let prefix = on_court_lines(rest);
    assert(team_lines(stints)[n] == last.team_line());
    if i < prefix.len() {
        lemma_on_court_line(rest, i);
        assert(on_court_lines(stints)[i] == prefix[i]);
        let j = choose|j: int| 0 <= j < team_lines(rest).len() && #[trigger] team_lines(rest)[j].key == prefix[i].key.drop_first();
        assert(team_lines(stints)[j] == team_lines(rest)[j]);
    } else {
        lemma_slot_lines(last, last.players.len() as nat, i - prefix.len());
        assert(on_court_lines(stints)[i] == last.slot_lines(last.players.len() as nat)[i - prefix.len()]);
    }
}

/// The on-court and team lines of `stints`.
fn stint_lines(stints: &Vec<StintLine>) -> (r: (Vec<KeyedLine>, Vec<KeyedLine>))
    ensures
        line_views(r.0@) == on_court_lines(stints@),
        line_views(r.1@) == team_lines(stints@),
{
    let mut on: Vec<KeyedLine> = Vec::new();
    let mut team: Vec<KeyedLine> = Vec::new();
    let mut i: usize = 0;
    while i < stints.len()
        invariant
            i <= stints.len(),
            line_views(on@) == on_court_lines(stints@.subrange(0, i as int)),
            team.len() == i,
            forall|j: int| 0 <= j < i ==> (#[trigger] team@[j]).view() == stints@[j].team_line(),
        decreases stints.len() - i,
    {
        let s = &stints[i];
        let ghost base = on@;
        proof {
            let pre = stints@.subrange(0, i as int + 1);
            assert(pre.drop_last() =~= stints@.subrange(0, i as int));
            assert(pre.last() == *s);
        }
        let mut k: usize = 0;
        while k < s.players.len()
            invariant
                k <= s.players.len(),
                line_views(on@) == line_views(base) + s.slot_lines(k as nat),
            decreases s.players.len() - k,
        {
            let ghost before = on@;
            match &s.players[k] {
                Some(p) => {
                    let mut key: Vec<String> = Vec::new();
                    key.push(p.clone());
                    key.push(s.team_id.clone());
                    key.push(s.season_type.clone());
                    let mut values: Vec<Option<i16>> = Vec::new();
                    values.push(Some(s.possessions_offense));
                    values.push(Some(s.possessions_defense));
                    values.push(Some(s.points_for));
                    values.push(Some(s.points_against));
                    let line = KeyedLine { key, tag: String::new(), values };
                    proof {
                        assert(line.view().key =~= s.player_line(p@).key);
                        assert(line.view().values =~= s.values());
                        assert(line.view().tag =~= Seq::<char>::empty());
                    }
                    on.push(line);
                    proof {
                        assert(line_views(on@) =~= line_views(before).push(s.player_line(p@)));
                        assert(s.slot_lines((k + 1) as nat) == s.slot_lines(k as nat).push(s.player_line(p@)));
                        assert(line_views(on@) =~= line_views(base) + s.slot_lines((k + 1) as nat));
                    }
                },
                None => {
                    proof {
                        assert(s.slot_lines((k + 1) as nat) == s.slot_lines(k as nat));
                    }
                },
            }
            k = k + 1;
        }
        let mut key: Vec<String> = Vec::new();
        key.push(s.team_id.clone());
        key.push(s.season_type.clone());
        let mut values: Vec<Option<i16>> = Vec::new();
        values.push(Some(s.possessions_offense));
        values.push(Some(s.possessions_defense));
        values.push(Some(s.points_for));
        values.push(Some(s.points_against));
        let line = KeyedLine { key, tag: String::new(), values };
        proof {
            assert(line.view().key =~= s.team_line().key);
            assert(line.view().values =~= s.values());
            assert(line.view().tag =~= Seq::<char>::empty());
        }
        team.push(line);
        i = i + 1;
    }
    proof {
        assert(stints@.subrange(0, stints.len() as int) =~= stints@);
        assert(line_views(team@) =~= team_lines(stints@));
    }
    (on, team)
}


/// The exact value of a never-NULL group total.
fn exact(o: Option<i128>) -> (v: i128)
    ensures
        v == total(opt_int(o)),
{
    match o {
        Some(v) => v,
        None => 0,
    }
}

/// Whether `v` fits a 32-bit column.
fn fits32(v: i128) -> (b: bool)
    ensures
        b == (i32::MIN <= v <= i32::MAX),
{
    i32::MIN as i128 <= v && v <= i32::MAX as i128
}

/// Position of the group with key `key` in `groups`, if there is one.
fn find_group_total(groups: &Vec<GroupTotal>, key: &Vec<String>) -> (r: Option<usize>)
    ensures
        r matches Some(g) ==> g < groups.len() && groups@[g as int].key_view() == strs_view(key@),
        r is None ==> forall|g: int| 0 <= g < groups.len() ==> (#[trigger] groups@[g]).key_view() != strs_view(key@),
{
    let mut g: usize = 0;
    while g < groups.len()
        invariant
            g <= groups.len(),
            forall|h: int| 0 <= h < g ==> (#[trigger] groups@[h]).key_view() != strs_view(key@),
        decreases groups.len() - g,
    {
        if strs_equal(&groups[g].key, key) {
            return Some(g);
        }
        g = g + 1;
    }
    None
}

/// The on/off split of the lineup stints of one season: for every player, team
/// and season type with a tracked stint, the on-court totals and the team
/// totals minus them; `None` when a total does not fit a 32-bit column.
pub fn on_off_split(stints: &Vec<StintLine>) -> (r: Option<Vec<OnOffCounts>>)
    ensures
        r is Some <==> on_off_fits(stints@),
        r matches Some(out) ==> is_on_off(stints@, out@),
        r matches Some(out) ==> forall|g: int| 0 <= g < out.len() ==> on_off_row_sums(stints@, #[trigger] out@[g]),
{
    let ghost ss = stints@;
    let (on, team) = stint_lines(stints);
    let ghost onl = on_court_lines(ss);
    let ghost tl = team_lines(ss);
    proof {
        assert forall|i: int| 0 <= i < onl.len() implies (#[trigger] onl[i]).values.len() == STINT_COLUMNS by {
            lemma_on_court_line(ss, i);
        }
        assert forall|i: int| 0 <= i < tl.len() implies (#[trigger] tl[i]).values.len() == STINT_COLUMNS by {
            assert(tl[i] == ss[i].team_line());
        }
    }
    let on_groups = group_lines(&on, STINT_COLUMNS);
    let team_groups = group_lines(&team, STINT_COLUMNS);
    let mut out: Vec<OnOffCounts> = Vec::new();
    let mut g: usize = 0;
    while g < on_groups.len()
        invariant
            g <= on_groups.len(),
            out.len() == g,
            onl == on_court_lines(ss),
            tl == team_lines(ss),
            ss == stints@,
            is_grouping(onl, STINT_COLUMNS as nat, on_groups@),
            is_grouping(tl, STINT_COLUMNS as nat, team_groups@),
            forall|h: int, c: int| 0 <= h < g && 0 <= c < STINT_COLUMNS ==> #[trigger] out@[h].on()[c] == on_total(ss, on_groups@[h].key_view(), c),
            forall|h: int, c: int| 0 <= h < g && 0 <= c < STINT_COLUMNS ==> #[trigger] out@[h].off()[c] == team_total(ss, on_groups@[h].key_view(), c) - on_total(ss, on_groups@[h].key_view(), c),
            forall|h: int, c: int| 0 <= h < g && 0 <= c < STINT_COLUMNS ==> i32::MIN <= #[trigger] on_total(ss, on_groups@[h].key_view(), c) <= i32::MAX,
            forall|h: int, c: int| 0 <= h < g && 0 <= c < STINT_COLUMNS ==> i32::MIN <= #[trigger] team_total(ss, on_groups@[h].key_view(), c) <= i32::MAX,
            forall|h: int, c: int| 0 <= h < g && 0 <= c < STINT_COLUMNS ==> i32::MIN <= #[trigger] team_total(ss, on_groups@[h].key_view(), c) - on_total(ss, on_groups@[h].key_view(), c) <= i32::MAX,
            forall|h: int| 0 <= h < g ==> (#[trigger] out@[h]).key() == on_groups@[h].key_view(),
        decreases on_groups.len() - g,
    {
        let grp = &on_groups[g];
        let ghost k = grp.key_view();
        proof {
            let j = choose|j: int| 0 <= j < onl.len() && #[trigger] onl[j].key == k;
            lemma_on_court_line(ss, j);
        }
        let mut tkey: Vec<String> = Vec::new();
        tkey.push(grp.key[1].clone());
        tkey.push(grp.key[2].clone());
        assert(strs_view(tkey@) =~= k.drop_first());
        let th = find_group_total(&team_groups, &tkey);
        let t = match th {
            Some(t) => t,
            None => {
                proof {
                    let h = choose|h: int| 0 <= h < team_groups.len() && (#[trigger] team_groups@[h]).key_view() == k.drop_first();
                }
                0
            },
        };
        let tg = &team_groups[t];
        let mut on_vals: Vec<i32> = Vec::new();
        let mut off_vals: Vec<i32> = Vec::new();
        let mut c: usize = 0;
        while c < STINT_COLUMNS
            invariant
                c <= STINT_COLUMNS,
                on_vals.len() == c,
                off_vals.len() == c,
                grp.sums.len() == STINT_COLUMNS,
                tg.sums.len() == STINT_COLUMNS,
                forall|d: int| 0 <= d < STINT_COLUMNS ==> opt_int(#[trigger] grp.sums@[d]) == column_sum(onl, k, d),
                forall|d: int| 0 <= d < STINT_COLUMNS ==> opt_int(#[trigger] tg.sums@[d]) == column_sum(tl, k.drop_first(), d),
                onl == on_court_lines(ss),
                tl == team_lines(ss),
                ss == stints@,
                has_key(onl, k),
                forall|d: int| 0 <= d < c ==> #[trigger] on_vals@[d] == on_total(ss, k, d),
                forall|d: int| 0 <= d < c ==> #[trigger] off_vals@[d] == team_total(ss, k, d) - on_total(ss, k, d),
                forall|d: int| 0 <= d < c ==> i32::MIN <= #[trigger] on_total(ss, k, d) <= i32::MAX,
                forall|d: int| 0 <= d < c ==> i32::MIN <= #[trigger] team_total(ss, k, d) <= i32::MAX,
                forall|d: int| 0 <= d < c ==> i32::MIN <= #[trigger] team_total(ss, k, d) - on_total(ss, k, d) <= i32::MAX,
            decreases STINT_COLUMNS - c,
        {
            let on_v = exact(grp.sums[c]);
            let team_v = exact(tg.sums[c]);
            if !fits32(on_v) || !fits32(team_v) || !fits32(team_v - on_v) {
                proof {
                    assert(has_key(onl, k));
                    let cc = c as int;
                    assert(opt_int(grp.sums@[cc]) == column_sum(onl, k, cc));
                    assert(opt_int(tg.sums@[cc]) == column_sum(tl, k.drop_first(), cc));
                    assert(!(i32::MIN <= on_total(ss, k, cc) <= i32::MAX
                        && i32::MIN <= team_total(ss, k, cc) <= i32::MAX
                        && i32::MIN <= team_total(ss, k, cc) - on_total(ss, k, cc) <= i32::MAX));
                    assert(column_sum(on_court_lines(ss), k, cc) == column_sum(onl, k, cc));
                }
                return None;
            }
            proof {
                let cc = c as int;
                assert(opt_int(grp.sums@[cc]) == column_sum(onl, k, cc));
                assert(on_v == on_total(ss, k, cc));
                assert(opt_int(tg.sums@[cc]) == column_sum(tl, k.drop_first(), cc));
                assert(team_v == team_total(ss, k, cc));
            }
            let ghost ov = on_vals@;
            let ghost fv = off_vals@;
            on_vals.push(on_v as i32);
            off_vals.push((team_v - on_v) as i32);
            proof {
                let cc = c as int;
                assert(on_vals@[cc] == on_total(ss, k, cc));
                assert(off_vals@[cc] == team_total(ss, k, cc) - on_total(ss, k, cc));
                assert(i32::MIN <= on_total(ss, k, cc) <= i32::MAX);
                assert(i32::MIN <= team_total(ss, k, cc) <= i32::MAX);
                assert forall|d: int| 0 <= d < cc + 1 implies #[trigger] on_vals@[d] == on_total(ss, k, d) by {
                    if d < cc { assert(ov[d] == on_total(ss, k, d)); }
                }
                assert forall|d: int| 0 <= d < cc + 1 implies #[trigger] off_vals@[d] == team_total(ss, k, d) - on_total(ss, k, d) by {
                    if d < cc { assert(fv[d] == team_total(ss, k, d) - on_total(ss, k, d)); }
                }
            }
            c = c + 1;
        }
        let row = OnOffCounts {
            player_id: grp.key[0].clone(),
            team_id: grp.key[1].clone(),
            season_type: grp.key[2].clone(),
            possessions_on_offense: on_vals[0],
            possessions_on_defense: on_vals[1],
            points_for_on: on_vals[2],
            points_against_on: on_vals[3],
            possessions_off_offense: off_vals[0],
            possessions_off_defense: off_vals[1],
            points_for_off: off_vals[2],
            points_against_off: off_vals[3],
        };
        proof {
            assert(row.key() =~= k);
            assert forall|d: int| 0 <= d < STINT_COLUMNS implies (#[trigger] row.on()[d]) == on_total(ss, k, d)
                && #[trigger] row.off()[d] == team_total(ss, k, d) - on_total(ss, k, d) by {
                assert(on_vals@[d] == on_total(ss, k, d));
                assert(off_vals@[d] == team_total(ss, k, d) - on_total(ss, k, d));
            }
        }
        let ghost before = out@;
        out.push(row);
        proof {
            assert forall|h: int, c: int| 0 <= h < g + 1 && 0 <= c < STINT_COLUMNS implies #[trigger] out@[h].on()[c] == on_total(ss, on_groups@[h].key_view(), c) by {
                if h < g {
                    assert(out@[h] == before[h]);
                    assert(before[h].on()[c] == on_total(ss, on_groups@[h].key_view(), c));
                } else {
                    assert(on_vals@[c] == on_total(ss, k, c));
                }
            }
            assert forall|h: int, c: int| 0 <= h < g + 1 && 0 <= c < STINT_COLUMNS implies #[trigger] out@[h].off()[c] == team_total(ss, on_groups@[h].key_view(), c) - on_total(ss, on_groups@[h].key_view(), c) by {
                if h < g {
                    assert(out@[h] == before[h]);
                    assert(before[h].off()[c] == team_total(ss, on_groups@[h].key_view(), c) - on_total(ss, on_groups@[h].key_view(), c));
                } else {
                    assert(off_vals@[c] == team_total(ss, k, c) - on_total(ss, k, c));
                }
            }
        }
        g = g + 1;
    }
    proof {
        assert forall|g: int, h: int| 0 <= g < h < out.len() implies (#[trigger] out@[g]).key() != (#[trigger] out@[h]).key() by {
            assert(on_groups@[g].key_view() != on_groups@[h].key_view());
        }
        assert forall|g: int| 0 <= g < out.len() implies has_key(onl, (#[trigger] out@[g]).key()) by {
            assert(has_key(onl, on_groups@[g].key_view()));
        }
        assert forall|k: Seq<Seq<char>>| #[trigger] has_key(onl, k) implies exists|g: int| 0 <= g < out.len() && (#[trigger] out@[g]).key() == k by {
            let h = choose|h: int| 0 <= h < on_groups.len() && (#[trigger] on_groups@[h]).key_view() == k;
            assert(out@[h].key() == k);
        }
        assert forall|k: Seq<Seq<char>>, c: int|
            #![trigger has_key(on_court_lines(ss), k), column_sum(on_court_lines(ss), k, c)]
            has_key(on_court_lines(ss), k) && 0 <= c < STINT_COLUMNS implies {
                &&& i32::MIN <= on_total(ss, k, c) <= i32::MAX
                &&& i32::MIN <= team_total(ss, k, c) <= i32::MAX
                &&& i32::MIN <= team_total(ss, k, c) - on_total(ss, k, c) <= i32::MAX
            } by {
            let h = choose|h: int| 0 <= h < on_groups.len() && (#[trigger] on_groups@[h]).key_view() == k;
            assert(out@[h].key() == k);
            assert(i32::MIN <= on_total(ss, on_groups@[h].key_view(), c) <= i32::MAX);
            assert(i32::MIN <= team_total(ss, on_groups@[h].key_view(), c) <= i32::MAX);
        }
        lemma_on_off_rows_sum_stints(ss, out@);
    }
    Some(out)
}


/// The parts of a net rating: the point differential and the possession count
/// (offensive plus defensive possessions). The rating is the differential per
/// possession times 200, i.e. per 100 possessions of each side; it is
/// undefined (`None`) when there is no possession.
pub fn net_rating_parts(points_for: i32, points_against: i32, possessions_offense: i32, possessions_defense: i32) -> (r: Option<(i64, i64)>)
    ensures
        r is None <==> possessions_offense + possessions_defense <= 0,
        r matches Some((diff, poss)) ==> diff == points_for - points_against && poss == possessions_offense + possessions_defense,
{
    let poss = possessions_offense as i64 + possessions_defense as i64;
    if poss > 0 {
        Some((points_for as i64 - points_against as i64, poss))
    } else {
        None
    }
}

/// On-court and off-court totals of a player add up to his team's totals.
pub proof fn lemma_on_plus_off_is_team_total(stints: Seq<StintLine>, out: Seq<OnOffCounts>, g: int, c: int)
    requires
        is_on_off(stints, out),
        0 <= g < out.len(),
        0 <= c < STINT_COLUMNS,
    ensures
        out[g].on()[c] + out[g].off()[c] == team_total(stints, out[g].key(), c),
{
    assert(out[g].on()[c] == on_total(stints, out[g].key(), c));
    assert(out[g].off()[c] == team_total(stints, out[g].key(), c) - on_total(stints, out[g].key(), c));
}


/// Column `c` of a stint.
pub open spec fn stint_value(s: StintLine, c: int) -> int {
    match s.values()[c] {
        Some(v) => v as int,
        None => 0,
    }
}

/// Number of the first `k` slots of `s` that hold player `p`.
pub open spec fn slot_count(s: StintLine, p: Seq<char>, k: nat) -> nat
    decreases k,
{
    if k == 0 || k > s.players.len() {
        0
    } else {
        slot_count(s, p, (k - 1) as nat) + match s.players@[k - 1] {
            Some(q) => if q@ == p { 1nat } else { 0nat },
            None => 0nat,
        }
    }
}

/// The exact total of column `c` over the lines of key `key`: the sum of the
/// non-NULL values.
proof fn lemma_total_concat(a: Seq<LineView>, b: Seq<LineView>, key: Seq<Seq<char>>, c: int)
    ensures
        total(column_sum(a + b, key, c)) == total(column_sum(a, key, c)) + total(column_sum(b, key, c)),
    decreases b.len(),
{
    if b.len() == 0 {
        assert(a + b =~= a);
    } else {
        lemma_total_concat(a, b.drop_last(), key, c);
        assert((a + b).drop_last() =~= a + b.drop_last());
        assert((a + b).last() == b.last());
    }
}

/// The player lines of a stint add its column once per slot holding the player.
#[verifier::spinoff_prover]
#[verifier::rlimit(30)]
proof fn lemma_slot_total(s: StintLine, key: Seq<Seq<char>>, k: nat, c: int)
    requires
        key.len() == 3,
        0 <= c < STINT_COLUMNS,
        k <= s.players.len(),
    ensures
        total(column_sum(s.slot_lines(k), key, c)) == if key.drop_first() == s.team_line().key {
            slot_count(s, key[0], k) * stint_value(s, c)
        } else {
            0
        },
    decreases k,
{
    if k > 0 {
        lemma_slot_total(s, key, (k - 1) as nat, c);
        let rest = s.slot_lines((k - 1) as nat);
        match s.players@[k - 1] {
            Some(q) => {
                let line = s.player_line(q@);
                assert(s.slot_lines(k) == rest.push(line));
                assert(rest.push(line).drop_last() =~= rest);
                if line.key == key {
                    assert(key.drop_first() =~= s.team_line().key);
                    assert(key[0] == q@);
                } else {
                    if key.drop_first() == s.team_line().key {
                        assert(key[0] != q@) by {
                            if key[0] == q@ {
                                assert(line.key =~= key);
                            }
                        }
                    }
                }
                assert(slot_count(s, key[0], k) * stint_value(s, c) == slot_count(s, key[0], (k - 1) as nat) * stint_value(s, c)
                    + (if q@ == key[0] { stint_value(s, c) } else { 0 })) by (nonlinear_arith)
                    requires
                        slot_count(s, key[0], k) == slot_count(s, key[0], (k - 1) as nat) + (if q@ == key[0] { 1nat } else { 0nat });
            },
            None => {},
        }
    }
}

/// A player who is in exactly one slot of every stint of his team (and season
/// type) has the team's totals as his on-court totals.
proof fn lemma_full_time_on_total(stints: Seq<StintLine>, key: Seq<Seq<char>>, c: int)
    requires
        key.len() == 3,
        0 <= c < STINT_COLUMNS,
        forall|i: int| 0 <= i < stints.len() && (#[trigger] stints[i]).team_line().key == key.drop_first()
            ==> slot_count(stints[i], key[0], stints[i].players.len() as nat) == 1,
    ensures
        on_total(stints, key, c) == team_total(stints, key, c),
    decreases stints.len(),
{
    if stints.len() > 0 {
        let rest = stints.drop_last();
        let last = stints.last();
        assert forall|i: int| 0 <= i < rest.len() && (#[trigger] rest[i]).team_line().key == key.drop_first()
            implies slot_count(rest[i], key[0], rest[i].players.len() as nat) == 1 by {
            assert(rest[i] == stints[i]);
        }
        lemma_full_time_on_total(rest, key, c);
        lemma_total_concat(on_court_lines(rest), last.slot_lines(last.players.len() as nat), key, c);
        lemma_slot_total(last, key, last.players.len() as nat, c);
        assert(team_lines(stints).drop_last() =~= team_lines(rest));
        assert(team_lines(stints).last() == last.team_line());
        if last.team_line().key == key.drop_first() {
            assert(stints[stints.len() - 1] == last);
            assert(slot_count(last, key[0], last.players.len() as nat) == 1);
        }
    }
}

/// A player on the floor (in exactly one slot) for every stint of his team in a
/// season type has no off-court possessions or points: his off-court totals
/// are zero.
pub proof fn lemma_full_time_player_has_no_off_court_totals(stints: Seq<StintLine>, out: Seq<OnOffCounts>, g: int, c: int)
    requires
        is_on_off(stints, out),
        0 <= g < out.len(),
        0 <= c < STINT_COLUMNS,
        forall|i: int| 0 <= i < stints.len() && (#[trigger] stints[i]).team_line().key == out[g].team_key()
            ==> slot_count(stints[i], out[g].player_id@, stints[i].players.len() as nat) == 1,
    ensures
        out[g].off()[c] == 0,
{
    let key = out[g].key();
    assert(key.drop_first() =~= out[g].team_key());
    lemma_full_time_on_total(stints, key, c);
    assert(out[g].off()[c] == team_total(stints, key, c) - on_total(stints, key, c));
}


/// The sum of `f` over the stints of team `team` and season type
/// `season_type`, each counted once per slot holding player `player`.
pub open spec fn on_court_sum(stints: Seq<StintLine>, player: Seq<char>, team: Seq<char>, season_type: Seq<char>, f: spec_fn(StintLine) -> int) -> int
    decreases stints.len(),
{
    if stints.len() == 0 {
        0
    } else {
        let s = stints.last();
        on_court_sum(stints.drop_last(), player, team, season_type, f) + if s.team_id@ == team && s.season_type@ == season_type {
            slot_count(s, player, s.players.len() as nat) * f(s)
        } else {
            0
        }
    }
}

/// The sum of `f` over all stints of team `team` and season type `season_type`.
pub open spec fn team_sum(stints: Seq<StintLine>, team: Seq<char>, season_type: Seq<char>, f: spec_fn(StintLine) -> int) -> int
    decreases stints.len(),
{
    if stints.len() == 0 {
        0
    } else {
        let s = stints.last();
        team_sum(stints.drop_last(), team, season_type, f) + if s.team_id@ == team && s.season_type@ == season_type {
            f(s)
        } else {
            0
        }
    }
}

/// Each named field of an on/off row: on-court offensive and defensive
/// possessions and points for and against are the sums of the stint fields of
/// the same name over the player's stints for the row's team and season type;
/// each off-court field is the team's total of that field minus the on-court
/// one.
pub open spec fn on_off_row_sums(stints: Seq<StintLine>, r: OnOffCounts) -> bool {
    let p = r.player_id@;
    let t = r.team_id@;
    let st = r.season_type@;
    let po = |s: StintLine| s.possessions_offense as int;
    let pd = |s: StintLine| s.possessions_defense as int;
    let pf = |s: StintLine| s.points_for as int;
    let pa = |s: StintLine| s.points_against as int;
    &&& r.possessions_on_offense == on_court_sum(stints, p, t, st, po)
    &&& r.possessions_on_defense == on_court_sum(stints, p, t, st, pd)
    &&& r.points_for_on == on_court_sum(stints, p, t, st, pf)
    &&& r.points_against_on == on_court_sum(stints, p, t, st, pa)
    &&& r.possessions_off_offense == team_sum(stints, t, st, po) - on_court_sum(stints, p, t, st, po)
    &&& r.possessions_off_defense == team_sum(stints, t, st, pd) - on_court_sum(stints, p, t, st, pd)
    &&& r.points_for_off == team_sum(stints, t, st, pf) - on_court_sum(stints, p, t, st, pf)
    &&& r.points_against_off == team_sum(stints, t, st, pa) - on_court_sum(stints, p, t, st, pa)
}

/// The on-court total of column `c` is the slot-weighted sum of the stint
/// field of that column.
proof fn lemma_on_total_is_sum(stints: Seq<StintLine>, key: Seq<Seq<char>>, c: int, f: spec_fn(StintLine) -> int)
    requires
        key.len() == 3,
        0 <= c < STINT_COLUMNS,
        forall|s: StintLine| #[trigger] f(s) == stint_value(s, c),
    ensures
        on_total(stints, key, c) == on_court_sum(stints, key[0], key[1], key[2], f),
        team_total(stints, key, c) == team_sum(stints, key[1], key[2], f),
    decreases stints.len(),
{
    if stints.len() > 0 {
        let rest = stints.drop_last();
        let last = stints.last();
        lemma_on_total_is_sum(rest, key, c, f);
        lemma_total_concat(on_court_lines(rest), last.slot_lines(last.players.len() as nat), key, c);
        lemma_slot_total(last, key, last.players.len() as nat, c);
        let tk = last.team_line().key;
        if last.team_id@ == key[1] && last.season_type@ == key[2] {
            assert(key.drop_first() =~= tk);
        } else {
            if key.drop_first() == tk {
                assert(key.drop_first()[0] == key[1]);
                assert(key.drop_first()[1] == key[2]);
            }
        }
        assert(team_lines(stints).drop_last() =~= team_lines(rest));
        assert(team_lines(stints).last() == last.team_line());
        assert(f(last) == stint_value(last, c));
    }
}

/// Every row of an on/off split holds, field by field, the sums of the stints
/// it stands for.
pub proof fn lemma_on_off_rows_sum_stints(stints: Seq<StintLine>, out: Seq<OnOffCounts>)
    requires
        is_on_off(stints, out),
    ensures
        forall|g: int| 0 <= g < out.len() ==> on_off_row_sums(stints, #[trigger] out[g]),
{
    let po = |s: StintLine| s.possessions_offense as int;
    let pd = |s: StintLine| s.possessions_defense as int;
    let pf = |s: StintLine| s.points_for as int;
    let pa = |s: StintLine| s.points_against as int;
    assert forall|g: int| 0 <= g < out.len() implies on_off_row_sums(stints, #[trigger] out[g]) by {
        let r = out[g];
        let k = r.key();
        lemma_on_total_is_sum(stints, k, 0, po);
        lemma_on_total_is_sum(stints, k, 1, pd);
        lemma_on_total_is_sum(stints, k, 2, pf);
        lemma_on_total_is_sum(stints, k, 3, pa);
        assert(r.on()[0] == on_total(stints, k, 0));
        assert(r.on()[1] == on_total(stints, k, 1));
        assert(r.on()[2] == on_total(stints, k, 2));
        assert(r.on()[3] == on_total(stints, k, 3));
        assert(r.off()[0] == team_total(stints, k, 0) - on_total(stints, k, 0));
        assert(r.off()[1] == team_total(stints, k, 1) - on_total(stints, k, 1));
        assert(r.off()[2] == team_total(stints, k, 2) - on_total(stints, k, 2));
        assert(r.off()[3] == team_total(stints, k, 3) - on_total(stints, k, 3));
    }
}

} // verus!
