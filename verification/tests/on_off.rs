use metis::on_off::{net_rating_parts, on_off_split, OnOffCounts, StintLine};

/// Three stints of LAL, ten possessions each way:
///
/// | Stint | On-floor                 | Pts for | Pts against |
/// |-------|--------------------------|---------|-------------|
/// | A     | P1, P2, P3, P4, P5       | 10      | 8           |
/// | B     | P1, P2, P3, P4, P6       | 10      | 10          |
/// | C     | P3, P4, P5, P6, P7       | 10      | 12          |
fn make_stint(player_ids: [&str; 5], points_for: i16, points_against: i16) -> StintLine {
    StintLine {
        team_id: "NBA_LAL".to_string(),
        season_type: "Regular".to_string(),
        players: player_ids.iter().map(|p| Some(p.to_string())).collect(),
        possessions_offense: 10,
        possessions_defense: 10,
        points_for,
        points_against,
    }
}

fn stints() -> Vec<StintLine> {
    vec![
        make_stint(["NBA_P1", "NBA_P2", "NBA_P3", "NBA_P4", "NBA_P5"], 10, 8),
        make_stint(["NBA_P1", "NBA_P2", "NBA_P3", "NBA_P4", "NBA_P6"], 10, 10),
        make_stint(["NBA_P3", "NBA_P4", "NBA_P5", "NBA_P6", "NBA_P7"], 10, 12),
    ]
}

fn row_for<'a>(rows: &'a [OnOffCounts], player: &str) -> Vec<&'a OnOffCounts> {
    rows.iter().filter(|r| r.player_id == player).collect()
}

fn rating(parts: Option<(i64, i64)>) -> Option<f64> {
    parts.map(|(diff, poss)| diff as f64 / poss as f64 * 200.0)
}

#[test]
fn on_off_totals_for_p1() {
    let rows = on_off_split(&stints()).unwrap();
    let p1 = row_for(&rows, "NBA_P1");
    assert_eq!(p1.len(), 1);
    let r = p1[0];
    assert_eq!(r.team_id, "NBA_LAL");
    assert_eq!(r.season_type, "Regular");
    assert_eq!(r.possessions_on_offense, 20);
    assert_eq!(r.possessions_on_defense, 20);
    assert_eq!(r.points_for_on, 20);
    assert_eq!(r.points_against_on, 18);
    assert_eq!(r.possessions_off_offense, 10);
    assert_eq!(r.possessions_off_defense, 10);
    assert_eq!(r.points_for_off, 10);
    assert_eq!(r.points_against_off, 12);
    let on = net_rating_parts(r.points_for_on, r.points_against_on, r.possessions_on_offense, r.possessions_on_defense);
    let off = net_rating_parts(r.points_for_off, r.points_against_off, r.possessions_off_offense, r.possessions_off_defense);
    assert_eq!(on, Some((2, 40)));
    assert_eq!(off, Some((-2, 20)));
    assert!((rating(on).unwrap() - 10.0).abs() < 1e-6);
    assert!((rating(off).unwrap() - (-20.0)).abs() < 1e-6);
}

#[test]
fn on_off_totals_for_p5() {
    let rows = on_off_split(&stints()).unwrap();
    let p5 = row_for(&rows, "NBA_P5");
    assert_eq!(p5.len(), 1);
    let r = p5[0];
    let on = net_rating_parts(r.points_for_on, r.points_against_on, r.possessions_on_offense, r.possessions_on_defense);
    let off = net_rating_parts(r.points_for_off, r.points_against_off, r.possessions_off_offense, r.possessions_off_defense);
    assert_eq!(on, Some((0, 40)));
    assert_eq!(off, Some((0, 20)));
}

#[test]
fn compute_is_idempotent() {
    on_off_split(&stints()).unwrap();
    let rows = on_off_split(&stints()).unwrap();
    assert_eq!(row_for(&rows, "NBA_P1").len(), 1, "second compute must not duplicate rows");
}

#[test]
fn empty_season_produces_no_rows() {
    let rows = on_off_split(&vec![]).unwrap();
    let n = rows.len();
    assert_eq!(n, 0);
}

#[test]
fn every_player_with_a_stint_gets_a_row() {
    let rows = on_off_split(&stints()).unwrap();
    assert_eq!(rows.len(), 7);
}

#[test]
fn full_time_players_have_no_off_court_totals() {
    let rows = on_off_split(&stints()).unwrap();
    for p in ["NBA_P3", "NBA_P4"] {
        let r = row_for(&rows, p)[0];
        assert_eq!(r.possessions_on_offense, 30);
        assert_eq!(r.points_against_on, 30);
        assert_eq!(r.possessions_off_offense, 0);
        assert_eq!(r.possessions_off_defense, 0);
        assert_eq!(r.points_for_off, 0);
        assert_eq!(r.points_against_off, 0);
        assert_eq!(
            net_rating_parts(r.points_for_off, r.points_against_off, r.possessions_off_offense, r.possessions_off_defense),
            None
        );
    }
}

#[test]
fn on_plus_off_is_team_total() {
    let rows = on_off_split(&stints()).unwrap();
    for r in &rows {
        assert_eq!(r.possessions_on_offense + r.possessions_off_offense, 30);
        assert_eq!(r.points_for_on + r.points_for_off, 30);
        assert_eq!(r.points_against_on + r.points_against_off, 30);
    }
}

#[test]
fn untracked_slots_are_skipped_and_teams_split() {
    let mut s = make_stint(["NBA_P1", "NBA_P2", "NBA_P3", "NBA_P4", "NBA_P5"], 5, 3);
    s.players[4] = None;
    let mut other = make_stint(["NBA_Q1", "NBA_Q2", "NBA_Q3", "NBA_Q4", "NBA_P1"], 7, 9);
    other.team_id = "NBA_BOS".to_string();
    let rows = on_off_split(&vec![s, other]).unwrap();
    assert!(row_for(&rows, "NBA_P5").is_empty());
    let p1 = row_for(&rows, "NBA_P1");
    assert_eq!(p1.len(), 2, "one row per team");
    for r in p1 {
        assert_eq!(r.possessions_off_offense, 0);
        if r.team_id == "NBA_LAL" {
            assert_eq!(r.points_for_on, 5);
        } else {
            assert_eq!(r.points_for_on, 7);
        }
    }
}

#[test]
fn net_rating_is_undefined_without_possessions() {
    assert_eq!(net_rating_parts(3, 1, 0, 0), None);
    assert_eq!(net_rating_parts(3, 1, 1, 0), Some((2, 1)));
}
