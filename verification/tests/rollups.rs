use metis::compute::{compute_season_rollups, ComputeError, DbError};
use metis::rollup::{
    player_season_totals, team_season_totals, BoxScoreLine, PLAYER_STAT_COLUMNS,
    TEAM_STAT_COLUMNS,
};
use metis::season::Season;

/// A player box score row: points, then 1 off. reb, 5 def. reb, 6 reb, 4 ast,
/// 1 stl, 0 blk, 2 tov, 2 pf, 5/12 fg, 1/3 3pt, 2/3 ft.
fn player_box(game_id: &str, player_id: &str, points: i16) -> BoxScoreLine {
    BoxScoreLine {
        game_id: game_id.to_string(),
        entity_id: player_id.to_string(),
        season_type: "Regular".to_string(),
        stats: vec![
            Some(points),
            Some(1),
            Some(5),
            Some(6),
            Some(4),
            Some(1),
            Some(0),
            Some(2),
            Some(2),
            Some(5),
            Some(12),
            Some(1),
            Some(3),
            Some(2),
            Some(3),
        ],
    }
}

fn team_box(game_id: &str, points: i16) -> BoxScoreLine {
    BoxScoreLine {
        game_id: game_id.to_string(),
        entity_id: "NBA_LAL".to_string(),
        season_type: "Regular".to_string(),
        stats: vec![
            Some(points),
            Some(8),
            Some(35),
            Some(43),
            Some(25),
            Some(7),
            Some(4),
            Some(13),
            Some(20),
            Some(42),
            Some(88),
            Some(12),
            Some(35),
            Some(10),
            Some(14),
            Some(15),
            Some(44),
            Some(10),
            Some(30),
        ],
    }
}

#[test]
fn returns_no_source_data_error_when_no_box_rows() {
    let result = compute_season_rollups(Season(2024), "nba_stats", &vec![], &vec![]);
    assert!(
        matches!(result, Err(ComputeError::NoSourceData { .. })),
        "expected NoSourceData, got: {result:?}"
    );
    let err = result.unwrap_err().to_string();
    assert!(
        err.contains("season=2024-25"),
        "error should name the season: {err}"
    );
    assert!(
        err.contains("source=nba_stats"),
        "error should name the source: {err}"
    );
    assert!(
        err.contains("--season 2024"),
        "hint should include CLI flag: {err}"
    );
}

#[test]
fn returns_correct_rollup_summary() {
    let players = vec![player_box("G001", "NBA_P001", 28), player_box("G002", "NBA_P001", 22)];
    let teams = vec![team_box("G001", 110), team_box("G002", 108)];
    let summary = compute_season_rollups(Season(2024), "nba_stats", &players, &teams)
        .unwrap()
        .summary;
    assert_eq!(summary.player_rows, 1, "one player → one totals row");
    assert_eq!(summary.team_rows, 1, "one team → one totals row");
}

#[test]
fn rollup_is_idempotent() {
    let players = vec![player_box("G001", "NBA_P001", 28)];
    let teams = vec![team_box("G001", 110)];
    compute_season_rollups(Season(2024), "nba_stats", &players, &teams).unwrap();
    let summary = compute_season_rollups(Season(2024), "nba_stats", &players, &teams)
        .unwrap()
        .summary;
    assert_eq!(summary.player_rows, 1);
    assert_eq!(summary.team_rows, 1);
}

#[test]
fn compute_player_totals_separates_two_players() {
    let rows = vec![player_box("G001", "NBA_P001", 28), player_box("G001", "NBA_P002", 15)];
    let totals = player_season_totals(&rows).unwrap();
    let n = totals.len();
    assert_eq!(n, 2, "two players → two totals rows");
    assert_eq!(totals.len(), 2);
}

#[test]
fn compute_player_totals_is_idempotent() {
    let rows = vec![player_box("G001", "NBA_P001", 28)];
    player_season_totals(&rows).unwrap();
    let totals = player_season_totals(&rows).unwrap();
    assert_eq!(totals.len(), 1, "re-run must not duplicate rows");
}

#[test]
fn player_totals_sum_each_stat_and_count_games() {
    let rows = vec![player_box("G001", "NBA_P001", 28), player_box("G002", "NBA_P001", 22)];
    let totals = player_season_totals(&rows).unwrap();
    assert_eq!(totals.len(), 1);
    let t = &totals[0];
    assert_eq!(t.player_id, "NBA_P001");
    assert_eq!(t.season_type, "Regular");
    assert_eq!(t.games_played, 2);
    assert_eq!(t.stats.len(), PLAYER_STAT_COLUMNS);
    assert_eq!(t.stats[0], Some(50));
    assert_eq!(t.stats[9], Some(10));
    assert_eq!(t.stats[10], Some(24));
    assert_eq!(t.stats[6], Some(0));
}

#[test]
fn player_totals_count_distinct_games() {
    // Two rows of the same game (e.g. a corrected re-ingest under the same
    // source) count as one game played.
    let rows = vec![player_box("G001", "NBA_P001", 10), player_box("G001", "NBA_P001", 12)];
    let totals = player_season_totals(&rows).unwrap();
    assert_eq!(totals[0].games_played, 1);
    assert_eq!(totals[0].stats[0], Some(22));
}

#[test]
fn player_totals_skip_nulls_and_keep_all_null_as_null() {
    let mut a = player_box("G001", "NBA_P001", 10);
    let mut b = player_box("G002", "NBA_P001", 12);
    a.stats[0] = None;
    a.stats[4] = None;
    b.stats[4] = None;
    let totals = player_season_totals(&vec![a, b]).unwrap();
    assert_eq!(totals[0].stats[0], Some(12));
    assert_eq!(totals[0].stats[4], None);
}

#[test]
fn player_totals_split_by_season_type() {
    let mut playoff = player_box("G003", "NBA_P001", 30);
    playoff.season_type = "Playoffs".to_string();
    let rows = vec![player_box("G001", "NBA_P001", 20), playoff];
    let mut totals = player_season_totals(&rows).unwrap();
    totals.sort_by(|x, y| x.season_type.cmp(&y.season_type));
    assert_eq!(totals.len(), 2);
    assert_eq!(totals[0].season_type, "Playoffs");
    assert_eq!(totals[0].stats[0], Some(30));
    assert_eq!(totals[1].season_type, "Regular");
    assert_eq!(totals[1].stats[0], Some(20));
}

#[test]
fn player_totals_fail_when_a_total_overflows_integer() {
    let rows: Vec<BoxScoreLine> = (0..65_600)
        .map(|_| player_box("G001", "NBA_P001", 32_767))
        .collect();
    assert!(player_season_totals(&rows).is_none());
    let result = compute_season_rollups(Season(2024), "nba_stats", &rows, &vec![]);
    match result {
        Err(ComputeError::Db(DbError::DuckDb(m))) => assert!(m.starts_with("Conversion Error")),
        other => panic!("expected a conversion error, got {other:?}"),
    }
}

#[test]
fn team_totals_carry_season_and_source() {
    let rows = vec![team_box("G001", 110), team_box("G002", 108)];
    let totals = team_season_totals("2024-25", "nba_stats", &rows).unwrap();
    assert_eq!(totals.len(), 1);
    let t = &totals[0];
    assert_eq!(t.id, 0);
    assert_eq!(t.team_id, "NBA_LAL");
    assert_eq!(t.season_id, "2024-25");
    assert_eq!(t.source, "nba_stats");
    assert_eq!(t.games_played, 2);
    assert_eq!(t.points, Some(218));
    assert_eq!(t.rebounds_total, Some(86));
    assert_eq!(t.bench_points, Some(60));
    assert_eq!(t.computed_at, None);
    assert_eq!(TEAM_STAT_COLUMNS, 19);
}

#[test]
fn rollup_team_rows_use_the_season_label() {
    let players = vec![player_box("G001", "NBA_P001", 28)];
    let teams = vec![team_box("G001", 110)];
    let rollup = compute_season_rollups(Season(1999), "bref", &players, &teams).unwrap();
    assert_eq!(rollup.team_totals[0].season_id, "1999-00");
    assert_eq!(rollup.team_totals[0].source, "bref");
    assert_eq!(rollup.player_totals[0].stats[0], Some(28));
}

#[test]
fn db_error_text_names_the_failure() {
    assert_eq!(DbError::DuckDb("boom".to_string()).to_string(), "DuckDB: boom");
    assert_eq!(DbError::Io("gone".to_string()).to_string(), "I/O: gone");
    assert_eq!(
        ComputeError::Db(DbError::Io("gone".to_string())).to_string(),
        "I/O: gone"
    );
}

#[test]
fn no_source_data_text_is_complete() {
    let err = ComputeError::NoSourceData {
        season: "2024-25".to_string(),
        start_year: 2024,
        data_source: "nba_stats".to_string(),
    };
    assert_eq!(
        err.to_string(),
        "No player_game_box rows for season=2024-25 source=nba_stats. Did you forget: metis-cli load box-scores --season 2024 --source nba_stats?"
    );
}
