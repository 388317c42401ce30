use metis::ids::composite_id;
use metis::migrations::{is_sql_file_name, name_lt, plan_migrations, MigrationFile};

fn file(name: &str, sql: &str) -> MigrationFile {
    MigrationFile {
        name: name.to_string(),
        sql: sql.to_string(),
    }
}

fn names(plan: &[MigrationFile]) -> Vec<String> {
    plan.iter().map(|f| f.name.clone()).collect()
}

#[test]
fn migrate_twice_is_noop() {
    let files = vec![file("0001_init.sql", "CREATE TABLE noop_test (id INTEGER);")];
    let first = plan_migrations(files.clone(), &vec![]);
    let mut applied = names(&first);
    let second = plan_migrations(files, &applied);
    assert!(second.is_empty());
    applied.extend(names(&second));
    assert_eq!(applied, vec!["0001_init.sql"]);
}

#[test]
fn migrations_applied_in_order() {
    let files = vec![
        file("0002_b.sql", "CREATE TABLE b (id INTEGER);"),
        file("0001_a.sql", "CREATE TABLE a (id INTEGER);"),
    ];
    let applied = names(&plan_migrations(files, &vec![]));
    assert_eq!(applied, vec!["0001_a.sql", "0002_b.sql"]);
}

#[test]
fn non_sql_files_are_ignored() {
    let files = vec![
        file("0001_init.sql", "CREATE TABLE t (id INTEGER);"),
        file(".gitkeep", ""),
    ];
    let applied = names(&plan_migrations(files, &vec![]));
    assert_eq!(applied.len(), 1);
}

#[test]
fn plan_keeps_the_sql_of_each_file() {
    let files = vec![
        file("0003_c.sql", "C"),
        file("0001_a.sql", "A"),
        file("0002_b.sql", "B"),
    ];
    let plan = plan_migrations(files, &vec!["0002_b.sql".to_string()]);
    assert_eq!(plan, vec![file("0001_a.sql", "A"), file("0003_c.sql", "C")]);
}

#[test]
fn real_migration_names_sort_in_order() {
    let names_in = [
        "0008_possession_lineup_indexes.sql",
        "0001_core_entities.sql",
        "0005_player_season_rollups.sql",
        "0003_provenance.sql",
        "0002_box_score.sql",
        "0007_possession_lineup.sql",
        "0004_user_views.sql",
        "0006_team_season_rollups.sql",
        "README.md",
    ];
    let files: Vec<MigrationFile> = names_in.iter().map(|n| file(n, "")).collect();
    let plan = names(&plan_migrations(files, &vec![]));
    assert_eq!(
        plan,
        vec![
            "0001_core_entities.sql",
            "0002_box_score.sql",
            "0003_provenance.sql",
            "0004_user_views.sql",
            "0005_player_season_rollups.sql",
            "0006_team_season_rollups.sql",
            "0007_possession_lineup.sql",
            "0008_possession_lineup_indexes.sql",
        ]
    );
}

#[test]
fn sql_extension_follows_path_rules() {
    assert!(is_sql_file_name("0001_init.sql"));
    assert!(is_sql_file_name("a.b.sql"));
    assert!(is_sql_file_name("..sql"));
    assert!(!is_sql_file_name(".sql"));
    assert!(!is_sql_file_name("init.SQL"));
    assert!(!is_sql_file_name("init.sqlx"));
    assert!(!is_sql_file_name(".gitkeep"));
    assert!(!is_sql_file_name("sql"));
}

#[test]
fn names_compare_lexicographically() {
    assert!(name_lt("0001_a.sql", "0002_a.sql"));
    assert!(name_lt("abc", "abd"));
    assert!(name_lt("ab", "abc"));
    assert!(!name_lt("abc", "ab"));
    assert!(!name_lt("abc", "abc"));
    assert!(name_lt("Z", "a"));
    assert!(name_lt("a", "é"));
}

#[test]
fn duplicate_names_are_planned_once() {
    let files = vec![file("0001_a.sql", "A"), file("0001_a.sql", "A")];
    assert_eq!(plan_migrations(files, &vec![]).len(), 1);
}

#[test]
fn composite_ids_join_prefix_and_external_id() {
    assert_eq!(composite_id("nba_stats", "0022300001"), "nba_stats_0022300001");
    assert_eq!(composite_id("NBA", "2544"), "NBA_2544");
    assert_eq!(composite_id("NBA", "BOS"), "NBA_BOS");
}
