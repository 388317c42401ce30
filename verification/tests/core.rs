use metis::coverage::Coverage;
use metis::league::League;
use metis::season::{Season, SeasonType};

#[test]
fn full_coverage_covers_any_season() {
    let c = Coverage::full();
    assert!(c.covers(Season(1946)));
    assert!(c.covers(Season(2024)));
}

#[test]
fn coverage_from_respects_min() {
    let c = Coverage::from(Season(1996));
    assert!(!c.covers(Season(1995)));
    assert!(c.covers(Season(1996)));
    assert!(c.covers(Season(2024)));
}

#[test]
fn coverage_with_max() {
    let c = Coverage {
        min_season: None,
        max_season: Some(Season(2012)),
    };
    assert!(c.covers(Season(2012)));
    assert!(!c.covers(Season(2013)));
}

#[test]
fn coverage_bounded_window() {
    let c = Coverage {
        min_season: Some(Season(1996)),
        max_season: Some(Season(2012)),
    };
    assert!(!c.covers(Season(1995)));
    assert!(c.covers(Season(1996)));
    assert!(c.covers(Season(2012)));
    assert!(!c.covers(Season(2013)));
}

#[test]
fn nba_constants() {
    assert_eq!(League::NBA.period_length_min(), 12);
    assert_eq!(League::NBA.periods_per_game(), 4);
    assert_eq!(League::NBA.regular_season_games(), 82);
    assert_eq!(League::NBA.regulation_minutes(), 48);
}

#[test]
fn league_variants_are_distinct() {
    assert_ne!(League::NBA, League::WNBA);
}

#[test]
fn season_display_standard() {
    assert_eq!(Season(1996).to_string(), "1996-97");
    assert_eq!(Season(2023).to_string(), "2023-24");
}

#[test]
fn season_display_century_boundary() {
    assert_eq!(Season(1999).to_string(), "1999-00");
}

#[test]
fn season_ordering() {
    assert!(Season(1996) < Season(2024));
}

#[test]
fn season_type_variants_are_distinct() {
    assert_ne!(SeasonType::Regular, SeasonType::Playoffs);
    assert_ne!(SeasonType::PlayIn, SeasonType::AllStar);
}

#[test]
fn season_end_year() {
    assert_eq!(Season(1996).end_year(), 1997);
    assert_eq!(Season(2023).end_year(), 2024);
}

#[test]
fn season_label_small_years() {
    assert_eq!(Season(0).to_string(), "0-01");
    assert_eq!(Season(9).to_string(), "9-10");
    assert_eq!(Season(2099).to_string(), "2099-00");
}

#[test]
fn coverage_empty_window_covers_nothing() {
    let c = Coverage {
        min_season: Some(Season(2013)),
        max_season: Some(Season(2012)),
    };
    assert!(!c.covers(Season(2012)));
    assert!(!c.covers(Season(2013)));
}

#[test]
fn season_labels_are_distinct() {
    assert_ne!(Season(1996).to_string(), Season(1997).to_string());
    assert_ne!(Season(199).to_string(), Season(1999).to_string());
}
