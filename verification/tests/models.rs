use planner::models::{
    clamp_max_suggestions, default_max_suggestions, dial, SuggestionPreferences,
};

#[test]
fn default_preferences_are_all_one_half() {
    let p = SuggestionPreferences::default();
    assert_eq!(p.fitness_level, 500_000);
    assert_eq!(p.scenic_preference, 500_000);
    assert_eq!(p.avoid_main_roads, 500_000);
    assert_eq!(p.time_priority, 500_000);
}

#[test]
fn clamped_keeps_dials_in_range() {
    let p = SuggestionPreferences {
        fitness_level: 0,
        scenic_preference: 1_000_000,
        avoid_main_roads: 200_000,
        time_priority: 999_999,
    };
    assert_eq!(p.clamped(), p);
}

#[test]
fn clamped_collapses_dials_out_of_range_to_one_half() {
    let p = SuggestionPreferences {
        fitness_level: -1,
        scenic_preference: 1_000_001,
        avoid_main_roads: i64::MIN,
        time_priority: i64::MAX,
    };
    assert_eq!(p.clamped(), SuggestionPreferences::default());
    let q = SuggestionPreferences {
        fitness_level: 2_000_000,
        scenic_preference: 900_000,
        avoid_main_roads: -300_000,
        time_priority: 400_000,
    };
    assert_eq!(
        q.clamped(),
        SuggestionPreferences {
            fitness_level: 500_000,
            scenic_preference: 900_000,
            avoid_main_roads: 500_000,
            time_priority: 400_000,
        }
    );
}

#[test]
fn missing_dials_become_one_half() {
    assert_eq!(dial(None), 500_000);
    assert_eq!(dial(Some(0)), 0);
    assert_eq!(dial(Some(1_000_000)), 1_000_000);
    assert_eq!(dial(Some(-7)), 500_000);
    assert_eq!(dial(Some(1_000_007)), 500_000);
    let p = SuggestionPreferences::from_raw(None, Some(900_000), Some(5_000_000), Some(0));
    assert_eq!(
        p,
        SuggestionPreferences {
            fitness_level: 500_000,
            scenic_preference: 900_000,
            avoid_main_roads: 500_000,
            time_priority: 0,
        }
    );
    assert_eq!(
        SuggestionPreferences::from_raw(None, None, None, None),
        SuggestionPreferences::default()
    );
}

#[test]
fn default_number_of_suggestions_is_three() {
    assert_eq!(default_max_suggestions(), 3);
}

#[test]
fn requested_number_of_suggestions_is_bounded() {
    assert_eq!(clamp_max_suggestions(0), 1);
    assert_eq!(clamp_max_suggestions(1), 1);
    assert_eq!(clamp_max_suggestions(3), 3);
    assert_eq!(clamp_max_suggestions(6), 6);
    assert_eq!(clamp_max_suggestions(7), 6);
    assert_eq!(clamp_max_suggestions(usize::MAX), 6);
}
