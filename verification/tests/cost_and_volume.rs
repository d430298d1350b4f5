use workout_optimizer::cost::{breaks_rules, compute_cost, count_legs, count_missing, has_duplicate,
    is_mentioned, misses_compound_first, penalty_for, Cost};
use workout_optimizer::dormant::{count_before, count_in_day, day_time_of, frequency_overage_of,
    time_overage_of, time_spread_of, total_time_of};
use workout_optimizer::recovery::{is_muscle_recently_used, recovery_days};
use workout_optimizer::report::{time_estimate, volume_status, VolumeStatus};
use workout_optimizer::structs::{clone_routine, Config, Exercise, MuscleGroup, RoutineEntry};
use workout_optimizer::volume::{compute_volumes, Volumes};

fn names(list: &[&str]) -> Vec<String> {
    list.iter().map(|s| s.to_string()).collect()
}

fn exercise(name: &str, primary: &[&str], secondary: &[&str], isometric: &[&str], is_compound: bool, is_leg: bool) -> Exercise {
    Exercise {
        name: name.to_string(),
        primary: names(primary),
        secondary: names(secondary),
        isometric: names(isometric),
        is_compound,
        is_leg,
        critical: false,
    }
}

fn entry(name: &str, sets: i32) -> RoutineEntry {
    RoutineEntry { exercise: name.to_string(), sets }
}

fn catalog() -> Vec<Exercise> {
    vec![
        exercise("Bench Press", &["Chest"], &["Triceps", "Front Delts"], &["Core"], true, false),
        exercise("Squat", &["Quads", "Glutes"], &["Hamstrings"], &["Core", "Lower Back"], true, true),
        exercise("Leg Extension", &["Quads"], &[], &[], false, true),
        exercise("Leg Curl", &["Hamstrings"], &[], &[], false, true),
        exercise("Triceps Pushdown", &["Triceps"], &[], &[], false, false),
        exercise("Plank", &[], &[], &["Core"], false, false),
    ]
}

fn config(total_days: usize, min_per_day: u8, max_per_day: u8) -> Config {
    Config {
        total_days,
        min_sets: 2,
        max_sets: 5,
        min_exercises_per_day: min_per_day,
        max_exercises_per_day: max_per_day,
        exempt_muscles: names(&["Glutes", "Lower Back"]),
        max_time_per_day: 50,
        time_weight: 0,
        frequency_weight: 0,
        variance_weight: 0,
    }
}

fn target(muscle: &str, target: u32, upper_bound: u32) -> (String, MuscleGroup) {
    (muscle.to_string(), MuscleGroup { target, upper_bound })
}

#[test]
fn volume_counts_quarters_by_group() {
    let routine = vec![vec![entry("Bench Press", 3)]];
    let volumes = compute_volumes(&routine, &catalog());
    assert_eq!(volumes.get(&"Chest".to_string()), 12);
    assert_eq!(volumes.get(&"Triceps".to_string()), 6);
    assert_eq!(volumes.get(&"Front Delts".to_string()), 6);
    assert_eq!(volumes.get(&"Core".to_string()), 3);
    assert_eq!(volumes.get(&"Quads".to_string()), 0);
}

#[test]
fn volume_adds_over_entries_and_days() {
    let routine = vec![
        vec![entry("Bench Press", 3), entry("Triceps Pushdown", 4)],
        vec![entry("Squat", 5), entry("Plank", 2)],
        vec![entry("Bench Press", 2)],
    ];
    let volumes = compute_volumes(&routine, &catalog());
    assert_eq!(volumes.get(&"Chest".to_string()), 20);
    assert_eq!(volumes.get(&"Triceps".to_string()), 6 + 16 + 4);
    assert_eq!(volumes.get(&"Core".to_string()), 3 + 5 + 2 + 2);
    assert_eq!(volumes.get(&"Quads".to_string()), 20);
    assert_eq!(volumes.get(&"Hamstrings".to_string()), 10);
}

#[test]
fn volume_adds_the_groups_of_one_exercise() {
    let exercises = vec![exercise("Odd", &["Chest"], &["Chest"], &["Chest"], false, false)];
    let routine = vec![vec![entry("Odd", 4)]];
    let volumes = compute_volumes(&routine, &exercises);
    assert_eq!(volumes.get(&"Chest".to_string()), 16 + 8 + 4);
}

#[test]
fn volume_credits_a_repeated_muscle_once() {
    let exercises = vec![exercise("Twice", &["Chest", "Chest"], &[], &[], false, false)];
    let routine = vec![vec![entry("Twice", 2)]];
    let volumes = compute_volumes(&routine, &exercises);
    assert_eq!(volumes.get(&"Chest".to_string()), 8);
}

#[test]
fn volume_skips_unknown_exercises() {
    let routine = vec![vec![entry("Handstand", 5), entry("Leg Curl", 2)]];
    let volumes = compute_volumes(&routine, &catalog());
    assert_eq!(volumes.get(&"Hamstrings".to_string()), 8);
    assert_eq!(volumes.get(&"Chest".to_string()), 0);
}

#[test]
fn volumes_table_adds_and_gets() {
    let mut table = Volumes::new();
    assert_eq!(table.get(&"Chest".to_string()), 0);
    table.add(&"Chest".to_string(), 8);
    table.add(&"Back".to_string(), 3);
    table.add(&"Chest".to_string(), -2);
    assert_eq!(table.get(&"Chest".to_string()), 6);
    assert_eq!(table.get(&"Back".to_string()), 3);
    assert_eq!(table.get(&"Calves".to_string()), 0);
}

#[test]
fn volumes_list_the_muscles_that_were_worked() {
    let routine = vec![vec![entry("Bench Press", 3), entry("Handstand", 2)], vec![], vec![entry("Plank", 0)]];
    let volumes = compute_volumes(&routine, &catalog());
    assert_eq!(volumes.muscles(), names(&["Chest", "Triceps", "Front Delts", "Core"]));
    for muscle in ["Chest", "Triceps", "Front Delts", "Core"] {
        assert!(volumes.contains(&muscle.to_string()));
    }
    // The muscles of exercises that are not scheduled are not listed.
    for muscle in ["Quads", "Glutes", "Hamstrings", "Lower Back", "Calves"] {
        assert!(!volumes.contains(&muscle.to_string()));
    }
    // An entry of no sets still lists the muscles of its exercise.
    let idle = compute_volumes(&vec![vec![entry("Plank", 0)]], &catalog());
    assert_eq!(idle.muscles(), names(&["Core"]));
    assert_eq!(idle.get(&"Core".to_string()), 0);
    let empty: Vec<Vec<RoutineEntry>> = vec![vec![]; 6];
    assert!(compute_volumes(&empty, &catalog()).muscles().is_empty());
    assert!(Volumes::new().muscles().is_empty());
    let mut table = Volumes::new();
    table.add(&"Back".to_string(), 0);
    table.add(&"Chest".to_string(), 4);
    table.add(&"Back".to_string(), 1);
    assert_eq!(table.muscles(), names(&["Back", "Chest"]));
    assert!(table.contains(&"Back".to_string()) && !table.contains(&"Calves".to_string()));
}

#[test]
fn volumes_are_the_same_on_a_second_call() {
    let routine = vec![vec![entry("Bench Press", 3), entry("Squat", 4)], vec![entry("Plank", 2)]];
    let first = compute_volumes(&routine, &catalog());
    let second = compute_volumes(&clone_routine(&routine), &catalog());
    for muscle in ["Chest", "Triceps", "Front Delts", "Core", "Quads", "Glutes", "Hamstrings", "Lower Back"] {
        assert_eq!(first.get(&muscle.to_string()), second.get(&muscle.to_string()));
    }
}

#[test]
fn cost_is_the_same_on_a_second_call() {
    let routine = vec![vec![entry("Bench Press", 3), entry("Squat", 4)], vec![entry("Plank", 2)]];
    let targets = vec![target("Chest", 40, 80), target("Quads", 8, 12)];
    let cfg = config(2, 1, 6);
    let first = compute_cost(&routine, &targets, &catalog(), &cfg);
    let second = compute_cost(&clone_routine(&routine), &targets.clone(), &catalog(), &config(2, 1, 6));
    assert_eq!(first, second);
    assert!(first.is_finite());
}

#[test]
fn duplicate_in_a_day_is_infinite() {
    let routine = vec![vec![entry("Bench Press", 3), entry("Plank", 2), entry("Bench Press", 4)]];
    assert!(has_duplicate(&routine[0]));
    assert_eq!(compute_cost(&routine, &vec![], &catalog(), &config(1, 1, 6)), Cost::Infinite);
}

#[test]
fn too_few_entries_is_infinite() {
    let routine = vec![vec![entry("Bench Press", 3), entry("Plank", 2)]];
    assert!(breaks_rules(&routine[0], &catalog(), &config(1, 3, 6)));
    assert_eq!(compute_cost(&routine, &vec![], &catalog(), &config(1, 3, 6)), Cost::Infinite);
    assert!(compute_cost(&routine, &vec![], &catalog(), &config(1, 2, 6)).is_finite());
}

#[test]
fn empty_day_is_infinite_under_the_reference_rules() {
    let routine: Vec<Vec<RoutineEntry>> = vec![vec![]; 6];
    assert_eq!(compute_cost(&routine, &vec![], &catalog(), &Config::reference()), Cost::Infinite);
}

#[test]
fn too_many_entries_is_infinite() {
    let routine = vec![vec![entry("Bench Press", 3), entry("Plank", 2), entry("Triceps Pushdown", 2)]];
    assert_eq!(compute_cost(&routine, &vec![], &catalog(), &config(1, 1, 2)), Cost::Infinite);
    assert!(compute_cost(&routine, &vec![], &catalog(), &config(1, 1, 3)).is_finite());
}

#[test]
fn three_leg_exercises_is_infinite() {
    let routine = vec![vec![entry("Squat", 3), entry("Leg Extension", 2), entry("Leg Curl", 2)]];
    assert_eq!(count_legs(&routine[0], &catalog()), 3);
    assert_eq!(compute_cost(&routine, &vec![], &catalog(), &config(1, 1, 6)), Cost::Infinite);
    let two = vec![vec![entry("Squat", 3), entry("Leg Extension", 2), entry("Plank", 2)]];
    assert_eq!(count_legs(&two[0], &catalog()), 2);
    assert!(compute_cost(&two, &vec![], &catalog(), &config(1, 1, 6)).is_finite());
}

#[test]
fn a_violation_on_any_day_is_infinite() {
    let good = vec![entry("Bench Press", 3)];
    let bad = vec![entry("Plank", 3), entry("Plank", 3)];
    let routine = vec![clone_routine(&vec![good])[0].clone(), bad];
    assert_eq!(compute_cost(&routine, &vec![], &catalog(), &config(2, 1, 6)), Cost::Infinite);
}

#[test]
fn compound_first_costs_fifty_points_a_day() {
    let exercises = vec![
        exercise("Bench Press", &["Chest"], &[], &[], true, false),
        exercise("Plank", &[], &[], &["Core"], false, false),
    ];
    let opens_well = vec![vec![entry("Bench Press", 3), entry("Plank", 2)]];
    let opens_badly = vec![vec![entry("Plank", 2), entry("Bench Press", 3)]];
    let cfg = config(1, 1, 6);
    assert!(!misses_compound_first(&opens_well[0], &exercises));
    assert!(misses_compound_first(&opens_badly[0], &exercises));
    assert_eq!(compute_cost(&opens_well, &vec![], &exercises, &cfg), Cost::Finite(0));
    assert_eq!(compute_cost(&opens_badly, &vec![], &exercises, &cfg), Cost::Finite(50 * 16));
}

#[test]
fn unknown_first_exercise_misses_compound_first() {
    let routine = vec![vec![entry("Handstand", 2)]];
    assert!(misses_compound_first(&routine[0], &catalog()));
    assert!(!misses_compound_first(&vec![], &catalog()));
}

#[test]
fn each_missing_exercise_costs_fifty_thousand_points() {
    let exercises = vec![
        exercise("Bench Press", &["Chest"], &[], &[], true, false),
        exercise("Plank", &[], &[], &["Core"], false, false),
        exercise("Leg Curl", &["Hamstrings"], &[], &[], false, true),
    ];
    let cfg = config(1, 1, 6);
    let all = vec![vec![entry("Bench Press", 3), entry("Plank", 2), entry("Leg Curl", 2)]];
    let one_out = vec![vec![entry("Bench Press", 3), entry("Plank", 2)]];
    let two_out = vec![vec![entry("Bench Press", 3)]];
    assert_eq!(count_missing(&all, &exercises), 0);
    assert_eq!(count_missing(&one_out, &exercises), 1);
    assert_eq!(count_missing(&two_out, &exercises), 2);
    assert_eq!(compute_cost(&all, &vec![], &exercises, &cfg), Cost::Finite(0));
    assert_eq!(compute_cost(&one_out, &vec![], &exercises, &cfg), Cost::Finite(50_000 * 16));
    assert_eq!(compute_cost(&two_out, &vec![], &exercises, &cfg), Cost::Finite(100_000 * 16));
}

#[test]
fn a_name_that_the_catalog_holds_twice_is_missed_once() {
    let exercises = vec![
        exercise("Plank", &[], &[], &["Core"], false, false),
        exercise("Plank", &["Core"], &[], &[], false, false),
    ];
    let routine: Vec<Vec<RoutineEntry>> = vec![vec![]];
    assert_eq!(count_missing(&routine, &exercises), 1);
    assert!(!is_mentioned(&routine, &"Plank".to_string()));
}

#[test]
fn inclusion_outweighs_with_all_else_equal() {
    let exercises = vec![
        exercise("Bench Press", &["Chest"], &[], &[], true, false),
        exercise("Plank", &[], &[], &["Core"], false, false),
    ];
    let targets = vec![target("Chest", 16, 40)];
    let cfg = config(2, 1, 6);
    let without = vec![vec![entry("Bench Press", 3)], vec![entry("Bench Press", 2)]];
    let with = vec![vec![entry("Bench Press", 3), entry("Plank", 2)], vec![entry("Bench Press", 2)]];
    let lower = compute_cost(&with, &targets, &exercises, &cfg).sixteenths().unwrap();
    let higher = compute_cost(&without, &targets, &exercises, &cfg).sixteenths().unwrap();
    assert_eq!(higher, lower + 50_000 * 16);
}

#[test]
fn deficit_costs_fifty_points_a_squared_set() {
    let exercises = vec![exercise("Bench Press", &["Chest"], &["Triceps"], &[], true, false)];
    let routine = vec![vec![entry("Bench Press", 5)]];
    let cfg = config(1, 1, 6);
    // Chest: 5 sets against a target of 10: 50 * 5^2 points.
    let chest = vec![target("Chest", 40, 80)];
    assert_eq!(compute_cost(&routine, &chest, &exercises, &cfg), Cost::Finite(50 * 25 * 16));
    // Triceps: 2.5 sets against a target of 3: 50 * 0.5^2 points.
    let triceps = vec![target("Triceps", 12, 80)];
    assert_eq!(compute_cost(&routine, &triceps, &exercises, &cfg), Cost::Finite(200));
    // A muscle that nothing trains: 50 * 2^2 points.
    let calves = vec![target("Calves", 8, 80)];
    assert_eq!(compute_cost(&routine, &calves, &exercises, &cfg), Cost::Finite(50 * 4 * 16));
}

#[test]
fn excess_costs_twenty_five_points_a_squared_set() {
    let exercises = vec![exercise("Bench Press", &["Chest"], &[], &[], true, false)];
    let routine = vec![vec![entry("Bench Press", 5)]];
    let cfg = config(1, 1, 6);
    let targets = vec![target("Chest", 4, 8)];
    // 5 sets against an upper bound of 2: 25 * 3^2 points.
    assert_eq!(compute_cost(&routine, &targets, &exercises, &cfg), Cost::Finite(25 * 9 * 16));
    assert_eq!(penalty_for(20, &MuscleGroup { target: 4, upper_bound: 8 }), 25 * 144);
}

#[test]
fn volume_within_bounds_costs_nothing() {
    let exercises = vec![exercise("Bench Press", &["Chest"], &[], &[], true, false)];
    let cfg = config(1, 1, 6);
    let targets = vec![target("Chest", 8, 20)];
    assert_eq!(compute_cost(&vec![vec![entry("Bench Press", 2)]], &targets, &exercises, &cfg), Cost::Finite(0));
    assert_eq!(compute_cost(&vec![vec![entry("Bench Press", 5)]], &targets, &exercises, &cfg), Cost::Finite(0));
    assert_eq!(penalty_for(8, &MuscleGroup { target: 8, upper_bound: 20 }), 0);
    assert_eq!(penalty_for(20, &MuscleGroup { target: 8, upper_bound: 20 }), 0);
    assert_eq!(penalty_for(7, &MuscleGroup { target: 8, upper_bound: 20 }), 50);
    assert_eq!(penalty_for(21, &MuscleGroup { target: 8, upper_bound: 20 }), 25);
}

#[test]
fn a_deficit_counts_before_an_excess() {
    // A target above the upper bound: the deficit is what is charged.
    assert_eq!(penalty_for(10, &MuscleGroup { target: 12, upper_bound: 4 }), 50 * 4);
}

#[test]
fn exempt_muscles_cost_nothing() {
    let exercises = vec![exercise("Bench Press", &["Chest"], &[], &[], true, false)];
    let routine = vec![vec![entry("Bench Press", 2)]];
    let targets = vec![target("Glutes", 40, 80), target("Lower Back", 40, 80)];
    assert_eq!(compute_cost(&routine, &targets, &exercises, &config(1, 1, 6)), Cost::Finite(0));
    let mut strict = config(1, 1, 6);
    strict.exempt_muscles = vec![];
    assert_eq!(compute_cost(&routine, &targets, &exercises, &strict), Cost::Finite(2 * 50 * 1600));
}

#[test]
fn penalties_add_up() {
    let exercises = vec![
        exercise("Bench Press", &["Chest"], &[], &[], true, false),
        exercise("Plank", &[], &[], &["Core"], false, false),
        exercise("Leg Curl", &["Hamstrings"], &[], &[], false, true),
    ];
    let routine = vec![vec![entry("Plank", 4)], vec![entry("Bench Press", 3)]];
    let targets = vec![target("Chest", 16, 40), target("Core", 0, 2)];
    // Day 0 does not open with a compound exercise: 50 points. Leg Curl is
    // left out: 50000 points. Chest has 3 sets of 4: 50 points. Core has 1
    // set against an upper bound of 0.5: 25 * 0.25 points.
    let expected = 50 * 16 + 50_000 * 16 + 50 * 16 + 25 * 4;
    assert_eq!(compute_cost(&routine, &targets, &exercises, &config(2, 1, 6)), Cost::Finite(expected));
}

#[test]
fn two_day_scenario_costs_only_the_compound_penalty() {
    let exercises = vec![
        exercise("Squat", &["Quads"], &[], &[], true, true),
        exercise("Leg Extension", &["Quads"], &[], &[], false, false),
    ];
    let targets = vec![target("Quads", 40, 80)];
    let routine = vec![vec![entry("Squat", 5)], vec![entry("Leg Extension", 5)]];
    let cfg = config(2, 1, 6);
    assert_eq!(count_missing(&routine, &exercises), 0);
    assert_eq!(compute_volumes(&routine, &exercises).get(&"Quads".to_string()), 40);
    assert_eq!(compute_cost(&routine, &targets, &exercises, &cfg), Cost::Finite(50 * 16));
}

#[test]
fn cost_orders_finite_below_infinite() {
    assert!(Cost::Finite(3).is_below(&Cost::Finite(4)));
    assert!(!Cost::Finite(4).is_below(&Cost::Finite(4)));
    assert!(!Cost::Finite(5).is_below(&Cost::Finite(4)));
    assert!(Cost::Finite(u128::MAX).is_below(&Cost::Infinite));
    assert!(!Cost::Infinite.is_below(&Cost::Infinite));
    assert!(!Cost::Infinite.is_below(&Cost::Finite(0)));
    assert!(Cost::Finite(0).is_finite());
    assert!(!Cost::Infinite.is_finite());
    assert_eq!(Cost::Finite(7).sixteenths(), Some(7));
    assert_eq!(Cost::Infinite.sixteenths(), None);
}

#[test]
fn reference_config_has_the_reference_values() {
    let cfg = Config::reference();
    assert_eq!(cfg.total_days, 6);
    assert_eq!((cfg.min_sets, cfg.max_sets), (2, 5));
    assert_eq!((cfg.min_exercises_per_day, cfg.max_exercises_per_day), (3, 6));
    assert_eq!(cfg.exempt_muscles, names(&["Glutes", "Lower Back"]));
    assert_eq!(cfg.max_time_per_day, 50);
    assert_eq!((cfg.time_weight, cfg.frequency_weight, cfg.variance_weight), (0, 0, 0));
}

fn long_week() -> Vec<Vec<RoutineEntry>> {
    vec![
        vec![entry("Bench Press", 5), entry("Squat", 5), entry("Plank", 5), entry("Leg Curl", 5), entry("Leg Extension", 5), entry("Triceps Pushdown", 5)],
        vec![entry("Bench Press", 5), entry("Handstand", 5), entry("Plank", 2)],
        vec![entry("Bench Press", 2), entry("Plank", 2), entry("Squat", 2)],
        vec![entry("Plank", 3), entry("Bench Press", 3), entry("Squat", 3)],
    ]
}

#[test]
fn day_time_counts_known_exercises() {
    let week = long_week();
    assert_eq!(day_time_of(&week[0], &catalog()), 60);
    assert_eq!(day_time_of(&week[1], &catalog()), 14);
    assert_eq!(day_time_of(&vec![], &catalog()), 0);
    assert_eq!(total_time_of(&week, &catalog()), 60 + 14 + 12 + 18);
    // The estimate of a report counts every entry.
    assert_eq!(time_estimate(&week[1]), 24);
}

#[test]
fn time_overage_adds_the_minutes_over_the_limit() {
    let week = long_week();
    assert_eq!(time_overage_of(&week, &catalog(), 50), 10);
    assert_eq!(time_overage_of(&week, &catalog(), 13), 47 + 1 + 5);
    assert_eq!(time_overage_of(&week, &catalog(), 60), 0);
}

#[test]
fn frequency_overage_counts_from_the_third_time() {
    let week = long_week();
    assert_eq!(count_in_day(&week[0], 6, &"Plank".to_string()), 1);
    assert_eq!(count_in_day(&week[0], 2, &"Plank".to_string()), 0);
    assert_eq!(count_before(&week, 0, 2), 0);
    assert_eq!(count_before(&week, 2, 1), 2);
    assert_eq!(count_before(&week, 3, 0), 3);
    assert_eq!(count_before(&week, 3, 2), 2);
    // Bench Press and Plank come four times, Squat three times.
    assert_eq!(frequency_overage_of(&week), 2 + 2 + 1);
    assert_eq!(frequency_overage_of(&vec![vec![entry("Plank", 2), entry("Plank", 2), entry("Plank", 2)]]), 1);
}

#[test]
fn time_spread_is_the_scaled_squared_deviation() {
    let exercises = catalog();
    let two = vec![vec![entry("Plank", 5)], vec![entry("Bench Press", 5), entry("Squat", 5)]];
    // 10 and 20 minutes: (2 * 10 - 30)^2 + (2 * 20 - 30)^2.
    assert_eq!(time_spread_of(&two, &exercises), 200);
    let even = vec![vec![entry("Plank", 5)], vec![entry("Squat", 5)], vec![entry("Leg Curl", 5)]];
    assert_eq!(time_spread_of(&even, &exercises), 0);
    // 60, 14, 12 and 18 minutes, 104 in all.
    assert_eq!(time_spread_of(&long_week(), &exercises), 136 * 136 + 48 * 48 + 56 * 56 + 32 * 32);
}

#[test]
fn a_weight_wakes_its_penalty() {
    let mut exercises = catalog();
    for e in exercises.iter_mut() {
        e.is_leg = false;
    }
    let week = long_week();
    let mut cfg = config(4, 1, 6);
    let base = compute_cost(&week, &vec![], &exercises, &cfg).sixteenths().unwrap();
    // Day 3 opens with the plank; nothing is missing.
    assert_eq!(base, 50 * 16);
    cfg.time_weight = 3;
    assert_eq!(compute_cost(&week, &vec![], &exercises, &cfg), Cost::Finite(base + 3 * 10));
    cfg.max_time_per_day = 13;
    assert_eq!(compute_cost(&week, &vec![], &exercises, &cfg), Cost::Finite(base + 3 * 53));
    cfg.time_weight = 0;
    cfg.frequency_weight = 7;
    assert_eq!(compute_cost(&week, &vec![], &exercises, &cfg), Cost::Finite(base + 7 * 5));
    cfg.frequency_weight = 0;
    cfg.variance_weight = 2;
    let spread = 136 * 136 + 48 * 48 + 56 * 56 + 32 * 32;
    assert_eq!(compute_cost(&week, &vec![], &exercises, &cfg), Cost::Finite(base + 2 * spread));
    cfg.time_weight = 1;
    cfg.frequency_weight = 1;
    assert_eq!(compute_cost(&week, &vec![], &exercises, &cfg), Cost::Finite(base + 53 + 5 + 2 * spread));
}

#[test]
fn recovery_window_defaults_to_none() {
    let recovery = vec![("Quads".to_string(), 2usize), ("Chest".to_string(), 1usize)];
    assert_eq!(recovery_days(&recovery, &"Quads".to_string()), 2);
    assert_eq!(recovery_days(&recovery, &"Chest".to_string()), 1);
    assert_eq!(recovery_days(&recovery, &"Calves".to_string()), 0);
}

#[test]
fn muscle_is_recently_used_within_its_window() {
    let recovery = vec![("Quads".to_string(), 2usize), ("Hamstrings".to_string(), 1usize)];
    let routine = vec![vec![entry("Squat", 3)], vec![entry("Bench Press", 3)], vec![], vec![]];
    let quads = "Quads".to_string();
    assert!(!is_muscle_recently_used(&routine, 0, &quads, &catalog(), &recovery));
    assert!(is_muscle_recently_used(&routine, 1, &quads, &catalog(), &recovery));
    assert!(is_muscle_recently_used(&routine, 2, &quads, &catalog(), &recovery));
    assert!(!is_muscle_recently_used(&routine, 3, &quads, &catalog(), &recovery));
    // A secondary muscle counts, an isometric one does not.
    let hamstrings = "Hamstrings".to_string();
    assert!(is_muscle_recently_used(&routine, 1, &hamstrings, &catalog(), &recovery));
    assert!(!is_muscle_recently_used(&routine, 2, &hamstrings, &catalog(), &recovery));
    let core_rests = vec![("Core".to_string(), 3usize)];
    assert!(!is_muscle_recently_used(&routine, 1, &"Core".to_string(), &catalog(), &core_rests));
    // No window, no restriction.
    assert!(!is_muscle_recently_used(&routine, 2, &"Chest".to_string(), &catalog(), &recovery));
}

#[test]
fn time_estimate_is_two_minutes_a_set() {
    assert_eq!(time_estimate(&vec![]), 0);
    assert_eq!(time_estimate(&vec![entry("Squat", 5), entry("Handstand", 3), entry("Plank", 2)]), 20);
}

#[test]
fn status_follows_target_and_upper_bound() {
    let cfg = Config::reference();
    let group = MuscleGroup { target: 40, upper_bound: 80 };
    let chest = "Chest".to_string();
    assert_eq!(volume_status(&chest, 39, &group, &cfg), VolumeStatus::BelowTarget);
    assert_eq!(volume_status(&chest, 40, &group, &cfg), VolumeStatus::OnTarget);
    assert_eq!(volume_status(&chest, 80, &group, &cfg), VolumeStatus::OnTarget);
    assert_eq!(volume_status(&chest, 81, &group, &cfg), VolumeStatus::ExceedsUpperBound);
    assert_eq!(volume_status(&"Glutes".to_string(), 0, &group, &cfg), VolumeStatus::NotOptimized);
    assert_eq!(VolumeStatus::BelowTarget.label(), "below target");
    assert_eq!(VolumeStatus::OnTarget.label(), "on target");
    assert_eq!(VolumeStatus::ExceedsUpperBound.label(), "exceeds upper bound");
    assert_eq!(VolumeStatus::NotOptimized.label(), "not optimized");
}
