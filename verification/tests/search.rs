use rand::rngs::StdRng;
use rand::SeedableRng;
use workout_optimizer::anneal::Search;
use workout_optimizer::cost::{compute_cost, Cost};
use workout_optimizer::initial::{are_rested, initialize_routine, is_mentioned_before, plan_fill,
    plan_opening, DayPlan};
use workout_optimizer::moves::{apply_move, push_entry, remove_entry, set_entry, Move};
use workout_optimizer::perturb::{any_under_target, candidates, day_names, draw_insertion_of,
    draw_move, draw_move_on,
    is_under_target, kind_from_index, missing_exercises, perturb_routine, MoveKind};
use workout_optimizer::structs::{clone_day, clone_names, clone_routine, Config, Exercise, MuscleGroup,
    RoutineEntry};
use workout_optimizer::volume::compute_volumes;

fn list(items: &[&str]) -> Vec<String> {
    items.iter().map(|s| s.to_string()).collect()
}

fn make(name: &str, primary: &[&str], is_compound: bool, is_leg: bool, critical: bool) -> Exercise {
    Exercise {
        name: name.to_string(),
        primary: list(primary),
        secondary: vec![],
        isometric: vec![],
        is_compound,
        is_leg,
        critical,
    }
}

fn line(name: &str, sets: i32) -> RoutineEntry {
    RoutineEntry { exercise: name.to_string(), sets }
}

fn settings(total_days: usize, min_per_day: u8, max_per_day: u8) -> Config {
    Config {
        total_days,
        min_sets: 2,
        max_sets: 5,
        min_exercises_per_day: min_per_day,
        max_exercises_per_day: max_per_day,
        exempt_muscles: list(&["Glutes", "Lower Back"]),
        max_time_per_day: 50,
        time_weight: 0,
        frequency_weight: 0,
        variance_weight: 0,
    }
}

fn shape(routine: &Vec<Vec<RoutineEntry>>) -> Vec<Vec<(String, i32)>> {
    routine.iter().map(|day| day.iter().map(|e| (e.exercise.clone(), e.sets)).collect()).collect()
}

fn day_of(entries: &[(&str, i32)]) -> Vec<RoutineEntry> {
    entries.iter().map(|(name, sets)| line(name, *sets)).collect()
}

fn gym() -> Vec<Exercise> {
    vec![
        make("Bench Press", &["Chest"], true, false, false),
        make("Squat", &["Quads"], true, true, false),
        make("Row", &["Back"], true, false, false),
        make("Leg Extension", &["Quads"], false, true, false),
        make("Leg Curl", &["Hamstrings"], false, true, false),
        make("Calf Raise", &["Calves"], false, true, false),
        make("Curl", &["Biceps"], false, false, false),
        make("Pushdown", &["Triceps"], false, false, false),
        make("Lateral Raise", &["Side Delts"], false, false, true),
        make("Fly", &["Chest"], false, false, false),
    ]
}

fn goals() -> Vec<(String, MuscleGroup)> {
    ["Chest", "Quads", "Back", "Hamstrings", "Calves", "Biceps", "Triceps", "Side Delts"]
        .iter()
        .map(|m| (m.to_string(), MuscleGroup { target: 40, upper_bound: 80 }))
        .collect()
}

fn total_entries(routine: &Vec<Vec<RoutineEntry>>) -> usize {
    routine.iter().map(|day| day.len()).sum()
}

#[test]
fn clones_keep_the_values() {
    let routine = vec![day_of(&[("Squat", 3), ("Curl", 2)]), vec![]];
    assert_eq!(shape(&clone_routine(&routine)), shape(&routine));
    assert_eq!(shape(&vec![clone_day(&routine[0])]), shape(&vec![day_of(&[("Squat", 3), ("Curl", 2)])]));
    assert_eq!(clone_names(&list(&["a", "b"])), list(&["a", "b"]));
    let copy = gym()[1].clone();
    assert_eq!(copy.name, "Squat");
    assert_eq!(copy.primary, list(&["Quads"]));
    assert!(copy.is_compound && copy.is_leg && !copy.critical);
}

#[test]
fn two_day_scenario_starts_with_the_compound() {
    let exercises = vec![
        make("Squat", &["Quads"], true, true, false),
        make("Leg Extension", &["Quads"], false, false, false),
    ];
    let recovery = vec![("Quads".to_string(), 1usize)];
    let cfg = settings(2, 1, 6);
    for seed in 0..20u64 {
        let mut rng = StdRng::seed_from_u64(seed);
        let routine = initialize_routine(&exercises, &recovery, &cfg, &mut rng);
        assert_eq!(routine.len(), 2);
        let first: Vec<&str> = routine[0].iter().map(|e| e.exercise.as_str()).collect();
        assert_eq!(first, vec!["Squat", "Leg Extension"]);
        // Quads rest on day 1: both exercises train them.
        assert!(routine[1].is_empty());
        for e in &routine[0] {
            assert!(2 <= e.sets && e.sets <= 5);
        }
    }
}

#[test]
fn a_compound_is_taken_on_one_day_only() {
    let exercises = vec![
        make("Squat", &["Quads"], true, true, false),
        make("Leg Extension", &["Quads"], false, false, false),
    ];
    let cfg = settings(3, 1, 6);
    let mut rng = StdRng::seed_from_u64(7);
    let routine = initialize_routine(&exercises, &vec![], &cfg, &mut rng);
    assert_eq!(routine.len(), 3);
    let names: Vec<Vec<&str>> =
        routine.iter().map(|day| day.iter().map(|e| e.exercise.as_str()).collect()).collect();
    assert_eq!(names, vec![vec!["Squat", "Leg Extension"], vec!["Leg Extension"], vec!["Leg Extension"]]);
}

#[test]
fn earlier_days_are_searched_for_a_name() {
    let routine = vec![day_of(&[("Squat", 3)]), day_of(&[("Row", 4), ("Curl", 2)]), day_of(&[("Fly", 2)])];
    assert!(!is_mentioned_before(&routine, 0, &"Squat".to_string()));
    assert!(is_mentioned_before(&routine, 1, &"Squat".to_string()));
    assert!(!is_mentioned_before(&routine, 1, &"Curl".to_string()));
    assert!(is_mentioned_before(&routine, 2, &"Curl".to_string()));
    assert!(!is_mentioned_before(&routine, 2, &"Fly".to_string()));
    assert!(is_mentioned_before(&routine, 3, &"Fly".to_string()));
    assert!(is_mentioned_before(&routine, 9, &"Fly".to_string()));
    assert!(!is_mentioned_before(&routine, 9, &"Plank".to_string()));
}

#[test]
fn each_day_opens_with_the_next_compound() {
    let recovery = vec![("Quads".to_string(), 1usize)];
    let cfg = settings(5, 1, 6);
    for seed in 0..20u64 {
        let mut rng = StdRng::seed_from_u64(seed);
        let routine = initialize_routine(&gym(), &recovery, &cfg, &mut rng);
        // Day 0 takes the bench press and, in its fill, the leg extension, so
        // the quads rest on day 1 and the squat has to wait for day 2.
        assert_eq!(routine[0][0].exercise, "Bench Press");
        assert_eq!(routine[1][0].exercise, "Row");
        assert_eq!(routine[2][0].exercise, "Squat");
        // No compound exercise is left for the last two days.
        for day in &routine[..3] {
            assert_eq!(day[1].exercise, "Lateral Raise");
        }
        for day in &routine[3..] {
            assert_eq!(day[0].exercise, "Lateral Raise");
        }
        for name in ["Bench Press", "Squat", "Row"] {
            let days = routine.iter().filter(|day| day.iter().any(|e| e.exercise == name)).count();
            assert_eq!(days, 1);
        }
        // A compound exercise is the first entry of its day and the only one.
        let catalog = gym();
        for day in &routine {
            for (i, e) in day.iter().enumerate() {
                let compound = catalog.iter().find(|x| x.name == e.exercise).unwrap().is_compound;
                assert!(!compound || i == 0);
            }
        }
        // With the squat, day 2 has room for one more leg exercise only.
        assert!(routine[2].iter().filter(|e| ["Leg Extension", "Leg Curl", "Calf Raise"].contains(&e.exercise.as_str())).count() <= 1);
    }
}

#[test]
fn fill_stops_at_the_target_count() {
    let mut seen_lengths = std::collections::BTreeSet::new();
    let mut seen_sets = std::collections::BTreeSet::new();
    for seed in 0..40u64 {
        let mut rng = StdRng::seed_from_u64(seed);
        let routine = initialize_routine(&gym(), &vec![], &settings(1, 1, 6), &mut rng);
        let names: Vec<&str> = routine[0].iter().map(|e| e.exercise.as_str()).collect();
        // The compound and the critical exercise come first; the fill then
        // takes isolation exercises until the day has 3 to 5 entries. The
        // calf raise would be a third leg exercise and is passed over.
        let all = ["Bench Press", "Lateral Raise", "Leg Extension", "Leg Curl", "Curl"];
        assert!(3 <= names.len() && names.len() <= 5);
        assert_eq!(names, all[..names.len()].to_vec());
        seen_lengths.insert(names.len());
        for e in &routine[0] {
            assert!(2 <= e.sets && e.sets <= 5);
            seen_sets.insert(e.sets);
        }
    }
    assert_eq!(seen_lengths.into_iter().collect::<Vec<_>>(), vec![3, 4, 5]);
    assert_eq!(seen_sets.into_iter().collect::<Vec<_>>(), vec![2, 3, 4, 5]);
}

#[test]
fn fill_counts_entries_not_refusals() {
    let exercises = vec![
        make("Leg Extension", &[], false, true, false),
        make("Leg Curl", &[], false, true, false),
        make("Calf Raise", &[], false, true, false),
        make("Curl", &[], false, false, false),
        make("Pushdown", &[], false, false, false),
    ];
    let routine: Vec<Vec<RoutineEntry>> = vec![];
    let mut plan = plan_opening(&routine, 0, &exercises, &vec![]);
    assert!(plan.picked.is_empty());
    plan_fill(&mut plan, &routine, 0, &exercises, &vec![], 3);
    assert_eq!(plan.picked, vec![0, 1, 3]);
    assert_eq!(plan.used, list(&["Leg Extension", "Leg Curl", "Calf Raise", "Curl"]));
    // A day that cannot reach its target takes what it can.
    let mut short = plan_opening(&routine, 0, &exercises[..3].to_vec(), &vec![]);
    plan_fill(&mut short, &routine, 0, &exercises[..3].to_vec(), &vec![], 5);
    assert_eq!(short.picked, vec![0, 1]);
}

#[test]
fn a_day_takes_two_leg_exercises_at_most() {
    let exercises = vec![
        make("Squat", &["Quads"], true, true, false),
        make("Leg Extension", &["Quads"], false, true, true),
        make("Leg Curl", &["Hamstrings"], false, true, true),
        make("Calf Raise", &["Calves"], false, true, true),
        make("Curl", &["Biceps"], false, false, true),
    ];
    let mut rng = StdRng::seed_from_u64(3);
    let routine = initialize_routine(&exercises, &vec![], &settings(1, 1, 6), &mut rng);
    let names: Vec<&str> = routine[0].iter().map(|e| e.exercise.as_str()).collect();
    assert_eq!(names, vec!["Squat", "Leg Extension", "Curl"]);
}

#[test]
fn the_same_seed_gives_the_same_start() {
    let recovery = vec![("Chest".to_string(), 1usize)];
    let cfg = Config::reference();
    let first = initialize_routine(&gym(), &recovery, &cfg, &mut StdRng::seed_from_u64(99));
    let second = initialize_routine(&gym(), &recovery, &cfg, &mut StdRng::seed_from_u64(99));
    assert_eq!(first.len(), 6);
    assert_eq!(shape(&first), shape(&second));
}

#[test]
fn plan_steps_follow_the_catalog_order() {
    let routine: Vec<Vec<RoutineEntry>> = vec![];
    let mut plan = plan_opening(&routine, 0, &gym(), &vec![]);
    assert_eq!(plan.picked, vec![0, 8]);
    assert_eq!(plan.used, list(&["Bench Press", "Lateral Raise"]));
    assert_eq!(plan.legs, 0);
    plan_fill(&mut plan, &routine, 0, &gym(), &vec![], 4);
    assert_eq!(plan.picked, vec![0, 8, 3, 4]);
    assert_eq!(plan.legs, 2);
    let mut full = DayPlan::new();
    plan_fill(&mut full, &routine, 0, &gym(), &vec![], 0);
    assert!(full.picked.is_empty());
    let mut one = DayPlan::new();
    one.consider(&routine, 0, &gym(), &vec![], 1);
    one.consider(&routine, 0, &gym(), &vec![], 1);
    assert_eq!(one.picked, vec![1]);
    assert_eq!((one.used.len(), one.legs), (1, 1));
}

#[test]
fn rested_looks_at_every_muscle() {
    let recovery = vec![("Quads".to_string(), 1usize)];
    let routine = vec![day_of(&[("Squat", 3)]), vec![]];
    assert!(are_rested(&routine, 1, &list(&["Chest", "Back"]), &gym(), &recovery));
    assert!(!are_rested(&routine, 1, &list(&["Chest", "Quads"]), &gym(), &recovery));
    assert!(are_rested(&routine, 0, &list(&["Quads"]), &gym(), &recovery));
    assert!(are_rested(&routine, 1, &vec![], &gym(), &recovery));
}

#[test]
fn entry_edits_change_one_place() {
    let mut routine = vec![day_of(&[("Squat", 3), ("Curl", 2)]), day_of(&[("Row", 4)])];
    set_entry(&mut routine, 0, 1, line("Fly", 5));
    assert_eq!(shape(&routine), shape(&vec![day_of(&[("Squat", 3), ("Fly", 5)]), day_of(&[("Row", 4)])]));
    push_entry(&mut routine, 1, line("Curl", 2));
    assert_eq!(shape(&routine), shape(&vec![day_of(&[("Squat", 3), ("Fly", 5)]), day_of(&[("Row", 4), ("Curl", 2)])]));
    remove_entry(&mut routine, 0, 0);
    assert_eq!(shape(&routine), shape(&vec![day_of(&[("Fly", 5)]), day_of(&[("Row", 4), ("Curl", 2)])]));
}

#[test]
fn each_move_does_what_it_says() {
    let start = vec![day_of(&[("Squat", 3), ("Curl", 2)]), day_of(&[("Row", 4)]), vec![]];
    let exercises = gym();

    let mut r = clone_routine(&start);
    apply_move(&mut r, &exercises, &Move::RerollSets { day: 0, index: 1, sets: 5 });
    assert_eq!(shape(&r), shape(&vec![day_of(&[("Squat", 3), ("Curl", 5)]), day_of(&[("Row", 4)]), vec![]]));

    let mut r = clone_routine(&start);
    apply_move(&mut r, &exercises, &Move::Remove { day: 1, index: 0 });
    assert_eq!(shape(&r), shape(&vec![day_of(&[("Squat", 3), ("Curl", 2)]), vec![], vec![]]));

    let mut r = clone_routine(&start);
    apply_move(&mut r, &exercises, &Move::AddIsolation { day: 2, exercise: 7, sets: 4 });
    assert_eq!(shape(&r), shape(&vec![day_of(&[("Squat", 3), ("Curl", 2)]), day_of(&[("Row", 4)]), day_of(&[("Pushdown", 4)])]));

    let mut r = clone_routine(&start);
    apply_move(&mut r, &exercises, &Move::Replace { day: 0, index: 0, exercise: 0, sets: 2 });
    assert_eq!(shape(&r), shape(&vec![day_of(&[("Bench Press", 2), ("Curl", 2)]), day_of(&[("Row", 4)]), vec![]]));

    let mut r = clone_routine(&start);
    apply_move(&mut r, &exercises, &Move::Swap { day: 0, index: 1, other_day: 1, other_index: 0 });
    assert_eq!(shape(&r), shape(&vec![day_of(&[("Squat", 3), ("Row", 4)]), day_of(&[("Curl", 2)]), vec![]]));

    let mut r = clone_routine(&start);
    apply_move(&mut r, &exercises, &Move::Swap { day: 0, index: 0, other_day: 0, other_index: 1 });
    assert_eq!(shape(&r), shape(&vec![day_of(&[("Curl", 2), ("Squat", 3)]), day_of(&[("Row", 4)]), vec![]]));

    let mut r = clone_routine(&start);
    apply_move(&mut r, &exercises, &Move::Swap { day: 1, index: 0, other_day: 1, other_index: 0 });
    assert_eq!(shape(&r), shape(&start));

    let mut r = clone_routine(&start);
    apply_move(&mut r, &exercises, &Move::GuardedRemove { day: 0, index: 0 });
    assert_eq!(shape(&r), shape(&vec![day_of(&[("Curl", 2)]), day_of(&[("Row", 4)]), vec![]]));

    let mut r = clone_routine(&start);
    apply_move(&mut r, &exercises, &Move::InsertMissing { day: 1, exercise: 9, sets: 3 });
    assert_eq!(shape(&r), shape(&vec![day_of(&[("Squat", 3), ("Curl", 2)]), day_of(&[("Row", 4), ("Fly", 3)]), vec![]]));
}

#[test]
fn under_target_needs_a_row_and_no_exemption() {
    let routine = vec![day_of(&[("Bench Press", 3)])];
    let volumes = compute_volumes(&routine, &gym());
    let cfg = settings(1, 1, 6);
    let targets = vec![
        ("Chest".to_string(), MuscleGroup { target: 12, upper_bound: 80 }),
        ("Quads".to_string(), MuscleGroup { target: 1, upper_bound: 80 }),
        ("Glutes".to_string(), MuscleGroup { target: 40, upper_bound: 80 }),
    ];
    assert!(!is_under_target(&volumes, &targets, &cfg, &"Chest".to_string()));
    assert!(is_under_target(&volumes, &targets, &cfg, &"Quads".to_string()));
    assert!(!is_under_target(&volumes, &targets, &cfg, &"Glutes".to_string()));
    assert!(!is_under_target(&volumes, &targets, &cfg, &"Calves".to_string()));
    assert!(any_under_target(&volumes, &targets, &cfg, &list(&["Chest", "Quads"])));
    assert!(!any_under_target(&volumes, &targets, &cfg, &list(&["Chest", "Calves"])));
    assert!(!any_under_target(&volumes, &targets, &cfg, &vec![]));
    // A second row for the muscle that asks for more counts too.
    let mut more = targets.clone();
    more.push(("Chest".to_string(), MuscleGroup { target: 13, upper_bound: 80 }));
    assert!(is_under_target(&volumes, &more, &cfg, &"Chest".to_string()));
}

#[test]
fn candidates_meet_every_condition() {
    let recovery = vec![("Hamstrings".to_string(), 1usize)];
    let routine = vec![
        day_of(&[("Leg Curl", 3)]),
        day_of(&[("Squat", 3), ("Calf Raise", 2), ("Curl", 5)]),
    ];
    let cfg = settings(2, 1, 6);
    let targets = vec![
        ("Chest".to_string(), MuscleGroup { target: 40, upper_bound: 80 }),
        ("Quads".to_string(), MuscleGroup { target: 40, upper_bound: 80 }),
        ("Hamstrings".to_string(), MuscleGroup { target: 40, upper_bound: 80 }),
        ("Biceps".to_string(), MuscleGroup { target: 40, upper_bound: 80 }),
        ("Triceps".to_string(), MuscleGroup { target: 40, upper_bound: 80 }),
    ];
    let volumes = compute_volumes(&routine, &gym());
    assert!(day_names(&routine[1], &"Curl".to_string()));
    assert!(!day_names(&routine[1], &"Fly".to_string()));
    // Day 1 has two leg exercises and names Curl; hamstrings rest; Back and
    // Side Delts have no target.
    let any = candidates(&routine, 1, &gym(), &targets, &recovery, &cfg, &volumes, false);
    assert_eq!(any, vec![0, 7, 9]);
    let isolation = candidates(&routine, 1, &gym(), &targets, &recovery, &cfg, &volumes, true);
    assert_eq!(isolation, vec![7, 9]);
    // Day 0 has one leg exercise, so leg exercises are candidates there.
    let first_day = candidates(&routine, 0, &gym(), &targets, &recovery, &cfg, &volumes, true);
    assert_eq!(first_day, vec![3, 6, 7, 9]);
}

#[test]
fn missing_exercises_are_listed_in_catalog_order() {
    let routine = vec![day_of(&[("Squat", 3), ("Curl", 2)]), day_of(&[("Row", 4), ("Fly", 2)])];
    assert_eq!(missing_exercises(&routine, &gym()), vec![0, 3, 4, 5, 7, 8]);
    let mut doubled = gym();
    doubled.push(make("Bench Press", &["Chest"], true, false, false));
    assert_eq!(missing_exercises(&routine, &doubled), vec![0, 3, 4, 5, 7, 8]);
}

#[test]
fn kinds_stand_in_their_order() {
    let kinds: Vec<MoveKind> = (0..7).map(kind_from_index).collect();
    assert_eq!(
        kinds,
        vec![
            MoveKind::RerollSets,
            MoveKind::Remove,
            MoveKind::AddIsolation,
            MoveKind::Replace,
            MoveKind::Swap,
            MoveKind::GuardedRemove,
            MoveKind::InsertMissing,
        ]
    );
}

#[test]
fn a_move_is_drawn_on_the_given_day() {
    let routine = vec![
        day_of(&[("Bench Press", 3), ("Curl", 2), ("Pushdown", 2), ("Fly", 4)]),
        vec![],
        day_of(&[("Squat", 3), ("Leg Curl", 2), ("Curl", 5)]),
    ];
    let cfg = settings(3, 3, 4);
    let exercises = gym();
    for seed in 0..60u64 {
        let mut rng = StdRng::seed_from_u64(seed);
        let day = (seed % 3) as usize;
        let other = ((seed / 3) % 3) as usize;
        let len = routine[day].len();
        let on = |kind: MoveKind, rng: &mut StdRng| draw_move_on(&routine, &exercises, &goals(), &vec![], &cfg, kind, day, other, rng);
        match on(MoveKind::RerollSets, &mut rng) {
            Some(Move::RerollSets { day: d, index, .. }) => assert!(d == day && index < len),
            None => assert_eq!(len, 0),
            other => panic!("{:?}", other),
        }
        match on(MoveKind::Remove, &mut rng) {
            Some(Move::Remove { day: d, index }) => assert!(d == day && index < len),
            None => assert_eq!(len, 0),
            other => panic!("{:?}", other),
        }
        match on(MoveKind::GuardedRemove, &mut rng) {
            Some(Move::GuardedRemove { day: d, index }) => assert!(d == day && index < len && len > 3),
            None => assert!(len <= 3),
            other => panic!("{:?}", other),
        }
        match on(MoveKind::Swap, &mut rng) {
            Some(Move::Swap { day: d, index, other_day, other_index }) => {
                assert!(d == day && other_day == other);
                assert!(index < len && other_index < routine[other].len());
            }
            None => assert!(len == 0 || routine[other].is_empty()),
            other => panic!("{:?}", other),
        }
        match on(MoveKind::AddIsolation, &mut rng) {
            Some(Move::AddIsolation { day: d, exercise, .. }) => {
                assert!(d == day && len < 4 && !exercises[exercise].is_compound);
            }
            // Day 0 is full; the other days have candidates.
            None => assert_eq!(day, 0),
            other => panic!("{:?}", other),
        }
        match on(MoveKind::Replace, &mut rng) {
            Some(Move::Replace { day: d, index, .. }) => assert!(d == day && index < len),
            None => assert_eq!(len, 0),
            other => panic!("{:?}", other),
        }
        match on(MoveKind::InsertMissing, &mut rng) {
            Some(Move::InsertMissing { day: d, exercise, .. }) => {
                assert!(d == day && len < 4);
                assert!(missing_exercises(&routine, &exercises).contains(&exercise));
            }
            None => assert_eq!(day, 0),
            other => panic!("{:?}", other),
        }
    }
}

#[test]
fn an_insertion_waits_for_rested_muscles() {
    let recovery = vec![("Quads".to_string(), 1usize)];
    let routine = vec![day_of(&[("Squat", 3)]), day_of(&[("Row", 4)]), vec![]];
    let cfg = settings(3, 1, 6);
    let mut rng = StdRng::seed_from_u64(1);
    // Leg Extension trains the quads, which rest on day 1.
    assert_eq!(draw_insertion_of(&routine, &gym(), &recovery, &cfg, 1, 3, &mut rng), None);
    for day in [0usize, 2] {
        match draw_insertion_of(&routine, &gym(), &recovery, &cfg, day, 3, &mut rng) {
            Some(Move::InsertMissing { day: d, exercise, sets }) => {
                assert!(d == day && exercise == 3 && 2 <= sets && sets <= 5);
            }
            other => panic!("{:?}", other),
        }
    }
    // Of the missing exercises only the one that was drawn is looked at.
    let mut seen = 0;
    for seed in 0..40u64 {
        let mut rng = StdRng::seed_from_u64(seed);
        match draw_move_on(&routine, &gym(), &goals(), &recovery, &cfg, MoveKind::InsertMissing, 1, 1, &mut rng) {
            Some(Move::InsertMissing { day, exercise, .. }) => {
                assert!(day == 1 && exercise != 3);
                seen += 1;
            }
            None => {}
            other => panic!("{:?}", other),
        }
    }
    assert!(seen > 0 && seen < 40);
}

#[test]
fn drawn_moves_are_legal() {
    let routine = vec![
        day_of(&[("Bench Press", 3), ("Curl", 2), ("Pushdown", 2), ("Fly", 4)]),
        day_of(&[("Squat", 3), ("Leg Curl", 2), ("Curl", 5)]),
    ];
    let cfg = settings(2, 3, 6);
    let exercises = gym();
    let missing = missing_exercises(&routine, &exercises);
    let mut days = std::collections::BTreeSet::new();
    let mut picks = std::collections::BTreeSet::new();
    for seed in 0..200u64 {
        let mut rng = StdRng::seed_from_u64(seed);
        let kind = kind_from_index((seed % 7) as i32);
        let mv = draw_move(&routine, &exercises, &goals(), &vec![], &cfg, kind, &mut rng);
        match (kind, mv) {
            (MoveKind::RerollSets, Some(Move::RerollSets { day, index, sets })) => {
                assert!(day < 2 && index < routine[day].len() && 2 <= sets && sets <= 5);
                days.insert(day);
            }
            (MoveKind::Remove, Some(Move::Remove { day, index })) => {
                assert!(day < 2 && index < routine[day].len());
            }
            (MoveKind::AddIsolation, Some(Move::AddIsolation { day, exercise, sets })) => {
                let e = &exercises[exercise];
                assert!(!e.is_compound && !routine[day].iter().any(|x| x.exercise == e.name));
                assert!(2 <= sets && sets <= 5);
            }
            (MoveKind::Replace, Some(Move::Replace { day, index, exercise, sets })) => {
                let e = &exercises[exercise];
                assert!(index < routine[day].len());
                assert!(!routine[day].iter().any(|x| x.exercise == e.name));
                assert!(2 <= sets && sets <= 5);
            }
            (MoveKind::Swap, Some(Move::Swap { day, index, other_day, other_index })) => {
                assert!(index < routine[day].len() && other_index < routine[other_day].len());
            }
            (MoveKind::GuardedRemove, Some(Move::GuardedRemove { day, index })) => {
                assert_eq!(day, 0);
                assert!(index < 4);
            }
            (MoveKind::GuardedRemove, None) => {}
            (MoveKind::InsertMissing, Some(Move::InsertMissing { day, exercise, sets })) => {
                assert!(day < 2 && missing.contains(&exercise) && 2 <= sets && sets <= 5);
                picks.insert(exercise);
            }
            (kind, other) => panic!("{:?} gave {:?}", kind, other),
        }
    }
    assert_eq!(days.len(), 2);
    assert!(picks.len() > 1);
}

#[test]
fn a_blocked_kind_gives_no_move() {
    let empty: Vec<Vec<RoutineEntry>> = vec![vec![], vec![]];
    let cfg = settings(2, 3, 6);
    for kind in [MoveKind::RerollSets, MoveKind::Remove, MoveKind::Replace, MoveKind::Swap, MoveKind::GuardedRemove] {
        let mut rng = StdRng::seed_from_u64(5);
        assert_eq!(draw_move(&empty, &gym(), &goals(), &vec![], &cfg, kind, &mut rng), None);
    }
    // A full day takes no more.
    let full = vec![day_of(&[("Bench Press", 3), ("Curl", 2)])];
    let tight = settings(1, 1, 2);
    for kind in [MoveKind::AddIsolation, MoveKind::InsertMissing] {
        let mut rng = StdRng::seed_from_u64(5);
        assert_eq!(draw_move(&full, &gym(), &goals(), &vec![], &tight, kind, &mut rng), None);
    }
    // Nothing is missing.
    let one = vec![make("Curl", &["Biceps"], false, false, false)];
    let all_in = vec![day_of(&[("Curl", 2)])];
    let mut rng = StdRng::seed_from_u64(5);
    assert_eq!(draw_move(&all_in, &one, &goals(), &vec![], &cfg, MoveKind::InsertMissing, &mut rng), None);
    // No muscle is under its target: nothing to add.
    let mut rng = StdRng::seed_from_u64(5);
    assert_eq!(draw_move(&all_in, &gym(), &vec![], &vec![], &cfg, MoveKind::AddIsolation, &mut rng), None);
}

#[test]
fn perturbing_changes_one_place_at_most() {
    let cfg = Config::reference();
    let exercises = gym();
    let mut rng = StdRng::seed_from_u64(2024);
    let mut routine = initialize_routine(&exercises, &vec![], &cfg, &mut rng);
    let mut grew = 0;
    let mut shrank = 0;
    let mut kept = 0;
    for _ in 0..3000 {
        let before = clone_routine(&routine);
        perturb_routine(&mut routine, &exercises, &goals(), &vec![], &cfg, &mut rng);
        assert_eq!(routine.len(), before.len());
        let (old, new) = (total_entries(&before), total_entries(&routine));
        if new == old + 1 {
            grew += 1;
        } else if new + 1 == old {
            shrank += 1;
        } else {
            assert_eq!(new, old);
            kept += 1;
        }
        let changed_days = (0..routine.len()).filter(|d| shape(&vec![clone_day(&routine[*d])]) != shape(&vec![clone_day(&before[*d])])).count();
        assert!(changed_days <= 2);
        for day in &routine {
            assert!(day.len() <= 6);
            for e in day {
                assert!(2 <= e.sets && e.sets <= 5);
            }
        }
    }
    assert!(grew > 0 && shrank > 0 && kept > 0);
}

#[test]
fn search_keeps_the_best() {
    let a = vec![day_of(&[("Squat", 3)])];
    let b = vec![day_of(&[("Row", 4)])];
    let c = vec![day_of(&[("Curl", 2)])];
    let mut search = Search::start(clone_routine(&a), Cost::Finite(100));
    assert_eq!(search.best_cost, Cost::Finite(100));
    assert_eq!(shape(&search.best), shape(&a));

    // Lower cost: accepted whatever the draw.
    assert!(!search.needs_draw(&Cost::Finite(90)));
    assert!(search.offer(clone_routine(&b), Cost::Finite(90), false));
    assert_eq!((search.current_cost, search.best_cost), (Cost::Finite(90), Cost::Finite(90)));
    assert_eq!(shape(&search.best), shape(&b));

    // Higher cost: the draw decides.
    assert!(search.needs_draw(&Cost::Finite(95)));
    assert!(!search.offer(clone_routine(&c), Cost::Finite(95), false));
    assert_eq!(shape(&search.current), shape(&b));
    assert!(search.offer(clone_routine(&c), Cost::Finite(95), true));
    assert_eq!((search.current_cost, search.best_cost), (Cost::Finite(95), Cost::Finite(90)));
    assert_eq!(shape(&search.current), shape(&c));
    assert_eq!(shape(&search.best), shape(&b));

    // Equal cost is no improvement.
    assert!(search.needs_draw(&Cost::Finite(95)));

    // Lower than the current cost but not than the best.
    assert!(search.offer(clone_routine(&a), Cost::Finite(92), false));
    assert_eq!((search.current_cost, search.best_cost), (Cost::Finite(92), Cost::Finite(90)));
    assert_eq!(shape(&search.best), shape(&b));

    // Infinite cost: never accepted.
    assert!(!search.needs_draw(&Cost::Infinite));
    assert!(!search.offer(clone_routine(&c), Cost::Infinite, true));
    assert_eq!(search.current_cost, Cost::Finite(92));

    let (best, cost) = search.into_best();
    assert_eq!(shape(&best), shape(&b));
    assert_eq!(cost, Cost::Finite(90));
}

#[test]
fn search_leaves_an_infinite_start_for_any_finite_candidate() {
    let a = vec![day_of(&[("Squat", 3)])];
    let b = vec![day_of(&[("Row", 4)])];
    let mut search = Search::start(clone_routine(&a), Cost::Infinite);
    assert!(!search.needs_draw(&Cost::Finite(u128::MAX)));
    assert!(search.offer(clone_routine(&b), Cost::Finite(u128::MAX), false));
    assert_eq!(search.best_cost, Cost::Finite(u128::MAX));
    assert_eq!(shape(&search.best), shape(&b));
}

#[test]
fn best_cost_never_rises_over_a_run() {
    let cfg = Config::reference();
    let exercises = gym();
    let targets = goals();
    let mut rng = StdRng::seed_from_u64(17);
    let start = initialize_routine(&exercises, &vec![], &cfg, &mut rng);
    let cost = compute_cost(&start, &targets, &exercises, &cfg);
    let mut search = Search::start(start, cost);
    let mut accepted = 0;
    for step in 0..2000 {
        let before = search.best_cost;
        let (candidate, cost) = search.propose(&exercises, &targets, &vec![], &cfg, &mut rng);
        assert_eq!(cost, compute_cost(&candidate, &targets, &exercises, &cfg));
        let draw = search.needs_draw(&cost) && step % 3 == 0;
        if search.offer(candidate, cost, draw) {
            accepted += 1;
        }
        assert!(!before.is_below(&search.best_cost));
        assert!(!search.current_cost.is_below(&search.best_cost));
        assert_eq!(search.best_cost, compute_cost(&search.best, &targets, &exercises, &cfg));
        assert_eq!(search.current_cost, compute_cost(&search.current, &targets, &exercises, &cfg));
    }
    assert!(accepted > 0);
    assert!(search.best_cost.is_below(&cost) || search.best_cost == cost);
}
