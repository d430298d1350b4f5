//! What holds of the cost and of the volumes whatever the schedule.

use vstd::prelude::*;
use crate::catalog::exercise_names;
use crate::cost::{compute_cost, cost_of, inclusion_penalty, infeasible, leg_count,
    lemma_missing_among_finite, mentions, missing_names, names_twice, other_penalties, Cost,
    INCLUSION_PENALTY};
use crate::structs::{Config, ConfigSpec, EntrySpec, Exercise, ExerciseSpec, MuscleGroup,
    RoutineEntry, ScheduleSpec, MAX_LEG_EXERCISES};
use crate::volume::{compute_volumes, Volumes};

verus! {

/// Hard rules: a schedule in which some day names an exercise twice, has
/// fewer entries than the least or more than the most allowed, or has more
/// than two leg exercises, has infinite cost.
pub proof fn lemma_hard_rules_enforced(
    routine: ScheduleSpec,
    targets: Seq<(Seq<char>, MuscleGroup)>,
    catalog: Seq<ExerciseSpec>,
    config: ConfigSpec,
    day: int,
)
    requires
        0 <= day < routine.len(),
        names_twice(routine[day]) || routine[day].len() < config.min_exercises_per_day
            || routine[day].len() > config.max_exercises_per_day || leg_count(catalog, routine[day])
            > MAX_LEG_EXERCISES,
    ensures
        cost_of(routine, targets, catalog, config) is None,
{
}

/// The schedule with `entry` put at place `at` of day `day`.
pub open spec fn with_entry(routine: ScheduleSpec, day: int, at: int, entry: EntrySpec) -> ScheduleSpec {
    routine.update(day, routine[day].insert(at, entry))
}

/// The schedule with one more entry mentions what it mentioned before, and
/// the exercise of that entry.
pub proof fn lemma_mentions_with_entry(
    routine: ScheduleSpec,
    day: int,
    at: int,
    entry: EntrySpec,
    name: Seq<char>,
)
    requires
        0 <= day < routine.len(),
        0 <= at <= routine[day].len(),
    ensures
        mentions(with_entry(routine, day, at, entry), name) <==> (mentions(routine, name) || name
            == entry.exercise),
{
    let grown = with_entry(routine, day, at, entry);
    if mentions(routine, name) {
        let (d, i) = choose|d: int, i: int|
            0 <= d < routine.len() && 0 <= i < routine[d].len() && (#[trigger] routine[d][i]).exercise
                == name;
        if d != day {
            assert(grown[d][i].exercise == name);
        } else if i < at {
            assert(grown[d][i].exercise == name);
        } else {
            assert(grown[d][i + 1].exercise == name);
        }
    }
    if name == entry.exercise {
        assert(grown[day][at].exercise == name);
    }
    if mentions(grown, name) {
        let (d, i) = choose|d: int, i: int|
            0 <= d < grown.len() && 0 <= i < grown[d].len() && (#[trigger] grown[d][i]).exercise
                == name;
        if d != day {
            assert(routine[d][i].exercise == name);
        } else if i < at {
            assert(routine[d][i].exercise == name);
        } else if i > at {
            assert(routine[d][i - 1].exercise == name);
        }
    }
}

/// Inclusion dominance: of two schedules that differ only by one entry,
/// whose exercise is in the catalog and stands nowhere in the first, the
/// first pays 50000 points more for what it leaves out. Where both are
/// within the hard rules and the other penalties of the second are no higher,
/// the cost of the first is at least 50000 points above that of the second.
pub proof fn lemma_inclusion_dominates(
    routine: ScheduleSpec,
    targets: Seq<(Seq<char>, MuscleGroup)>,
    catalog: Seq<ExerciseSpec>,
    config: ConfigSpec,
    day: int,
    at: int,
    entry: EntrySpec,
)
    requires
        0 <= day < routine.len(),
        0 <= at <= routine[day].len(),
        exercise_names(catalog).contains(entry.exercise),
        !mentions(routine, entry.exercise),
    ensures
        inclusion_penalty(routine, catalog) == inclusion_penalty(
            with_entry(routine, day, at, entry),
            catalog,
        ) + INCLUSION_PENALTY,
        ({
            let fuller = with_entry(routine, day, at, entry);
            !infeasible(routine, catalog, config) && !infeasible(fuller, catalog, config)
                && other_penalties(fuller, targets, catalog, config) <= other_penalties(
                routine,
                targets,
                catalog,
                config,
            ) ==> cost_of(routine, targets, catalog, config)->0 >= cost_of(
                fuller,
                targets,
                catalog,
                config,
            )->0 + INCLUSION_PENALTY
        }),
{
    let fuller = with_entry(routine, day, at, entry);
    let before = missing_names(routine, catalog);
    let after = missing_names(fuller, catalog);
    assert forall|name: Seq<char>| after.contains(name) <==> before.remove(entry.exercise).contains(
        name,
    ) by {
        lemma_mentions_with_entry(routine, day, at, entry, name);
    }
    assert(after =~= before.remove(entry.exercise));
    lemma_missing_names_finite(routine, catalog);
    assert(before.contains(entry.exercise));
}

/// The names that a schedule leaves out are finitely many, at most as many as
/// the catalog has exercises.
pub proof fn lemma_missing_names_finite(routine: ScheduleSpec, catalog: Seq<ExerciseSpec>)
    ensures
        missing_names(routine, catalog).finite(),
        missing_names(routine, catalog).len() <= catalog.len(),
{
    lemma_missing_among_finite(routine, catalog, catalog.len() as int);
    assert(exercise_names(catalog).take(catalog.len() as int) =~= exercise_names(catalog));
    assert(crate::cost::missing_among(routine, catalog, catalog.len() as int) =~= missing_names(
        routine,
        catalog,
    ));
}

/// Determinism of the cost: two calls on schedules, targets, catalogs and
/// configurations that are the same return the same cost.
pub proof fn lemma_cost_determined(
    routine_a: &Vec<Vec<RoutineEntry>>,
    targets_a: &Vec<(String, MuscleGroup)>,
    exercises_a: &Vec<Exercise>,
    config_a: &Config,
    cost_a: Cost,
    routine_b: &Vec<Vec<RoutineEntry>>,
    targets_b: &Vec<(String, MuscleGroup)>,
    exercises_b: &Vec<Exercise>,
    config_b: &Config,
    cost_b: Cost,
)
    requires
        routine_a.deep_view() == routine_b.deep_view(),
        targets_a.deep_view() == targets_b.deep_view(),
        exercises_a.deep_view() == exercises_b.deep_view(),
        config_a@ == config_b@,
        call_ensures(compute_cost, (routine_a, targets_a, exercises_a, config_a), cost_a),
        call_ensures(compute_cost, (routine_b, targets_b, exercises_b, config_b), cost_b),
    ensures
        cost_a == cost_b,
{
}

/// Determinism of the volumes: two calls on schedules and catalogs that are
/// the same return tables that give every muscle the same volume.
pub proof fn lemma_volumes_determined(
    routine_a: &Vec<Vec<RoutineEntry>>,
    exercises_a: &Vec<Exercise>,
    volumes_a: Volumes,
    routine_b: &Vec<Vec<RoutineEntry>>,
    exercises_b: &Vec<Exercise>,
    volumes_b: Volumes,
    muscle: Seq<char>,
)
    requires
        routine_a.deep_view() == routine_b.deep_view(),
        exercises_a.deep_view() == exercises_b.deep_view(),
        call_ensures(compute_volumes, (routine_a, exercises_a), volumes_a),
        call_ensures(compute_volumes, (routine_b, exercises_b), volumes_b),
    ensures
        volumes_a.volume(muscle) == volumes_b.volume(muscle),
{
}

} // verus!
