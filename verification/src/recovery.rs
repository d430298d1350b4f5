//! The recovery rule: a muscle that was trained a few days ago is left alone.

use vstd::prelude::*;
use crate::catalog::{contains_name, find_exercise, first_place, lemma_first_place,
    lemma_first_place_is, lookup, row_keys};
use crate::structs::{EntrySpec, Exercise, ExerciseSpec, RoutineEntry, ScheduleSpec};

verus! {

/// The days of rest that `muscle` needs: those of its first row, or none where
/// the table does not list it.
pub open spec fn recovery_window(recovery: Seq<(Seq<char>, usize)>, muscle: Seq<char>) -> nat {
    match first_place(row_keys(recovery), muscle) {
        Some(i) => recovery[i].1 as nat,
        None => 0,
    }
}

/// The exercise trains `muscle` as a primary or a secondary muscle.
pub open spec fn trains(exercise: ExerciseSpec, muscle: Seq<char>) -> bool {
    exercise.primary.contains(muscle) || exercise.secondary.contains(muscle)
}

/// The entry names an exercise of the catalog that trains `muscle`.
pub open spec fn entry_trains(catalog: Seq<ExerciseSpec>, entry: EntrySpec, muscle: Seq<char>) -> bool {
    match lookup(catalog, entry.exercise) {
        Some(i) => trains(catalog[i], muscle),
        None => false,
    }
}

/// `muscle` was trained on one of the days before `day` that lie within its
/// recovery window.
pub open spec fn recently_used(
    routine: ScheduleSpec,
    day: int,
    muscle: Seq<char>,
    catalog: Seq<ExerciseSpec>,
    recovery: Seq<(Seq<char>, usize)>,
) -> bool {
    exists|d: int, i: int|
        day - recovery_window(recovery, muscle) <= d < day && 0 <= d < routine.len() && 0 <= i
            < routine[d].len() && #[trigger] entry_trains(catalog, routine[d][i], muscle)
}

/// The days of rest that `muscle` needs.
pub fn recovery_days(recovery: &Vec<(String, usize)>, muscle: &String) -> (days: usize)
    ensures
        days == recovery_window(recovery.deep_view(), muscle@),
{
    let mut i: usize = 0;
    while i < recovery.len()
        invariant
            i <= recovery.len(),
            forall|j: int| 0 <= j < i ==> #[trigger] row_keys(recovery.deep_view())[j] != muscle@,
        decreases recovery.len() - i,
    {
        if recovery[i].0 == *muscle {
            proof {
                lemma_first_place_is(row_keys(recovery.deep_view()), muscle@, i as int);
            }
            return recovery[i].1;
        }
        i += 1;
    }
    proof {
        lemma_first_place(row_keys(recovery.deep_view()), muscle@);
    }
    0
}

/// Whether the entry names an exercise of the catalog that trains `muscle`.
pub fn entry_trains_muscle(entry: &RoutineEntry, muscle: &String, exercises: &Vec<Exercise>) -> (b: bool)
    ensures
        b == entry_trains(exercises.deep_view(), entry@, muscle@),
{
    match find_exercise(exercises, &entry.exercise) {
        Some(x) => {
            contains_name(&exercises[x].primary, muscle) || contains_name(
                &exercises[x].secondary,
                muscle,
            )
        },
        None => false,
    }
}

/// Whether `muscle` was trained, as a primary or secondary muscle, on one of
/// the days before `current_day` that lie within its recovery window.
pub fn is_muscle_recently_used(
    routine: &Vec<Vec<RoutineEntry>>,
    current_day: usize,
    muscle: &String,
    exercises: &Vec<Exercise>,
    recovery: &Vec<(String, usize)>,
) -> (used: bool)
    ensures
        used == recently_used(
            routine.deep_view(),
            current_day as int,
            muscle@,
            exercises.deep_view(),
            recovery.deep_view(),
        ),
{
    let window = recovery_days(recovery, muscle);
    let first: usize = if window >= current_day {
        0
    } else {
        current_day - window
    };
    let end: usize = if current_day < routine.len() {
        current_day
    } else {
        routine.len()
    };
    let ghost r = routine.deep_view();
    let ghost c = exercises.deep_view();
    let mut d: usize = first;
    while d < end
        invariant
            first <= d,
            end <= current_day,
            end <= routine.len(),
            end == current_day || end == routine.len(),
            window == recovery_window(recovery.deep_view(), muscle@),
            current_day - window <= first,
            r == routine.deep_view(),
            c == exercises.deep_view(),
            forall|e: int, i: int|
                first <= e < d && 0 <= i < r[e].len() ==> !#[trigger] entry_trains(c, r[e][i], muscle@),
        decreases end - d,
    {
        let day = &routine[d];
        let mut i: usize = 0;
        while i < day.len()
            invariant
                first <= d < end,
                end <= current_day,
                end <= routine.len(),
                r == routine.deep_view(),
                c == exercises.deep_view(),
                day == &routine[d as int],
                i <= day.len(),
                window == recovery_window(recovery.deep_view(), muscle@),
                current_day - window <= first,
                forall|e: int, j: int|
                    first <= e < d && 0 <= j < r[e].len() ==> !#[trigger] entry_trains(
                        c,
                        r[e][j],
                        muscle@,
                    ),
                forall|j: int| 0 <= j < i ==> !#[trigger] entry_trains(c, r[d as int][j], muscle@),
            decreases day.len() - i,
        {
            assert(r[d as int][i as int] == day[i as int]@);
            if entry_trains_muscle(&day[i], muscle, exercises) {
                return true;
            }
            i += 1;
        }
        assert(r[d as int].len() == day.len());
        d += 1;
    }
    false
}

} // verus!
