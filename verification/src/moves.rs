//! The moves that lead from a schedule to a neighbouring one.

use vstd::prelude::*;
use crate::catalog::lookup;
use crate::cost::{leg_count, mentions};
use crate::initial::is_rested;
use crate::structs::{Config, ConfigSpec, EntrySpec, Exercise, ExerciseSpec, MuscleGroup,
    RoutineEntry, ScheduleSpec, MAX_LEG_EXERCISES};
use crate::volume::volume_of;

verus! {

/// One move, with everything that was drawn for it. An exercise is given by
/// its place in the catalog.
#[derive(Clone, Copy, Debug, PartialEq, Eq, Structural)]
pub enum Move {
    /// Gives the entry a new set count.
    RerollSets { day: usize, index: usize, sets: i32 },
    /// Takes the entry out, whatever the day is left with.
    Remove { day: usize, index: usize },
    /// Puts an isolation exercise that trains a muscle under its target at
    /// the end of the day.
    AddIsolation { day: usize, exercise: usize, sets: i32 },
    /// Puts an exercise that trains a muscle under its target in the place of
    /// the entry.
    Replace { day: usize, index: usize, exercise: usize, sets: i32 },
    /// Exchanges two entries.
    Swap { day: usize, index: usize, other_day: usize, other_index: usize },
    /// Takes the entry out of a day that has more than the least number of
    /// entries.
    GuardedRemove { day: usize, index: usize },
    /// Puts an exercise that the schedule leaves out at the end of the day.
    InsertMissing { day: usize, exercise: usize, sets: i32 },
}

/// What the moves are judged against: the catalog, the targets, the recovery
/// windows and the configuration.
pub struct Setting {
    pub catalog: Seq<ExerciseSpec>,
    pub targets: Seq<(Seq<char>, MuscleGroup)>,
    pub recovery: Seq<(Seq<char>, usize)>,
    pub config: ConfigSpec,
}

/// The setting that the arguments of the search stand for.
pub open spec fn setting_of(
    exercises: &Vec<Exercise>,
    mav_targets: &Vec<(String, MuscleGroup)>,
    recovery: &Vec<(String, usize)>,
    config: &Config,
) -> Setting {
    Setting {
        catalog: exercises.deep_view(),
        targets: mav_targets.deep_view(),
        recovery: recovery.deep_view(),
        config: config@,
    }
}

/// Some entry of the day names `name`.
pub open spec fn day_mentions(day: Seq<EntrySpec>, name: Seq<char>) -> bool {
    exists|i: int| 0 <= i < day.len() && (#[trigger] day[i]).exercise == name
}

/// A muscle with volume `volume` is under a target: it is not exempt, and
/// some row of the targets asks more of it.
pub open spec fn under_target(
    volume: int,
    targets: Seq<(Seq<char>, MuscleGroup)>,
    exempt: Seq<Seq<char>>,
    muscle: Seq<char>,
) -> bool {
    !exempt.contains(muscle) && exists|k: int|
        0 <= k < targets.len() && (#[trigger] targets[k]).0 == muscle && volume < targets[k].1.target
}

/// Some primary muscle of the exercise at place `x` is under its target in
/// the schedule.
pub open spec fn trains_weak_muscle(routine: ScheduleSpec, setting: Setting, x: int) -> bool {
    exists|i: int|
        0 <= i < setting.catalog[x].primary.len() && under_target(
            volume_of(routine, setting.catalog, #[trigger] setting.catalog[x].primary[i]),
            setting.targets,
            setting.config.exempt_muscles,
            setting.catalog[x].primary[i],
        )
}

/// The exercise at place `x` may come into `day`: the day does not name it,
/// the leg limit allows it, its primary muscles are rested and one of them is
/// under its target; where `isolation_only` holds it is no compound exercise.
pub open spec fn is_candidate(
    routine: ScheduleSpec,
    setting: Setting,
    day: int,
    isolation_only: bool,
    x: int,
) -> bool {
    &&& 0 <= x < setting.catalog.len()
    &&& !day_mentions(routine[day], setting.catalog[x].name)
    &&& (!setting.catalog[x].is_leg || leg_count(setting.catalog, routine[day])
        < MAX_LEG_EXERCISES)
    &&& (!isolation_only || !setting.catalog[x].is_compound)
    &&& is_rested(routine, day, setting.catalog, setting.recovery, x)
    &&& trains_weak_muscle(routine, setting, x)
}

/// The candidates for `day` among the first `n` places of the catalog, in its
/// order.
pub open spec fn candidate_places(
    routine: ScheduleSpec,
    setting: Setting,
    day: int,
    isolation_only: bool,
    n: int,
) -> Seq<int>
    decreases n,
{
    if n <= 0 {
        Seq::empty()
    } else {
        let before = candidate_places(routine, setting, day, isolation_only, n - 1);
        if is_candidate(routine, setting, day, isolation_only, n - 1) {
            before.push(n - 1)
        } else {
            before
        }
    }
}

/// The exercise at place `x` is left out of the schedule, and is the first
/// of its name.
pub open spec fn is_missing(routine: ScheduleSpec, catalog: Seq<ExerciseSpec>, x: int) -> bool {
    &&& 0 <= x < catalog.len()
    &&& lookup(catalog, catalog[x].name) == Some(x)
    &&& !mentions(routine, catalog[x].name)
}

/// The exercises left out among the first `n` places of the catalog, in its
/// order.
pub open spec fn missing_places(routine: ScheduleSpec, catalog: Seq<ExerciseSpec>, n: int) -> Seq<int>
    decreases n,
{
    if n <= 0 {
        Seq::empty()
    } else {
        let before = missing_places(routine, catalog, n - 1);
        if is_missing(routine, catalog, n - 1) {
            before.push(n - 1)
        } else {
            before
        }
    }
}

/// The set count is one that the configuration allows.
pub open spec fn sets_allowed(config: ConfigSpec, sets: int) -> bool {
    config.min_sets <= sets <= config.max_sets
}

/// The place `(day, index)` holds an entry of the schedule.
pub open spec fn holds_entry(routine: ScheduleSpec, day: int, index: int) -> bool {
    0 <= day < routine.len() && 0 <= index < routine[day].len()
}

/// The move is one that may be made on the schedule.
pub open spec fn legal(routine: ScheduleSpec, setting: Setting, mv: Move) -> bool {
    match mv {
        Move::RerollSets { day, index, sets } => {
            holds_entry(routine, day as int, index as int) && sets_allowed(setting.config, sets as int)
        },
        Move::Remove { day, index } => holds_entry(routine, day as int, index as int),
        Move::AddIsolation { day, exercise, sets } => {
            &&& 0 <= day < routine.len()
            &&& routine[day as int].len() < setting.config.max_exercises_per_day
            &&& is_candidate(routine, setting, day as int, true, exercise as int)
            &&& sets_allowed(setting.config, sets as int)
        },
        Move::Replace { day, index, exercise, sets } => {
            &&& holds_entry(routine, day as int, index as int)
            &&& is_candidate(routine, setting, day as int, false, exercise as int)
            &&& sets_allowed(setting.config, sets as int)
        },
        Move::Swap { day, index, other_day, other_index } => {
            holds_entry(routine, day as int, index as int) && holds_entry(
                routine,
                other_day as int,
                other_index as int,
            )
        },
        Move::GuardedRemove { day, index } => {
            holds_entry(routine, day as int, index as int) && routine[day as int].len()
                > setting.config.min_exercises_per_day
        },
        Move::InsertMissing { day, exercise, sets } => {
            &&& 0 <= day < routine.len()
            &&& routine[day as int].len() < setting.config.max_exercises_per_day
            &&& is_missing(routine, setting.catalog, exercise as int)
            &&& is_rested(routine, day as int, setting.catalog, setting.recovery, exercise as int)
            &&& sets_allowed(setting.config, sets as int)
        },
    }
}

/// The schedule with the entry at `(day, index)` put to `entry`.
pub open spec fn with_entry_at(routine: ScheduleSpec, day: int, index: int, entry: EntrySpec) -> ScheduleSpec {
    routine.update(day, routine[day].update(index, entry))
}

/// The schedule after the move.
pub open spec fn apply(routine: ScheduleSpec, catalog: Seq<ExerciseSpec>, mv: Move) -> ScheduleSpec {
    match mv {
        Move::RerollSets { day, index, sets } => with_entry_at(
            routine,
            day as int,
            index as int,
            EntrySpec { exercise: routine[day as int][index as int].exercise, sets: sets as int },
        ),
        Move::Remove { day, index } => routine.update(
            day as int,
            routine[day as int].remove(index as int),
        ),
        Move::AddIsolation { day, exercise, sets } => routine.update(
            day as int,
            routine[day as int].push(
                EntrySpec { exercise: catalog[exercise as int].name, sets: sets as int },
            ),
        ),
        Move::Replace { day, index, exercise, sets } => with_entry_at(
            routine,
            day as int,
            index as int,
            EntrySpec { exercise: catalog[exercise as int].name, sets: sets as int },
        ),
        Move::Swap { day, index, other_day, other_index } => with_entry_at(
            with_entry_at(
                routine,
                day as int,
                index as int,
                routine[other_day as int][other_index as int],
            ),
            other_day as int,
            other_index as int,
            routine[day as int][index as int],
        ),
        Move::GuardedRemove { day, index } => routine.update(
            day as int,
            routine[day as int].remove(index as int),
        ),
        Move::InsertMissing { day, exercise, sets } => routine.update(
            day as int,
            routine[day as int].push(
                EntrySpec { exercise: catalog[exercise as int].name, sets: sets as int },
            ),
        ),
    }
}

/// The move names places that the schedule and a catalog of `len` exercises
/// have.
pub open spec fn in_range(routine: ScheduleSpec, len: int, mv: Move) -> bool {
    match mv {
        Move::RerollSets { day, index, sets } => holds_entry(routine, day as int, index as int),
        Move::Remove { day, index } => holds_entry(routine, day as int, index as int),
        Move::AddIsolation { day, exercise, sets } => day < routine.len() && exercise < len,
        Move::Replace { day, index, exercise, sets } => {
            holds_entry(routine, day as int, index as int) && exercise < len
        },
        Move::Swap { day, index, other_day, other_index } => {
            holds_entry(routine, day as int, index as int) && holds_entry(
                routine,
                other_day as int,
                other_index as int,
            )
        },
        Move::GuardedRemove { day, index } => holds_entry(routine, day as int, index as int),
        Move::InsertMissing { day, exercise, sets } => day < routine.len() && exercise < len,
    }
}

/// A legal move names places that the schedule and the catalog have.
pub proof fn lemma_legal_in_range(routine: ScheduleSpec, setting: Setting, mv: Move)
    requires
        legal(routine, setting, mv),
    ensures
        in_range(routine, setting.catalog.len() as int, mv),
{
}

/// Puts `entry` in the place `(day, index)`.
pub fn set_entry(routine: &mut Vec<Vec<RoutineEntry>>, day: usize, index: usize, entry: RoutineEntry)
    requires
        holds_entry(old(routine).deep_view(), day as int, index as int),
    ensures
        final(routine).deep_view() == with_entry_at(
            old(routine).deep_view(),
            day as int,
            index as int,
            entry@,
        ),
{
    let ghost before = routine.deep_view();
    assert(before[day as int] == routine[day as int].deep_view());
    routine[day][index] = entry;
    assert(routine[day as int].deep_view() =~= before[day as int].update(index as int, entry@));
    assert(routine.deep_view() =~= with_entry_at(before, day as int, index as int, entry@));
}

/// Takes the entry at `(day, index)` out.
pub fn remove_entry(routine: &mut Vec<Vec<RoutineEntry>>, day: usize, index: usize)
    requires
        holds_entry(old(routine).deep_view(), day as int, index as int),
    ensures
        final(routine).deep_view() == old(routine).deep_view().update(
            day as int,
            old(routine).deep_view()[day as int].remove(index as int),
        ),
{
    let ghost before = routine.deep_view();
    assert(before[day as int] == routine[day as int].deep_view());
    routine[day].remove(index);
    assert(routine[day as int].deep_view() =~= before[day as int].remove(index as int));
    assert(routine.deep_view() =~= before.update(
        day as int,
        before[day as int].remove(index as int),
    ));
}

/// Puts `entry` at the end of `day`.
pub fn push_entry(routine: &mut Vec<Vec<RoutineEntry>>, day: usize, entry: RoutineEntry)
    requires
        day < old(routine).len(),
    ensures
        final(routine).deep_view() == old(routine).deep_view().update(
            day as int,
            old(routine).deep_view()[day as int].push(entry@),
        ),
{
    let ghost before = routine.deep_view();
    assert(before[day as int] == routine[day as int].deep_view());
    routine[day].push(entry);
    assert(routine[day as int].deep_view() =~= before[day as int].push(entry@));
    assert(routine.deep_view() =~= before.update(day as int, before[day as int].push(entry@)));
}

/// Makes the move on the schedule.
pub fn apply_move(routine: &mut Vec<Vec<RoutineEntry>>, exercises: &Vec<Exercise>, mv: &Move)
    requires
        in_range(old(routine).deep_view(), exercises.len() as int, *mv),
    ensures
        final(routine).deep_view() == apply(old(routine).deep_view(), exercises.deep_view(), *mv),
{
    let ghost before = routine.deep_view();
    let ghost c = exercises.deep_view();
    match *mv {
        Move::RerollSets { day, index, sets } => {
            assert(before[day as int][index as int] == routine[day as int][index as int]@);
            let entry = RoutineEntry { exercise: routine[day][index].exercise.clone(), sets };
            set_entry(routine, day, index, entry);
        },
        Move::Remove { day, index } => {
            remove_entry(routine, day, index);
        },
        Move::AddIsolation { day, exercise, sets } => {
            assert(c[exercise as int] == exercises[exercise as int]@);
            let entry = RoutineEntry { exercise: exercises[exercise].name.clone(), sets };
            push_entry(routine, day, entry);
        },
        Move::Replace { day, index, exercise, sets } => {
            assert(c[exercise as int] == exercises[exercise as int]@);
            let entry = RoutineEntry { exercise: exercises[exercise].name.clone(), sets };
            set_entry(routine, day, index, entry);
        },
        Move::Swap { day, index, other_day, other_index } => {
            assert(before[day as int][index as int] == routine[day as int][index as int]@);
            assert(before[other_day as int][other_index as int]
                == routine[other_day as int][other_index as int]@);
            let first = routine[day][index].clone();
            let second = routine[other_day][other_index].clone();
            set_entry(routine, day, index, second);
            set_entry(routine, other_day, other_index, first);
        },
        Move::GuardedRemove { day, index } => {
            remove_entry(routine, day, index);
        },
        Move::InsertMissing { day, exercise, sets } => {
            assert(c[exercise as int] == exercises[exercise as int]@);
            let entry = RoutineEntry { exercise: exercises[exercise].name.clone(), sets };
            push_entry(routine, day, entry);
        },
    }
}

} // verus!
