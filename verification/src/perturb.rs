//! The random step of the search: one move, drawn and made.
//!
//! One of seven kinds of move is drawn, each as likely as the others, then a
//! day, and then what the kind needs. Where the kind cannot be applied to the
//! day that was drawn, the schedule stays as it is.

use vstd::prelude::*;
use rand::rngs::StdRng;
use crate::catalog::{contains_name, exercise_names, lemma_first_place, lemma_first_place_is, lookup};
use crate::cost::{count_legs, is_mentioned, named_before};
use crate::initial::{are_rested, is_rested, places};
use crate::moves::{apply, apply_move, candidate_places, day_mentions, is_candidate, is_missing,
    legal, missing_places, setting_of, under_target, Move, Setting};
use crate::random::{draw_from_range, draw_inclusive, draw_index, draw_range};
use crate::structs::{Config, Exercise, MuscleGroup, RoutineEntry, ScheduleSpec, MAX_DAYS,
    MAX_LEG_EXERCISES};
use crate::volume::{compute_volumes, volume_of, Volumes};

verus! {

/// The kinds of move.
#[derive(Clone, Copy, Debug, PartialEq, Eq, Structural)]
pub enum MoveKind {
    /// A new set count for an entry.
    RerollSets,
    /// An entry taken out, whatever the day is left with.
    Remove,
    /// An isolation exercise added for a muscle under its target.
    AddIsolation,
    /// An entry replaced by an exercise for a muscle under its target.
    Replace,
    /// Two entries exchanged.
    Swap,
    /// An entry taken out of a day that can spare one.
    GuardedRemove,
    /// An exercise brought in that the schedule leaves out.
    InsertMissing,
}

/// The number of kinds of move.
pub const MOVE_KINDS: i32 = 7;

/// The kind of a move.
pub open spec fn kind_of(mv: Move) -> MoveKind {
    match mv {
        Move::RerollSets { .. } => MoveKind::RerollSets,
        Move::Remove { .. } => MoveKind::Remove,
        Move::AddIsolation { .. } => MoveKind::AddIsolation,
        Move::Replace { .. } => MoveKind::Replace,
        Move::Swap { .. } => MoveKind::Swap,
        Move::GuardedRemove { .. } => MoveKind::GuardedRemove,
        Move::InsertMissing { .. } => MoveKind::InsertMissing,
    }
}

/// The kind that stands at place `index` of the seven.
pub open spec fn kind_at(index: int) -> MoveKind {
    if index == 0 {
        MoveKind::RerollSets
    } else if index == 1 {
        MoveKind::Remove
    } else if index == 2 {
        MoveKind::AddIsolation
    } else if index == 3 {
        MoveKind::Replace
    } else if index == 4 {
        MoveKind::Swap
    } else if index == 5 {
        MoveKind::GuardedRemove
    } else {
        MoveKind::InsertMissing
    }
}

/// The kind that stands at place `index` of the seven.
pub fn kind_from_index(index: i32) -> (kind: MoveKind)
    requires
        0 <= index < MOVE_KINDS,
    ensures
        kind == kind_at(index as int),
{
    match index {
        0 => MoveKind::RerollSets,
        1 => MoveKind::Remove,
        2 => MoveKind::AddIsolation,
        3 => MoveKind::Replace,
        4 => MoveKind::Swap,
        5 => MoveKind::GuardedRemove,
        _ => MoveKind::InsertMissing,
    }
}

/// A move of this kind cannot be made on `day`.
pub open spec fn blocked(routine: ScheduleSpec, setting: Setting, kind: MoveKind, day: int) -> bool {
    let len = routine[day].len();
    let all = setting.catalog.len() as int;
    match kind {
        MoveKind::RerollSets => len == 0,
        MoveKind::Remove => len == 0,
        MoveKind::AddIsolation => len >= setting.config.max_exercises_per_day || candidate_places(
            routine,
            setting,
            day,
            true,
            all,
        ).len() == 0,
        MoveKind::Replace => len == 0 || candidate_places(routine, setting, day, false, all).len()
            == 0,
        MoveKind::Swap => len == 0,
        MoveKind::GuardedRemove => len <= setting.config.min_exercises_per_day,
        MoveKind::InsertMissing => len >= setting.config.max_exercises_per_day || missing_places(
            routine,
            setting.catalog,
            all,
        ).len() == 0 || exists|x: int| #[trigger]
            is_missing(routine, setting.catalog, x) && !is_rested(
                routine,
                day,
                setting.catalog,
                setting.recovery,
                x,
            ),
    }
}

/// The day on which the move changes an entry; for a swap, the day of its
/// first entry.
pub open spec fn day_of(mv: Move) -> int {
    match mv {
        Move::RerollSets { day, .. } => day as int,
        Move::Remove { day, .. } => day as int,
        Move::AddIsolation { day, .. } => day as int,
        Move::Replace { day, .. } => day as int,
        Move::Swap { day, .. } => day as int,
        Move::GuardedRemove { day, .. } => day as int,
        Move::InsertMissing { day, .. } => day as int,
    }
}

/// The day of the second entry of a swap; for any other move, its day.
pub open spec fn other_day_of(mv: Move) -> int {
    match mv {
        Move::Swap { other_day, .. } => other_day as int,
        _ => day_of(mv),
    }
}

/// What drawing a move of a kind on given days may give: a legal move of
/// that kind on those days, or none where the kind is blocked on one of
/// them. The two days are the same but for a swap.
pub open spec fn drawn_on(
    routine: ScheduleSpec,
    setting: Setting,
    kind: MoveKind,
    day: int,
    other_day: int,
    mv: Option<Move>,
) -> bool {
    match mv {
        Some(m) => legal(routine, setting, m) && kind_of(m) == kind && day_of(m) == day
            && other_day_of(m) == other_day,
        None => blocked(routine, setting, kind, day) || blocked(routine, setting, kind, other_day),
    }
}

/// What drawing a move of a kind may give: a legal move of that kind, or
/// none where the kind is blocked on some day.
pub open spec fn drawn(routine: ScheduleSpec, setting: Setting, kind: MoveKind, mv: Option<Move>) -> bool {
    match mv {
        Some(m) => legal(routine, setting, m) && kind_of(m) == kind,
        None => exists|d: int| 0 <= d < routine.len() && #[trigger] blocked(routine, setting, kind, d),
    }
}

/// The schedule after what was drawn: the move made, or the schedule as it
/// was where there is none.
pub open spec fn outcome(before: ScheduleSpec, setting: Setting, mv: Option<Move>) -> ScheduleSpec {
    match mv {
        Some(m) => apply(before, setting.catalog, m),
        None => before,
    }
}

/// `after` is what a draw of some kind makes of `before`: a legal move of
/// that kind was made, or the kind is blocked on some day and nothing
/// changed.
pub open spec fn perturbed(before: ScheduleSpec, after: ScheduleSpec, setting: Setting) -> bool {
    exists|kind: MoveKind, mv: Option<Move>| #[trigger]
        drawn(before, setting, kind, mv) && after == outcome(before, setting, mv)
}

/// Whether the muscle is under a target, given the volumes.
pub fn is_under_target(
    volumes: &Volumes,
    mav_targets: &Vec<(String, MuscleGroup)>,
    config: &Config,
    muscle: &String,
) -> (under: bool)
    ensures
        under == under_target(
            volumes.volume(muscle@),
            mav_targets.deep_view(),
            config@.exempt_muscles,
            muscle@,
        ),
{
    if contains_name(&config.exempt_muscles, muscle) {
        return false;
    }
    let ghost t = mav_targets.deep_view();
    let volume = volumes.get(muscle);
    let mut k: usize = 0;
    while k < mav_targets.len()
        invariant
            k <= mav_targets.len(),
            t == mav_targets.deep_view(),
            volume == volumes.volume(muscle@),
            !config@.exempt_muscles.contains(muscle@),
            forall|j: int| 0 <= j < k ==> !((#[trigger] t[j]).0 == muscle@ && volume < t[j].1.target),
        decreases mav_targets.len() - k,
    {
        assert(t[k as int] == (mav_targets[k as int].0@, mav_targets[k as int].1));
        if mav_targets[k].0 == *muscle && volume < mav_targets[k].1.target as i128 {
            return true;
        }
        k += 1;
    }
    false
}

/// Whether one of the muscles is under a target, given the volumes.
pub fn any_under_target(
    volumes: &Volumes,
    mav_targets: &Vec<(String, MuscleGroup)>,
    config: &Config,
    muscles: &Vec<String>,
) -> (under: bool)
    ensures
        under == exists|i: int|
            0 <= i < muscles.len() && under_target(
                volumes.volume(#[trigger] muscles.deep_view()[i]),
                mav_targets.deep_view(),
                config@.exempt_muscles,
                muscles.deep_view()[i],
            ),
{
    let ghost names = muscles.deep_view();
    let mut i: usize = 0;
    while i < muscles.len()
        invariant
            i <= muscles.len(),
            names == muscles.deep_view(),
            forall|j: int|
                0 <= j < i ==> !under_target(
                    volumes.volume(#[trigger] names[j]),
                    mav_targets.deep_view(),
                    config@.exempt_muscles,
                    names[j],
                ),
        decreases muscles.len() - i,
    {
        assert(names[i as int] == muscles[i as int]@);
        if is_under_target(volumes, mav_targets, config, &muscles[i]) {
            return true;
        }
        i += 1;
    }
    false
}

/// Whether some entry of the day names `name`.
pub fn day_names(day: &Vec<RoutineEntry>, name: &String) -> (named: bool)
    ensures
        named == day_mentions(day.deep_view(), name@),
{
    let ghost v = day.deep_view();
    let mut i: usize = 0;
    while i < day.len()
        invariant
            i <= day.len(),
            v == day.deep_view(),
            forall|j: int| 0 <= j < i ==> (#[trigger] v[j]).exercise != name@,
        decreases day.len() - i,
    {
        assert(v[i as int] == day[i as int]@);
        if day[i].exercise == *name {
            return true;
        }
        i += 1;
    }
    false
}

/// The candidates for `day`, by their places in the catalog and in its
/// order.
pub fn candidates(
    routine: &Vec<Vec<RoutineEntry>>,
    day: usize,
    exercises: &Vec<Exercise>,
    mav_targets: &Vec<(String, MuscleGroup)>,
    recovery: &Vec<(String, usize)>,
    config: &Config,
    volumes: &Volumes,
    isolation_only: bool,
) -> (found: Vec<usize>)
    requires
        day < routine.len(),
        forall|m: Seq<char>| #[trigger]
            volumes.volume(m) == volume_of(routine.deep_view(), exercises.deep_view(), m),
    ensures
        places(found@) == candidate_places(
            routine.deep_view(),
            setting_of(exercises, mav_targets, recovery, config),
            day as int,
            isolation_only,
            exercises.len() as int,
        ),
        forall|j: int|
            0 <= j < found.len() ==> is_candidate(
                routine.deep_view(),
                setting_of(exercises, mav_targets, recovery, config),
                day as int,
                isolation_only,
                #[trigger] found[j] as int,
            ),
{
    let ghost r = routine.deep_view();
    let ghost setting = setting_of(exercises, mav_targets, recovery, config);
    let today = &routine[day];
    assert(r[day as int] == today.deep_view());
    let legs = count_legs(today, exercises);
    let mut found: Vec<usize> = Vec::new();
    let mut x: usize = 0;
    assert(places(found@) =~= Seq::empty());
    while x < exercises.len()
        invariant
            x <= exercises.len(),
            day < routine.len(),
            r == routine.deep_view(),
            setting == setting_of(exercises, mav_targets, recovery, config),
            today == &routine[day as int],
            r[day as int] == today.deep_view(),
            legs == crate::cost::leg_count(setting.catalog, r[day as int]),
            forall|m: Seq<char>| #[trigger] volumes.volume(m) == volume_of(r, setting.catalog, m),
            places(found@) == candidate_places(r, setting, day as int, isolation_only, x as int),
            forall|j: int|
                0 <= j < found.len() ==> is_candidate(
                    r,
                    setting,
                    day as int,
                    isolation_only,
                    #[trigger] found[j] as int,
                ),
        decreases exercises.len() - x,
    {
        let exercise = &exercises[x];
        assert(setting.catalog[x as int] == exercise@);
        let ghost before = found@;
        let fits = !day_names(today, &exercise.name) && (!exercise.is_leg || legs < MAX_LEG_EXERCISES) && (
        !isolation_only || !exercise.is_compound) && are_rested(
            routine,
            day,
            &exercise.primary,
            exercises,
            recovery,
        ) && any_under_target(volumes, mav_targets, config, &exercise.primary);
        assert(fits == is_candidate(r, setting, day as int, isolation_only, x as int));
        if fits {
            found.push(x);
            assert(places(found@) =~= places(before).push(x as int));
        }
        x += 1;
    }
    found
}

/// The exercises that the schedule leaves out, by their places in the
/// catalog and in its order; of exercises with one name the first stands for
/// all.
pub fn missing_exercises(routine: &Vec<Vec<RoutineEntry>>, exercises: &Vec<Exercise>) -> (found: Vec<
    usize,
>)
    ensures
        places(found@) == missing_places(
            routine.deep_view(),
            exercises.deep_view(),
            exercises.len() as int,
        ),
        forall|j: int|
            0 <= j < found.len() ==> is_missing(
                routine.deep_view(),
                exercises.deep_view(),
                #[trigger] found[j] as int,
            ),
{
    let ghost r = routine.deep_view();
    let ghost c = exercises.deep_view();
    let mut found: Vec<usize> = Vec::new();
    let mut x: usize = 0;
    assert(places(found@) =~= Seq::empty());
    while x < exercises.len()
        invariant
            x <= exercises.len(),
            r == routine.deep_view(),
            c == exercises.deep_view(),
            places(found@) == missing_places(r, c, x as int),
            forall|j: int| 0 <= j < found.len() ==> is_missing(r, c, #[trigger] found[j] as int),
        decreases exercises.len() - x,
    {
        let ghost before = found@;
        let name = &exercises[x].name;
        assert(c[x as int].name == name@);
        let first = !named_before(exercises, x);
        proof {
            let names = exercise_names(c);
            if first {
                assert forall|j: int| 0 <= j < x implies #[trigger] names[j] != name@ by {
                    assert(names.take(x as int)[j] == names[j]);
                }
                lemma_first_place_is(names, name@, x as int);
            } else {
                let j = choose|j: int|
                    0 <= j < names.take(x as int).len() && names.take(x as int)[j] == name@;
                assert(names[j] == name@);
                lemma_first_place(names, name@);
            }
            assert(first == (lookup(c, name@) == Some(x as int)));
        }
        if first && !is_mentioned(routine, name) {
            found.push(x);
            assert(places(found@) =~= places(before).push(x as int));
        }
        x += 1;
    }
    found
}

/// Draws a day of the schedule.
fn draw_day(routine: &Vec<Vec<RoutineEntry>>, rng: &mut StdRng) -> (day: usize)
    requires
        0 < routine.len() <= MAX_DAYS,
    ensures
        day < routine.len(),
{
    draw_range(rng, 0, routine.len() as i32) as usize
}

/// Draws a move that gives an entry of `day` a new set count.
fn reroll_on(
    routine: &Vec<Vec<RoutineEntry>>,
    config: &Config,
    day: usize,
    rng: &mut StdRng,
    Ghost(setting): Ghost<Setting>,
) -> (mv: Option<Move>)
    requires
        day < routine.len(),
        config.min_sets <= config.max_sets,
        setting.config == config@,
    ensures
        drawn_on(routine.deep_view(), setting, MoveKind::RerollSets, day as int, day as int, mv),
{
    assert(routine.deep_view()[day as int] == routine[day as int].deep_view());
    if routine[day].len() > 0 {
        let index = draw_index(rng, routine[day].len());
        let sets = draw_inclusive(rng, config.min_sets, config.max_sets);
        Some(Move::RerollSets { day, index, sets })
    } else {
        None
    }
}

/// Draws a move that takes an entry out of `day`; with `guarded`, only if
/// the day has more than the least number of entries.
fn removal_on(
    routine: &Vec<Vec<RoutineEntry>>,
    config: &Config,
    guarded: bool,
    day: usize,
    rng: &mut StdRng,
    Ghost(setting): Ghost<Setting>,
) -> (mv: Option<Move>)
    requires
        day < routine.len(),
        setting.config == config@,
    ensures
        drawn_on(
            routine.deep_view(),
            setting,
            if guarded {
                MoveKind::GuardedRemove
            } else {
                MoveKind::Remove
            },
            day as int,
            day as int,
            mv,
        ),
{
    assert(routine.deep_view()[day as int] == routine[day as int].deep_view());
    let len = routine[day].len();
    if guarded {
        if len > config.min_exercises_per_day as usize {
            let index = draw_index(rng, len);
            Some(Move::GuardedRemove { day, index })
        } else {
            None
        }
    } else {
        if len > 0 {
            let index = draw_index(rng, len);
            Some(Move::Remove { day, index })
        } else {
            None
        }
    }
}

/// Draws a move that adds to `day` an isolation exercise for a muscle under
/// its target.
fn addition_on(
    routine: &Vec<Vec<RoutineEntry>>,
    exercises: &Vec<Exercise>,
    mav_targets: &Vec<(String, MuscleGroup)>,
    recovery: &Vec<(String, usize)>,
    config: &Config,
    day: usize,
    rng: &mut StdRng,
) -> (mv: Option<Move>)
    requires
        day < routine.len() <= MAX_DAYS,
        config.min_sets <= config.max_sets,
    ensures
        drawn_on(
            routine.deep_view(),
            setting_of(exercises, mav_targets, recovery, config),
            MoveKind::AddIsolation,
            day as int,
            day as int,
            mv,
        ),
{
    assert(routine.deep_view()[day as int] == routine[day as int].deep_view());
    if routine[day].len() < config.max_exercises_per_day as usize {
        let volumes = compute_volumes(routine, exercises);
        let found = candidates(
            routine,
            day,
            exercises,
            mav_targets,
            recovery,
            config,
            &volumes,
            true,
        );
        if found.len() > 0 {
            let k = draw_index(rng, found.len());
            let sets = draw_inclusive(rng, config.min_sets, config.max_sets);
            Some(Move::AddIsolation { day, exercise: found[k], sets })
        } else {
            assert(places(found@).len() == 0);
            None
        }
    } else {
        None
    }
}

/// Draws a move that puts an exercise for a muscle under its target in the
/// place of an entry of `day`.
fn replacement_on(
    routine: &Vec<Vec<RoutineEntry>>,
    exercises: &Vec<Exercise>,
    mav_targets: &Vec<(String, MuscleGroup)>,
    recovery: &Vec<(String, usize)>,
    config: &Config,
    day: usize,
    rng: &mut StdRng,
) -> (mv: Option<Move>)
    requires
        day < routine.len() <= MAX_DAYS,
        config.min_sets <= config.max_sets,
    ensures
        drawn_on(
            routine.deep_view(),
            setting_of(exercises, mav_targets, recovery, config),
            MoveKind::Replace,
            day as int,
            day as int,
            mv,
        ),
{
    assert(routine.deep_view()[day as int] == routine[day as int].deep_view());
    if routine[day].len() > 0 {
        let index = draw_index(rng, routine[day].len());
        let volumes = compute_volumes(routine, exercises);
        let found = candidates(
            routine,
            day,
            exercises,
            mav_targets,
            recovery,
            config,
            &volumes,
            false,
        );
        if found.len() > 0 {
            let k = draw_index(rng, found.len());
            let sets = draw_inclusive(rng, config.min_sets, config.max_sets);
            Some(Move::Replace { day, index, exercise: found[k], sets })
        } else {
            assert(places(found@).len() == 0);
            None
        }
    } else {
        None
    }
}

/// Draws a move that exchanges an entry of `day` with one of `other_day`.
fn swap_on(
    routine: &Vec<Vec<RoutineEntry>>,
    day: usize,
    other_day: usize,
    rng: &mut StdRng,
    Ghost(setting): Ghost<Setting>,
) -> (mv: Option<Move>)
    requires
        day < routine.len(),
        other_day < routine.len(),
    ensures
        drawn_on(routine.deep_view(), setting, MoveKind::Swap, day as int, other_day as int, mv),
{
    assert(routine.deep_view()[day as int] == routine[day as int].deep_view());
    assert(routine.deep_view()[other_day as int] == routine[other_day as int].deep_view());
    if routine[day].len() > 0 && routine[other_day].len() > 0 {
        let index = draw_index(rng, routine[day].len());
        let other_index = draw_index(rng, routine[other_day].len());
        Some(Move::Swap { day, index, other_day, other_index })
    } else {
        None
    }
}

/// Draws the move that brings the exercise at place `exercise` into `day`:
/// the move with a drawn set count where the primary muscles of the exercise
/// are rested on that day, and none where they are not.
pub fn draw_insertion_of(
    routine: &Vec<Vec<RoutineEntry>>,
    exercises: &Vec<Exercise>,
    recovery: &Vec<(String, usize)>,
    config: &Config,
    day: usize,
    exercise: usize,
    rng: &mut StdRng,
) -> (mv: Option<Move>)
    requires
        exercise < exercises.len(),
        config.min_sets <= config.max_sets,
    ensures
        match mv {
            Some(m) => m matches Move::InsertMissing { day: d, exercise: e, sets } && d == day && e
                == exercise && config.min_sets <= sets <= config.max_sets && is_rested(
                routine.deep_view(),
                day as int,
                exercises.deep_view(),
                recovery.deep_view(),
                exercise as int,
            ),
            None => !is_rested(
                routine.deep_view(),
                day as int,
                exercises.deep_view(),
                recovery.deep_view(),
                exercise as int,
            ),
        },
{
    assert(exercises.deep_view()[exercise as int] == exercises[exercise as int]@);
    if are_rested(routine, day, &exercises[exercise].primary, exercises, recovery) {
        let sets = draw_inclusive(rng, config.min_sets, config.max_sets);
        Some(Move::InsertMissing { day, exercise, sets })
    } else {
        None
    }
}

/// Draws a move that brings into `day` an exercise that the schedule leaves
/// out.
fn insertion_on(
    routine: &Vec<Vec<RoutineEntry>>,
    exercises: &Vec<Exercise>,
    recovery: &Vec<(String, usize)>,
    config: &Config,
    day: usize,
    rng: &mut StdRng,
    Ghost(setting): Ghost<Setting>,
) -> (mv: Option<Move>)
    requires
        day < routine.len(),
        config.min_sets <= config.max_sets,
        setting.catalog == exercises.deep_view(),
        setting.recovery == recovery.deep_view(),
        setting.config == config@,
    ensures
        drawn_on(routine.deep_view(), setting, MoveKind::InsertMissing, day as int, day as int, mv),
{
    let ghost r = routine.deep_view();
    assert(r[day as int] == routine[day as int].deep_view());
    let missing = missing_exercises(routine, exercises);
    if missing.len() > 0 && routine[day].len() < config.max_exercises_per_day as usize {
        let k = draw_from_range(rng, missing.len());
        let x = missing[k];
        assert(is_missing(r, setting.catalog, x as int));
        draw_insertion_of(routine, exercises, recovery, config, day, x, rng)
    } else {
        assert(missing.len() == 0 ==> places(missing@).len() == 0);
        None
    }
}

/// Draws a move of the kind on `day`; a swap exchanges an entry of `day`
/// with one of `other_day`, which the other kinds do not look at. The result
/// is a legal move of the kind on that day, or none where the kind is blocked
/// there.
pub fn draw_move_on(
    routine: &Vec<Vec<RoutineEntry>>,
    exercises: &Vec<Exercise>,
    mav_targets: &Vec<(String, MuscleGroup)>,
    recovery: &Vec<(String, usize)>,
    config: &Config,
    kind: MoveKind,
    day: usize,
    other_day: usize,
    rng: &mut StdRng,
) -> (mv: Option<Move>)
    requires
        day < routine.len() <= MAX_DAYS,
        kind == MoveKind::Swap ==> other_day < routine.len(),
        config.min_sets <= config.max_sets,
    ensures
        drawn_on(
            routine.deep_view(),
            setting_of(exercises, mav_targets, recovery, config),
            kind,
            day as int,
            if kind == MoveKind::Swap {
                other_day as int
            } else {
                day as int
            },
            mv,
        ),
{
    let ghost setting = setting_of(exercises, mav_targets, recovery, config);
    match kind {
        MoveKind::RerollSets => reroll_on(routine, config, day, rng, Ghost(setting)),
        MoveKind::Remove => removal_on(routine, config, false, day, rng, Ghost(setting)),
        MoveKind::AddIsolation => addition_on(
            routine,
            exercises,
            mav_targets,
            recovery,
            config,
            day,
            rng,
        ),
        MoveKind::Replace => replacement_on(
            routine,
            exercises,
            mav_targets,
            recovery,
            config,
            day,
            rng,
        ),
        MoveKind::Swap => swap_on(routine, day, other_day, rng, Ghost(setting)),
        MoveKind::GuardedRemove => removal_on(routine, config, true, day, rng, Ghost(setting)),
        MoveKind::InsertMissing => insertion_on(
            routine,
            exercises,
            recovery,
            config,
            day,
            rng,
            Ghost(setting),
        ),
    }
}

/// Draws a move of the kind: first the day, for a swap a second day too,
/// then the move on it. Where the schedule leaves no exercise out, nothing is
/// drawn for the kind that brings one in.
pub fn draw_move(
    routine: &Vec<Vec<RoutineEntry>>,
    exercises: &Vec<Exercise>,
    mav_targets: &Vec<(String, MuscleGroup)>,
    recovery: &Vec<(String, usize)>,
    config: &Config,
    kind: MoveKind,
    rng: &mut StdRng,
) -> (mv: Option<Move>)
    requires
        0 < routine.len() <= MAX_DAYS,
        config.min_sets <= config.max_sets,
    ensures
        drawn(routine.deep_view(), setting_of(exercises, mav_targets, recovery, config), kind, mv),
{
    let ghost r = routine.deep_view();
    let ghost setting = setting_of(exercises, mav_targets, recovery, config);
    match kind {
        MoveKind::Swap => {
            let day = draw_day(routine, rng);
            let other_day = draw_day(routine, rng);
            let mv = draw_move_on(
                routine,
                exercises,
                mav_targets,
                recovery,
                config,
                kind,
                day,
                other_day,
                rng,
            );
            assert(mv is None ==> blocked(r, setting, kind, day as int) || blocked(
                r,
                setting,
                kind,
                other_day as int,
            ));
            mv
        },
        MoveKind::InsertMissing => {
            let missing = missing_exercises(routine, exercises);
            if missing.len() == 0 {
                assert(places(missing@).len() == 0);
                assert(blocked(r, setting, kind, 0));
                None
            } else {
                let day = draw_day(routine, rng);
                let mv = draw_move_on(
                    routine,
                    exercises,
                    mav_targets,
                    recovery,
                    config,
                    kind,
                    day,
                    day,
                    rng,
                );
                assert(mv is None ==> blocked(r, setting, kind, day as int));
                mv
            }
        },
        _ => {
            let day = draw_day(routine, rng);
            let mv = draw_move_on(
                routine,
                exercises,
                mav_targets,
                recovery,
                config,
                kind,
                day,
                day,
                rng,
            );
            assert(mv is None ==> blocked(r, setting, kind, day as int));
            mv
        },
    }
}

/// Changes the schedule by one move drawn at random: first its kind, each of
/// the seven as likely as the others, then the move. The schedule keeps its
/// days; it stays as it is where no move came of the draw.
pub fn perturb_routine(
    routine: &mut Vec<Vec<RoutineEntry>>,
    exercises: &Vec<Exercise>,
    mav_targets: &Vec<(String, MuscleGroup)>,
    recovery: &Vec<(String, usize)>,
    config: &Config,
    rng: &mut StdRng,
)
    requires
        0 < old(routine).len() <= MAX_DAYS,
        config.min_sets <= config.max_sets,
    ensures
        final(routine).len() == old(routine).len(),
        perturbed(
            old(routine).deep_view(),
            final(routine).deep_view(),
            setting_of(exercises, mav_targets, recovery, config),
        ),
{
    let ghost before = routine.deep_view();
    let ghost setting = setting_of(exercises, mav_targets, recovery, config);
    let kind = kind_from_index(draw_range(rng, 0, MOVE_KINDS));
    let mv = draw_move(routine, exercises, mav_targets, recovery, config, kind, rng);
    match mv {
        Some(m) => {
            proof {
                crate::moves::lemma_legal_in_range(before, setting, m);
            }
            apply_move(routine, exercises, &m);
            assert(routine.deep_view().len() == before.len());
        },
        None => {},
    }
    assert(drawn(before, setting, kind, mv) && routine.deep_view() == outcome(before, setting, mv));
}

} // verus!
