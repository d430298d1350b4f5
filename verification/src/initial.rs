//! The starting schedule: one greedy pass over the days.
//!
//! Each day takes the first compound exercise that no earlier day names and
//! that it can take, then every critical isolation exercise that it can take,
//! then isolation exercises in the catalog's order until it has as many
//! entries as a target count asks. An exercise can be taken if its primary
//! muscles are rested and, for a leg exercise, if the day has fewer than two
//! of them. Only the set counts and the target count are drawn at random.

use vstd::prelude::*;
use rand::rngs::StdRng;
use crate::catalog::contains_name;
use crate::random::draw_inclusive;
use crate::recovery::{is_muscle_recently_used, recently_used};
use crate::structs::{Config, EntrySpec, Exercise, ExerciseSpec, RoutineEntry, ScheduleSpec,
    MAX_LEG_EXERCISES};

verus! {

/// The least target count: the fewest entries at which a day stops filling.
pub const MIN_FILL_TARGET: i32 = 3;

/// The greatest target count: the most entries at which a day stops filling.
pub const MAX_FILL_TARGET: i32 = 5;

/// None of `muscles` was recently used before `day`.
pub open spec fn all_rested(
    routine: ScheduleSpec,
    day: int,
    muscles: Seq<Seq<char>>,
    catalog: Seq<ExerciseSpec>,
    recovery: Seq<(Seq<char>, usize)>,
) -> bool {
    forall|i: int|
        0 <= i < muscles.len() ==> !recently_used(routine, day, #[trigger] muscles[i], catalog, recovery)
}

/// Some entry of a day before `day` names `name`.
pub open spec fn mentions_before(routine: ScheduleSpec, day: int, name: Seq<char>) -> bool {
    exists|d: int, i: int|
        0 <= d < day && d < routine.len() && 0 <= i < routine[d].len() && (
        #[trigger] routine[d][i]).exercise == name
}

/// Days `0` to `day - 1` are the same in both schedules.
pub open spec fn same_before(a: ScheduleSpec, b: ScheduleSpec, day: int) -> bool {
    day <= a.len() && day <= b.len() && forall|d: int| 0 <= d < day ==> #[trigger] a[d] == b[d]
}

/// Whether a muscle was recently used before `day` depends on the days
/// before `day` alone.
pub proof fn lemma_recently_used_before(
    a: ScheduleSpec,
    b: ScheduleSpec,
    day: int,
    muscle: Seq<char>,
    catalog: Seq<ExerciseSpec>,
    recovery: Seq<(Seq<char>, usize)>,
)
    requires
        same_before(a, b, day),
    ensures
        recently_used(a, day, muscle, catalog, recovery) == recently_used(
            b,
            day,
            muscle,
            catalog,
            recovery,
        ),
{
    let w = crate::recovery::recovery_window(recovery, muscle);
    if recently_used(a, day, muscle, catalog, recovery) {
        let (d, i) = choose|d: int, i: int|
            day - w <= d < day && 0 <= d < a.len() && 0 <= i < a[d].len()
                && #[trigger] crate::recovery::entry_trains(catalog, a[d][i], muscle);
        assert(a[d] == b[d]);
        assert(crate::recovery::entry_trains(catalog, b[d][i], muscle));
    }
    if recently_used(b, day, muscle, catalog, recovery) {
        let (d, i) = choose|d: int, i: int|
            day - w <= d < day && 0 <= d < b.len() && 0 <= i < b[d].len()
                && #[trigger] crate::recovery::entry_trains(catalog, b[d][i], muscle);
        assert(a[d] == b[d]);
        assert(crate::recovery::entry_trains(catalog, a[d][i], muscle));
    }
}

/// Whether muscles are rested before `day` depends on the days before `day`
/// alone.
pub proof fn lemma_all_rested_before(
    a: ScheduleSpec,
    b: ScheduleSpec,
    day: int,
    muscles: Seq<Seq<char>>,
    catalog: Seq<ExerciseSpec>,
    recovery: Seq<(Seq<char>, usize)>,
)
    requires
        same_before(a, b, day),
    ensures
        all_rested(a, day, muscles, catalog, recovery) == all_rested(
            b,
            day,
            muscles,
            catalog,
            recovery,
        ),
{
    assert forall|i: int| 0 <= i < muscles.len() implies recently_used(
        a,
        day,
        #[trigger] muscles[i],
        catalog,
        recovery,
    ) == recently_used(b, day, muscles[i], catalog, recovery) by {
        lemma_recently_used_before(a, b, day, muscles[i], catalog, recovery);
    }
}

/// Whether a day before `day` names an exercise depends on the days before
/// `day` alone.
pub proof fn lemma_mentions_before(a: ScheduleSpec, b: ScheduleSpec, day: int, name: Seq<char>)
    requires
        same_before(a, b, day),
    ensures
        mentions_before(a, day, name) == mentions_before(b, day, name),
{
    if mentions_before(a, day, name) {
        let (d, i) = choose|d: int, i: int|
            0 <= d < day && d < a.len() && 0 <= i < a[d].len() && (#[trigger] a[d][i]).exercise
                == name;
        assert(a[d] == b[d]);
        assert(b[d][i].exercise == name);
    }
    if mentions_before(b, day, name) {
        let (d, i) = choose|d: int, i: int|
            0 <= d < day && d < b.len() && 0 <= i < b[d].len() && (#[trigger] b[d][i]).exercise
                == name;
        assert(a[d] == b[d]);
        assert(a[d][i].exercise == name);
    }
}

/// Whether some entry of a day before `current_day` names `name`.
pub fn is_mentioned_before(routine: &Vec<Vec<RoutineEntry>>, current_day: usize, name: &String) -> (named:
    bool)
    ensures
        named == mentions_before(routine.deep_view(), current_day as int, name@),
{
    let ghost r = routine.deep_view();
    let end: usize = if current_day < routine.len() {
        current_day
    } else {
        routine.len()
    };
    let mut d: usize = 0;
    while d < end
        invariant
            d <= end <= routine.len(),
            end <= current_day,
            end == current_day || end == routine.len(),
            r == routine.deep_view(),
            forall|e: int, i: int|
                0 <= e < d && 0 <= i < r[e].len() ==> (#[trigger] r[e][i]).exercise != name@,
        decreases end - d,
    {
        let day = &routine[d];
        let mut i: usize = 0;
        while i < day.len()
            invariant
                d < end <= routine.len(),
                end <= current_day,
                r == routine.deep_view(),
                day == &routine[d as int],
                i <= day.len(),
                forall|e: int, j: int|
                    0 <= e < d && 0 <= j < r[e].len() ==> (#[trigger] r[e][j]).exercise != name@,
                forall|j: int| 0 <= j < i ==> (#[trigger] r[d as int][j]).exercise != name@,
            decreases day.len() - i,
        {
            assert(r[d as int][i as int] == day[i as int]@);
            if day[i].exercise == *name {
                return true;
            }
            i += 1;
        }
        assert(r[d as int].len() == day.len());
        d += 1;
    }
    false
}

/// Whether none of `muscles` was recently used before `current_day`.
pub fn are_rested(
    routine: &Vec<Vec<RoutineEntry>>,
    current_day: usize,
    muscles: &Vec<String>,
    exercises: &Vec<Exercise>,
    recovery: &Vec<(String, usize)>,
) -> (rested: bool)
    ensures
        rested == all_rested(
            routine.deep_view(),
            current_day as int,
            muscles.deep_view(),
            exercises.deep_view(),
            recovery.deep_view(),
        ),
{
    let ghost names = muscles.deep_view();
    let mut i: usize = 0;
    while i < muscles.len()
        invariant
            i <= muscles.len(),
            names == muscles.deep_view(),
            forall|j: int|
                0 <= j < i ==> !recently_used(
                    routine.deep_view(),
                    current_day as int,
                    #[trigger] names[j],
                    exercises.deep_view(),
                    recovery.deep_view(),
                ),
        decreases muscles.len() - i,
    {
        assert(names[i as int] == muscles[i as int]@);
        if is_muscle_recently_used(routine, current_day, &muscles[i], exercises, recovery) {
            return false;
        }
        i += 1;
    }
    true
}

/// What a day has settled so far: the names it has considered, without
/// repetition, the number of its leg exercises, and the places in the catalog
/// of the exercises it has taken, in order.
pub struct DayPlanSpec {
    pub used: Seq<Seq<char>>,
    pub legs: int,
    pub picked: Seq<int>,
}

/// `longer` starts with `shorter`.
pub open spec fn extends(shorter: Seq<int>, longer: Seq<int>) -> bool {
    shorter.len() <= longer.len() && forall|i: int| 0 <= i < shorter.len() ==> shorter[i] == longer[i]
}

/// The plan of a day that has considered nothing yet.
pub open spec fn empty_plan() -> DayPlanSpec {
    DayPlanSpec { used: Seq::empty(), legs: 0, picked: Seq::empty() }
}

/// The plan after the day has considered the exercise at place `x`: a name
/// considered before changes nothing; a new name is noted, and the exercise
/// is taken if the leg limit allows it and `rested` holds.
pub open spec fn consider(plan: DayPlanSpec, catalog: Seq<ExerciseSpec>, x: int, rested: bool) -> DayPlanSpec {
    let exercise = catalog[x];
    if plan.used.contains(exercise.name) {
        plan
    } else if (!exercise.is_leg || plan.legs < MAX_LEG_EXERCISES) && rested {
        DayPlanSpec {
            used: plan.used.push(exercise.name),
            legs: if exercise.is_leg {
                plan.legs + 1
            } else {
                plan.legs
            },
            picked: plan.picked.push(x),
        }
    } else {
        DayPlanSpec { used: plan.used.push(exercise.name), legs: plan.legs, picked: plan.picked }
    }
}

/// The exercise at place `x` has rested primary muscles on `day`.
pub open spec fn is_rested(
    routine: ScheduleSpec,
    day: int,
    catalog: Seq<ExerciseSpec>,
    recovery: Seq<(Seq<char>, usize)>,
    x: int,
) -> bool {
    all_rested(routine, day, catalog[x].primary, catalog, recovery)
}

/// The compound step from place `from` on: the compound exercises that no
/// day before `day` names are considered in the catalog's order, up to the
/// first that is taken.
pub open spec fn compound_step(
    routine: ScheduleSpec,
    day: int,
    catalog: Seq<ExerciseSpec>,
    recovery: Seq<(Seq<char>, usize)>,
    plan: DayPlanSpec,
    from: int,
) -> DayPlanSpec
    decreases catalog.len() - from,
{
    if from < 0 || from >= catalog.len() {
        plan
    } else if !catalog[from].is_compound || mentions_before(routine, day, catalog[from].name) {
        compound_step(routine, day, catalog, recovery, plan, from + 1)
    } else {
        let next = consider(plan, catalog, from, is_rested(routine, day, catalog, recovery, from));
        if next.picked.len() > plan.picked.len() {
            next
        } else {
            compound_step(routine, day, catalog, recovery, next, from + 1)
        }
    }
}

/// The critical step from place `from` on: every critical isolation exercise
/// is considered, in the catalog's order.
pub open spec fn critical_step(
    routine: ScheduleSpec,
    day: int,
    catalog: Seq<ExerciseSpec>,
    recovery: Seq<(Seq<char>, usize)>,
    plan: DayPlanSpec,
    from: int,
) -> DayPlanSpec
    decreases catalog.len() - from,
{
    if from < 0 || from >= catalog.len() {
        plan
    } else if catalog[from].is_compound || !catalog[from].critical {
        critical_step(routine, day, catalog, recovery, plan, from + 1)
    } else {
        critical_step(
            routine,
            day,
            catalog,
            recovery,
            consider(plan, catalog, from, is_rested(routine, day, catalog, recovery, from)),
            from + 1,
        )
    }
}

/// The fill step from place `from` on: the isolation exercises are
/// considered in the catalog's order until the day has taken `target`
/// exercises.
pub open spec fn fill_step(
    routine: ScheduleSpec,
    day: int,
    catalog: Seq<ExerciseSpec>,
    recovery: Seq<(Seq<char>, usize)>,
    plan: DayPlanSpec,
    target: int,
    from: int,
) -> DayPlanSpec
    decreases catalog.len() - from,
{
    if from < 0 || from >= catalog.len() {
        plan
    } else if catalog[from].is_compound {
        fill_step(routine, day, catalog, recovery, plan, target, from + 1)
    } else if plan.picked.len() >= target {
        plan
    } else {
        fill_step(
            routine,
            day,
            catalog,
            recovery,
            consider(plan, catalog, from, is_rested(routine, day, catalog, recovery, from)),
            target,
            from + 1,
        )
    }
}

/// The plan of `day` before its target count is known: the compound step,
/// then the critical step.
pub open spec fn opening_plan(
    routine: ScheduleSpec,
    day: int,
    catalog: Seq<ExerciseSpec>,
    recovery: Seq<(Seq<char>, usize)>,
) -> DayPlanSpec {
    critical_step(
        routine,
        day,
        catalog,
        recovery,
        compound_step(routine, day, catalog, recovery, empty_plan(), 0),
        0,
    )
}

/// The plan of `day` for a target count: the opening, then the fill step.
pub open spec fn final_plan(
    routine: ScheduleSpec,
    day: int,
    catalog: Seq<ExerciseSpec>,
    recovery: Seq<(Seq<char>, usize)>,
    target: int,
) -> DayPlanSpec {
    fill_step(routine, day, catalog, recovery, opening_plan(routine, day, catalog, recovery), target, 0)
}

/// The places in the catalog of the exercises that `day` takes, in order,
/// for a target count.
pub open spec fn day_plan(
    routine: ScheduleSpec,
    day: int,
    catalog: Seq<ExerciseSpec>,
    recovery: Seq<(Seq<char>, usize)>,
    target: int,
) -> Seq<int> {
    final_plan(routine, day, catalog, recovery, target).picked
}

/// The entries name, in order, the exercises at the places `picked`, and
/// their set counts lie between `min_sets` and `max_sets`.
pub open spec fn entries_follow(
    entries: Seq<EntrySpec>,
    picked: Seq<int>,
    catalog: Seq<ExerciseSpec>,
    min_sets: int,
    max_sets: int,
) -> bool {
    &&& entries.len() == picked.len()
    &&& forall|i: int|
        0 <= i < entries.len() ==> (#[trigger] entries[i]).exercise == catalog[picked[i]].name
            && min_sets <= entries[i].sets <= max_sets
}

/// Day `day` of the schedule is the greedy day for some target count from 3
/// to 5, given the days before it: its entries name the exercises of the
/// day's plan, in order, with set counts that the bounds allow.
pub open spec fn day_is_greedy(
    routine: ScheduleSpec,
    day: int,
    catalog: Seq<ExerciseSpec>,
    recovery: Seq<(Seq<char>, usize)>,
    min_sets: int,
    max_sets: int,
) -> bool {
    exists|target: int|
        MIN_FILL_TARGET <= target <= MAX_FILL_TARGET && entries_follow(
            routine[day],
            #[trigger] day_plan(routine, day, catalog, recovery, target),
            catalog,
            min_sets,
            max_sets,
        )
}

/// The places that a list of indices holds, as integers.
pub open spec fn places(picked: Seq<usize>) -> Seq<int> {
    Seq::new(picked.len(), |i: int| picked[i] as int)
}

/// The plan of a day while it is built.
pub struct DayPlan {
    pub used: Vec<String>,
    pub legs: usize,
    pub picked: Vec<usize>,
}

impl View for DayPlan {
    type V = DayPlanSpec;

    open spec fn view(&self) -> DayPlanSpec {
        DayPlanSpec {
            used: self.used.deep_view(),
            legs: self.legs as int,
            picked: places(self.picked@),
        }
    }
}

impl DayPlan {
    /// Every place taken is a place of a catalog of `len` exercises, and the
    /// leg count is no more than the number of places taken.
    pub open spec fn fits(&self, len: int) -> bool {
        &&& self.legs <= self.picked.len()
        &&& forall|i: int| 0 <= i < self.picked.len() ==> #[trigger] self.picked[i] < len
    }

    /// The plan of a day that has considered nothing yet.
    pub fn new() -> (plan: DayPlan)
        ensures
            plan@ == empty_plan(),
            plan.fits(0),
    {
        let plan = DayPlan { used: Vec::new(), legs: 0, picked: Vec::new() };
        assert(plan@.used =~= Seq::empty());
        assert(plan@.picked =~= Seq::empty());
        plan
    }

    /// Considers the exercise at place `x` for `current_day`.
    pub fn consider(
        &mut self,
        routine: &Vec<Vec<RoutineEntry>>,
        current_day: usize,
        exercises: &Vec<Exercise>,
        recovery: &Vec<(String, usize)>,
        x: usize,
    )
        requires
            x < exercises.len(),
            old(self).fits(exercises.len() as int),
        ensures
            final(self)@ == consider(
                old(self)@,
                exercises.deep_view(),
                x as int,
                is_rested(
                    routine.deep_view(),
                    current_day as int,
                    exercises.deep_view(),
                    recovery.deep_view(),
                    x as int,
                ),
            ),
            final(self).fits(exercises.len() as int),
    {
        let ghost before = self@;
        let exercise = &exercises[x];
        assert(exercises.deep_view()[x as int] == exercise@);
        if contains_name(&self.used, &exercise.name) {
            return ;
        }
        self.used.push(exercise.name.clone());
        assert(self@.used =~= before.used.push(exercise@.name));
        if (!exercise.is_leg || self.legs < MAX_LEG_EXERCISES) && are_rested(
            routine,
            current_day,
            &exercise.primary,
            exercises,
            recovery,
        ) {
            self.picked.push(x);
            if exercise.is_leg {
                self.legs += 1;
            }
            assert(self@.picked =~= before.picked.push(x as int));
        } else {
            assert(self@.picked =~= before.picked);
        }
    }
}

/// Runs the compound step and the critical step of `current_day`.
pub fn plan_opening(
    routine: &Vec<Vec<RoutineEntry>>,
    current_day: usize,
    exercises: &Vec<Exercise>,
    recovery: &Vec<(String, usize)>,
) -> (plan: DayPlan)
    ensures
        plan@ == opening_plan(
            routine.deep_view(),
            current_day as int,
            exercises.deep_view(),
            recovery.deep_view(),
        ),
        plan.fits(exercises.len() as int),
{
    let ghost r = routine.deep_view();
    let ghost c = exercises.deep_view();
    let ghost rec = recovery.deep_view();
    let ghost day = current_day as int;
    let mut plan = DayPlan::new();
    let mut x: usize = 0;
    let mut taken = false;
    while x < exercises.len() && !taken
        invariant
            x <= exercises.len(),
            r == routine.deep_view(),
            c == exercises.deep_view(),
            rec == recovery.deep_view(),
            day == current_day as int,
            plan.fits(exercises.len() as int),
            !taken ==> compound_step(r, day, c, rec, empty_plan(), 0) == compound_step(
                r,
                day,
                c,
                rec,
                plan@,
                x as int,
            ),
            taken ==> compound_step(r, day, c, rec, empty_plan(), 0) == plan@,
        decreases (exercises.len() - x) + (if taken { 0int } else { 1int }),
    {
        assert(c[x as int] == exercises[x as int]@);
        if exercises[x].is_compound && !is_mentioned_before(
            routine,
            current_day,
            &exercises[x].name,
        ) {
            let count = plan.picked.len();
            plan.consider(routine, current_day, exercises, recovery, x);
            if plan.picked.len() > count {
                taken = true;
            }
        }
        if !taken {
            x += 1;
        }
    }
    let ghost opened = plan@;
    let mut y: usize = 0;
    while y < exercises.len()
        invariant
            y <= exercises.len(),
            r == routine.deep_view(),
            c == exercises.deep_view(),
            rec == recovery.deep_view(),
            day == current_day as int,
            plan.fits(exercises.len() as int),
            critical_step(r, day, c, rec, opened, 0) == critical_step(r, day, c, rec, plan@, y as int),
        decreases exercises.len() - y,
    {
        assert(c[y as int] == exercises[y as int]@);
        if !exercises[y].is_compound && exercises[y].critical {
            plan.consider(routine, current_day, exercises, recovery, y);
        }
        y += 1;
    }
    plan
}

/// Runs the fill step of `current_day` for a target count.
pub fn plan_fill(
    plan: &mut DayPlan,
    routine: &Vec<Vec<RoutineEntry>>,
    current_day: usize,
    exercises: &Vec<Exercise>,
    recovery: &Vec<(String, usize)>,
    target: usize,
)
    requires
        old(plan).fits(exercises.len() as int),
    ensures
        final(plan)@ == fill_step(
            routine.deep_view(),
            current_day as int,
            exercises.deep_view(),
            recovery.deep_view(),
            old(plan)@,
            target as int,
            0,
        ),
        final(plan).fits(exercises.len() as int),
        extends(old(plan)@.picked, final(plan)@.picked),
{
    let ghost r = routine.deep_view();
    let ghost c = exercises.deep_view();
    let ghost rec = recovery.deep_view();
    let ghost day = current_day as int;
    let ghost start = plan@;
    let mut x: usize = 0;
    let mut full = false;
    while x < exercises.len() && !full
        invariant
            x <= exercises.len(),
            r == routine.deep_view(),
            c == exercises.deep_view(),
            rec == recovery.deep_view(),
            day == current_day as int,
            plan.fits(exercises.len() as int),
            !full ==> fill_step(r, day, c, rec, start, target as int, 0) == fill_step(
                r,
                day,
                c,
                rec,
                plan@,
                target as int,
                x as int,
            ),
            full ==> fill_step(r, day, c, rec, start, target as int, 0) == plan@,
            extends(start.picked, plan@.picked),
        decreases (exercises.len() - x) + (if full { 0int } else { 1int }),
    {
        assert(c[x as int] == exercises[x as int]@);
        if !exercises[x].is_compound {
            if plan.picked.len() >= target {
                full = true;
            } else {
                plan.consider(routine, current_day, exercises, recovery, x);
            }
        }
        if !full {
            x += 1;
        }
    }
}

/// The compound step depends on the days before `day` alone.
proof fn lemma_compound_step_before(
    a: ScheduleSpec,
    b: ScheduleSpec,
    day: int,
    catalog: Seq<ExerciseSpec>,
    recovery: Seq<(Seq<char>, usize)>,
    plan: DayPlanSpec,
    from: int,
)
    requires
        same_before(a, b, day),
    ensures
        compound_step(a, day, catalog, recovery, plan, from) == compound_step(
            b,
            day,
            catalog,
            recovery,
            plan,
            from,
        ),
    decreases catalog.len() - from,
{
    if 0 <= from < catalog.len() {
        lemma_all_rested_before(a, b, day, catalog[from].primary, catalog, recovery);
        lemma_mentions_before(a, b, day, catalog[from].name);
        if !catalog[from].is_compound || mentions_before(a, day, catalog[from].name) {
            lemma_compound_step_before(a, b, day, catalog, recovery, plan, from + 1);
        } else {
            let next = consider(plan, catalog, from, is_rested(a, day, catalog, recovery, from));
            lemma_compound_step_before(a, b, day, catalog, recovery, next, from + 1);
        }
    }
}

/// The critical step depends on the days before `day` alone.
proof fn lemma_critical_step_before(
    a: ScheduleSpec,
    b: ScheduleSpec,
    day: int,
    catalog: Seq<ExerciseSpec>,
    recovery: Seq<(Seq<char>, usize)>,
    plan: DayPlanSpec,
    from: int,
)
    requires
        same_before(a, b, day),
    ensures
        critical_step(a, day, catalog, recovery, plan, from) == critical_step(
            b,
            day,
            catalog,
            recovery,
            plan,
            from,
        ),
    decreases catalog.len() - from,
{
    if 0 <= from < catalog.len() {
        lemma_all_rested_before(a, b, day, catalog[from].primary, catalog, recovery);
        if catalog[from].is_compound || !catalog[from].critical {
            lemma_critical_step_before(a, b, day, catalog, recovery, plan, from + 1);
        } else {
            let next = consider(plan, catalog, from, is_rested(a, day, catalog, recovery, from));
            lemma_critical_step_before(a, b, day, catalog, recovery, next, from + 1);
        }
    }
}

/// The fill step depends on the days before `day` alone.
proof fn lemma_fill_step_before(
    a: ScheduleSpec,
    b: ScheduleSpec,
    day: int,
    catalog: Seq<ExerciseSpec>,
    recovery: Seq<(Seq<char>, usize)>,
    plan: DayPlanSpec,
    target: int,
    from: int,
)
    requires
        same_before(a, b, day),
    ensures
        fill_step(a, day, catalog, recovery, plan, target, from) == fill_step(
            b,
            day,
            catalog,
            recovery,
            plan,
            target,
            from,
        ),
    decreases catalog.len() - from,
{
    if 0 <= from < catalog.len() {
        lemma_all_rested_before(a, b, day, catalog[from].primary, catalog, recovery);
        if catalog[from].is_compound {
            lemma_fill_step_before(a, b, day, catalog, recovery, plan, target, from + 1);
        } else if plan.picked.len() < target {
            let next = consider(plan, catalog, from, is_rested(a, day, catalog, recovery, from));
            lemma_fill_step_before(a, b, day, catalog, recovery, next, target, from + 1);
        }
    }
}

/// The plan of a day depends on the days before it alone.
pub proof fn lemma_day_plan_before(
    a: ScheduleSpec,
    b: ScheduleSpec,
    day: int,
    catalog: Seq<ExerciseSpec>,
    recovery: Seq<(Seq<char>, usize)>,
    target: int,
)
    requires
        same_before(a, b, day),
    ensures
        day_plan(a, day, catalog, recovery, target) == day_plan(b, day, catalog, recovery, target),
{
    let opened = compound_step(a, day, catalog, recovery, empty_plan(), 0);
    lemma_compound_step_before(a, b, day, catalog, recovery, empty_plan(), 0);
    lemma_critical_step_before(a, b, day, catalog, recovery, opened, 0);
    lemma_fill_step_before(
        a,
        b,
        day,
        catalog,
        recovery,
        opening_plan(a, day, catalog, recovery),
        target,
        0,
    );
}

/// Gives each place of `picked` that has no entry yet an entry with a drawn
/// set count.
fn append_entries(
    entries: &mut Vec<RoutineEntry>,
    picked: &Vec<usize>,
    exercises: &Vec<Exercise>,
    config: &Config,
    rng: &mut StdRng,
)
    requires
        config.min_sets <= config.max_sets,
        old(entries).len() <= picked.len(),
        forall|i: int| 0 <= i < picked.len() ==> #[trigger] picked[i] < exercises.len(),
        entries_follow(
            old(entries).deep_view(),
            places(picked@).take(old(entries).len() as int),
            exercises.deep_view(),
            config.min_sets as int,
            config.max_sets as int,
        ),
    ensures
        entries_follow(
            final(entries).deep_view(),
            places(picked@),
            exercises.deep_view(),
            config.min_sets as int,
            config.max_sets as int,
        ),
{
    let ghost c = exercises.deep_view();
    let ghost p = places(picked@);
    let mut i: usize = entries.len();
    while i < picked.len()
        invariant
            config.min_sets <= config.max_sets,
            i == entries.len(),
            i <= picked.len(),
            c == exercises.deep_view(),
            p == places(picked@),
            forall|j: int| 0 <= j < picked.len() ==> #[trigger] picked[j] < exercises.len(),
            entries_follow(
                entries.deep_view(),
                p.take(i as int),
                c,
                config.min_sets as int,
                config.max_sets as int,
            ),
        decreases picked.len() - i,
    {
        let ghost before = entries.deep_view();
        let x = picked[i];
        let sets = draw_inclusive(rng, config.min_sets, config.max_sets);
        let entry = RoutineEntry { exercise: exercises[x].name.clone(), sets };
        assert(c[x as int] == exercises[x as int]@);
        entries.push(entry);
        i += 1;
        assert(entries.deep_view() =~= before.push(entry@));
        assert forall|j: int| 0 <= j < entries.deep_view().len() implies (#[trigger] entries.deep_view()[j]).exercise
            == c[p.take(i as int)[j]].name && config.min_sets <= entries.deep_view()[j].sets
            <= config.max_sets by {
            if j < i - 1 {
                assert(before[j].exercise == c[p.take(i as int - 1)[j]].name);
            }
        }
    }
    assert(p.take(picked.len() as int) =~= p);
}

/// Builds the starting schedule of `config.total_days` days: each day is the
/// greedy day for a target count drawn from 3 to 5, with set counts drawn
/// from `config.min_sets` to `config.max_sets`.
pub fn initialize_routine(
    exercises: &Vec<Exercise>,
    recovery: &Vec<(String, usize)>,
    config: &Config,
    rng: &mut StdRng,
) -> (routine: Vec<Vec<RoutineEntry>>)
    requires
        config.min_sets <= config.max_sets,
    ensures
        routine.len() == config.total_days,
        forall|day: int|
            0 <= day < routine.len() ==> day_is_greedy(
                routine.deep_view(),
                day,
                exercises.deep_view(),
                recovery.deep_view(),
                config.min_sets as int,
                config.max_sets as int,
            ),
{
    let ghost c = exercises.deep_view();
    let ghost rec = recovery.deep_view();
    let mut routine: Vec<Vec<RoutineEntry>> = Vec::new();
    let mut day: usize = 0;
    while day < config.total_days
        invariant
            config.min_sets <= config.max_sets,
            day <= config.total_days,
            routine.len() == day,
            c == exercises.deep_view(),
            rec == recovery.deep_view(),
            forall|d: int|
                0 <= d < day ==> day_is_greedy(
                    routine.deep_view(),
                    d,
                    c,
                    rec,
                    config.min_sets as int,
                    config.max_sets as int,
                ),
        decreases config.total_days - day,
    {
        let ghost before = routine.deep_view();
        let mut plan = plan_opening(&routine, day, exercises, recovery);
        let mut entries: Vec<RoutineEntry> = Vec::new();
        assert(entries.deep_view() =~= Seq::empty());
        append_entries(&mut entries, &plan.picked, exercises, config, rng);
        let ghost opened = plan@.picked;
        let target = draw_inclusive(rng, MIN_FILL_TARGET, MAX_FILL_TARGET);
        plan_fill(&mut plan, &routine, day, exercises, recovery, target as usize);
        assert(places(plan.picked@).take(entries.len() as int) =~= opened);
        append_entries(&mut entries, &plan.picked, exercises, config, rng);
        let ghost today = entries.deep_view();
        routine.push(entries);
        proof {
            let after = routine.deep_view();
            assert(after =~= before.push(today));
            assert forall|d: int| 0 <= d <= day implies day_is_greedy(
                after,
                d,
                c,
                rec,
                config.min_sets as int,
                config.max_sets as int,
            ) by {
                assert(same_before(before, after, d));
                if d < day {
                    assert(day_is_greedy(
                        before,
                        d,
                        c,
                        rec,
                        config.min_sets as int,
                        config.max_sets as int,
                    ));
                    let t = choose|t: int|
                        MIN_FILL_TARGET <= t <= MAX_FILL_TARGET && entries_follow(
                            before[d],
                            #[trigger] day_plan(before, d, c, rec, t),
                            c,
                            config.min_sets as int,
                            config.max_sets as int,
                        );
                    lemma_day_plan_before(before, after, d, c, rec, t);
                    assert(after[d] == before[d]);
                    assert(entries_follow(
                        after[d],
                        day_plan(after, d, c, rec, t),
                        c,
                        config.min_sets as int,
                        config.max_sets as int,
                    ));
                } else {
                    lemma_day_plan_before(before, after, d, c, rec, target as int);
                    assert(entries_follow(
                        after[d],
                        day_plan(after, d, c, rec, target as int),
                        c,
                        config.min_sets as int,
                        config.max_sets as int,
                    ));
                }
            }
        }
        day += 1;
    }
    routine
}

} // verus!
