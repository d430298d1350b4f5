//! What holds of the plan of every day of a starting schedule.

use vstd::prelude::*;
use crate::initial::{compound_step, consider, critical_step, day_is_greedy, day_plan, empty_plan,
    entries_follow, extends, fill_step, final_plan, is_rested, mentions_before, opening_plan,
    DayPlanSpec, MAX_FILL_TARGET, MIN_FILL_TARGET};
use crate::structs::{ExerciseSpec, ScheduleSpec, MAX_LEG_EXERCISES};
use crate::volume::lemma_contains_push;

verus! {

/// No two exercises of the catalog have one name.
pub open spec fn names_unique(catalog: Seq<ExerciseSpec>) -> bool {
    forall|i: int, j: int|
        0 <= i < j < catalog.len() ==> (#[trigger] catalog[i]).name != (#[trigger] catalog[j]).name
}

/// The number of leg exercises among the places taken.
pub open spec fn picked_legs(catalog: Seq<ExerciseSpec>, picked: Seq<int>) -> int
    decreases picked.len(),
{
    if picked.len() == 0 {
        0
    } else {
        picked_legs(catalog, picked.drop_last()) + if catalog[picked.last()].is_leg {
            1int
        } else {
            0int
        }
    }
}

/// The places taken are places of the catalog, and the leg count of the plan
/// is the number of leg exercises among them, two at most.
pub open spec fn tidy(plan: DayPlanSpec, catalog: Seq<ExerciseSpec>) -> bool {
    &&& forall|i: int| 0 <= i < plan.picked.len() ==> 0 <= #[trigger] plan.picked[i] < catalog.len()
    &&& plan.legs == picked_legs(catalog, plan.picked)
    &&& 0 <= plan.legs <= MAX_LEG_EXERCISES
}

/// Why the exercise at place `x` needs no further look: the plan has taken
/// it, or its primary muscles are not rested, or it is a leg exercise and the
/// plan has its two.
pub open spec fn accounted(
    routine: ScheduleSpec,
    day: int,
    catalog: Seq<ExerciseSpec>,
    recovery: Seq<(Seq<char>, usize)>,
    plan: DayPlanSpec,
    x: int,
) -> bool {
    plan.picked.contains(x) || !is_rested(routine, day, catalog, recovery, x) || (catalog[x].is_leg
        && plan.legs >= MAX_LEG_EXERCISES)
}

/// Every exercise whose name the plan has considered is accounted for.
pub open spec fn explained(
    routine: ScheduleSpec,
    day: int,
    catalog: Seq<ExerciseSpec>,
    recovery: Seq<(Seq<char>, usize)>,
    plan: DayPlanSpec,
) -> bool {
    forall|x: int|
        0 <= x < catalog.len() && plan.used.contains((#[trigger] catalog[x]).name) ==> accounted(
            routine,
            day,
            catalog,
            recovery,
            plan,
            x,
        )
}

/// The plan has considered no name of an exercise from place `from` on.
pub open spec fn fresh_from(used: Seq<Seq<char>>, catalog: Seq<ExerciseSpec>, from: int) -> bool {
    forall|y: int| 0 <= y < catalog.len() && from <= y ==> !used.contains((#[trigger] catalog[y]).name)
}

/// What considering one exercise does to a plan.
pub proof fn lemma_consider(
    routine: ScheduleSpec,
    day: int,
    catalog: Seq<ExerciseSpec>,
    recovery: Seq<(Seq<char>, usize)>,
    plan: DayPlanSpec,
    x: int,
)
    requires
        0 <= x < catalog.len(),
    ensures
        ({
            let rested = is_rested(routine, day, catalog, recovery, x);
            let next = consider(plan, catalog, x, rested);
            &&& extends(plan.picked, next.picked)
            &&& next.picked.len() <= plan.picked.len() + 1
            &&& next.legs >= plan.legs
            &&& next.picked.len() == plan.picked.len() + 1 ==> next.picked[plan.picked.len() as int]
                == x && rested && !plan.used.contains(catalog[x].name)
            &&& next.picked.len() == plan.picked.len() && !plan.used.contains(catalog[x].name)
                ==> !rested || (catalog[x].is_leg && plan.legs >= MAX_LEG_EXERCISES)
            &&& next.picked.len() == plan.picked.len() ==> next.legs == plan.legs
            &&& next.used.contains(catalog[x].name)
            &&& forall|n: Seq<char>| plan.used.contains(n) ==> #[trigger] next.used.contains(n)
            &&& forall|n: Seq<char>| #[trigger]
                next.used.contains(n) ==> plan.used.contains(n) || n == catalog[x].name
            &&& tidy(plan, catalog) ==> tidy(next, catalog)
            &&& names_unique(catalog) && explained(routine, day, catalog, recovery, plan)
                ==> explained(routine, day, catalog, recovery, next)
        }),
{
    let rested = is_rested(routine, day, catalog, recovery, x);
    let next = consider(plan, catalog, x, rested);
    let name = catalog[x].name;
    if !plan.used.contains(name) {
        assert forall|n: Seq<char>| next.used.contains(n) <==> (plan.used.contains(n) || n == name) by {
            lemma_contains_push(plan.used, name, n);
        }
        if next.picked.len() > plan.picked.len() {
            assert(next.picked.drop_last() =~= plan.picked);
            assert(next.picked[plan.picked.len() as int] == x);
        }
        if names_unique(catalog) && explained(routine, day, catalog, recovery, plan) {
            assert forall|y: int|
                0 <= y < catalog.len() && next.used.contains((#[trigger] catalog[y]).name) implies accounted(
                routine,
                day,
                catalog,
                recovery,
                next,
                y,
            ) by {
                if plan.used.contains(catalog[y].name) {
                    assert(accounted(routine, day, catalog, recovery, plan, y));
                    if plan.picked.contains(y) {
                        let k = choose|k: int| 0 <= k < plan.picked.len() && plan.picked[k] == y;
                        assert(next.picked[k] == y);
                    }
                } else {
                    assert(y == x);
                    if next.picked.len() > plan.picked.len() {
                        assert(next.picked[plan.picked.len() as int] == x);
                    }
                }
            }
        }
    }
}

/// What the compound step gives from a plan that has taken nothing yet: one
/// compound exercise at most, which no earlier day names and whose primary
/// muscles are rested. Where the names of the catalog are unique it is the
/// first such exercise from `from` on.
pub proof fn lemma_compound_step(
    routine: ScheduleSpec,
    day: int,
    catalog: Seq<ExerciseSpec>,
    recovery: Seq<(Seq<char>, usize)>,
    plan: DayPlanSpec,
    from: int,
)
    requires
        0 <= from,
        plan.picked.len() == 0,
        plan.legs == 0,
    ensures
        ({
            let r = compound_step(routine, day, catalog, recovery, plan, from);
            &&& r.picked.len() <= 1
            &&& forall|n: Seq<char>| plan.used.contains(n) ==> #[trigger] r.used.contains(n)
            &&& r.picked.len() == 1 ==> from <= r.picked[0] < catalog.len()
                && catalog[r.picked[0]].is_compound && !mentions_before(
                routine,
                day,
                catalog[r.picked[0]].name,
            ) && is_rested(routine, day, catalog, recovery, r.picked[0])
            &&& tidy(plan, catalog) ==> tidy(r, catalog)
            &&& names_unique(catalog) && explained(routine, day, catalog, recovery, plan)
                ==> explained(routine, day, catalog, recovery, r)
            &&& names_unique(catalog) && fresh_from(plan.used, catalog, from) ==> forall|y: int|
                from <= y < catalog.len() && (r.picked.len() == 1 ==> y < r.picked[0]) && (
                #[trigger] catalog[y]).is_compound && !mentions_before(routine, day, catalog[y].name)
                    ==> !is_rested(routine, day, catalog, recovery, y)
        }),
    decreases catalog.len() - from,
{
    if from < catalog.len() {
        if !catalog[from].is_compound || mentions_before(routine, day, catalog[from].name) {
            lemma_compound_step(routine, day, catalog, recovery, plan, from + 1);
        } else {
            let next = consider(plan, catalog, from, is_rested(routine, day, catalog, recovery, from));
            lemma_consider(routine, day, catalog, recovery, plan, from);
            if next.picked.len() > plan.picked.len() {
            } else {
                lemma_compound_step(routine, day, catalog, recovery, next, from + 1);
                if names_unique(catalog) && fresh_from(plan.used, catalog, from) {
                    assert(!plan.used.contains(catalog[from].name));
                    assert forall|y: int| 0 <= y < catalog.len() && from + 1 <= y implies !next.used.contains(
                        (#[trigger] catalog[y]).name,
                    ) by {
                        assert(!plan.used.contains(catalog[y].name));
                    }
                }
            }
        }
    }
}

/// What the critical step adds to a plan: critical isolation exercises only,
/// and it considers every one of them from `from` on.
pub proof fn lemma_critical_step(
    routine: ScheduleSpec,
    day: int,
    catalog: Seq<ExerciseSpec>,
    recovery: Seq<(Seq<char>, usize)>,
    plan: DayPlanSpec,
    from: int,
)
    requires
        0 <= from,
    ensures
        ({
            let r = critical_step(routine, day, catalog, recovery, plan, from);
            &&& extends(plan.picked, r.picked)
            &&& forall|i: int|
                plan.picked.len() <= i < r.picked.len() ==> from <= #[trigger] r.picked[i]
                    < catalog.len() && !catalog[r.picked[i]].is_compound
                    && catalog[r.picked[i]].critical
            &&& forall|n: Seq<char>| plan.used.contains(n) ==> #[trigger] r.used.contains(n)
            &&& forall|x: int|
                from <= x < catalog.len() && !(#[trigger] catalog[x]).is_compound
                    && catalog[x].critical ==> r.used.contains(catalog[x].name)
            &&& tidy(plan, catalog) ==> tidy(r, catalog)
            &&& names_unique(catalog) && explained(routine, day, catalog, recovery, plan)
                ==> explained(routine, day, catalog, recovery, r)
        }),
    decreases catalog.len() - from,
{
    if from < catalog.len() {
        if catalog[from].is_compound || !catalog[from].critical {
            lemma_critical_step(routine, day, catalog, recovery, plan, from + 1);
        } else {
            let next = consider(plan, catalog, from, is_rested(routine, day, catalog, recovery, from));
            lemma_consider(routine, day, catalog, recovery, plan, from);
            lemma_critical_step(routine, day, catalog, recovery, next, from + 1);
            let r = critical_step(routine, day, catalog, recovery, next, from + 1);
            assert(r.used.contains(catalog[from].name));
            assert forall|i: int| plan.picked.len() <= i < r.picked.len() implies from
                <= #[trigger] r.picked[i] < catalog.len() && !catalog[r.picked[i]].is_compound
                && catalog[r.picked[i]].critical by {
                if i < next.picked.len() {
                    assert(r.picked[i] == next.picked[i]);
                }
            }
        }
    }
}

/// What the fill step adds to a plan: isolation exercises only, whose names
/// the plan had not considered, and no more than the target count asks.
/// Where it ends with fewer, it has considered every isolation exercise from
/// `from` on.
pub proof fn lemma_fill_step(
    routine: ScheduleSpec,
    day: int,
    catalog: Seq<ExerciseSpec>,
    recovery: Seq<(Seq<char>, usize)>,
    plan: DayPlanSpec,
    target: int,
    from: int,
)
    requires
        0 <= from,
    ensures
        ({
            let r = fill_step(routine, day, catalog, recovery, plan, target, from);
            &&& extends(plan.picked, r.picked)
            &&& forall|i: int|
                plan.picked.len() <= i < r.picked.len() ==> from <= #[trigger] r.picked[i]
                    < catalog.len() && !catalog[r.picked[i]].is_compound && !plan.used.contains(
                    catalog[r.picked[i]].name,
                )
            &&& forall|n: Seq<char>| plan.used.contains(n) ==> #[trigger] r.used.contains(n)
            &&& r.picked.len() <= target || r.picked.len() == plan.picked.len()
            &&& r.picked.len() < target ==> forall|x: int|
                from <= x < catalog.len() && !(#[trigger] catalog[x]).is_compound ==> r.used.contains(
                    catalog[x].name,
                )
            &&& tidy(plan, catalog) ==> tidy(r, catalog)
            &&& names_unique(catalog) && explained(routine, day, catalog, recovery, plan)
                ==> explained(routine, day, catalog, recovery, r)
        }),
    decreases catalog.len() - from,
{
    if from < catalog.len() {
        if catalog[from].is_compound {
            lemma_fill_step(routine, day, catalog, recovery, plan, target, from + 1);
        } else if plan.picked.len() < target {
            let next = consider(plan, catalog, from, is_rested(routine, day, catalog, recovery, from));
            lemma_consider(routine, day, catalog, recovery, plan, from);
            lemma_fill_step(routine, day, catalog, recovery, next, target, from + 1);
            let r = fill_step(routine, day, catalog, recovery, next, target, from + 1);
            assert(r.used.contains(catalog[from].name));
            assert forall|i: int| plan.picked.len() <= i < r.picked.len() implies from
                <= #[trigger] r.picked[i] < catalog.len() && !catalog[r.picked[i]].is_compound
                && !plan.used.contains(catalog[r.picked[i]].name) by {
                if i < next.picked.len() {
                    assert(r.picked[i] == next.picked[i]);
                } else {
                    assert(!next.used.contains(catalog[r.picked[i]].name));
                }
            }
        }
    }
}

/// The shape of a day: its places are places of the catalog; a compound
/// exercise stands first, no earlier day names it and its primary muscles are
/// rested; what follows are isolation exercises, the critical ones before the
/// others; and two leg exercises at most.
pub proof fn lemma_day_plan_shape(
    routine: ScheduleSpec,
    day: int,
    catalog: Seq<ExerciseSpec>,
    recovery: Seq<(Seq<char>, usize)>,
    target: int,
)
    ensures
        ({
            let plan = day_plan(routine, day, catalog, recovery, target);
            &&& forall|i: int| 0 <= i < plan.len() ==> 0 <= #[trigger] plan[i] < catalog.len()
            &&& forall|i: int| 1 <= i < plan.len() ==> !catalog[#[trigger] plan[i]].is_compound
            &&& plan.len() > 0 && catalog[plan[0]].is_compound ==> !mentions_before(
                routine,
                day,
                catalog[plan[0]].name,
            ) && is_rested(routine, day, catalog, recovery, plan[0])
            &&& forall|i: int, j: int|
                0 <= i < j < plan.len() && !catalog[#[trigger] plan[i]].is_compound
                    && catalog[#[trigger] plan[j]].critical ==> catalog[plan[i]].critical
            &&& picked_legs(catalog, plan) <= MAX_LEG_EXERCISES
        }),
{
    let first = compound_step(routine, day, catalog, recovery, empty_plan(), 0);
    let opened = opening_plan(routine, day, catalog, recovery);
    let last = final_plan(routine, day, catalog, recovery, target);
    let plan = last.picked;
    assert(tidy(empty_plan(), catalog));
    lemma_compound_step(routine, day, catalog, recovery, empty_plan(), 0);
    lemma_critical_step(routine, day, catalog, recovery, first, 0);
    lemma_fill_step(routine, day, catalog, recovery, opened, target, 0);
    assert forall|i: int| 1 <= i < plan.len() implies !catalog[#[trigger] plan[i]].is_compound by {
        if i < opened.picked.len() {
            assert(plan[i] == opened.picked[i]);
        }
    }
    if plan.len() > 0 && catalog[plan[0]].is_compound {
        if opened.picked.len() > 0 {
            assert(plan[0] == opened.picked[0]);
            if first.picked.len() > 0 {
                assert(opened.picked[0] == first.picked[0]);
            }
        }
    }
    assert forall|i: int, j: int|
        0 <= i < j < plan.len() && !catalog[#[trigger] plan[i]].is_compound
            && catalog[#[trigger] plan[j]].critical implies catalog[plan[i]].critical by {
        if j < opened.picked.len() {
            assert(plan[i] == opened.picked[i]);
            if i < first.picked.len() {
                assert(opened.picked[i] == first.picked[i]);
            }
        } else {
            if !catalog[plan[j]].is_compound {
                assert(opened.used.contains(catalog[plan[j]].name));
            }
        }
    }
}

/// Where the names of the catalog are unique, a day opens with the first
/// compound exercise that no earlier day names and whose primary muscles are
/// rested, if there is one.
pub proof fn lemma_day_opens_with_first_compound(
    routine: ScheduleSpec,
    day: int,
    catalog: Seq<ExerciseSpec>,
    recovery: Seq<(Seq<char>, usize)>,
    target: int,
    y: int,
)
    requires
        names_unique(catalog),
        0 <= y < catalog.len(),
        catalog[y].is_compound,
        !mentions_before(routine, day, catalog[y].name),
        is_rested(routine, day, catalog, recovery, y),
    ensures
        ({
            let plan = day_plan(routine, day, catalog, recovery, target);
            plan.len() > 0 && catalog[plan[0]].is_compound && plan[0] <= y
        }),
{
    let first = compound_step(routine, day, catalog, recovery, empty_plan(), 0);
    let opened = opening_plan(routine, day, catalog, recovery);
    let last = final_plan(routine, day, catalog, recovery, target);
    assert(fresh_from(empty_plan().used, catalog, 0));
    lemma_compound_step(routine, day, catalog, recovery, empty_plan(), 0);
    lemma_critical_step(routine, day, catalog, recovery, first, 0);
    lemma_fill_step(routine, day, catalog, recovery, opened, target, 0);
    assert(catalog[y].is_compound);
    assert(first.picked.len() == 1);
    assert(opened.picked[0] == first.picked[0]);
    assert(last.picked[0] == opened.picked[0]);
}

/// Where the names of the catalog are unique, no compound exercise is on two
/// days: an exercise that a greedy day and an earlier day both name is no
/// compound exercise.
pub proof fn lemma_no_compound_twice(
    routine: ScheduleSpec,
    catalog: Seq<ExerciseSpec>,
    recovery: Seq<(Seq<char>, usize)>,
    min_sets: int,
    max_sets: int,
    earlier: int,
    i: int,
    later: int,
    j: int,
    x: int,
)
    requires
        names_unique(catalog),
        0 <= earlier < later < routine.len(),
        0 <= i < routine[earlier].len(),
        0 <= j < routine[later].len(),
        day_is_greedy(routine, later, catalog, recovery, min_sets, max_sets),
        routine[earlier][i].exercise == routine[later][j].exercise,
        0 <= x < catalog.len(),
        catalog[x].name == routine[later][j].exercise,
    ensures
        !catalog[x].is_compound,
{
    let target = choose|target: int|
        MIN_FILL_TARGET <= target <= MAX_FILL_TARGET && entries_follow(
            routine[later],
            #[trigger] day_plan(routine, later, catalog, recovery, target),
            catalog,
            min_sets,
            max_sets,
        );
    let plan = day_plan(routine, later, catalog, recovery, target);
    lemma_day_plan_shape(routine, later, catalog, recovery, target);
    assert(routine[later][j].exercise == catalog[plan[j]].name);
    assert(0 <= plan[j] < catalog.len());
    assert(plan[j] == x);
    if catalog[x].is_compound {
        assert(j == 0);
        assert(mentions_before(routine, later, routine[earlier][i].exercise));
    }
}

/// A day has as many entries as its target count asks, or those of its
/// opening if they are more. Where the names of the catalog are unique and
/// the day ends with fewer than the target count, every isolation exercise
/// that it did not take has primary muscles that are not rested, or is a leg
/// exercise while the day has its two.
pub proof fn lemma_fill_reaches_target(
    routine: ScheduleSpec,
    day: int,
    catalog: Seq<ExerciseSpec>,
    recovery: Seq<(Seq<char>, usize)>,
    target: int,
    x: int,
)
    ensures
        ({
            let opened = opening_plan(routine, day, catalog, recovery);
            let plan = day_plan(routine, day, catalog, recovery, target);
            &&& plan.len() <= target || plan.len() == opened.picked.len()
            &&& names_unique(catalog) && plan.len() < target && 0 <= x < catalog.len()
                && !catalog[x].is_compound && !plan.contains(x) ==> !is_rested(
                routine,
                day,
                catalog,
                recovery,
                x,
            ) || (catalog[x].is_leg && picked_legs(catalog, plan) == MAX_LEG_EXERCISES)
        }),
{
    let first = compound_step(routine, day, catalog, recovery, empty_plan(), 0);
    let opened = opening_plan(routine, day, catalog, recovery);
    let last = final_plan(routine, day, catalog, recovery, target);
    assert(tidy(empty_plan(), catalog));
    assert(explained(routine, day, catalog, recovery, empty_plan()));
    lemma_compound_step(routine, day, catalog, recovery, empty_plan(), 0);
    lemma_critical_step(routine, day, catalog, recovery, first, 0);
    lemma_fill_step(routine, day, catalog, recovery, opened, target, 0);
    if names_unique(catalog) && last.picked.len() < target && 0 <= x < catalog.len()
        && !catalog[x].is_compound {
        assert(last.used.contains(catalog[x].name));
        assert(accounted(routine, day, catalog, recovery, last, x));
    }
}

} // verus!
