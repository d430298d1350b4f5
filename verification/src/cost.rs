//! The cost of a schedule: lower is better, and a schedule that breaks a hard
//! rule has infinite cost.
//!
//! A finite cost is counted in sixteenths of a penalty point, so that a
//! squared volume in quarter sets needs no division.

use vstd::prelude::*;
use crate::catalog::{contains_name, exercise_names, find_exercise, lookup};
use crate::structs::{Config, ConfigSpec, EntrySpec, Exercise, ExerciseSpec, MuscleGroup,
    RoutineEntry, ScheduleSpec, MAX_DAYS, MAX_LEG_EXERCISES, MAX_TARGETS};
use crate::dormant::{dormant_penalty, lemma_caps, frequency_overage, frequency_overage_of,
    lemma_repeats_bound, lemma_time_overage_bound, off_cap, day_time_cap, time_overage,
    time_overage_of, time_spread, time_spread_of};
use crate::volume::{compute_volumes, entry_cap, lemma_sets_fit, lemma_volume_bound, sets_fit,
    volume_of};

verus! {

/// Sixteenths in one penalty point.
pub const COST_SCALE: u128 = 16;

/// What a day that has entries and does not open with a compound exercise
/// costs: 50 points.
pub const COMPOUND_FIRST_PENALTY: u128 = 800;

/// What each exercise of the catalog that the schedule leaves out costs:
/// 50000 points.
pub const INCLUSION_PENALTY: u128 = 800_000;

/// The weight of a squared deficit: 50 points per squared set, which is as
/// many sixteenths per squared quarter set.
pub const DEFICIT_WEIGHT: u128 = 50;

/// The weight of a squared excess: 25 points per squared set.
pub const EXCESS_WEIGHT: u128 = 25;

/// The cost of a schedule.
#[derive(Clone, Copy, Debug, PartialEq, Eq, Structural)]
pub enum Cost {
    /// A cost in sixteenths of a penalty point.
    Finite(u128),
    /// The cost of a schedule that breaks a hard rule.
    Infinite,
}

impl View for Cost {
    type V = Option<int>;

    open spec fn view(&self) -> Option<int> {
        match *self {
            Cost::Finite(sixteenths) => Some(sixteenths as int),
            Cost::Infinite => None,
        }
    }
}

/// `a` is a lower cost than `b`; no cost is lower than an infinite one but a
/// finite one.
pub open spec fn cost_below(a: Option<int>, b: Option<int>) -> bool {
    match (a, b) {
        (Some(x), Some(y)) => x < y,
        (Some(_), None) => true,
        (None, _) => false,
    }
}

impl Cost {
    /// Whether the cost is finite.
    pub fn is_finite(&self) -> (finite: bool)
        ensures
            finite == (self@ is Some),
    {
        match *self {
            Cost::Finite(_) => true,
            Cost::Infinite => false,
        }
    }

    /// Whether this cost is lower than `other`.
    pub fn is_below(&self, other: &Cost) -> (below: bool)
        ensures
            below == cost_below(self@, other@),
    {
        match (*self, *other) {
            (Cost::Finite(x), Cost::Finite(y)) => x < y,
            (Cost::Finite(_), Cost::Infinite) => true,
            (Cost::Infinite, _) => false,
        }
    }

    /// The cost in sixteenths of a penalty point, if it is finite.
    pub fn sixteenths(&self) -> (value: Option<u128>)
        ensures
            match value {
                Some(v) => self@ == Some(v as int),
                None => self@ is None,
            },
    {
        match *self {
            Cost::Finite(x) => Some(x),
            Cost::Infinite => None,
        }
    }
}

/// Two entries of the day name the same exercise.
pub open spec fn names_twice(day: Seq<EntrySpec>) -> bool {
    exists|i: int, j: int| 0 <= i < j < day.len() && #[trigger] day[i].exercise == #[trigger] day[j].exercise
}

/// The entry names a leg exercise of the catalog.
pub open spec fn is_leg_entry(catalog: Seq<ExerciseSpec>, entry: EntrySpec) -> bool {
    match lookup(catalog, entry.exercise) {
        Some(x) => catalog[x].is_leg,
        None => false,
    }
}

/// The number of entries of the day that name a leg exercise.
pub open spec fn leg_count(catalog: Seq<ExerciseSpec>, day: Seq<EntrySpec>) -> int
    decreases day.len(),
{
    if day.len() == 0 {
        0
    } else {
        leg_count(catalog, day.drop_last()) + if is_leg_entry(catalog, day.last()) {
            1int
        } else {
            0int
        }
    }
}

/// The day breaks a hard rule: an exercise twice, too few or too many
/// entries, or more than two leg exercises.
pub open spec fn day_breaks_rules(catalog: Seq<ExerciseSpec>, day: Seq<EntrySpec>, config: ConfigSpec) -> bool {
    ||| names_twice(day)
    ||| day.len() < config.min_exercises_per_day
    ||| day.len() > config.max_exercises_per_day
    ||| leg_count(catalog, day) > MAX_LEG_EXERCISES
}

/// Some day of the schedule breaks a hard rule.
pub open spec fn infeasible(routine: ScheduleSpec, catalog: Seq<ExerciseSpec>, config: ConfigSpec) -> bool {
    exists|d: int| 0 <= d < routine.len() && day_breaks_rules(catalog, #[trigger] routine[d], config)
}

/// The day has entries and its first one does not name a compound exercise of
/// the catalog.
pub open spec fn lacks_compound_first(catalog: Seq<ExerciseSpec>, day: Seq<EntrySpec>) -> bool {
    day.len() > 0 && match lookup(catalog, day[0].exercise) {
        Some(x) => !catalog[x].is_compound,
        None => true,
    }
}

/// The number of days that have entries and do not open with a compound
/// exercise.
pub open spec fn compound_first_misses(routine: ScheduleSpec, catalog: Seq<ExerciseSpec>) -> int
    decreases routine.len(),
{
    if routine.len() == 0 {
        0
    } else {
        compound_first_misses(routine.drop_last(), catalog) + if lacks_compound_first(
            catalog,
            routine.last(),
        ) {
            1int
        } else {
            0int
        }
    }
}

/// Some entry of the schedule names `name`.
pub open spec fn mentions(routine: ScheduleSpec, name: Seq<char>) -> bool {
    exists|d: int, i: int|
        0 <= d < routine.len() && 0 <= i < routine[d].len() && (#[trigger] routine[d][i]).exercise
            == name
}

/// The names of the catalog that no entry of the schedule mentions.
pub open spec fn missing_names(routine: ScheduleSpec, catalog: Seq<ExerciseSpec>) -> Set<Seq<char>> {
    Set::new(|name: Seq<char>| exercise_names(catalog).contains(name) && !mentions(routine, name))
}

/// What a volume costs against its target, in sixteenths: 50 points for each
/// squared set of deficit, or 25 points for each squared set above the upper
/// bound.
pub open spec fn target_penalty(volume: int, group: MuscleGroup) -> int {
    if volume < group.target {
        DEFICIT_WEIGHT * ((group.target - volume) * (group.target - volume))
    } else if volume > group.upper_bound {
        EXCESS_WEIGHT * ((volume - group.upper_bound) * (volume - group.upper_bound))
    } else {
        0
    }
}

/// What one row of targets costs: nothing for an exempt muscle.
pub open spec fn row_penalty(
    routine: ScheduleSpec,
    row: (Seq<char>, MuscleGroup),
    catalog: Seq<ExerciseSpec>,
    exempt: Seq<Seq<char>>,
) -> int {
    if exempt.contains(row.0) {
        0
    } else {
        target_penalty(volume_of(routine, catalog, row.0), row.1)
    }
}

/// What the rows of targets cost together.
pub open spec fn volume_penalty(
    routine: ScheduleSpec,
    targets: Seq<(Seq<char>, MuscleGroup)>,
    catalog: Seq<ExerciseSpec>,
    exempt: Seq<Seq<char>>,
) -> int
    decreases targets.len(),
{
    if targets.len() == 0 {
        0
    } else {
        volume_penalty(routine, targets.drop_last(), catalog, exempt) + row_penalty(
            routine,
            targets.last(),
            catalog,
            exempt,
        )
    }
}

/// What the schedule costs for the exercises of the catalog that it leaves
/// out.
pub open spec fn inclusion_penalty(routine: ScheduleSpec, catalog: Seq<ExerciseSpec>) -> int {
    INCLUSION_PENALTY * missing_names(routine, catalog).len()
}

/// The sum of the penalties of a schedule, in sixteenths.
pub open spec fn total_penalty(
    routine: ScheduleSpec,
    targets: Seq<(Seq<char>, MuscleGroup)>,
    catalog: Seq<ExerciseSpec>,
    config: ConfigSpec,
) -> int {
    COMPOUND_FIRST_PENALTY * compound_first_misses(routine, catalog) + inclusion_penalty(
        routine,
        catalog,
    )
        + volume_penalty(routine, targets, catalog, config.exempt_muscles) + dormant_penalty(
        routine,
        catalog,
        config,
    )
}

/// The sum of the penalties but the one for what the schedule leaves out.
pub open spec fn other_penalties(
    routine: ScheduleSpec,
    targets: Seq<(Seq<char>, MuscleGroup)>,
    catalog: Seq<ExerciseSpec>,
    config: ConfigSpec,
) -> int {
    total_penalty(routine, targets, catalog, config) - inclusion_penalty(routine, catalog)
}

/// The cost of a schedule: none, that is infinite, where a day breaks a hard
/// rule, else the sum of its penalties in sixteenths.
pub open spec fn cost_of(
    routine: ScheduleSpec,
    targets: Seq<(Seq<char>, MuscleGroup)>,
    catalog: Seq<ExerciseSpec>,
    config: ConfigSpec,
) -> Option<int> {
    if infeasible(routine, catalog, config) {
        None
    } else {
        Some(total_penalty(routine, targets, catalog, config))
    }
}

/// Whether two entries of the day name the same exercise.
pub fn has_duplicate(day: &Vec<RoutineEntry>) -> (twice: bool)
    ensures
        twice == names_twice(day.deep_view()),
{
    let ghost v = day.deep_view();
    let mut j: usize = 0;
    while j < day.len()
        invariant
            j <= day.len(),
            v == day.deep_view(),
            forall|a: int, b: int| 0 <= a < b < j ==> #[trigger] v[a].exercise != #[trigger] v[b].exercise,
        decreases day.len() - j,
    {
        let mut i: usize = 0;
        while i < j
            invariant
                i <= j < day.len(),
                v == day.deep_view(),
                forall|a: int| 0 <= a < i ==> (#[trigger] v[a]).exercise != v[j as int].exercise,
            decreases j - i,
        {
            if day[i].exercise == day[j].exercise {
                assert(v[i as int].exercise == v[j as int].exercise);
                return true;
            }
            i += 1;
        }
        j += 1;
    }
    false
}

/// The number of entries of the day that name a leg exercise.
pub fn count_legs(day: &Vec<RoutineEntry>, exercises: &Vec<Exercise>) -> (legs: usize)
    ensures
        legs == leg_count(exercises.deep_view(), day.deep_view()),
        legs <= day.len(),
{
    let ghost v = day.deep_view();
    let ghost c = exercises.deep_view();
    let mut legs: usize = 0;
    let mut i: usize = 0;
    while i < day.len()
        invariant
            i <= day.len(),
            v == day.deep_view(),
            c == exercises.deep_view(),
            legs <= i,
            legs == leg_count(c, v.take(i as int)),
        decreases day.len() - i,
    {
        assert(v.take(i as int + 1).drop_last() =~= v.take(i as int));
        assert(v.take(i as int + 1).last() == day[i as int]@);
        match find_exercise(exercises, &day[i].exercise) {
            Some(x) => {
                if exercises[x].is_leg {
                    legs += 1;
                }
            },
            None => {},
        }
        i += 1;
    }
    assert(v.take(day.len() as int) =~= v);
    legs
}

/// Whether the day breaks a hard rule.
pub fn breaks_rules(day: &Vec<RoutineEntry>, exercises: &Vec<Exercise>, config: &Config) -> (broken: bool)
    ensures
        broken == day_breaks_rules(exercises.deep_view(), day.deep_view(), config@),
{
    if day.len() < config.min_exercises_per_day as usize || day.len()
        > config.max_exercises_per_day as usize {
        return true;
    }
    if has_duplicate(day) {
        return true;
    }
    count_legs(day, exercises) > MAX_LEG_EXERCISES
}

/// Whether the day has entries and does not open with a compound exercise.
pub fn misses_compound_first(day: &Vec<RoutineEntry>, exercises: &Vec<Exercise>) -> (missed: bool)
    ensures
        missed == lacks_compound_first(exercises.deep_view(), day.deep_view()),
{
    if day.len() == 0 {
        return false;
    }
    assert(day.deep_view()[0] == day[0]@);
    match find_exercise(exercises, &day[0].exercise) {
        Some(x) => !exercises[x].is_compound,
        None => true,
    }
}

/// Whether some entry of the schedule names `name`.
pub fn is_mentioned(routine: &Vec<Vec<RoutineEntry>>, name: &String) -> (named: bool)
    ensures
        named == mentions(routine.deep_view(), name@),
{
    let ghost r = routine.deep_view();
    let mut d: usize = 0;
    while d < routine.len()
        invariant
            d <= routine.len(),
            r == routine.deep_view(),
            forall|e: int, i: int|
                0 <= e < d && 0 <= i < r[e].len() ==> (#[trigger] r[e][i]).exercise != name@,
        decreases routine.len() - d,
    {
        let day = &routine[d];
        let mut i: usize = 0;
        while i < day.len()
            invariant
                d < routine.len(),
                r == routine.deep_view(),
                day == &routine[d as int],
                i <= day.len(),
                forall|e: int, j: int|
                    0 <= e < d && 0 <= j < r[e].len() ==> (#[trigger] r[e][j]).exercise != name@,
                forall|j: int| 0 <= j < i ==> (#[trigger] r[d as int][j]).exercise != name@,
            decreases day.len() - i,
        {
            assert(r[d as int][i as int] == day[i as int]@);
            if day[i].exercise == *name {
                return true;
            }
            i += 1;
        }
        assert(r[d as int].len() == day.len());
        d += 1;
    }
    false
}

/// The names among the first `k` of the catalog that the schedule does not
/// mention.
pub open spec fn missing_among(routine: ScheduleSpec, catalog: Seq<ExerciseSpec>, k: int) -> Set<Seq<char>> {
    Set::new(
        |name: Seq<char>| exercise_names(catalog).take(k).contains(name) && !mentions(routine, name),
    )
}

/// How the missing names grow with one more exercise of the catalog.
pub proof fn lemma_missing_among_step(routine: ScheduleSpec, catalog: Seq<ExerciseSpec>, k: int)
    requires
        0 <= k < catalog.len(),
    ensures
        missing_among(routine, catalog, 0) =~= Set::empty(),
        missing_among(routine, catalog, k + 1) =~= if mentions(routine, catalog[k].name) {
            missing_among(routine, catalog, k)
        } else {
            missing_among(routine, catalog, k).insert(catalog[k].name)
        },
        missing_among(routine, catalog, catalog.len() as int) =~= missing_names(routine, catalog),
{
    let names = exercise_names(catalog);
    let before = names.take(k);
    let after = names.take(k + 1);
    assert(names.take(catalog.len() as int) =~= names);
    assert(after =~= before.push(catalog[k].name));
    assert forall|name: Seq<char>| after.contains(name) <==> (before.contains(name) || name
        == catalog[k].name) by {
        if before.contains(name) {
            let j = choose|j: int| 0 <= j < before.len() && before[j] == name;
            assert(after[j] == name);
        }
        if name == catalog[k].name {
            assert(after[k] == name);
        }
        if after.contains(name) {
            let j = choose|j: int| 0 <= j < after.len() && after[j] == name;
            if j < k {
                assert(before[j] == name);
            }
        }
    }
}

/// The missing names among the first `k` are finitely many, at most `k`.
pub proof fn lemma_missing_among_finite(routine: ScheduleSpec, catalog: Seq<ExerciseSpec>, k: int)
    requires
        0 <= k <= catalog.len(),
    ensures
        missing_among(routine, catalog, k).finite(),
        missing_among(routine, catalog, k).len() <= k,
    decreases k,
{
    if k == 0 {
        assert(missing_among(routine, catalog, 0) =~= Set::empty());
    } else {
        lemma_missing_among_finite(routine, catalog, k - 1);
        lemma_missing_among_step(routine, catalog, k - 1);
    }
}

/// The number of names of the catalog that the schedule does not mention.
pub fn count_missing(routine: &Vec<Vec<RoutineEntry>>, exercises: &Vec<Exercise>) -> (missing: usize)
    ensures
        missing_names(routine.deep_view(), exercises.deep_view()).finite(),
        missing == missing_names(routine.deep_view(), exercises.deep_view()).len(),
{
    let ghost r = routine.deep_view();
    let ghost c = exercises.deep_view();
    let mut missing: usize = 0;
    let mut k: usize = 0;
    proof {
        lemma_missing_among_finite(r, c, 0);
        assert(missing_among(r, c, 0) =~= Set::empty());
        if c.len() == 0 {
            assert(exercise_names(c).take(0) =~= exercise_names(c));
            assert(missing_among(r, c, 0) =~= missing_names(r, c));
        }
    }
    while k < exercises.len()
        invariant
            k <= exercises.len(),
            r == routine.deep_view(),
            c == exercises.deep_view(),
            missing_among(r, c, k as int).finite(),
            missing == missing_among(r, c, k as int).len(),
            missing <= k,
            k == exercises.len() ==> missing_among(r, c, k as int) =~= missing_names(r, c),
        decreases exercises.len() - k,
    {
        proof {
            lemma_missing_among_step(r, c, k as int);
            lemma_missing_among_finite(r, c, k as int + 1);
        }
        let name = &exercises[k].name;
        assert(c[k as int].name == name@);
        if !is_mentioned(routine, name) && !named_before(exercises, k) {
            assert(!missing_among(r, c, k as int).contains(name@));
            missing += 1;
        }
        k += 1;
    }
    missing
}

/// Whether an exercise before place `k` has the name of the one at `k`.
pub fn named_before(exercises: &Vec<Exercise>, k: usize) -> (held: bool)
    requires
        k < exercises.len(),
    ensures
        held == exercise_names(exercises.deep_view()).take(k as int).contains(exercises[k as int].name@),
{
    let ghost names = exercise_names(exercises.deep_view());
    let mut i: usize = 0;
    while i < k
        invariant
            i <= k < exercises.len(),
            names == exercise_names(exercises.deep_view()),
            forall|j: int| 0 <= j < i ==> #[trigger] names[j] != exercises[k as int].name@,
        decreases k - i,
    {
        if exercises[i].name == exercises[k].name {
            assert(names.take(k as int)[i as int] == exercises[k as int].name@);
            return true;
        }
        i += 1;
    }
    assert forall|j: int| 0 <= j < names.take(k as int).len() implies names.take(k as int)[j]
        != exercises[k as int].name@ by {
        assert(names[j] != exercises[k as int].name@);
    }
    false
}

/// The most quarter sets, in size, that a schedule within the hard rules can
/// give to a muscle.
pub open spec fn volume_cap() -> int {
    512 * (255 * entry_cap())
}

/// The most that one row of targets can cost in a schedule within the hard
/// rules.
pub open spec fn row_cap() -> int {
    50 * 0x40_0000_0000_0000_0000_0000_0000int
}

/// What a volume costs against its target.
pub fn penalty_for(volume: i128, group: &MuscleGroup) -> (penalty: u128)
    requires
        -volume_cap() <= volume <= volume_cap(),
    ensures
        penalty == target_penalty(volume as int, *group),
        penalty <= row_cap(),
{
    let target = group.target as i128;
    let upper = group.upper_bound as i128;
    if volume < target {
        let deficit = (target - volume) as u128;
        assert(deficit * deficit <= 0x40_0000_0000_0000_0000_0000_0000) by (nonlinear_arith)
            requires
                0 <= deficit <= 0x8_0000_0000_0000,
        ;
        DEFICIT_WEIGHT * (deficit * deficit)
    } else if volume > upper {
        let excess = (volume - upper) as u128;
        assert(excess * excess <= 0x40_0000_0000_0000_0000_0000_0000) by (nonlinear_arith)
            requires
                0 <= excess <= 0x8_0000_0000_0000,
        ;
        EXCESS_WEIGHT * (excess * excess)
    } else {
        0
    }
}

/// A schedule within the hard rules gives no muscle more than `volume_cap()`
/// quarter sets, in size.
pub proof fn lemma_feasible_volume(
    routine: ScheduleSpec,
    catalog: Seq<ExerciseSpec>,
    config: ConfigSpec,
    muscle: Seq<char>,
)
    requires
        sets_fit(routine),
        routine.len() <= 512,
        config.max_exercises_per_day <= 255,
        !infeasible(routine, catalog, config),
    ensures
        -volume_cap() <= volume_of(routine, catalog, muscle) <= volume_cap(),
{
    assert forall|d: int| 0 <= d < routine.len() implies (#[trigger] routine[d]).len() <= 255 by {
        assert(!day_breaks_rules(catalog, routine[d], config));
    }
    lemma_volume_bound(routine, catalog, muscle, 255);
    let n = routine.len() as int;
    let x = 255 * entry_cap();
    assert(n * x <= 512 * x) by (nonlinear_arith)
        requires
            0 <= n <= 512,
            x >= 0,
    ;
}

/// What the rows of targets cost together.
pub fn volume_penalty_of(
    routine: &Vec<Vec<RoutineEntry>>,
    mav_targets: &Vec<(String, MuscleGroup)>,
    exercises: &Vec<Exercise>,
    config: &Config,
) -> (penalty: u128)
    requires
        routine.len() <= MAX_DAYS,
        mav_targets.len() <= MAX_TARGETS,
        !infeasible(routine.deep_view(), exercises.deep_view(), config@),
    ensures
        penalty == volume_penalty(
            routine.deep_view(),
            mav_targets.deep_view(),
            exercises.deep_view(),
            config@.exempt_muscles,
        ),
        penalty <= 65535 * row_cap(),
{
    let ghost r = routine.deep_view();
    let ghost c = exercises.deep_view();
    let ghost t = mav_targets.deep_view();
    let ghost exempt = config@.exempt_muscles;
    let volumes = compute_volumes(routine, exercises);
    let mut penalty: u128 = 0;
    let mut k: usize = 0;
    proof {
        lemma_sets_fit(routine);
    }
    while k < mav_targets.len()
        invariant
            k <= mav_targets.len() <= MAX_TARGETS,
            routine.len() <= MAX_DAYS,
            r == routine.deep_view(),
            c == exercises.deep_view(),
            t == mav_targets.deep_view(),
            exempt == config@.exempt_muscles,
            sets_fit(r),
            !infeasible(r, c, config@),
            forall|m: Seq<char>| #[trigger] volumes.volume(m) == volume_of(r, c, m),
            penalty == volume_penalty(r, t.take(k as int), c, exempt),
            penalty <= k * row_cap(),
        decreases mav_targets.len() - k,
    {
        let row = &mav_targets[k];
        assert(t.take(k as int + 1).drop_last() =~= t.take(k as int));
        assert(t.take(k as int + 1).last() == (row.0@, row.1));
        assert((k + 1) * row_cap() == k * row_cap() + row_cap()) by (nonlinear_arith);
        assert(k * row_cap() <= 65534 * row_cap()) by (nonlinear_arith)
            requires
                k <= 65534,
        ;
        if !contains_name(&config.exempt_muscles, &row.0) {
            proof {
                lemma_feasible_volume(r, c, config@, row.0@);
            }
            let volume = volumes.get(&row.0);
            penalty = penalty + penalty_for(volume, &row.1);
        }
        k += 1;
    }
    assert(t.take(mav_targets.len() as int) =~= t);
    assert(k * row_cap() <= 65535 * row_cap()) by (nonlinear_arith)
        requires
            k <= 65535,
    ;
    penalty
}

/// The cost of a schedule against the targets: infinite where a day names an
/// exercise twice, has too few or too many entries or more than two leg
/// exercises; else 50 points for each day that does not open with a compound
/// exercise, 50000 points for each exercise of the catalog that is left out,
/// and the volume penalty of each muscle that is not exempt.
pub fn compute_cost(
    routine: &Vec<Vec<RoutineEntry>>,
    mav_targets: &Vec<(String, MuscleGroup)>,
    exercises: &Vec<Exercise>,
    config: &Config,
) -> (cost: Cost)
    requires
        routine.len() <= MAX_DAYS,
        mav_targets.len() <= MAX_TARGETS,
    ensures
        cost@ == cost_of(
            routine.deep_view(),
            mav_targets.deep_view(),
            exercises.deep_view(),
            config@,
        ),
{
    let ghost r = routine.deep_view();
    let ghost c = exercises.deep_view();
    let mut misses: u128 = 0;
    let mut d: usize = 0;
    while d < routine.len()
        invariant
            d <= routine.len() <= MAX_DAYS,
            r == routine.deep_view(),
            c == exercises.deep_view(),
            forall|e: int| 0 <= e < d ==> !day_breaks_rules(c, #[trigger] r[e], config@),
            misses == compound_first_misses(r.take(d as int), c),
            misses <= d,
        decreases routine.len() - d,
    {
        assert(r[d as int] == routine[d as int].deep_view());
        assert(r.take(d as int + 1).drop_last() =~= r.take(d as int));
        assert(r.take(d as int + 1).last() == r[d as int]);
        if breaks_rules(&routine[d], exercises, config) {
            return Cost::Infinite;
        }
        if misses_compound_first(&routine[d], exercises) {
            misses += 1;
        }
        d += 1;
    }
    assert(r.take(routine.len() as int) =~= r);
    let missing = count_missing(routine, exercises) as u128;
    let volume = volume_penalty_of(routine, mav_targets, exercises, config);
    let dormant = dormant_penalty_of(routine, exercises, config);
    proof {
        lemma_caps();
    }
    Cost::Finite(COMPOUND_FIRST_PENALTY * misses + INCLUSION_PENALTY * missing + volume + dormant)
}

/// What the penalties for time, frequency and spread add to the cost of a
/// schedule within the hard rules; a penalty of weight 0 is not computed.
pub fn dormant_penalty_of(routine: &Vec<Vec<RoutineEntry>>, exercises: &Vec<Exercise>, config: &Config) -> (penalty:
    u128)
    requires
        routine.len() <= MAX_DAYS,
        !infeasible(routine.deep_view(), exercises.deep_view(), config@),
    ensures
        penalty == dormant_penalty(routine.deep_view(), exercises.deep_view(), config@),
        penalty <= 0x1_0000 * (512 * (off_cap() * off_cap())) + 0x2_0000 * (512 * day_time_cap()),
{
    let ghost r = routine.deep_view();
    let ghost c = exercises.deep_view();
    proof {
        lemma_caps();
        lemma_sets_fit(routine);
        assert forall|d: int| 0 <= d < r.len() implies (#[trigger] r[d]).len() <= 255 by {
            assert(!day_breaks_rules(c, r[d], config@));
        }
        lemma_time_overage_bound(r, c, config.max_time_per_day as int);
        lemma_repeats_bound(r, r.len() as int);
        let n = r.len() as int;
        let cap = day_time_cap();
        assert(n * cap <= 512 * cap) by (nonlinear_arith)
            requires
                0 <= n <= 512,
                cap >= 0,
        ;
        assert(n * 255 <= 512 * cap) by (nonlinear_arith)
            requires
                0 <= n <= 512,
                cap >= 255,
        ;
    }
    let mut penalty: u128 = 0;
    if config.time_weight > 0 {
        let over = time_overage_of(routine, exercises, config.max_time_per_day);
        assert(config.time_weight * over <= 0x1_0000 * (512 * day_time_cap())) by (nonlinear_arith)
            requires
                0 <= config.time_weight <= 0xffff,
                0 <= over <= 512 * day_time_cap(),
        ;
        penalty = penalty + config.time_weight as u128 * over;
    }
    if config.frequency_weight > 0 {
        let over = frequency_overage_of(routine);
        assert(config.frequency_weight * over <= 0x1_0000 * (512 * day_time_cap()))
            by (nonlinear_arith)
            requires
                0 <= config.frequency_weight <= 0xffff,
                0 <= over <= 512 * day_time_cap(),
        ;
        penalty = penalty + config.frequency_weight as u128 * over;
    }
    if config.variance_weight > 0 {
        let spread = time_spread_of(routine, exercises);
        assert(config.variance_weight * spread <= 0x1_0000 * (512 * (off_cap() * off_cap())))
            by (nonlinear_arith)
            requires
                0 <= config.variance_weight <= 0xffff,
                0 <= spread <= 512 * (off_cap() * off_cap()),
        ;
        penalty = penalty + config.variance_weight as u128 * spread;
    }
    assert(config.time_weight == 0 ==> config@.time_weight * time_overage(
        r,
        c,
        config.max_time_per_day as int,
    ) == 0) by (nonlinear_arith);
    assert(config.frequency_weight == 0 ==> config@.frequency_weight * frequency_overage(r) == 0)
        by (nonlinear_arith);
    assert(config.variance_weight == 0 ==> config@.variance_weight * time_spread(r, c) == 0)
        by (nonlinear_arith);
    penalty
}

} // verus!
