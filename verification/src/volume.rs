//! Training volume per muscle, counted in quarter sets.
//!
//! A set counts four quarters for each primary muscle of its exercise, two for
//! each secondary muscle and one for each isometric muscle. A muscle that an
//! exercise lists in several of the three groups is credited for each.

use vstd::prelude::*;
use crate::catalog::{find_exercise, first_place, is_first_place, lemma_first_place,
    lemma_first_place_is, lookup, occurs_before};
use crate::structs::{EntrySpec, Exercise, ExerciseSpec, RoutineEntry, ScheduleSpec, MAX_DAYS};

verus! {

/// Quarter sets that one set of `exercise` gives to `muscle`.
pub open spec fn weight(exercise: ExerciseSpec, muscle: Seq<char>) -> int {
    (if exercise.primary.contains(muscle) {
        4int
    } else {
        0int
    }) + (if exercise.secondary.contains(muscle) {
        2int
    } else {
        0int
    }) + (if exercise.isometric.contains(muscle) {
        1int
    } else {
        0int
    })
}

/// Quarter sets that one entry gives to `muscle`; an entry whose exercise the
/// catalog does not hold gives none.
pub open spec fn entry_volume(catalog: Seq<ExerciseSpec>, entry: EntrySpec, muscle: Seq<char>) -> int {
    match lookup(catalog, entry.exercise) {
        Some(x) => entry.sets * weight(catalog[x], muscle),
        None => 0,
    }
}

/// Quarter sets that the entries of one day give to `muscle`.
pub open spec fn day_volume(catalog: Seq<ExerciseSpec>, day: Seq<EntrySpec>, muscle: Seq<char>) -> int
    decreases day.len(),
{
    if day.len() == 0 {
        0
    } else {
        day_volume(catalog, day.drop_last(), muscle) + entry_volume(catalog, day.last(), muscle)
    }
}

/// Quarter sets that the whole schedule gives to `muscle`.
pub open spec fn volume_of(routine: ScheduleSpec, catalog: Seq<ExerciseSpec>, muscle: Seq<char>) -> int
    decreases routine.len(),
{
    if routine.len() == 0 {
        0
    } else {
        volume_of(routine.drop_last(), catalog, muscle) + day_volume(
            catalog,
            routine.last(),
            muscle,
        )
    }
}

/// The exercise holds `muscle` in one of its three lists.
pub open spec fn works(exercise: ExerciseSpec, muscle: Seq<char>) -> bool {
    exercise.primary.contains(muscle) || exercise.secondary.contains(muscle)
        || exercise.isometric.contains(muscle)
}

/// The entry names an exercise of the catalog that holds `muscle` in one of
/// its three lists.
pub open spec fn entry_works(catalog: Seq<ExerciseSpec>, entry: EntrySpec, muscle: Seq<char>) -> bool {
    match lookup(catalog, entry.exercise) {
        Some(x) => works(catalog[x], muscle),
        None => false,
    }
}

/// Some entry among the first `d` days and the first `i` entries of day `d`
/// works `muscle`.
pub open spec fn works_upto(
    routine: ScheduleSpec,
    catalog: Seq<ExerciseSpec>,
    d: int,
    i: int,
    muscle: Seq<char>,
) -> bool {
    exists|e: int, j: int|
        0 <= e < routine.len() && 0 <= j < routine[e].len() && (e < d || (e == d && j < i))
            && #[trigger] entry_works(catalog, routine[e][j], muscle)
}

/// Some entry of the schedule works `muscle`.
pub open spec fn schedule_works(routine: ScheduleSpec, catalog: Seq<ExerciseSpec>, muscle: Seq<char>) -> bool {
    exists|e: int, j: int|
        0 <= e < routine.len() && 0 <= j < routine[e].len() && #[trigger] entry_works(
            catalog,
            routine[e][j],
            muscle,
        )
}

/// How the muscles worked grow entry by entry and day by day.
pub proof fn lemma_works_upto(
    routine: ScheduleSpec,
    catalog: Seq<ExerciseSpec>,
    d: int,
    i: int,
    muscle: Seq<char>,
)
    requires
        0 <= d <= routine.len(),
    ensures
        !works_upto(routine, catalog, 0, 0, muscle),
        d < routine.len() && 0 <= i < routine[d].len() ==> (works_upto(
            routine,
            catalog,
            d,
            i + 1,
            muscle,
        ) <==> works_upto(routine, catalog, d, i, muscle) || entry_works(
            catalog,
            routine[d][i],
            muscle,
        )),
        d < routine.len() ==> works_upto(routine, catalog, d + 1, 0, muscle) == works_upto(
            routine,
            catalog,
            d,
            routine[d].len() as int,
            muscle,
        ),
        works_upto(routine, catalog, routine.len() as int, 0, muscle) == schedule_works(
            routine,
            catalog,
            muscle,
        ),
{
    if d < routine.len() && 0 <= i < routine[d].len() {
        if works_upto(routine, catalog, d, i + 1, muscle) {
            let (e, j) = choose|e: int, j: int|
                0 <= e < routine.len() && 0 <= j < routine[e].len() && (e < d || (e == d && j < i
                    + 1)) && #[trigger] entry_works(catalog, routine[e][j], muscle);
            if !(e == d && j == i) {
                assert(entry_works(catalog, routine[e][j], muscle));
            }
        }
        if works_upto(routine, catalog, d, i, muscle) {
            let (e, j) = choose|e: int, j: int|
                0 <= e < routine.len() && 0 <= j < routine[e].len() && (e < d || (e == d && j < i))
                    && #[trigger] entry_works(catalog, routine[e][j], muscle);
            assert(entry_works(catalog, routine[e][j], muscle));
        }
        if entry_works(catalog, routine[d][i], muscle) {
            assert(works_upto(routine, catalog, d, i + 1, muscle));
        }
    }
    if d < routine.len() {
        if works_upto(routine, catalog, d + 1, 0, muscle) {
            let (e, j) = choose|e: int, j: int|
                0 <= e < routine.len() && 0 <= j < routine[e].len() && (e < d + 1 || (e == d + 1
                    && j < 0)) && #[trigger] entry_works(catalog, routine[e][j], muscle);
            assert(entry_works(catalog, routine[e][j], muscle));
        }
        if works_upto(routine, catalog, d, routine[d].len() as int, muscle) {
            let (e, j) = choose|e: int, j: int|
                0 <= e < routine.len() && 0 <= j < routine[e].len() && (e < d || (e == d && j
                    < routine[d].len())) && #[trigger] entry_works(catalog, routine[e][j], muscle);
            assert(entry_works(catalog, routine[e][j], muscle));
        }
    }
    let n = routine.len() as int;
    if works_upto(routine, catalog, n, 0, muscle) {
        let (e, j) = choose|e: int, j: int|
            0 <= e < routine.len() && 0 <= j < routine[e].len() && (e < n || (e == n && j < 0))
                && #[trigger] entry_works(catalog, routine[e][j], muscle);
        assert(entry_works(catalog, routine[e][j], muscle));
    }
    if schedule_works(routine, catalog, muscle) {
        let (e, j) = choose|e: int, j: int|
            0 <= e < routine.len() && 0 <= j < routine[e].len() && #[trigger] entry_works(
                catalog,
                routine[e][j],
                muscle,
            );
        assert(entry_works(catalog, routine[e][j], muscle));
    }
}

/// Every set count of the schedule is one that an `i32` holds.
pub open spec fn sets_fit(routine: ScheduleSpec) -> bool {
    forall|d: int, i: int|
        0 <= d < routine.len() && 0 <= i < routine[d].len() ==> i32::MIN <= (
        #[trigger] routine[d][i]).sets <= i32::MAX
}

/// No day of the schedule has more than `most` entries.
pub open spec fn days_within(routine: ScheduleSpec, most: int) -> bool {
    forall|d: int| 0 <= d < routine.len() ==> (#[trigger] routine[d]).len() <= most
}

/// The most quarter sets, in size, that one entry can give to a muscle.
pub open spec fn entry_cap() -> int {
    7int * 0x8000_0000int
}

/// The schedule of a `Vec` has set counts that fit.
pub proof fn lemma_sets_fit(routine: &Vec<Vec<RoutineEntry>>)
    ensures
        sets_fit(routine.deep_view()),
        days_within(routine.deep_view(), usize::MAX as int),
{
    let r = routine.deep_view();
    assert forall|d: int, i: int| 0 <= d < r.len() && 0 <= i < r[d].len() implies i32::MIN <= (
    #[trigger] r[d][i]).sets <= i32::MAX by {
        assert(r[d][i] == routine[d][i]@);
    }
    assert forall|d: int| 0 <= d < r.len() implies (#[trigger] r[d]).len() <= usize::MAX by {
        assert(r[d].len() == routine[d].len());
    }
}

/// One entry gives at most `entry_cap()` quarter sets, in size.
pub proof fn lemma_entry_volume_bound(catalog: Seq<ExerciseSpec>, entry: EntrySpec, muscle: Seq<char>)
    requires
        i32::MIN <= entry.sets <= i32::MAX,
    ensures
        -entry_cap() <= entry_volume(catalog, entry, muscle) <= entry_cap(),
{
    match lookup(catalog, entry.exercise) {
        Some(x) => {
            let w = weight(catalog[x], muscle);
            let s = entry.sets;
            assert(0 <= w <= 7);
            assert(-0x8000_0000 * 7 <= s * w <= 0x8000_0000 * 7) by (nonlinear_arith)
                requires
                    0 <= w <= 7,
                    -0x8000_0000 <= s <= 0x8000_0000,
            ;
        },
        None => {},
    }
}

/// A day gives at most `entry_cap()` quarter sets, in size, for each entry.
pub proof fn lemma_day_volume_bound(catalog: Seq<ExerciseSpec>, day: Seq<EntrySpec>, muscle: Seq<char>)
    requires
        forall|i: int| 0 <= i < day.len() ==> i32::MIN <= (#[trigger] day[i]).sets <= i32::MAX,
    ensures
        -(day.len() * entry_cap()) <= day_volume(catalog, day, muscle) <= day.len() * entry_cap(),
    decreases day.len(),
{
    if day.len() > 0 {
        let rest = day.drop_last();
        assert forall|i: int| 0 <= i < rest.len() implies i32::MIN <= (#[trigger] rest[i]).sets
            <= i32::MAX by {
            assert(rest[i] == day[i]);
        }
        lemma_day_volume_bound(catalog, rest, muscle);
        lemma_entry_volume_bound(catalog, day.last(), muscle);
        let n = day.len() as int;
        let cap = entry_cap();
        assert(n * cap == (n - 1) * cap + cap) by (nonlinear_arith);
    }
}

/// A schedule whose days have at most `most` entries gives at most
/// `most * entry_cap()` quarter sets, in size, for each day.
pub proof fn lemma_volume_bound(
    routine: ScheduleSpec,
    catalog: Seq<ExerciseSpec>,
    muscle: Seq<char>,
    most: int,
)
    requires
        sets_fit(routine),
        days_within(routine, most),
    ensures
        -(routine.len() * (most * entry_cap())) <= volume_of(routine, catalog, muscle)
            <= routine.len() * (most * entry_cap()),
    decreases routine.len(),
{
    if routine.len() > 0 {
        let rest = routine.drop_last();
        let day = routine.last();
        assert forall|d: int, i: int| 0 <= d < rest.len() && 0 <= i < rest[d].len() implies i32::MIN
            <= (#[trigger] rest[d][i]).sets <= i32::MAX by {
            assert(rest[d][i] == routine[d][i]);
        }
        assert forall|d: int| 0 <= d < rest.len() implies (#[trigger] rest[d]).len() <= most by {
            assert(rest[d] == routine[d]);
        }
        lemma_volume_bound(rest, catalog, muscle, most);
        assert forall|i: int| 0 <= i < day.len() implies i32::MIN <= (#[trigger] day[i]).sets
            <= i32::MAX by {
            assert(day[i] == routine[routine.len() - 1][i]);
        }
        lemma_day_volume_bound(catalog, day, muscle);
        let n = routine.len() as int;
        let k = day.len() as int;
        let cap = entry_cap();
        assert(day == routine[n - 1]);
        assert(k <= most);
        assert(k * cap <= most * cap) by (nonlinear_arith)
            requires
                k <= most,
                cap >= 0,
        ;
        assert(n * (most * cap) == (n - 1) * (most * cap) + most * cap) by (nonlinear_arith);
    }
}

/// One more entry at the end of a day adds that entry's volume to the day's.
pub proof fn lemma_day_volume_push(
    catalog: Seq<ExerciseSpec>,
    day: Seq<EntrySpec>,
    entry: EntrySpec,
    muscle: Seq<char>,
)
    ensures
        day_volume(catalog, day.push(entry), muscle) == day_volume(catalog, day, muscle)
            + entry_volume(catalog, entry, muscle),
{
    assert(day.push(entry).drop_last() =~= day);
}

/// The volume of a muscle accumulates entry by entry: an entry of `sets` sets
/// whose exercise the catalog holds gives `4 * sets` quarter sets to a primary
/// muscle, `2 * sets` to a secondary one and `sets` to an isometric one, and
/// appending it to a day adds exactly that to what the rest of the schedule
/// gives.
pub proof fn lemma_volume_accumulates(
    routine: ScheduleSpec,
    catalog: Seq<ExerciseSpec>,
    day: int,
    entry: EntrySpec,
    muscle: Seq<char>,
)
    requires
        0 <= day < routine.len(),
    ensures
        volume_of(routine.update(day, routine[day].push(entry)), catalog, muscle) == volume_of(
            routine,
            catalog,
            muscle,
        ) + entry_volume(catalog, entry, muscle),
        lookup(catalog, entry.exercise) is Some ==> entry_volume(catalog, entry, muscle) == (if catalog[lookup(
            catalog,
            entry.exercise,
        )->0].primary.contains(muscle) {
            4 * entry.sets
        } else {
            0
        }) + (if catalog[lookup(catalog, entry.exercise)->0].secondary.contains(muscle) {
            2 * entry.sets
        } else {
            0
        }) + (if catalog[lookup(catalog, entry.exercise)->0].isometric.contains(muscle) {
            entry.sets
        } else {
            0
        }),
        lookup(catalog, entry.exercise) is None ==> entry_volume(catalog, entry, muscle) == 0,
    decreases routine.len(),
{
    let grown = routine.update(day, routine[day].push(entry));
    if day == routine.len() - 1 {
        assert(grown.drop_last() =~= routine.drop_last());
        lemma_day_volume_push(catalog, routine[day], entry, muscle);
    } else {
        assert(grown.drop_last() =~= routine.drop_last().update(
            day,
            routine.drop_last()[day].push(entry),
        ));
        lemma_volume_accumulates(routine.drop_last(), catalog, day, entry, muscle);
    }
    match lookup(catalog, entry.exercise) {
        Some(x) => {
            let s = entry.sets;
            let w = weight(catalog[x], muscle);
            let a = if catalog[x].primary.contains(muscle) { 4int } else { 0int };
            let b = if catalog[x].secondary.contains(muscle) { 2int } else { 0int };
            let c = if catalog[x].isometric.contains(muscle) { 1int } else { 0int };
            assert(s * (a + b + c) == s * a + s * b + s * c) by (nonlinear_arith);
        },
        None => {},
    }
}

/// One row of a table of volumes.
pub struct VolumeRow {
    pub muscle: String,
    pub quarter_sets: i128,
}

/// The volume of every muscle, in quarter sets. The table lists the muscles
/// that something was added for; a muscle that it does not list has volume 0.
pub struct Volumes {
    rows: Vec<VolumeRow>,
}

/// The size that a volume may reach in a table while more is added to it.
pub open spec fn headroom() -> int {
    0x1000_0000_0000_0000_0000_0000_0000_0000int
}

impl Volumes {
    /// The muscles listed, in the table's order.
    pub closed spec fn keys(&self) -> Seq<Seq<char>> {
        Seq::new(self.rows.len() as nat, |i: int| self.rows[i].muscle@)
    }

    /// The table lists `muscle`.
    pub closed spec fn lists(&self, muscle: Seq<char>) -> bool {
        self.keys().contains(muscle)
    }

    /// The volume of `muscle`, in quarter sets.
    pub closed spec fn volume(&self, muscle: Seq<char>) -> int {
        match first_place(self.keys(), muscle) {
            Some(i) => self.rows[i].quarter_sets as int,
            None => 0,
        }
    }

    /// The table that lists no muscle: every muscle has volume 0.
    pub fn new() -> (table: Volumes)
        ensures
            forall|m: Seq<char>| #[trigger] table.volume(m) == 0,
            forall|m: Seq<char>| !#[trigger] table.lists(m),
    {
        let table = Volumes { rows: Vec::new() };
        assert forall|m: Seq<char>| #[trigger] table.volume(m) == 0 by {
            lemma_first_place(table.keys(), m);
        }
        table
    }

    fn place(&self, muscle: &String) -> (found: Option<usize>)
        ensures
            match found {
                Some(i) => first_place(self.keys(), muscle@) == Some(i as int) && i < self.rows.len(),
                None => first_place(self.keys(), muscle@) is None && !self.keys().contains(muscle@),
            },
    {
        let mut i: usize = 0;
        while i < self.rows.len()
            invariant
                i <= self.rows.len(),
                forall|j: int| 0 <= j < i ==> #[trigger] self.keys()[j] != muscle@,
            decreases self.rows.len() - i,
        {
            if self.rows[i].muscle == *muscle {
                proof {
                    lemma_first_place_is(self.keys(), muscle@, i as int);
                }
                return Some(i);
            }
            i += 1;
        }
        proof {
            lemma_first_place(self.keys(), muscle@);
        }
        None
    }

    /// The volume of `muscle`, in quarter sets.
    pub fn get(&self, muscle: &String) -> (quarter_sets: i128)
        ensures
            quarter_sets == self.volume(muscle@),
    {
        match self.place(muscle) {
            Some(i) => self.rows[i].quarter_sets,
            None => 0,
        }
    }

    /// Whether the table lists `muscle`.
    pub fn contains(&self, muscle: &String) -> (listed: bool)
        ensures
            listed == self.lists(muscle@),
    {
        match self.place(muscle) {
            Some(_) => {
                proof {
                    lemma_first_place(self.keys(), muscle@);
                }
                true
            },
            None => false,
        }
    }

    /// The muscles that the table lists, in the order in which they came.
    pub fn muscles(&self) -> (names: Vec<String>)
        ensures
            forall|m: Seq<char>| names.deep_view().contains(m) == self.lists(m),
    {
        let mut names: Vec<String> = Vec::new();
        let mut i: usize = 0;
        while i < self.rows.len()
            invariant
                i <= self.rows.len(),
                names.len() == i,
                forall|j: int| 0 <= j < i ==> names[j]@ == #[trigger] self.keys()[j],
            decreases self.rows.len() - i,
        {
            names.push(self.rows[i].muscle.clone());
            i += 1;
        }
        assert(names.deep_view() =~= self.keys());
        names
    }

    /// Adds `amount` quarter sets to the volume of `muscle`, which the table
    /// lists from then on.
    pub fn add(&mut self, muscle: &String, amount: i128)
        requires
            i128::MIN <= old(self).volume(muscle@) + amount <= i128::MAX,
        ensures
            forall|m: Seq<char>| #[trigger]
                final(self).volume(m) == old(self).volume(m) + (if m == muscle@ {
                    amount as int
                } else {
                    0
                }),
            forall|m: Seq<char>| #[trigger]
                final(self).lists(m) == (old(self).lists(m) || m == muscle@),
    {
        let ghost before = *self;
        match self.place(muscle) {
            Some(i) => {
                let total = self.rows[i].quarter_sets + amount;
                let row = VolumeRow { muscle: muscle.clone(), quarter_sets: total };
                self.rows[i] = row;
                assert(self.keys() =~= before.keys());
                proof {
                    lemma_first_place(before.keys(), muscle@);
                }
            },
            None => {
                self.rows.push(VolumeRow { muscle: muscle.clone(), quarter_sets: amount });
                assert(self.keys() =~= before.keys().push(muscle@));
                assert forall|m: Seq<char>| #[trigger]
                    self.volume(m) == before.volume(m) + (if m == muscle@ {
                        amount as int
                    } else {
                        0
                    }) by {
                    lemma_first_place_push(before.keys(), muscle@, m);
                }
                assert forall|m: Seq<char>| #[trigger]
                    self.lists(m) == (before.lists(m) || m == muscle@) by {
                    lemma_contains_push(before.keys(), muscle@, m);
                }
            },
        }
    }
}

/// A list with one more name at its end holds what it held, and that name.
pub proof fn lemma_contains_push(names: Seq<Seq<char>>, added: Seq<char>, name: Seq<char>)
    ensures
        names.push(added).contains(name) <==> (names.contains(name) || name == added),
{
    let grown = names.push(added);
    if names.contains(name) {
        let j = choose|j: int| 0 <= j < names.len() && names[j] == name;
        assert(grown[j] == name);
    }
    if name == added {
        assert(grown[names.len() as int] == name);
    }
    if grown.contains(name) {
        let j = choose|j: int| 0 <= j < grown.len() && grown[j] == name;
        if j < names.len() {
            assert(names[j] == name);
        }
    }
}

/// How the first place of `key` changes when `added`, which `keys` does not
/// hold, is put at the end.
proof fn lemma_first_place_push(keys: Seq<Seq<char>>, added: Seq<char>, key: Seq<char>)
    requires
        !keys.contains(added),
    ensures
        first_place(keys.push(added), key) == if key == added {
            Some(keys.len() as int)
        } else {
            first_place(keys, key)
        },
{
    let grown = keys.push(added);
    if key == added {
        assert forall|j: int| 0 <= j < keys.len() implies #[trigger] grown[j] != key by {
            assert(keys[j] == grown[j]);
        }
        assert(is_first_place(grown, key, keys.len() as int));
        lemma_first_place_is(grown, key, keys.len() as int);
    } else {
        lemma_first_place(keys, key);
        match first_place(keys, key) {
            Some(i) => {
                assert forall|j: int| 0 <= j < i implies #[trigger] grown[j] != key by {
                    assert(keys[j] == grown[j]);
                }
                assert(is_first_place(grown, key, i));
                lemma_first_place_is(grown, key, i);
            },
            None => {
                lemma_first_place(grown, key);
                if first_place(grown, key) is Some {
                    let i = first_place(grown, key)->0;
                    assert(keys[i] == grown[i]);
                }
            },
        }
    }
}

/// Adds `amount` quarter sets to the volume of each muscle of the list, which
/// the table lists from then on; a muscle that the list names twice is
/// credited once.
fn credit(table: &mut Volumes, muscles: &Vec<String>, amount: i128)
    requires
        forall|m: Seq<char>| -headroom() <= #[trigger] old(table).volume(m) <= headroom(),
        -entry_cap() <= amount <= entry_cap(),
    ensures
        forall|m: Seq<char>| #[trigger]
            final(table).volume(m) == old(table).volume(m) + (if muscles.deep_view().contains(m) {
                amount as int
            } else {
                0
            }),
        forall|m: Seq<char>| #[trigger]
            final(table).lists(m) == (old(table).lists(m) || muscles.deep_view().contains(m)),
{
    let ghost names = muscles.deep_view();
    let ghost before = *table;
    let mut k: usize = 0;
    while k < muscles.len()
        invariant
            k <= muscles.len(),
            names == muscles.deep_view(),
            -entry_cap() <= amount <= entry_cap(),
            forall|m: Seq<char>| -headroom() <= #[trigger] before.volume(m) <= headroom(),
            forall|m: Seq<char>| #[trigger]
                table.volume(m) == before.volume(m) + (if names.take(k as int).contains(m) {
                    amount as int
                } else {
                    0
                }),
            forall|m: Seq<char>| #[trigger]
                table.lists(m) == (before.lists(m) || names.take(k as int).contains(m)),
        decreases muscles.len() - k,
    {
        let ghost prefix = names.take(k as int);
        let ghost next = names.take(k as int + 1);
        let ghost name = muscles[k as int]@;
        assert(next =~= prefix.push(name));
        assert forall|m: Seq<char>| next.contains(m) <==> (prefix.contains(m) || m == name) by {
            lemma_contains_push(prefix, name, m);
        }
        if !occurs_before(muscles, k) {
            assert(table.volume(name) == before.volume(name));
            table.add(&muscles[k], amount);
        }
        k += 1;
    }
    assert(names.take(muscles.len() as int) =~= names);
}

/// The volume that the schedule gives to each muscle, in quarter sets.
pub fn compute_volumes(routine: &Vec<Vec<RoutineEntry>>, exercises: &Vec<Exercise>) -> (volumes:
    Volumes)
    requires
        routine.len() <= MAX_DAYS,
    ensures
        forall|m: Seq<char>| #[trigger]
            volumes.volume(m) == volume_of(routine.deep_view(), exercises.deep_view(), m),
        forall|m: Seq<char>| #[trigger]
            volumes.lists(m) == schedule_works(routine.deep_view(), exercises.deep_view(), m),
{
    let ghost r = routine.deep_view();
    let ghost c = exercises.deep_view();
    let mut table = Volumes::new();
    let mut d: usize = 0;
    proof {
        lemma_sets_fit(routine);
        assert forall|m: Seq<char>| #[trigger] table.lists(m) == works_upto(r, c, 0, 0, m) by {
            lemma_works_upto(r, c, 0, 0, m);
        }
    }
    while d < routine.len()
        invariant
            d <= routine.len() <= MAX_DAYS,
            r == routine.deep_view(),
            c == exercises.deep_view(),
            sets_fit(r),
            days_within(r, usize::MAX as int),
            forall|m: Seq<char>| #[trigger] table.volume(m) == volume_of(r.take(d as int), c, m),
            forall|m: Seq<char>| #[trigger] table.lists(m) == works_upto(r, c, d as int, 0, m),
        decreases routine.len() - d,
    {
        let day = &routine[d];
        let ghost done = r.take(d as int);
        let ghost today = r[d as int];
        let mut i: usize = 0;
        while i < day.len()
            invariant
                d < routine.len() <= MAX_DAYS,
                r == routine.deep_view(),
                c == exercises.deep_view(),
                sets_fit(r),
                days_within(r, usize::MAX as int),
                day == &routine[d as int],
                done == r.take(d as int),
                today == r[d as int],
                i <= day.len(),
                forall|m: Seq<char>| #[trigger]
                    table.volume(m) == volume_of(done, c, m) + day_volume(c, today.take(i as int), m),
                forall|m: Seq<char>| #[trigger]
                    table.lists(m) == works_upto(r, c, d as int, i as int, m),
            decreases day.len() - i,
        {
            let entry = &day[i];
            let ghost e = today[i as int];
            assert(e == entry@);
            assert(today.take(i as int + 1).drop_last() =~= today.take(i as int));
            assert(today.take(i as int + 1).last() == e);
            proof {
                assert forall|m: Seq<char>|
                    -headroom() + 3 * entry_cap() <= #[trigger] table.volume(m) <= headroom() - 3
                        * entry_cap() by {
                    lemma_partial_bound(r, c, m, d as int, i as int);
                }
            }
            let ghost t0 = table;
            match find_exercise(exercises, &entry.exercise) {
                Some(x) => {
                    let sets = entry.sets as i128;
                    let exercise = &exercises[x];
                    assert(c[x as int] == exercise@);
                    credit(&mut table, &exercise.primary, sets * 4);
                    let ghost t1 = table;
                    credit(&mut table, &exercise.secondary, sets * 2);
                    let ghost t2 = table;
                    credit(&mut table, &exercise.isometric, sets);
                    assert forall|m: Seq<char>| #[trigger]
                        table.volume(m) == t0.volume(m) + entry_volume(c, e, m) by {
                        let w = weight(c[x as int], m);
                        let s = e.sets;
                        assert(table.volume(m) - t2.volume(m) + (t2.volume(m) - t1.volume(m)) + (
                        t1.volume(m) - t0.volume(m)) == s * w) by (nonlinear_arith)
                            requires
                                w == weight(c[x as int], m),
                                t1.volume(m) - t0.volume(m) == (if c[x as int].primary.contains(m) {
                                    s * 4
                                } else {
                                    0
                                }),
                                t2.volume(m) - t1.volume(m) == (if c[x as int].secondary.contains(
                                    m,
                                ) {
                                    s * 2
                                } else {
                                    0
                                }),
                                table.volume(m) - t2.volume(m) == (if c[x as int].isometric.contains(
                                    m,
                                ) {
                                    s
                                } else {
                                    0
                                }),
                        ;
                    }
                    assert forall|m: Seq<char>| #[trigger]
                        table.lists(m) == (t0.lists(m) || entry_works(c, e, m)) by {
                        assert(t1.lists(m) == (t0.lists(m) || c[x as int].primary.contains(m)));
                        assert(t2.lists(m) == (t1.lists(m) || c[x as int].secondary.contains(m)));
                    }
                },
                None => {},
            }
            proof {
                assert forall|m: Seq<char>| #[trigger]
                    table.lists(m) == works_upto(r, c, d as int, i as int + 1, m) by {
                    lemma_works_upto(r, c, d as int, i as int, m);
                }
            }
            i += 1;
        }
        assert(today.take(day.len() as int) =~= today);
        assert(r.take(d as int + 1).drop_last() =~= done);
        assert(r.take(d as int + 1).last() == today);
        proof {
            assert forall|m: Seq<char>| #[trigger]
                table.lists(m) == works_upto(r, c, d as int + 1, 0, m) by {
                lemma_works_upto(r, c, d as int, 0, m);
            }
        }
        d += 1;
    }
    assert(r.take(routine.len() as int) =~= r);
    proof {
        assert forall|m: Seq<char>| #[trigger] table.lists(m) == schedule_works(r, c, m) by {
            lemma_works_upto(r, c, r.len() as int, 0, m);
        }
    }
    table
}

/// What the first `d` days and the first `i` entries of the next day give
/// leaves room for one more entry.
proof fn lemma_partial_bound(
    routine: ScheduleSpec,
    catalog: Seq<ExerciseSpec>,
    muscle: Seq<char>,
    d: int,
    i: int,
)
    requires
        sets_fit(routine),
        days_within(routine, usize::MAX as int),
        0 <= d < routine.len() <= MAX_DAYS,
        0 <= i < routine[d].len(),
    ensures
        -headroom() + 3 * entry_cap() <= volume_of(routine.take(d), catalog, muscle) + day_volume(
            catalog,
            routine[d].take(i),
            muscle,
        ) <= headroom() - 3 * entry_cap(),
{
    let done = routine.take(d);
    let part = routine[d].take(i);
    assert forall|e: int, j: int| 0 <= e < done.len() && 0 <= j < done[e].len() implies i32::MIN <= (
    #[trigger] done[e][j]).sets <= i32::MAX by {
        assert(done[e][j] == routine[e][j]);
    }
    assert forall|e: int| 0 <= e < done.len() implies (#[trigger] done[e]).len() <= usize::MAX by {
        assert(done[e] == routine[e]);
    }
    lemma_volume_bound(done, catalog, muscle, usize::MAX as int);
    assert forall|j: int| 0 <= j < part.len() implies i32::MIN <= (#[trigger] part[j]).sets
        <= i32::MAX by {
        assert(part[j] == routine[d][j]);
    }
    lemma_day_volume_bound(catalog, part, muscle);
    let cap = entry_cap();
    let most = usize::MAX as int;
    assert(routine[d].len() <= most);
    assert(d * (most * cap) <= 512 * (most * cap)) by (nonlinear_arith)
        requires
            d <= 512,
            most * cap >= 0,
    ;
    assert(i * cap <= most * cap) by (nonlinear_arith)
        requires
            i <= most,
            cap >= 0,
    ;
    assert(0 <= most * cap <= 0xffff_ffff_ffff_ffff * (7 * 0x8000_0000)) by (nonlinear_arith)
        requires
            0 <= most <= 0xffff_ffff_ffff_ffff,
            cap == 7 * 0x8000_0000,
    ;
}

} // verus!
