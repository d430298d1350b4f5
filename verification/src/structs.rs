//! The data that the optimizer works on, and its mathematical model.

use vstd::prelude::*;

verus! {

/// Days of the reference schedule.
pub const TOTAL_DAYS: usize = 6;

/// Fewest entries a day may hold in the reference configuration.
pub const MIN_EXERCISES_PER_DAY: u8 = 3;

/// Most entries a day may hold in the reference configuration.
pub const MAX_EXERCISES_PER_DAY: u8 = 6;

/// Smallest set count that the optimizer prescribes.
pub const MIN_SETS: i32 = 2;

/// Largest set count that the optimizer prescribes.
pub const MAX_SETS: i32 = 5;

/// Minutes that one set takes.
pub const TIME_PER_SET: u32 = 2;

/// Minutes that a day may take before the time penalty counts, in the
/// reference configuration.
pub const MAX_TIME_PER_DAY: u32 = 50;

/// Most leg exercises that a day may hold.
pub const MAX_LEG_EXERCISES: usize = 2;

/// An exercise of the catalog: the muscles it trains and its flags.
pub struct Exercise {
    pub name: String,
    pub primary: Vec<String>,
    pub secondary: Vec<String>,
    pub isometric: Vec<String>,
    pub is_compound: bool,
    pub is_leg: bool,
    pub critical: bool,
}

/// The model of an [`Exercise`]: names are sequences of characters.
pub struct ExerciseSpec {
    pub name: Seq<char>,
    pub primary: Seq<Seq<char>>,
    pub secondary: Seq<Seq<char>>,
    pub isometric: Seq<Seq<char>>,
    pub is_compound: bool,
    pub is_leg: bool,
    pub critical: bool,
}

impl View for Exercise {
    type V = ExerciseSpec;

    open spec fn view(&self) -> ExerciseSpec {
        ExerciseSpec {
            name: self.name@,
            primary: self.primary.deep_view(),
            secondary: self.secondary.deep_view(),
            isometric: self.isometric.deep_view(),
            is_compound: self.is_compound,
            is_leg: self.is_leg,
            critical: self.critical,
        }
    }
}

impl DeepView for Exercise {
    type V = ExerciseSpec;

    open spec fn deep_view(&self) -> ExerciseSpec {
        self@
    }
}

impl Clone for Exercise {
    fn clone(&self) -> (copy: Self)
        ensures
            copy@ == self@,
    {
        Exercise {
            name: self.name.clone(),
            primary: clone_names(&self.primary),
            secondary: clone_names(&self.secondary),
            isometric: clone_names(&self.isometric),
            is_compound: self.is_compound,
            is_leg: self.is_leg,
            critical: self.critical,
        }
    }
}

/// Copies a list of names.
pub fn clone_names(names: &Vec<String>) -> (copy: Vec<String>)
    ensures
        copy.deep_view() == names.deep_view(),
{
    let mut copy: Vec<String> = Vec::new();
    let mut i: usize = 0;
    while i < names.len()
        invariant
            i <= names.len(),
            copy.len() == i,
            forall|j: int| 0 <= j < i ==> copy[j]@ == names[j]@,
        decreases names.len() - i,
    {
        copy.push(names[i].clone());
        i += 1;
    }
    assert(copy.deep_view() =~= names.deep_view());
    copy
}

/// The weekly volume wanted for one muscle, in quarter sets: `target` is the
/// least volume wanted, `upper_bound` the most that goes unpenalised.
#[derive(Clone, Copy, Debug, PartialEq, Eq, Structural)]
pub struct MuscleGroup {
    pub target: u32,
    pub upper_bound: u32,
}

impl DeepView for MuscleGroup {
    type V = MuscleGroup;

    open spec fn deep_view(&self) -> MuscleGroup {
        *self
    }
}

/// One line of a day: an exercise, by name, and the number of sets.
pub struct RoutineEntry {
    pub exercise: String,
    pub sets: i32,
}

/// The model of a [`RoutineEntry`].
pub struct EntrySpec {
    pub exercise: Seq<char>,
    pub sets: int,
}

impl View for RoutineEntry {
    type V = EntrySpec;

    open spec fn view(&self) -> EntrySpec {
        EntrySpec { exercise: self.exercise@, sets: self.sets as int }
    }
}

impl DeepView for RoutineEntry {
    type V = EntrySpec;

    open spec fn deep_view(&self) -> EntrySpec {
        self@
    }
}

impl Clone for RoutineEntry {
    fn clone(&self) -> (copy: Self)
        ensures
            copy@ == self@,
    {
        RoutineEntry { exercise: self.exercise.clone(), sets: self.sets }
    }
}

/// Copies one day of a schedule.
pub fn clone_day(day: &Vec<RoutineEntry>) -> (copy: Vec<RoutineEntry>)
    ensures
        copy.deep_view() == day.deep_view(),
{
    let mut copy: Vec<RoutineEntry> = Vec::new();
    let mut i: usize = 0;
    while i < day.len()
        invariant
            i <= day.len(),
            copy.len() == i,
            forall|j: int| 0 <= j < i ==> copy[j]@ == day[j]@,
        decreases day.len() - i,
    {
        copy.push(day[i].clone());
        i += 1;
    }
    assert(copy.deep_view() =~= day.deep_view());
    copy
}

/// Copies a whole schedule.
pub fn clone_routine(routine: &Vec<Vec<RoutineEntry>>) -> (copy: Vec<Vec<RoutineEntry>>)
    ensures
        copy.deep_view() == routine.deep_view(),
{
    let mut copy: Vec<Vec<RoutineEntry>> = Vec::new();
    let mut d: usize = 0;
    while d < routine.len()
        invariant
            d <= routine.len(),
            copy.len() == d,
            forall|j: int| 0 <= j < d ==> copy[j].deep_view() == routine[j].deep_view(),
        decreases routine.len() - d,
    {
        copy.push(clone_day(&routine[d]));
        d += 1;
    }
    assert(copy.deep_view() =~= routine.deep_view());
    copy
}

} // verus!

verus! {

/// Most days that a schedule may have for its volumes and cost to be computed.
pub const MAX_DAYS: usize = 512;

/// Most rows of muscle targets that a cost can be computed against.
pub const MAX_TARGETS: usize = 65535;

/// What can be tuned: the shape of a schedule and the muscles left out of the
/// volume penalty.
pub struct Config {
    pub total_days: usize,
    pub min_sets: i32,
    pub max_sets: i32,
    pub min_exercises_per_day: u8,
    pub max_exercises_per_day: u8,
    pub exempt_muscles: Vec<String>,
    /// Minutes that a day may take before the time penalty counts.
    pub max_time_per_day: u32,
    /// Sixteenths of a point for each minute over the daily limit.
    pub time_weight: u16,
    /// Sixteenths of a point for each time an exercise comes beyond its
    /// second.
    pub frequency_weight: u16,
    /// Sixteenths of a point for each unit of the spread of the days' times.
    pub variance_weight: u16,
}

/// The model of a [`Config`].
pub struct ConfigSpec {
    pub total_days: nat,
    pub min_sets: int,
    pub max_sets: int,
    pub min_exercises_per_day: nat,
    pub max_exercises_per_day: nat,
    pub exempt_muscles: Seq<Seq<char>>,
    pub max_time_per_day: nat,
    pub time_weight: nat,
    pub frequency_weight: nat,
    pub variance_weight: nat,
}

impl View for Config {
    type V = ConfigSpec;

    open spec fn view(&self) -> ConfigSpec {
        ConfigSpec {
            total_days: self.total_days as nat,
            min_sets: self.min_sets as int,
            max_sets: self.max_sets as int,
            min_exercises_per_day: self.min_exercises_per_day as nat,
            max_exercises_per_day: self.max_exercises_per_day as nat,
            exempt_muscles: self.exempt_muscles.deep_view(),
            max_time_per_day: self.max_time_per_day as nat,
            time_weight: self.time_weight as nat,
            frequency_weight: self.frequency_weight as nat,
            variance_weight: self.variance_weight as nat,
        }
    }
}

/// The reference configuration: six days of three to six exercises, two to
/// five sets each, with "Glutes" and "Lower Back" left out of the volume
/// penalty, a daily limit of 50 minutes, and no weight on time, frequency or
/// spread.
pub open spec fn reference_config() -> ConfigSpec {
    ConfigSpec {
        total_days: 6,
        min_sets: 2,
        max_sets: 5,
        min_exercises_per_day: 3,
        max_exercises_per_day: 6,
        exempt_muscles: seq!["Glutes"@, "Lower Back"@],
        max_time_per_day: 50,
        time_weight: 0,
        frequency_weight: 0,
        variance_weight: 0,
    }
}

impl Config {
    /// The reference configuration.
    pub fn reference() -> (config: Config)
        ensures
            config@ == reference_config(),
    {
        let mut exempt: Vec<String> = Vec::new();
        exempt.push("Glutes".to_owned());
        exempt.push("Lower Back".to_owned());
        assert(exempt.deep_view() =~= seq!["Glutes"@, "Lower Back"@]);
        Config {
            total_days: TOTAL_DAYS,
            min_sets: MIN_SETS,
            max_sets: MAX_SETS,
            min_exercises_per_day: MIN_EXERCISES_PER_DAY,
            max_exercises_per_day: MAX_EXERCISES_PER_DAY,
            exempt_muscles: exempt,
            max_time_per_day: MAX_TIME_PER_DAY,
            time_weight: 0,
            frequency_weight: 0,
            variance_weight: 0,
        }
    }
}

/// The model of a schedule: its days, each a sequence of entries.
pub type ScheduleSpec = Seq<Seq<EntrySpec>>;

} // verus!
