//! What a report of a schedule states beside the schedule itself: the time
//! that a day takes and how each muscle stands against its target.

use vstd::prelude::*;
use crate::catalog::contains_name;
use crate::structs::{Config, EntrySpec, MuscleGroup, RoutineEntry, TIME_PER_SET};

verus! {

/// The minutes that the entries take: two for each set.
pub open spec fn day_minutes(day: Seq<EntrySpec>) -> int
    decreases day.len(),
{
    if day.len() == 0 {
        0
    } else {
        day_minutes(day.drop_last()) + TIME_PER_SET * day.last().sets
    }
}

/// The minutes that the day takes.
pub fn time_estimate(day: &Vec<RoutineEntry>) -> (minutes: i128)
    ensures
        minutes == day_minutes(day.deep_view()),
{
    let ghost v = day.deep_view();
    let mut minutes: i128 = 0;
    let mut i: usize = 0;
    while i < day.len()
        invariant
            i <= day.len(),
            v == day.deep_view(),
            minutes == day_minutes(v.take(i as int)),
            -(i * 0x1_0000_0000) <= minutes <= i * 0x1_0000_0000,
        decreases day.len() - i,
    {
        assert(v.take(i as int + 1).drop_last() =~= v.take(i as int));
        assert(v.take(i as int + 1).last() == day[i as int]@);
        minutes = minutes + TIME_PER_SET as i128 * (day[i].sets as i128);
        i += 1;
    }
    assert(v.take(day.len() as int) =~= v);
    minutes
}

/// How a muscle stands against its target.
#[derive(Clone, Copy, Debug, PartialEq, Eq, Structural)]
pub enum VolumeStatus {
    /// The muscle is exempt from the volume penalty.
    NotOptimized,
    /// The volume is under the target.
    BelowTarget,
    /// The volume is over the upper bound.
    ExceedsUpperBound,
    /// The volume lies between the target and the upper bound.
    OnTarget,
}

/// How a muscle with this volume, in quarter sets, stands against its target.
pub open spec fn status_of(
    muscle: Seq<char>,
    volume: int,
    group: MuscleGroup,
    exempt: Seq<Seq<char>>,
) -> VolumeStatus {
    if exempt.contains(muscle) {
        VolumeStatus::NotOptimized
    } else if volume < group.target {
        VolumeStatus::BelowTarget
    } else if volume > group.upper_bound {
        VolumeStatus::ExceedsUpperBound
    } else {
        VolumeStatus::OnTarget
    }
}

/// How a muscle with this volume, in quarter sets, stands against its target.
pub fn volume_status(muscle: &String, volume: i128, group: &MuscleGroup, config: &Config) -> (status:
    VolumeStatus)
    ensures
        status == status_of(muscle@, volume as int, *group, config@.exempt_muscles),
{
    if contains_name(&config.exempt_muscles, muscle) {
        VolumeStatus::NotOptimized
    } else if volume < group.target as i128 {
        VolumeStatus::BelowTarget
    } else if volume > group.upper_bound as i128 {
        VolumeStatus::ExceedsUpperBound
    } else {
        VolumeStatus::OnTarget
    }
}

/// The words of a status.
pub open spec fn label_of(status: VolumeStatus) -> Seq<char> {
    match status {
        VolumeStatus::NotOptimized => "not optimized"@,
        VolumeStatus::BelowTarget => "below target"@,
        VolumeStatus::ExceedsUpperBound => "exceeds upper bound"@,
        VolumeStatus::OnTarget => "on target"@,
    }
}

impl VolumeStatus {
    /// The words of the status.
    pub fn label(&self) -> (words: String)
        ensures
            words@ == label_of(*self),
    {
        match *self {
            VolumeStatus::NotOptimized => "not optimized".to_owned(),
            VolumeStatus::BelowTarget => "below target".to_owned(),
            VolumeStatus::ExceedsUpperBound => "exceeds upper bound".to_owned(),
            VolumeStatus::OnTarget => "on target".to_owned(),
        }
    }
}

} // verus!
