//! The book of the annealing search: the current schedule, the best one seen,
//! and the rule by which a candidate is accepted.
//!
//! The search itself alternates between this book and a random draw that
//! depends on the temperature: the caller proposes a candidate, asks whether
//! a draw is needed, makes it, and offers the candidate with its outcome.

use vstd::prelude::*;
use rand::rngs::StdRng;
use crate::cost::{compute_cost, cost_below, cost_of, Cost};
use crate::moves::{setting_of, Setting};
use crate::perturb::{perturb_routine, perturbed};
use crate::structs::{clone_routine, Config, Exercise, MuscleGroup, RoutineEntry, ScheduleSpec,
    MAX_DAYS, MAX_TARGETS};

verus! {

/// The state of a search.
pub struct Search {
    pub current: Vec<Vec<RoutineEntry>>,
    pub current_cost: Cost,
    pub best: Vec<Vec<RoutineEntry>>,
    pub best_cost: Cost,
}

/// The model of a [`Search`].
pub struct SearchSpec {
    pub current: ScheduleSpec,
    pub current_cost: Option<int>,
    pub best: ScheduleSpec,
    pub best_cost: Option<int>,
}

impl View for Search {
    type V = SearchSpec;

    open spec fn view(&self) -> SearchSpec {
        SearchSpec {
            current: self.current.deep_view(),
            current_cost: self.current_cost@,
            best: self.best.deep_view(),
            best_cost: self.best_cost@,
        }
    }
}

/// A candidate of this cost is accepted only after a random draw: its cost is
/// finite and not below the current one.
pub open spec fn draw_decides(current_cost: Option<int>, candidate_cost: Option<int>) -> bool {
    candidate_cost is Some && !cost_below(candidate_cost, current_cost)
}

/// The acceptance rule: a candidate of infinite cost is never accepted, one
/// of lower cost than the current always, and any other where the draw came
/// out in its favour.
pub open spec fn accepts(current_cost: Option<int>, candidate_cost: Option<int>, draw: bool) -> bool {
    candidate_cost is Some && (cost_below(candidate_cost, current_cost) || draw)
}

/// The state after a candidate was offered: an accepted candidate becomes the
/// current schedule, and the best one too if its cost is below the best.
pub open spec fn step(
    state: SearchSpec,
    candidate: ScheduleSpec,
    candidate_cost: Option<int>,
    draw: bool,
) -> SearchSpec {
    if accepts(state.current_cost, candidate_cost, draw) {
        if cost_below(candidate_cost, state.best_cost) {
            SearchSpec {
                current: candidate,
                current_cost: candidate_cost,
                best: candidate,
                best_cost: candidate_cost,
            }
        } else {
            SearchSpec {
                current: candidate,
                current_cost: candidate_cost,
                best: state.best,
                best_cost: state.best_cost,
            }
        }
    } else {
        state
    }
}

/// The costs of the state are those of its schedules, and the best cost is
/// not above the current one.
pub open spec fn consistent(state: SearchSpec, setting: Setting) -> bool {
    &&& state.current_cost == cost_of(
        state.current,
        setting.targets,
        setting.catalog,
        setting.config,
    )
    &&& state.best_cost == cost_of(state.best, setting.targets, setting.catalog, setting.config)
    &&& !cost_below(state.current_cost, state.best_cost)
}

/// The best cost never rises: after any offer it is the best cost of before
/// or a lower one, and it changes only together with the best schedule.
pub proof fn lemma_best_never_worsens(
    state: SearchSpec,
    candidate: ScheduleSpec,
    candidate_cost: Option<int>,
    draw: bool,
)
    ensures
        !cost_below(state.best_cost, step(state, candidate, candidate_cost, draw).best_cost),
        step(state, candidate, candidate_cost, draw).best_cost == state.best_cost || (step(
            state,
            candidate,
            candidate_cost,
            draw,
        ).best_cost == candidate_cost && step(state, candidate, candidate_cost, draw).best
            == candidate),
{
}

/// An offer of a candidate with its true cost keeps the state consistent.
pub proof fn lemma_step_consistent(
    state: SearchSpec,
    candidate: ScheduleSpec,
    candidate_cost: Option<int>,
    draw: bool,
    setting: Setting,
)
    requires
        consistent(state, setting),
        candidate_cost == cost_of(candidate, setting.targets, setting.catalog, setting.config),
    ensures
        consistent(step(state, candidate, candidate_cost, draw), setting),
{
}

/// What the draw has no part in: a candidate of lower cost than the current
/// one is accepted whatever the draw, and one of infinite cost never.
pub proof fn lemma_acceptance_bounds(current_cost: Option<int>, candidate_cost: Option<int>, draw: bool)
    ensures
        candidate_cost is Some && cost_below(candidate_cost, current_cost) ==> accepts(
            current_cost,
            candidate_cost,
            draw,
        ),
        candidate_cost is None ==> !accepts(current_cost, candidate_cost, draw),
        draw_decides(current_cost, candidate_cost) ==> accepts(current_cost, candidate_cost, draw)
            == draw,
{
}

impl Search {
    /// The search that starts at `initial`, whose cost is `cost`.
    pub fn start(initial: Vec<Vec<RoutineEntry>>, cost: Cost) -> (search: Search)
        ensures
            search@ == (SearchSpec {
                current: initial.deep_view(),
                current_cost: cost@,
                best: initial.deep_view(),
                best_cost: cost@,
            }),
    {
        let best = clone_routine(&initial);
        Search { current: initial, current_cost: cost, best, best_cost: cost }
    }

    /// A neighbour of the current schedule, with its cost.
    pub fn propose(
        &self,
        exercises: &Vec<Exercise>,
        mav_targets: &Vec<(String, MuscleGroup)>,
        recovery: &Vec<(String, usize)>,
        config: &Config,
        rng: &mut StdRng,
    ) -> (candidate: (Vec<Vec<RoutineEntry>>, Cost))
        requires
            0 < self.current.len() <= MAX_DAYS,
            mav_targets.len() <= MAX_TARGETS,
            config.min_sets <= config.max_sets,
        ensures
            candidate.0.len() == self.current.len(),
            perturbed(
                self@.current,
                candidate.0.deep_view(),
                setting_of(exercises, mav_targets, recovery, config),
            ),
            candidate.1@ == cost_of(
                candidate.0.deep_view(),
                mav_targets.deep_view(),
                exercises.deep_view(),
                config@,
            ),
    {
        let mut routine = clone_routine(&self.current);
        assert(routine.len() == routine.deep_view().len());
        assert(self.current.len() == self.current.deep_view().len());
        perturb_routine(&mut routine, exercises, mav_targets, recovery, config, rng);
        let cost = compute_cost(&routine, mav_targets, exercises, config);
        (routine, cost)
    }

    /// Whether a candidate of this cost is accepted only after a random draw.
    pub fn needs_draw(&self, candidate_cost: &Cost) -> (needed: bool)
        ensures
            needed == draw_decides(self@.current_cost, candidate_cost@),
    {
        candidate_cost.is_finite() && !candidate_cost.is_below(&self.current_cost)
    }

    /// Offers a candidate: it is accepted by the acceptance rule, where `draw`
    /// is the outcome of the random draw and counts only where one was
    /// needed. The best cost never rises.
    pub fn offer(&mut self, candidate: Vec<Vec<RoutineEntry>>, candidate_cost: Cost, draw: bool) -> (accepted:
        bool)
        ensures
            accepted == accepts(old(self)@.current_cost, candidate_cost@, draw),
            final(self)@ == step(old(self)@, candidate.deep_view(), candidate_cost@, draw),
            !cost_below(old(self)@.best_cost, final(self)@.best_cost),
    {
        if candidate_cost.is_finite() && (candidate_cost.is_below(&self.current_cost) || draw) {
            if candidate_cost.is_below(&self.best_cost) {
                self.best = clone_routine(&candidate);
                self.best_cost = candidate_cost;
            }
            self.current = candidate;
            self.current_cost = candidate_cost;
            true
        } else {
            false
        }
    }

    /// The best schedule seen, with its cost.
    pub fn into_best(self) -> (best: (Vec<Vec<RoutineEntry>>, Cost))
        ensures
            best.0.deep_view() == self@.best,
            best.1@ == self@.best_cost,
    {
        (self.best, self.best_cost)
    }
}

} // verus!
