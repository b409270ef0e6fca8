//! The order of work of one training run.
//!
//! Latent features are trained one after the other, each on what the
//! features before it left unexplained. The arithmetic of a run belongs to
//! whoever drives it; which piece of work comes next is decided here.

use vstd::prelude::*;

verus! {

/// How many features a run trains, and how many passes over the ratings
/// each feature gets at least and at most.
#[derive(Clone, Copy, Debug, PartialEq, Eq, Structural)]
pub struct TrainingSchedule {
    pub features: usize,
    pub min_steps: usize,
    pub max_steps: usize,
}

/// One piece of work of a training run.
#[derive(Clone, Copy, Debug, PartialEq, Eq, Structural)]
pub enum TrainingStep {
    /// Measure the error with the feature still at its initial value.
    Measure { feature: usize },
    /// Make pass number `epoch` over the ratings, then measure the error again.
    Epoch { feature: usize, epoch: usize },
    /// Fold the finished feature into the cached predictions.
    Fold { feature: usize },
    /// Build the spatial indices over the trained features.
    Index,
    /// Put the new model in the place of the old one.
    Publish,
    /// Nothing is left to do.
    Done,
}

impl Default for TrainingSchedule {
    fn default() -> (schedule: Self)
        ensures
            schedule == (TrainingSchedule { features: 25, min_steps: 25, max_steps: 120 }),
    {
        TrainingSchedule { features: 25, min_steps: 25, max_steps: 120 }
    }
}

impl TrainingSchedule {
    /// The largest number of passes that one feature can get.
    pub open spec fn pass_limit(self) -> nat {
        if self.min_steps >= self.max_steps {
            self.min_steps as nat
        } else {
            self.max_steps as nat
        }
    }

    /// Whether a feature that has had `passes` passes gets another one:
    /// always below the minimum, never from the maximum on, and in between
    /// as long as the last pass still improved the error by more than the
    /// threshold.
    pub open spec fn continues(self, passes: int, improving: bool) -> bool {
        passes < self.min_steps || (passes < self.max_steps && improving)
    }

    /// The work that follows `step`. After an `Epoch`, `improving` says
    /// whether that pass lowered the error by more than the threshold;
    /// after any other step it is not looked at. Before the first pass of
    /// a feature nothing has been measured against, and the feature is
    /// taken to be improving.
    pub open spec fn successor(self, step: TrainingStep, improving: bool) -> TrainingStep {
        match step {
            TrainingStep::Measure { feature } => if self.continues(0, true) {
                TrainingStep::Epoch { feature, epoch: 0 }
            } else {
                TrainingStep::Fold { feature }
            },
            TrainingStep::Epoch { feature, epoch } => if self.continues(epoch + 1, improving) {
                TrainingStep::Epoch { feature, epoch: (epoch + 1) as usize }
            } else {
                TrainingStep::Fold { feature }
            },
            TrainingStep::Fold { feature } => if feature + 1 < self.features {
                TrainingStep::Measure { feature: (feature + 1) as usize }
            } else {
                TrainingStep::Index
            },
            TrainingStep::Index => TrainingStep::Publish,
            TrainingStep::Publish => TrainingStep::Done,
            TrainingStep::Done => TrainingStep::Done,
        }
    }

    /// The steps that a run can reach: features below the number of
    /// features, passes below the limit.
    pub open spec fn admits(self, step: TrainingStep) -> bool {
        match step {
            TrainingStep::Measure { feature } => feature < self.features,
            TrainingStep::Epoch { feature, epoch } => feature < self.features && epoch
                < self.pass_limit(),
            TrainingStep::Fold { feature } => feature < self.features,
            _ => true,
        }
    }

    /// An upper bound on the number of steps that follow `step` in any run.
    pub open spec fn steps_left(self, step: TrainingStep) -> nat {
        let per_feature = self.pass_limit() + 2;
        match step {
            TrainingStep::Measure { feature } => ((self.features - feature) * per_feature + 2) as nat,
            TrainingStep::Epoch { feature, epoch } => ((self.features - feature - 1) * per_feature
                + (self.pass_limit() - epoch) + 3) as nat,
            TrainingStep::Fold { feature } => ((self.features - feature - 1) * per_feature + 3) as nat,
            TrainingStep::Index => 2,
            TrainingStep::Publish => 1,
            TrainingStep::Done => 0,
        }
    }

    /// The first step of a run.
    pub fn first_step(&self) -> (step: TrainingStep)
        ensures
            step == (if self.features > 0 {
                TrainingStep::Measure { feature: 0 }
            } else {
                TrainingStep::Index
            }),
            self.admits(step),
    {
        if self.features > 0 {
            TrainingStep::Measure { feature: 0 }
        } else {
            TrainingStep::Index
        }
    }

    /// Whether a feature that has had `passes` passes gets another one.
    pub fn wants_another_pass(&self, passes: usize, improving: bool) -> (more: bool)
        ensures
            more == self.continues(passes as int, improving),
    {
        passes < self.min_steps || (passes < self.max_steps && improving)
    }

    /// The step that follows `step`.
    pub fn next_step(&self, step: TrainingStep, improving: bool) -> (next: TrainingStep)
        ensures
            next == self.successor(step, improving),
    {
        match step {
            TrainingStep::Measure { feature } => {
                if self.wants_another_pass(0, true) {
                    TrainingStep::Epoch { feature, epoch: 0 }
                } else {
                    TrainingStep::Fold { feature }
                }
            },
            TrainingStep::Epoch { feature, epoch } => {
                if epoch < usize::MAX && self.wants_another_pass(epoch + 1, improving) {
                    TrainingStep::Epoch { feature, epoch: epoch + 1 }
                } else {
                    TrainingStep::Fold { feature }
                }
            },
            TrainingStep::Fold { feature } => {
                if feature < self.features && feature + 1 < self.features {
                    TrainingStep::Measure { feature: feature + 1 }
                } else {
                    TrainingStep::Index
                }
            },
            TrainingStep::Index => TrainingStep::Publish,
            TrainingStep::Publish => TrainingStep::Done,
            TrainingStep::Done => TrainingStep::Done,
        }
    }
}

/// A run stays within the steps that the schedule admits, and every step
/// but the last brings it nearer to its end: whatever the measurements
/// say, a run is over after at most `steps_left` of the first step.
pub proof fn lemma_run_ends(schedule: TrainingSchedule, step: TrainingStep, improving: bool)
    requires
        schedule.admits(step),
    ensures
        schedule.admits(schedule.successor(step, improving)),
        step != TrainingStep::Done ==> schedule.steps_left(schedule.successor(step, improving))
            < schedule.steps_left(step),
{
    let per_feature = schedule.pass_limit() + 2;
    let features = schedule.features as int;
    match step {
        TrainingStep::Measure { feature } => {
            assert((features - feature) * per_feature == (features - feature - 1) * per_feature
                + per_feature) by (nonlinear_arith);
            assert((features - feature - 1) * per_feature >= 0) by (nonlinear_arith)
                requires
                    features - feature - 1 >= 0,
                    per_feature >= 0,
            ;
        },
        TrainingStep::Epoch { feature, epoch } => {
            assert((features - feature - 1) * per_feature >= 0) by (nonlinear_arith)
                requires
                    features - feature - 1 >= 0,
                    per_feature >= 0,
            ;
        },
        TrainingStep::Fold { feature } => {
            if feature + 1 < features {
                assert((features - feature - 1) * per_feature >= 0) by (nonlinear_arith)
                    requires
                        features - feature - 1 >= 0,
                        per_feature >= 0,
                ;
            } else {
                assert((features - feature - 1) * per_feature == 0) by (nonlinear_arith)
                    requires
                        features - feature - 1 == 0,
                ;
            }
        },
        _ => {},
    }
}

/// A feature is folded only after it has had its minimum of passes: the
/// pass before a `Fold` was at least pass number `min_steps - 1`, and a
/// feature that is folded without any pass has a minimum of zero.
pub proof fn lemma_minimum_is_kept(schedule: TrainingSchedule, step: TrainingStep, improving: bool)
    requires
        schedule.successor(step, improving) is Fold,
    ensures
        step matches TrainingStep::Epoch { epoch, .. } ==> epoch + 1 >= schedule.min_steps,
        step is Measure ==> schedule.min_steps == 0 && schedule.max_steps == 0,
        step is Epoch || step is Measure,
{
}

} // verus!
