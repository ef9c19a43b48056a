use vstd::prelude::*;

verus! {

/// The density correction runs at least this often in a step.
pub const MIN_DENSITY_ITERATIONS: u32 = 2;

/// The divergence correction runs at least this often in a step.
pub const MIN_DIVERGENCE_ITERATIONS: u32 = 1;

/// The passes of one simulation step, in the order in which they run. Each
/// pass reads what the one before it wrote, so none may start before the one
/// before it has ended.
#[derive(Debug, Clone, Copy, PartialEq, Eq, Structural)]
pub enum Pass {
    /// Choose the time step from the fastest particle.
    AdaptTimeStep,
    /// Predict each velocity from the forces other than pressure.
    PredictVelocity,
    /// One round of the density correction.
    CorrectDensity,
    /// Move each particle by its predicted velocity.
    IntegratePosition,
    /// Bring the spatial hash in step with the new positions.
    RebuildHash,
    /// Commit the densities and recompute the stiffness factors.
    RefreshFactors,
    /// One round of the divergence correction.
    CorrectDivergence,
    /// Commit the predicted velocities.
    CommitVelocity,
    /// The step is over.
    Finished,
}

impl Pass {
    /// The place of the pass in the step, from 0.
    pub open spec fn spec_order(self) -> nat {
        match self {
            Pass::AdaptTimeStep => 0,
            Pass::PredictVelocity => 1,
            Pass::CorrectDensity => 2,
            Pass::IntegratePosition => 3,
            Pass::RebuildHash => 4,
            Pass::RefreshFactors => 5,
            Pass::CorrectDivergence => 6,
            Pass::CommitVelocity => 7,
            Pass::Finished => 8,
        }
    }

    pub fn order(self) -> (place: u8)
        ensures
            place == self.spec_order(),
    {
        match self {
            Pass::AdaptTimeStep => 0,
            Pass::PredictVelocity => 1,
            Pass::CorrectDensity => 2,
            Pass::IntegratePosition => 3,
            Pass::RebuildHash => 4,
            Pass::RefreshFactors => 5,
            Pass::CorrectDivergence => 6,
            Pass::CommitVelocity => 7,
            Pass::Finished => 8,
        }
    }

    /// The pass that comes after this one once it is not repeated; after the
    /// last there is none but `Finished`.
    pub open spec fn spec_following(self) -> Pass {
        match self {
            Pass::AdaptTimeStep => Pass::PredictVelocity,
            Pass::PredictVelocity => Pass::CorrectDensity,
            Pass::CorrectDensity => Pass::IntegratePosition,
            Pass::IntegratePosition => Pass::RebuildHash,
            Pass::RebuildHash => Pass::RefreshFactors,
            Pass::RefreshFactors => Pass::CorrectDivergence,
            Pass::CorrectDivergence => Pass::CommitVelocity,
            Pass::CommitVelocity => Pass::Finished,
            Pass::Finished => Pass::Finished,
        }
    }

    #[verifier::when_used_as_spec(spec_following)]
    pub fn following(self) -> (next: Pass)
        ensures
            next == self.spec_following(),
    {
        match self {
            Pass::AdaptTimeStep => Pass::PredictVelocity,
            Pass::PredictVelocity => Pass::CorrectDensity,
            Pass::CorrectDensity => Pass::IntegratePosition,
            Pass::IntegratePosition => Pass::RebuildHash,
            Pass::RebuildHash => Pass::RefreshFactors,
            Pass::RefreshFactors => Pass::CorrectDivergence,
            Pass::CorrectDivergence => Pass::CommitVelocity,
            Pass::CommitVelocity => Pass::Finished,
            Pass::Finished => Pass::Finished,
        }
    }

    /// How often the pass runs whatever its residual: twice for the density
    /// correction, once for the divergence correction and for every pass that
    /// is not repeated.
    pub open spec fn spec_min_iterations(self) -> u32 {
        match self {
            Pass::CorrectDensity => MIN_DENSITY_ITERATIONS,
            Pass::CorrectDivergence => MIN_DIVERGENCE_ITERATIONS,
            Pass::Finished => 0,
            _ => 1,
        }
    }

    #[verifier::when_used_as_spec(spec_min_iterations)]
    pub fn min_iterations(self) -> (least: u32)
        ensures
            least == self.spec_min_iterations(),
    {
        match self {
            Pass::CorrectDensity => MIN_DENSITY_ITERATIONS,
            Pass::CorrectDivergence => MIN_DIVERGENCE_ITERATIONS,
            Pass::Finished => 0,
            _ => 1,
        }
    }

    /// Whether the pass is one of the two corrections, which run until their
    /// residual is within its threshold.
    pub open spec fn spec_iterates(self) -> bool {
        self == Pass::CorrectDensity || self == Pass::CorrectDivergence
    }

    #[verifier::when_used_as_spec(spec_iterates)]
    pub fn iterates(self) -> (yes: bool)
        ensures
            yes == self.spec_iterates(),
    {
        match self {
            Pass::CorrectDensity => true,
            Pass::CorrectDivergence => true,
            _ => false,
        }
    }
}

/// Where a step stands: the pass that is to run next, how many rounds of it
/// have run, and what the two corrections reported when they ended.
#[derive(Debug, Clone, Copy, PartialEq, Eq, Structural)]
pub struct StepPlan {
    /// The pass to run next.
    pub pass: Pass,
    /// The rounds of `pass` that have run.
    pub iteration: u32,
    /// No correction runs more rounds than this, unless its least number of
    /// rounds is greater.
    pub max_iterations: u32,
    /// The density correction ended with its residual within the threshold.
    pub density_converged: bool,
    /// The divergence correction ended with its residual within the threshold.
    pub divergence_converged: bool,
}

impl StepPlan {
    /// The most rounds that any pass of a step with this cap can run.
    pub open spec fn most_rounds(self) -> nat {
        if self.max_iterations > MIN_DENSITY_ITERATIONS {
            self.max_iterations as nat
        } else {
            MIN_DENSITY_ITERATIONS as nat
        }
    }

    /// The plan counts no round that its pass cannot have run.
    pub open spec fn wf(self) -> bool {
        if self.pass.spec_iterates() {
            self.iteration < self.most_rounds()
        } else {
            self.iteration == 0
        }
    }

    /// Whether the pass is to run again after a round that ended with the
    /// residual within its threshold or not: it is, until it has run its
    /// least number of rounds, and from then on while the residual is outside
    /// the threshold and the cap is not reached.
    pub open spec fn spec_repeats(self, within_threshold: bool) -> bool {
        self.pass.spec_iterates() && (self.iteration + 1 < self.pass.spec_min_iterations() || (
        !within_threshold && self.iteration + 1 < self.max_iterations))
    }

    /// The plan after the pass has run once more.
    pub open spec fn spec_advance(self, within_threshold: bool) -> StepPlan {
        if self.spec_repeats(within_threshold) {
            StepPlan { iteration: (self.iteration + 1) as u32, ..self }
        } else {
            StepPlan {
                pass: self.pass.spec_following(),
                iteration: 0,
                max_iterations: self.max_iterations,
                density_converged: if self.pass == Pass::CorrectDensity {
                    within_threshold
                } else {
                    self.density_converged
                },
                divergence_converged: if self.pass == Pass::CorrectDivergence {
                    within_threshold
                } else {
                    self.divergence_converged
                },
            }
        }
    }

    /// An upper bound on the passes that are still to run.
    pub open spec fn remaining(self) -> nat {
        ((8 - self.pass.spec_order()) * (self.most_rounds() + 1) - self.iteration) as nat
    }

    /// The plan of a step that has not begun.
    pub fn start(max_iterations: u32) -> (plan: StepPlan)
        ensures
            plan == (StepPlan {
                pass: Pass::AdaptTimeStep,
                iteration: 0,
                max_iterations,
                density_converged: false,
                divergence_converged: false,
            }),
            plan.wf(),
    {
        StepPlan {
            pass: Pass::AdaptTimeStep,
            iteration: 0,
            max_iterations,
            density_converged: false,
            divergence_converged: false,
        }
    }

    #[verifier::when_used_as_spec(spec_repeats)]
    pub fn repeats(self, within_threshold: bool) -> (again: bool)
        ensures
            again == self.spec_repeats(within_threshold),
    {
        if !self.pass.iterates() || self.iteration == u32::MAX {
            return false;
        }
        let rounds: u32 = self.iteration + 1;
        rounds < self.pass.min_iterations() || (!within_threshold && rounds < self.max_iterations)
    }

    /// Takes note that the pass has run once more, with the residual of a
    /// correction within its threshold or not, and says what is to run next.
    #[verifier::when_used_as_spec(spec_advance)]
    pub fn advance(self, within_threshold: bool) -> (next: StepPlan)
        ensures
            next == self.spec_advance(within_threshold),
            self.wf() ==> next.wf(),
    {
        if self.repeats(within_threshold) {
            StepPlan { iteration: self.iteration + 1, ..self }
        } else {
            StepPlan {
                pass: self.pass.following(),
                iteration: 0,
                max_iterations: self.max_iterations,
                density_converged: match self.pass {
                    Pass::CorrectDensity => within_threshold,
                    _ => self.density_converged,
                },
                divergence_converged: match self.pass {
                    Pass::CorrectDivergence => within_threshold,
                    _ => self.divergence_converged,
                },
            }
        }
    }

    pub fn is_finished(&self) -> (finished: bool)
        ensures
            finished == (self.pass == Pass::Finished),
    {
        match self.pass {
            Pass::Finished => true,
            _ => false,
        }
    }

    /// The passes run in their order: after a pass comes the same pass again
    /// or the one that follows it, never an earlier one and never one further
    /// on; and only a correction comes again.
    pub proof fn lemma_passes_in_order(self, within_threshold: bool)
        requires
            self.pass != Pass::Finished,
        ensures
            self.spec_advance(within_threshold).pass == self.pass || self.spec_advance(
                within_threshold,
            ).pass.spec_order() == self.pass.spec_order() + 1,
            self.spec_advance(within_threshold).pass == self.pass ==> self.pass.spec_iterates(),
            self.spec_advance(within_threshold).max_iterations == self.max_iterations,
    {
    }

    /// The density correction runs twice before anything else runs, and the
    /// divergence correction once, whatever their residuals.
    pub proof fn lemma_least_rounds(self, within_threshold: bool)
        requires
            self.pass.spec_iterates(),
            self.iteration + 1 < self.pass.spec_min_iterations(),
        ensures
            self.spec_advance(within_threshold).pass == self.pass,
            self.spec_advance(within_threshold).iteration == self.iteration + 1,
    {
    }

    /// A correction goes on while its residual is outside the threshold, but
    /// not past the cap; it ends as soon as the residual is within the
    /// threshold and the least number of rounds has run, and then reports
    /// whether it ended within the threshold.
    pub proof fn lemma_correction_ends(self, within_threshold: bool)
        requires
            self.wf(),
            self.pass.spec_iterates(),
            self.iteration + 1 >= self.pass.spec_min_iterations(),
        ensures
            self.spec_advance(within_threshold).pass == self.pass <==> !within_threshold
                && self.iteration + 1 < self.max_iterations,
            self.spec_advance(within_threshold).pass != self.pass ==> (self.pass
                == Pass::CorrectDensity ==> self.spec_advance(within_threshold).density_converged
                == within_threshold) && (self.pass == Pass::CorrectDivergence
                ==> self.spec_advance(within_threshold).divergence_converged == within_threshold),
    {
    }

    /// Every pass brings the end of the step nearer: a step is over after at
    /// most eight times the most rounds of a pass, and one more each.
    pub proof fn lemma_step_ends(self, within_threshold: bool)
        requires
            self.wf(),
            self.pass != Pass::Finished,
        ensures
            self.spec_advance(within_threshold).wf(),
            self.spec_advance(within_threshold).remaining() < self.remaining(),
    {
        let next = self.spec_advance(within_threshold);
        let most = self.most_rounds();
        let left = (8 - self.pass.spec_order()) as int;
        assert(left >= 1);
        assert(left * (most + 1) >= most + 1) by (nonlinear_arith)
            requires
                left >= 1,
                most >= 0,
        ;
        if next.pass != self.pass {
            assert((left - 1) * (most + 1) == left * (most + 1) - (most + 1))
                by (nonlinear_arith);
            assert((left - 1) * (most + 1) >= 0) by (nonlinear_arith)
                requires
                    left >= 1,
                    most >= 0,
            ;
        }
    }
}

} // verus!
