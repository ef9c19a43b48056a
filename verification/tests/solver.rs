use nikola::fluids::solver::{Pass, StepPlan, MIN_DENSITY_ITERATIONS, MIN_DIVERGENCE_ITERATIONS};

fn run(max_iterations: u32, residual_within: impl Fn(Pass, u32) -> bool) -> (Vec<Pass>, StepPlan) {
    let mut plan = StepPlan::start(max_iterations);
    let mut passes = Vec::new();
    while !plan.is_finished() {
        passes.push(plan.pass);
        plan = plan.advance(residual_within(plan.pass, plan.iteration));
        assert!(passes.len() < 10_000);
    }
    (passes, plan)
}

#[test]
fn a_step_starts_with_the_time_step() {
    let plan = StepPlan::start(50);
    assert_eq!(plan.pass, Pass::AdaptTimeStep);
    assert_eq!(plan.iteration, 0);
    assert_eq!(plan.max_iterations, 50);
    assert!(!plan.density_converged);
    assert!(!plan.divergence_converged);
    assert!(!plan.is_finished());
}

#[test]
fn the_least_rounds_are_two_and_one() {
    assert_eq!(MIN_DENSITY_ITERATIONS, 2);
    assert_eq!(MIN_DIVERGENCE_ITERATIONS, 1);
    assert_eq!(Pass::CorrectDensity.min_iterations(), 2);
    assert_eq!(Pass::CorrectDivergence.min_iterations(), 1);
    assert_eq!(Pass::RebuildHash.min_iterations(), 1);
    assert_eq!(Pass::Finished.min_iterations(), 0);
}

#[test]
fn a_step_that_converges_at_once_runs_the_density_correction_twice() {
    let (passes, plan) = run(100, |_, _| true);
    assert_eq!(
        passes,
        vec![
            Pass::AdaptTimeStep,
            Pass::PredictVelocity,
            Pass::CorrectDensity,
            Pass::CorrectDensity,
            Pass::IntegratePosition,
            Pass::RebuildHash,
            Pass::RefreshFactors,
            Pass::CorrectDivergence,
            Pass::CommitVelocity,
        ]
    );
    assert!(plan.is_finished());
    assert!(plan.density_converged);
    assert!(plan.divergence_converged);
}

#[test]
fn a_correction_goes_on_until_its_residual_is_within_the_threshold() {
    let (passes, plan) = run(100, |pass, rounds| match pass {
        Pass::CorrectDensity => rounds >= 4,
        Pass::CorrectDivergence => rounds >= 2,
        _ => false,
    });
    assert_eq!(passes.iter().filter(|pass| **pass == Pass::CorrectDensity).count(), 5);
    assert_eq!(passes.iter().filter(|pass| **pass == Pass::CorrectDivergence).count(), 3);
    assert_eq!(passes.len(), 6 + 5 + 3);
    assert!(plan.density_converged);
    assert!(plan.divergence_converged);
}

#[test]
fn a_correction_that_never_converges_stops_at_the_cap_and_says_so() {
    let (passes, plan) = run(7, |_, _| false);
    assert_eq!(passes.iter().filter(|pass| **pass == Pass::CorrectDensity).count(), 7);
    assert_eq!(passes.iter().filter(|pass| **pass == Pass::CorrectDivergence).count(), 7);
    assert!(plan.is_finished());
    assert!(!plan.density_converged);
    assert!(!plan.divergence_converged);
}

#[test]
fn the_least_rounds_run_even_under_a_smaller_cap() {
    let (passes, plan) = run(0, |_, _| false);
    assert_eq!(passes.iter().filter(|pass| **pass == Pass::CorrectDensity).count(), 2);
    assert_eq!(passes.iter().filter(|pass| **pass == Pass::CorrectDivergence).count(), 1);
    assert!(!plan.density_converged);
}

#[test]
fn the_passes_come_in_their_order() {
    let (passes, _) = run(5, |_, rounds| rounds >= 2);
    for pair in passes.windows(2) {
        let (before, after) = (pair[0].order(), pair[1].order());
        assert!(after == before || after == before + 1);
        if after == before {
            assert!(pair[0].iterates());
        }
    }
    let rebuild = passes.iter().position(|pass| *pass == Pass::RebuildHash).unwrap();
    let integrate = passes.iter().position(|pass| *pass == Pass::IntegratePosition).unwrap();
    let refresh = passes.iter().position(|pass| *pass == Pass::RefreshFactors).unwrap();
    assert!(integrate < rebuild && rebuild < refresh);
}

#[test]
fn each_pass_is_followed_by_the_next() {
    assert_eq!(Pass::AdaptTimeStep.following(), Pass::PredictVelocity);
    assert_eq!(Pass::PredictVelocity.following(), Pass::CorrectDensity);
    assert_eq!(Pass::CorrectDensity.following(), Pass::IntegratePosition);
    assert_eq!(Pass::IntegratePosition.following(), Pass::RebuildHash);
    assert_eq!(Pass::RebuildHash.following(), Pass::RefreshFactors);
    assert_eq!(Pass::RefreshFactors.following(), Pass::CorrectDivergence);
    assert_eq!(Pass::CorrectDivergence.following(), Pass::CommitVelocity);
    assert_eq!(Pass::CommitVelocity.following(), Pass::Finished);
    assert_eq!(Pass::Finished.following(), Pass::Finished);
    assert_eq!(Pass::AdaptTimeStep.order(), 0);
    assert_eq!(Pass::Finished.order(), 8);
}

#[test]
fn only_the_corrections_repeat() {
    let plan = StepPlan::start(10);
    assert!(!plan.repeats(false));
    let density = plan.advance(false).advance(false);
    assert_eq!(density.pass, Pass::CorrectDensity);
    assert!(density.repeats(true));
    let second = density.advance(true);
    assert_eq!(second.iteration, 1);
    assert!(!second.repeats(true));
    assert!(second.repeats(false));
}

#[test]
fn a_finished_plan_stays_finished() {
    let (_, plan) = run(3, |_, _| true);
    let again = plan.advance(false);
    assert!(again.is_finished());
    assert_eq!(again, plan);
}
