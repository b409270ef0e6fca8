use recochan::training::{TrainingSchedule, TrainingStep};

fn run(schedule: &TrainingSchedule, improving_until: usize) -> Vec<TrainingStep> {
    let mut steps = vec![schedule.first_step()];
    loop {
        let last = *steps.last().unwrap();
        if last == TrainingStep::Done {
            return steps;
        }
        let improving = match last {
            TrainingStep::Epoch { epoch, .. } => epoch + 1 < improving_until,
            _ => false,
        };
        steps.push(schedule.next_step(last, improving));
    }
}

#[test]
fn the_default_schedule() {
    let schedule = TrainingSchedule::default();
    assert_eq!(schedule, TrainingSchedule { features: 25, min_steps: 25, max_steps: 120 });
}

#[test]
fn a_run_starts_by_measuring_the_first_feature() {
    assert_eq!(TrainingSchedule::default().first_step(), TrainingStep::Measure { feature: 0 });
    let none = TrainingSchedule { features: 0, min_steps: 25, max_steps: 120 };
    assert_eq!(none.first_step(), TrainingStep::Index);
}

#[test]
fn another_pass_below_the_minimum_and_while_improving() {
    let schedule = TrainingSchedule { features: 1, min_steps: 3, max_steps: 6 };
    assert!(schedule.wants_another_pass(0, false));
    assert!(schedule.wants_another_pass(2, false));
    assert!(!schedule.wants_another_pass(3, false));
    assert!(schedule.wants_another_pass(3, true));
    assert!(schedule.wants_another_pass(5, true));
    assert!(!schedule.wants_another_pass(6, true));
    assert!(!schedule.wants_another_pass(usize::MAX, true));
}

#[test]
fn a_whole_run_in_order() {
    let schedule = TrainingSchedule { features: 2, min_steps: 1, max_steps: 3 };
    let steps = run(&schedule, 2);
    assert_eq!(
        steps,
        vec![
            TrainingStep::Measure { feature: 0 },
            TrainingStep::Epoch { feature: 0, epoch: 0 },
            TrainingStep::Epoch { feature: 0, epoch: 1 },
            TrainingStep::Fold { feature: 0 },
            TrainingStep::Measure { feature: 1 },
            TrainingStep::Epoch { feature: 1, epoch: 0 },
            TrainingStep::Epoch { feature: 1, epoch: 1 },
            TrainingStep::Fold { feature: 1 },
            TrainingStep::Index,
            TrainingStep::Publish,
            TrainingStep::Done,
        ]
    );
}

#[test]
fn a_feature_that_keeps_improving_stops_at_the_maximum() {
    let schedule = TrainingSchedule::default();
    let steps = run(&schedule, usize::MAX);
    let passes = steps.iter().filter(|s| matches!(s, TrainingStep::Epoch { feature: 0, .. })).count();
    assert_eq!(passes, 120);
    assert_eq!(steps.len(), 25 * 122 + 3);
}

#[test]
fn a_feature_that_never_improves_gets_the_minimum() {
    let schedule = TrainingSchedule::default();
    let steps = run(&schedule, 0);
    let passes = steps.iter().filter(|s| matches!(s, TrainingStep::Epoch { feature: 24, .. })).count();
    assert_eq!(passes, 25);
    assert_eq!(steps.len(), 25 * 27 + 3);
}

#[test]
fn no_passes_when_both_bounds_are_zero() {
    let schedule = TrainingSchedule { features: 1, min_steps: 0, max_steps: 0 };
    assert_eq!(schedule.next_step(TrainingStep::Measure { feature: 0 }, true), TrainingStep::Fold { feature: 0 });
}

#[test]
fn the_first_pass_does_not_wait_for_an_improvement() {
    let schedule = TrainingSchedule { features: 1, min_steps: 0, max_steps: 4 };
    assert_eq!(
        schedule.next_step(TrainingStep::Measure { feature: 0 }, false),
        TrainingStep::Epoch { feature: 0, epoch: 0 }
    );
    assert_eq!(
        schedule.next_step(TrainingStep::Epoch { feature: 0, epoch: 0 }, false),
        TrainingStep::Fold { feature: 0 }
    );
}

#[test]
fn steps_at_the_edges() {
    let schedule = TrainingSchedule { features: 2, min_steps: usize::MAX, max_steps: 0 };
    assert_eq!(
        schedule.next_step(TrainingStep::Epoch { feature: 0, epoch: usize::MAX }, true),
        TrainingStep::Fold { feature: 0 }
    );
    assert_eq!(schedule.next_step(TrainingStep::Fold { feature: usize::MAX }, true), TrainingStep::Index);
    assert_eq!(schedule.next_step(TrainingStep::Fold { feature: 1 }, true), TrainingStep::Index);
    assert_eq!(schedule.next_step(TrainingStep::Fold { feature: 0 }, true), TrainingStep::Measure { feature: 1 });
    assert_eq!(schedule.next_step(TrainingStep::Index, true), TrainingStep::Publish);
    assert_eq!(schedule.next_step(TrainingStep::Publish, true), TrainingStep::Done);
    assert_eq!(schedule.next_step(TrainingStep::Done, true), TrainingStep::Done);
}
