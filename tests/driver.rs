use quadprogpp::{iteration_limit, Action, Driver, Error, Event, Failure, Phase, Sizes};

#[test]
fn unconstrained_problem_finishes_at_once() {
    let mut d = Driver::for_problem(Sizes { n: 2, p: 0, m: 0 });
    assert_eq!(d.current_phase(), Phase::Select);
    assert_eq!(d.outcome(), None);
    assert!(!d.accepts(Event::Violated { ip: 0 }));
    assert!(d.accepts(Event::Satisfied));
    assert_eq!(d.advance(Event::Satisfied), Action::Keep);
    assert_eq!(d.current_phase(), Phase::Optimal);
    assert_eq!(d.outcome(), Some(Ok(())));
    assert_eq!(d.working_set().len(), 0);
}

#[test]
fn equalities_come_first() {
    let mut d = Driver::for_problem(Sizes { n: 2, p: 1, m: 3 });
    assert_eq!(d.current_phase(), Phase::Equalities);
    assert!(!d.accepts(Event::Satisfied));
    assert_eq!(d.advance(Event::EqualityAdded), Action::Added);
    assert_eq!(d.current_phase(), Phase::Select);
    assert_eq!(d.working_set().active_equalities(), 1);
    assert!(d.is_eligible(0) && d.is_eligible(2) && !d.is_eligible(3));
    assert_eq!(d.advance(Event::Violated { ip: 1 }), Action::Keep);
    assert_eq!(d.current_phase(), Phase::Step { ip: 1 });
    assert_eq!(d.advance(Event::FullStep), Action::Added);
    assert_eq!(d.current_phase(), Phase::Select);
    assert!(d.working_set().is_full());
    assert!(!d.is_eligible(1));
    assert_eq!(d.advance(Event::Satisfied), Action::Keep);
    assert_eq!(d.outcome(), Some(Ok(())));
    assert_eq!(d.working_set().inequalities(), &vec![1]);
    assert_eq!(d.iteration_count(), 4);
}

#[test]
fn dependent_equality_fails() {
    let mut d = Driver::for_problem(Sizes { n: 2, p: 2, m: 0 });
    assert_eq!(d.advance(Event::EqualityAdded), Action::Added);
    assert_eq!(d.current_phase(), Phase::Equalities);
    assert_eq!(d.advance(Event::EqualityDependent), Action::Keep);
    assert_eq!(
        d.outcome(),
        Some(Err(Error::Numerical { reason: Failure::DependentEqualities }))
    );
}

#[test]
fn more_equalities_than_variables_fail() {
    let mut d = Driver::new(1, 2, 0, 100);
    assert_eq!(d.advance(Event::EqualityAdded), Action::Added);
    assert_eq!(d.advance(Event::EqualityAdded), Action::Keep);
    assert_eq!(
        d.current_phase(),
        Phase::Failed { reason: Failure::DependentEqualities }
    );
}

#[test]
fn contradictory_inequalities_are_infeasible() {
    // x1 >= 1 and -x1 >= 0 over one variable.
    let mut d = Driver::for_problem(Sizes { n: 1, p: 0, m: 2 });
    assert_eq!(d.advance(Event::Violated { ip: 0 }), Action::Keep);
    assert_eq!(d.advance(Event::FullStep), Action::Added);
    assert_eq!(d.advance(Event::Violated { ip: 1 }), Action::Keep);
    assert!(d.accepts(Event::PartialStep { l: 0 }));
    assert!(!d.accepts(Event::PartialStep { l: 1 }));
    assert_eq!(d.advance(Event::PartialStep { l: 0 }), Action::Dropped { slot: 0 });
    assert_eq!(d.current_phase(), Phase::Step { ip: 1 });
    assert_eq!(d.working_set().len(), 0);
    assert_eq!(d.advance(Event::Unbounded), Action::Keep);
    assert_eq!(d.current_phase(), Phase::Infeasible);
    assert_eq!(d.outcome(), Some(Err(Error::Infeasible)));
}

#[test]
fn dependent_step_restores_and_excludes() {
    let mut d = Driver::for_problem(Sizes { n: 3, p: 0, m: 3 });
    assert_eq!(d.advance(Event::Violated { ip: 2 }), Action::Keep);
    assert_eq!(d.advance(Event::FullStep), Action::Added);
    assert_eq!(d.advance(Event::Violated { ip: 0 }), Action::Keep);
    assert_eq!(d.advance(Event::PartialStep { l: 2 }), Action::Dropped { slot: 0 });
    assert_eq!(d.advance(Event::FullStepDependent), Action::Restored);
    assert_eq!(d.current_phase(), Phase::Select);
    assert_eq!(d.working_set().inequalities(), &vec![2]);
    assert!(!d.is_eligible(0));
    assert!(d.is_eligible(1));
    assert!(!d.accepts(Event::Violated { ip: 0 }));
    assert_eq!(d.advance(Event::Violated { ip: 1 }), Action::Keep);
    assert_eq!(d.advance(Event::FullStep), Action::Added);
    assert!(d.is_eligible(0));
    assert_eq!(d.working_set().inequalities(), &vec![2, 1]);
}

#[test]
fn full_step_on_full_set_counts_as_dependent() {
    let mut d = Driver::for_problem(Sizes { n: 1, p: 0, m: 2 });
    assert_eq!(d.advance(Event::Violated { ip: 0 }), Action::Keep);
    assert_eq!(d.advance(Event::FullStep), Action::Added);
    assert_eq!(d.advance(Event::Violated { ip: 1 }), Action::Keep);
    assert_eq!(d.advance(Event::FullStep), Action::Restored);
    assert_eq!(d.working_set().inequalities(), &vec![0]);
    assert!(!d.is_eligible(1));
}

#[test]
fn iteration_limit_gives_up() {
    let mut d = Driver::new(2, 0, 1, 1);
    assert_eq!(d.advance(Event::Violated { ip: 0 }), Action::Keep);
    assert_eq!(d.advance(Event::FullStep), Action::Keep);
    assert_eq!(d.current_phase(), Phase::Failed { reason: Failure::IterationLimit });
    assert_eq!(d.iteration_count(), 1);
    assert_eq!(d.working_set().len(), 0);
    assert_eq!(d.outcome(), Some(Err(Error::Numerical { reason: Failure::IterationLimit })));
}

#[test]
fn iteration_limit_values() {
    assert_eq!(iteration_limit(Sizes { n: 2, p: 1, m: 3 }), 168);
    assert_eq!(iteration_limit(Sizes { n: 0, p: 0, m: 0 }), 8);
    assert_eq!(iteration_limit(Sizes { n: usize::MAX, p: 0, m: 0 }), usize::MAX);
    assert_eq!(iteration_limit(Sizes { n: 1, p: usize::MAX, m: usize::MAX }), usize::MAX);
}

#[test]
fn same_events_give_same_decisions() {
    let run = || {
        let mut d = Driver::for_problem(Sizes { n: 2, p: 1, m: 3 });
        let mut acts = Vec::new();
        for ev in [
            Event::EqualityAdded,
            Event::Violated { ip: 2 },
            Event::FullStep,
            Event::Violated { ip: 0 },
            Event::PartialStep { l: 2 },
            Event::FullStep,
            Event::Satisfied,
        ] {
            acts.push(d.advance(ev));
        }
        (acts, d.current_phase(), d.working_set().inequalities().clone())
    };
    let first = run();
    assert_eq!(first, run());
    assert_eq!(first.2, vec![0]);
}

#[test]
fn only_excluded_violations_end_blocked() {
    let mut d = Driver::for_problem(Sizes { n: 2, p: 0, m: 2 });
    assert_eq!(d.advance(Event::Violated { ip: 0 }), Action::Keep);
    assert_eq!(d.advance(Event::FullStepDependent), Action::Restored);
    assert!(d.has_excluded());
    // Inequality 0 is still violated, but excluded; 1 holds.
    let ev = d.choose_violated(&vec![10, 200], 100);
    assert_eq!(ev, Event::Blocked);
    assert_eq!(d.advance(ev), Action::Keep);
    assert_eq!(
        d.outcome(),
        Some(Err(Error::Numerical { reason: Failure::DependentInequalities }))
    );
}

#[test]
fn satisfied_needs_every_inactive_inequality_to_hold() {
    let mut d = Driver::for_problem(Sizes { n: 2, p: 0, m: 3 });
    assert_eq!(d.choose_violated(&vec![100, 150, 120], 100), Event::Satisfied);
    assert_eq!(d.choose_violated(&vec![100, 99, 120], 100), Event::Violated { ip: 1 });
    assert_eq!(d.advance(Event::Violated { ip: 1 }), Action::Keep);
    assert_eq!(d.advance(Event::FullStep), Action::Added);
    // An active inequality below the bound does not count.
    assert_eq!(d.choose_violated(&vec![100, 5, 120], 100), Event::Satisfied);
}

#[test]
fn unexpected_event_fails_the_solve() {
    let mut d = Driver::for_problem(Sizes { n: 2, p: 0, m: 2 });
    assert!(!d.accepts(Event::Blocked));
    assert_eq!(d.advance(Event::Blocked), Action::Keep);
    assert_eq!(d.current_phase(), Phase::Failed { reason: Failure::UnexpectedEvent });
    assert_eq!(d.iteration_count(), 0);

    let mut d = Driver::for_problem(Sizes { n: 2, p: 0, m: 2 });
    d.advance(Event::Violated { ip: 0 });
    assert_eq!(d.advance(Event::PartialStep { l: 1 }), Action::Keep);
    assert_eq!(
        d.outcome(),
        Some(Err(Error::Numerical { reason: Failure::UnexpectedEvent }))
    );
}

#[test]
fn finished_solve_stays_finished() {
    let mut d = Driver::for_problem(Sizes { n: 2, p: 0, m: 0 });
    assert_eq!(d.advance(Event::Satisfied), Action::Keep);
    assert!(d.is_over());
    assert_eq!(d.advance(Event::Unbounded), Action::Keep);
    assert_eq!(d.current_phase(), Phase::Optimal);
    assert_eq!(d.iteration_count(), 1);
}
