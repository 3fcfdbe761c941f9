use rshome::supervisor::{supervise_exit, ActorError, ActorExit, SupervisorDecision, SupervisorStrategy};

const ONE_FOR_ONE: SupervisorStrategy = SupervisorStrategy::OneForOne { max_restarts: 2, within_secs: 10 };

#[test]
fn finished_and_aborted_children_are_removed() {
    let mut times = vec![5];
    assert_eq!(supervise_exit(ONE_FOR_ONE, ActorExit::Finished, &mut times, true, true, 100), SupervisorDecision::Remove);
    assert_eq!(supervise_exit(ONE_FOR_ONE, ActorExit::Aborted, &mut times, true, true, 100), SupervisorDecision::Remove);
    assert_eq!(times, vec![5]);
}

#[test]
fn one_for_one_restarts_within_limit_then_gives_up() {
    let mut times = Vec::new();
    assert_eq!(supervise_exit(ONE_FOR_ONE, ActorExit::Panicked, &mut times, true, true, 0), SupervisorDecision::Restart);
    assert_eq!(supervise_exit(ONE_FOR_ONE, ActorExit::Panicked, &mut times, true, true, 1_000), SupervisorDecision::Restart);
    assert_eq!(supervise_exit(ONE_FOR_ONE, ActorExit::Panicked, &mut times, true, true, 2_000), SupervisorDecision::GiveUp);
    assert_eq!(times, vec![0, 1_000]);
    // Outside the window the old restarts no longer count.
    assert_eq!(supervise_exit(ONE_FOR_ONE, ActorExit::Panicked, &mut times, true, true, 11_500), SupervisorDecision::Restart);
    assert_eq!(times, vec![11_500]);
}

#[test]
fn without_factory_or_listing_no_restart() {
    let mut times = Vec::new();
    assert_eq!(supervise_exit(ONE_FOR_ONE, ActorExit::Panicked, &mut times, true, false, 0), SupervisorDecision::GiveUp);
    assert_eq!(times, vec![0]);
    let mut times = Vec::new();
    assert_eq!(supervise_exit(ONE_FOR_ONE, ActorExit::Panicked, &mut times, false, true, 0), SupervisorDecision::GiveUp);
    assert!(times.is_empty());
}

#[test]
fn restart_n_allows_n_restarts() {
    let s = SupervisorStrategy::RestartN { max: 3, within_secs: 60 };
    let mut times = Vec::new();
    for t in 0..3u64 {
        assert_eq!(supervise_exit(s, ActorExit::Panicked, &mut times, true, true, t), SupervisorDecision::Restart);
    }
    assert_eq!(supervise_exit(s, ActorExit::Panicked, &mut times, true, true, 3), SupervisorDecision::GiveUp);
}

#[test]
fn all_for_one_and_escalate() {
    let mut times = Vec::new();
    let all = SupervisorStrategy::AllForOne { max_restarts: 1, within_secs: 1 };
    assert_eq!(supervise_exit(all, ActorExit::Panicked, &mut times, true, true, 0), SupervisorDecision::StopSiblings);
    assert_eq!(
        supervise_exit(SupervisorStrategy::Escalate, ActorExit::Panicked, &mut times, true, true, 0),
        SupervisorDecision::Escalate
    );
    assert!(times.is_empty());
}

#[test]
fn actor_error_messages() {
    assert_eq!(ActorError::AskTimeout { millis: 250 }.message(), "ask timed out after 250ms");
    assert_eq!(ActorError::Panicked("boom".into()).message(), "actor panicked: boom");
    assert_eq!(ActorError::RestartLimitExceeded { count: 3 }.message(), "restart limit exceeded after 3 restarts");
    assert_eq!(ActorError::MailboxFull.message(), "mailbox full");
}
