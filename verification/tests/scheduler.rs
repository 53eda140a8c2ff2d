use jellycord::scheduler::{Scheduler, SweepAction, SweepEvent, SweepState};
use jellycord::subscriber::Instance;

fn subscriber(user: &str) -> Instance {
    Instance {
        active_channel: 1,
        channel_id: 7,
        domain: "https://media.example".to_string(),
        token: "KEY".to_string(),
        user_id: user.to_string(),
    }
}

#[test]
fn sweep_visits_every_subscriber_in_turn_and_then_rests() {
    let mut scheduler = Scheduler::new();
    assert_eq!(scheduler.state(), SweepState::Idle);
    assert_eq!(scheduler.step(SweepEvent::Wake), SweepAction::Collect);
    assert_eq!(scheduler.state(), SweepState::Collecting);
    let both = vec![subscriber("a"), subscriber("b")];
    assert_eq!(scheduler.step(SweepEvent::Collected(both)), SweepAction::RunPass(subscriber("a")));
    assert_eq!(scheduler.state(), SweepState::Running);
    assert_eq!(scheduler.step(SweepEvent::PassFinished), SweepAction::RunPass(subscriber("b")));
    assert_eq!(scheduler.step(SweepEvent::PassFinished), SweepAction::Rest(300));
    assert_eq!(scheduler.state(), SweepState::Resting);
    assert_eq!(scheduler.step(SweepEvent::Rested), SweepAction::Collect);
    assert_eq!(scheduler.state(), SweepState::Collecting);
}

#[test]
fn no_sweep_begins_while_another_is_under_way() {
    let mut scheduler = Scheduler::new();
    scheduler.step(SweepEvent::Wake);
    scheduler.step(SweepEvent::Collected(vec![subscriber("a"), subscriber("b")]));
    assert_eq!(scheduler.step(SweepEvent::Wake), SweepAction::Ignore);
    assert_eq!(scheduler.step(SweepEvent::Rested), SweepAction::Ignore);
    assert_eq!(scheduler.step(SweepEvent::Collected(vec![subscriber("x")])), SweepAction::Ignore);
    assert_eq!(scheduler.state(), SweepState::Running);
    assert_eq!(scheduler.step(SweepEvent::PassFinished), SweepAction::RunPass(subscriber("b")));
}

#[test]
fn no_sweep_begins_before_the_rest_is_over() {
    let mut scheduler = Scheduler::new();
    scheduler.step(SweepEvent::Wake);
    assert_eq!(scheduler.step(SweepEvent::Collected(vec![])), SweepAction::Rest(300));
    assert_eq!(scheduler.step(SweepEvent::Wake), SweepAction::Ignore);
    assert_eq!(scheduler.step(SweepEvent::PassFinished), SweepAction::Ignore);
    assert_eq!(scheduler.state(), SweepState::Resting);
    assert_eq!(scheduler.step(SweepEvent::Rested), SweepAction::Collect);
}

#[test]
fn scheduler_that_was_not_woken_takes_nothing_in() {
    let mut scheduler = Scheduler::new();
    assert_eq!(scheduler.step(SweepEvent::PassFinished), SweepAction::Ignore);
    assert_eq!(scheduler.step(SweepEvent::Collected(vec![subscriber("a")])), SweepAction::Ignore);
    assert_eq!(scheduler.state(), SweepState::Idle);
}
