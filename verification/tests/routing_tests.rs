use inferrust_proxy::routing::{
    completions_url, race_step, route_targets, RaceAction, RaceEvent, RacePhase, RouteTargets,
};

#[test]
fn single_replica_has_no_hedge() {
    assert_eq!(route_targets(7, 1), RouteTargets { primary: 0, hedge: None });
}

#[test]
fn round_robin_targets() {
    assert_eq!(route_targets(0, 3), RouteTargets { primary: 0, hedge: Some(1) });
    assert_eq!(route_targets(4, 3), RouteTargets { primary: 1, hedge: Some(2) });
    assert_eq!(route_targets(5, 3), RouteTargets { primary: 2, hedge: Some(0) });
    assert_eq!(route_targets(usize::MAX, 2), RouteTargets { primary: 1, hedge: Some(0) });
}

#[test]
fn fast_primary_wins_without_hedge() {
    let t = route_targets(0, 2);
    let (p, a) = race_step(&t, RacePhase::AwaitingPrimary, RaceEvent::PrimaryReplied);
    assert_eq!((p, a), (RacePhase::Settled, RaceAction::TakePrimary));
}

#[test]
fn deadline_fires_one_hedge() {
    let t = route_targets(0, 2);
    let (p, a) = race_step(&t, RacePhase::AwaitingPrimary, RaceEvent::DeadlinePassed);
    assert_eq!((p, a), (RacePhase::Hedged, RaceAction::LaunchHedge(1)));
    let (p2, a2) = race_step(&t, p, RaceEvent::DeadlinePassed);
    assert_eq!((p2, a2), (RacePhase::Hedged, RaceAction::Wait));
    let (p3, a3) = race_step(&t, p2, RaceEvent::HedgeReplied);
    assert_eq!((p3, a3), (RacePhase::Settled, RaceAction::TakeHedge));
    assert_eq!(race_step(&t, p3, RaceEvent::PrimaryReplied), (RacePhase::Settled, RaceAction::Wait));
}

#[test]
fn primary_can_still_win_after_hedge() {
    let t = route_targets(1, 3);
    let (p, a) = race_step(&t, RacePhase::AwaitingPrimary, RaceEvent::DeadlinePassed);
    assert_eq!(a, RaceAction::LaunchHedge(2));
    assert_eq!(race_step(&t, p, RaceEvent::PrimaryReplied), (RacePhase::Settled, RaceAction::TakePrimary));
}

#[test]
fn no_hedge_with_single_replica() {
    let t = route_targets(3, 1);
    assert_eq!(
        race_step(&t, RacePhase::AwaitingPrimary, RaceEvent::DeadlinePassed),
        (RacePhase::AwaitingPrimary, RaceAction::Wait)
    );
}

#[test]
fn completions_endpoint() {
    assert_eq!(completions_url("http://localhost:11434"), "http://localhost:11434/v1/chat/completions");
}
