//! Replica selection and the hedged-request race: requests go round-robin
//! to the replicas; when the primary replica has not answered by the p95
//! deadline, the same request is sent once to the next replica and the
//! first reply wins.

use vstd::prelude::*;
use vstd::string::*;

verus! {

/// The replica that serves a request first, and the one that gets the hedged
/// copy when the deadline passes (none with a single replica).
#[derive(Debug, Clone, Copy, PartialEq, Eq, Structural)]
pub struct RouteTargets {
    pub primary: usize,
    pub hedge: Option<usize>,
}

/// Where a race stands.
#[derive(Debug, Clone, Copy, PartialEq, Eq, Structural)]
pub enum RacePhase {
    /// Only the primary request is in flight.
    AwaitingPrimary,
    /// The hedged request was sent; both are in flight.
    Hedged,
    /// A reply was taken.
    Settled,
}

/// What happened while racing.
#[derive(Debug, Clone, Copy, PartialEq, Eq, Structural)]
pub enum RaceEvent {
    PrimaryReplied,
    DeadlinePassed,
    HedgeReplied,
}

/// What to do next.
#[derive(Debug, Clone, Copy, PartialEq, Eq, Structural)]
pub enum RaceAction {
    /// Keep waiting.
    Wait,
    /// Send the hedged copy to this replica.
    LaunchHedge(usize),
    /// Answer with the primary's reply; drop the other request.
    TakePrimary,
    /// Answer with the hedged reply; drop the other request.
    TakeHedge,
}

/// The targets of the request with round-robin number `counter` among `replicas`.
pub open spec fn route_targets_spec(counter: usize, replicas: usize) -> RouteTargets {
    let primary = (counter % replicas) as usize;
    RouteTargets {
        primary,
        hedge: if replicas > 1 {
            Some(((primary + 1) % (replicas as int)) as usize)
        } else {
            None
        },
    }
}

/// One step of the race.
pub open spec fn race_step_spec(hedge: Option<usize>, phase: RacePhase, event: RaceEvent) -> (
    RacePhase,
    RaceAction,
) {
    match phase {
        RacePhase::AwaitingPrimary => match event {
            RaceEvent::PrimaryReplied => (RacePhase::Settled, RaceAction::TakePrimary),
            RaceEvent::DeadlinePassed => match hedge {
                Some(h) => (RacePhase::Hedged, RaceAction::LaunchHedge(h)),
                None => (RacePhase::AwaitingPrimary, RaceAction::Wait),
            },
            RaceEvent::HedgeReplied => (RacePhase::AwaitingPrimary, RaceAction::Wait),
        },
        RacePhase::Hedged => match event {
            RaceEvent::PrimaryReplied => (RacePhase::Settled, RaceAction::TakePrimary),
            RaceEvent::HedgeReplied => (RacePhase::Settled, RaceAction::TakeHedge),
            RaceEvent::DeadlinePassed => (RacePhase::Hedged, RaceAction::Wait),
        },
        RacePhase::Settled => (RacePhase::Settled, RaceAction::Wait),
    }
}

/// The phase after `events`, and the action taken at each.
pub open spec fn race_run(hedge: Option<usize>, phase: RacePhase, events: Seq<RaceEvent>) -> (
    RacePhase,
    Seq<RaceAction>,
)
    decreases events.len(),
{
    if events.len() == 0 {
        (phase, Seq::empty())
    } else {
        let (next, action) = race_step_spec(hedge, phase, events[0]);
        let (last, actions) = race_run(hedge, next, events.drop_first());
        (last, seq![action] + actions)
    }
}

/// Number of hedged copies sent.
pub open spec fn launches(actions: Seq<RaceAction>) -> nat
    decreases actions.len(),
{
    if actions.len() == 0 {
        0
    } else {
        (if actions[0] is LaunchHedge {
            1nat
        } else {
            0nat
        }) + launches(actions.drop_first())
    }
}

/// Number of replies taken.
pub open spec fn takes(actions: Seq<RaceAction>) -> nat
    decreases actions.len(),
{
    if actions.len() == 0 {
        0
    } else {
        (if actions[0] is TakePrimary || actions[0] is TakeHedge {
            1nat
        } else {
            0nat
        }) + takes(actions.drop_first())
    }
}

/// Number of hedged replies taken.
pub open spec fn hedge_takes(actions: Seq<RaceAction>) -> nat
    decreases actions.len(),
{
    if actions.len() == 0 {
        0
    } else {
        (if actions[0] is TakeHedge {
            1nat
        } else {
            0nat
        }) + hedge_takes(actions.drop_first())
    }
}

/// The path of the chat completions endpoint, appended to a replica's base URL.
pub open spec fn completions_path() -> Seq<char> {
    "/v1/chat/completions"@
}

/// The targets of the request with round-robin number `counter`.
pub fn route_targets(counter: usize, replicas: usize) -> (t: RouteTargets)
    requires
        replicas > 0,
    ensures
        t == route_targets_spec(counter, replicas),
        t.primary < replicas,
        t.hedge matches Some(h) ==> h < replicas && h != t.primary,
{
    let primary = counter % replicas;
    proof {
        if replicas > 1 {
            if primary + 1 < replicas {
                vstd::arithmetic::div_mod::lemma_small_mod((primary + 1) as nat, replicas as nat);
            } else {
                vstd::arithmetic::div_mod::lemma_mod_self_0(replicas as int);
            }
        }
    }
    let hedge = if replicas > 1 {
        Some((primary + 1) % replicas)
    } else {
        None
    };
    RouteTargets { primary, hedge }
}

/// One step of the race: the next phase and what to do.
pub fn race_step(targets: &RouteTargets, phase: RacePhase, event: RaceEvent) -> (r: (
    RacePhase,
    RaceAction,
))
    ensures
        r == race_step_spec(targets.hedge, phase, event),
{
    match phase {
        RacePhase::AwaitingPrimary => match event {
            RaceEvent::PrimaryReplied => (RacePhase::Settled, RaceAction::TakePrimary),
            RaceEvent::DeadlinePassed => match targets.hedge {
                Some(h) => (RacePhase::Hedged, RaceAction::LaunchHedge(h)),
                None => (RacePhase::AwaitingPrimary, RaceAction::Wait),
            },
            RaceEvent::HedgeReplied => (RacePhase::AwaitingPrimary, RaceAction::Wait),
        },
        RacePhase::Hedged => match event {
            RaceEvent::PrimaryReplied => (RacePhase::Settled, RaceAction::TakePrimary),
            RaceEvent::HedgeReplied => (RacePhase::Settled, RaceAction::TakeHedge),
            RaceEvent::DeadlinePassed => (RacePhase::Hedged, RaceAction::Wait),
        },
        RacePhase::Settled => (RacePhase::Settled, RaceAction::Wait),
    }
}

/// The completions endpoint of a replica with base URL `base`.
pub fn completions_url(base: &str) -> (url: String)
    ensures
        url@ == base@ + completions_path(),
{
    base.to_owned().concat("/v1/chat/completions")
}

/// Round-robin: the next request's primary replica is the one after this
/// request's, and it is the replica that this request's hedged copy goes to.
pub proof fn lemma_round_robin(counter: usize, replicas: usize)
    requires
        replicas > 1,
        counter < usize::MAX,
    ensures
        route_targets_spec((counter + 1) as usize, replicas).primary == (route_targets_spec(
            counter,
            replicas,
        ).primary + 1) % (replicas as int),
        route_targets_spec(counter, replicas).hedge == Some(
            route_targets_spec((counter + 1) as usize, replicas).primary,
        ),
{
    vstd::arithmetic::div_mod::lemma_add_mod_noop(counter as int, 1, replicas as int);
    vstd::arithmetic::div_mod::lemma_small_mod(1, replicas as nat);
    vstd::arithmetic::div_mod::lemma_mod_bound(counter as int, replicas as int);
}

/// Over any sequence of events, from any phase: at most one hedged copy is
/// sent, and only before it was sent and only to the hedge target; none with
/// a single replica; at most one reply is taken, none once settled; a hedged
/// reply is taken only after the hedged copy was sent; and the race ends
/// settled exactly when a reply was taken.
pub proof fn lemma_race_run(hedge: Option<usize>, phase: RacePhase, events: Seq<RaceEvent>)
    ensures
        ({
            let (last, actions) = race_run(hedge, phase, events);
            &&& actions.len() == events.len()
            &&& launches(actions) <= (if phase is AwaitingPrimary {
                1nat
            } else {
                0nat
            })
            &&& hedge is None ==> launches(actions) == 0
            &&& forall|i: int|
                0 <= i < actions.len() && (#[trigger] actions[i]) is LaunchHedge ==> hedge
                    == Some(actions[i]->0)
            &&& takes(actions) <= (if phase is Settled {
                0nat
            } else {
                1nat
            })
            &&& hedge_takes(actions) <= launches(actions) + (if phase is Hedged {
                1nat
            } else {
                0nat
            })
            &&& (last is Settled <==> (phase is Settled || takes(actions) == 1))
        }),
    decreases events.len(),
{
    if events.len() > 0 {
        let (next, action) = race_step_spec(hedge, phase, events[0]);
        lemma_race_run(hedge, next, events.drop_first());
        let (last, rest) = race_run(hedge, next, events.drop_first());
        let actions = seq![action] + rest;
        assert(actions.drop_first() =~= rest);
        assert forall|i: int|
            0 <= i < actions.len() && (#[trigger] actions[i]) is LaunchHedge implies hedge == Some(
            actions[i]->0,
        ) by {
            if i > 0 {
                assert(actions[i] == rest[i - 1]);
            }
        }
    }
}

/// Starting a race: with a single replica no hedged copy is ever sent; with
/// more, at most one, to the replica after the primary.
pub proof fn lemma_single_hedge(counter: usize, replicas: usize, events: Seq<RaceEvent>)
    requires
        replicas > 0,
    ensures
        ({
            let t = route_targets_spec(counter, replicas);
            let (_, actions) = race_run(t.hedge, RacePhase::AwaitingPrimary, events);
            &&& launches(actions) <= 1
            &&& replicas == 1 ==> launches(actions) == 0
            &&& takes(actions) <= 1
            &&& hedge_takes(actions) <= launches(actions)
        }),
{
    let t = route_targets_spec(counter, replicas);
    lemma_race_run(t.hedge, RacePhase::AwaitingPrimary, events);
}

/// With more than one replica the race is live: when the deadline passes
/// while only the primary is in flight, the hedged copy is sent to the
/// replica after the primary, whatever its number; the first reply after
/// that is taken, whichever it is; a reply before the deadline is taken at
/// once.
pub proof fn lemma_race_liveness(counter: usize, replicas: usize)
    requires
        replicas > 1,
    ensures
        ({
            let t = route_targets_spec(counter, replicas);
            let h = ((counter % replicas) + 1) % (replicas as int);
            &&& t.primary == counter % replicas
            &&& t.hedge == Some(h as usize)
            &&& race_step_spec(t.hedge, RacePhase::AwaitingPrimary, RaceEvent::DeadlinePassed) == (
                RacePhase::Hedged,
                RaceAction::LaunchHedge(h as usize),
            )
            &&& race_step_spec(t.hedge, RacePhase::Hedged, RaceEvent::HedgeReplied) == (
                RacePhase::Settled,
                RaceAction::TakeHedge,
            )
            &&& race_step_spec(t.hedge, RacePhase::Hedged, RaceEvent::PrimaryReplied) == (
                RacePhase::Settled,
                RaceAction::TakePrimary,
            )
            &&& race_step_spec(t.hedge, RacePhase::AwaitingPrimary, RaceEvent::PrimaryReplied) == (
                RacePhase::Settled,
                RaceAction::TakePrimary,
            )
        }),
{
}

/// Any hedge target is sent the hedged copy when the deadline passes.
pub proof fn lemma_deadline_launches_hedge(h: usize)
    ensures
        race_step_spec(Some(h), RacePhase::AwaitingPrimary, RaceEvent::DeadlinePassed) == (
            RacePhase::Hedged,
            RaceAction::LaunchHedge(h),
        ),
{
}

/// A replica's completions endpoint is its base URL followed by
/// `/v1/chat/completions`.
pub proof fn lemma_completions_endpoint(base: Seq<char>)
    ensures
        base + completions_path() == base + "/v1/chat/completions"@,
        (base + completions_path()).subrange(0, base.len() as int) == base,
{
    assert((base + completions_path()).subrange(0, base.len() as int) =~= base);
}

} // verus!
