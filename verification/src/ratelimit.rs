//! The per-client rate limiter: which client a request is counted for, the
//! key of its counter, and the fail-open decisions taken while the counter
//! store is contacted.

use crate::text::{first_field, trim, trim_str, trimmed_first_field};
use vstd::prelude::*;
use vstd::string::*;

verus! {

/// Seconds after its last increment that a client's counter expires.
pub const COUNTER_WINDOW_SECS: i64 = 60;

/// Where the decision for one request stands.
#[derive(Debug, Clone, Copy, PartialEq, Eq, Structural)]
pub enum LimiterPhase {
    /// Nothing was done yet.
    Start,
    /// Connecting to the counter store.
    Connecting,
    /// The increment of the client's counter is in flight.
    Counting,
    /// The request was forwarded or rejected.
    Done,
}

/// What the outside world reported.
#[derive(Debug, Clone, Copy, PartialEq, Eq, Structural)]
pub enum LimiterEvent {
    /// No counter store is configured.
    StoreAbsent,
    /// A counter store is configured.
    StorePresent,
    ConnectFailed,
    Connected,
    /// Incrementing the counter failed.
    CountFailed,
    /// The counter's value after the increment.
    Counted(i32),
}

/// What to do next.
#[derive(Debug, Clone, Copy, PartialEq, Eq, Structural)]
pub enum LimiterAction {
    Wait,
    /// Open a connection to the counter store.
    Connect,
    /// Atomically increment the client's counter and renew its expiry.
    Increment,
    /// Pass the request on.
    Forward,
    /// Answer 429 Too Many Requests.
    Reject,
}

/// The client that a request is counted for: behind a proxy, the address
/// from `X-Forwarded-For`, else the one from `CF-Connecting-IP`; otherwise
/// (or when neither header holds an address) the peer address, else `anonymous`.
pub open spec fn client_identity_spec(
    behind_proxy: bool,
    forwarded: Option<Seq<char>>,
    connecting: Option<Seq<char>>,
    peer: Option<Seq<char>>,
) -> Seq<char> {
    if behind_proxy && forwarded is Some {
        forwarded->0
    } else if behind_proxy && connecting is Some {
        connecting->0
    } else if peer is Some {
        peer->0
    } else {
        "anonymous"@
    }
}

/// The prefix of every counter key.
pub open spec fn key_prefix() -> Seq<char> {
    "rate_limit:"@
}

/// The view of an optional string.
pub open spec fn opt_string_view(s: Option<String>) -> Option<Seq<char>> {
    match s {
        Some(v) => Some(v@),
        None => None,
    }
}

/// `count` exceeds `limit`.
pub open spec fn over_limit(count: i32, limit: usize) -> bool {
    count as int > limit as int
}

/// One step of the limiter.
pub open spec fn limiter_step_spec(limit: usize, phase: LimiterPhase, event: LimiterEvent) -> (
    LimiterPhase,
    LimiterAction,
) {
    match phase {
        LimiterPhase::Start => match event {
            LimiterEvent::StoreAbsent => (LimiterPhase::Done, LimiterAction::Forward),
            LimiterEvent::StorePresent => (LimiterPhase::Connecting, LimiterAction::Connect),
            _ => (LimiterPhase::Start, LimiterAction::Wait),
        },
        LimiterPhase::Connecting => match event {
            LimiterEvent::ConnectFailed => (LimiterPhase::Done, LimiterAction::Forward),
            LimiterEvent::Connected => (LimiterPhase::Counting, LimiterAction::Increment),
            _ => (LimiterPhase::Connecting, LimiterAction::Wait),
        },
        LimiterPhase::Counting => match event {
            LimiterEvent::CountFailed => (LimiterPhase::Done, LimiterAction::Forward),
            LimiterEvent::Counted(c) => (
                LimiterPhase::Done,
                if over_limit(c, limit) {
                    LimiterAction::Reject
                } else {
                    LimiterAction::Forward
                },
            ),
            _ => (LimiterPhase::Counting, LimiterAction::Wait),
        },
        LimiterPhase::Done => (LimiterPhase::Done, LimiterAction::Wait),
    }
}

/// The phase after `events`, and the action taken at each.
pub open spec fn limiter_run(limit: usize, phase: LimiterPhase, events: Seq<LimiterEvent>) -> (
    LimiterPhase,
    Seq<LimiterAction>,
)
    decreases events.len(),
{
    if events.len() == 0 {
        (phase, Seq::empty())
    } else {
        let (next, action) = limiter_step_spec(limit, phase, events[0]);
        let (last, actions) = limiter_run(limit, next, events.drop_first());
        (last, seq![action] + actions)
    }
}

/// Number of verdicts (forward or reject) among `actions`.
pub open spec fn verdicts(actions: Seq<LimiterAction>) -> nat
    decreases actions.len(),
{
    if actions.len() == 0 {
        0
    } else {
        (if actions[0] is Forward || actions[0] is Reject {
            1nat
        } else {
            0nat
        }) + verdicts(actions.drop_first())
    }
}

/// The candidate address in an `X-Forwarded-For` value: its first entry,
/// whitespace trimmed.
pub fn forwarded_for_candidate(header: &str) -> (candidate: String)
    ensures
        candidate@ == trim(first_field(header@, ',')),
{
    trimmed_first_field(header, ',')
}

/// The candidate address in a `CF-Connecting-IP` value: the value,
/// whitespace trimmed.
pub fn connecting_ip_candidate(header: &str) -> (candidate: String)
    ensures
        candidate@ == trim(header@),
{
    trim_str(header)
}

/// The client that a request is counted for, given the addresses that the
/// headers and the connection yielded (each `None` when absent or not an IP
/// address).
pub fn client_identity(
    behind_proxy: bool,
    forwarded: Option<String>,
    connecting: Option<String>,
    peer: Option<String>,
) -> (client: String)
    ensures
        client@ == client_identity_spec(
            behind_proxy,
            opt_string_view(forwarded),
            opt_string_view(connecting),
            opt_string_view(peer),
        ),
{
    if behind_proxy && forwarded.is_some() {
        forwarded.unwrap()
    } else if behind_proxy && connecting.is_some() {
        connecting.unwrap()
    } else {
        match peer {
            Some(p) => p,
            None => "anonymous".to_owned(),
        }
    }
}

/// The key of `client`'s counter.
pub fn rate_limit_key(client: &str) -> (key: String)
    ensures
        key@ == key_prefix() + client@,
{
    "rate_limit:".to_owned().concat(client)
}

/// Whether `count` exceeds `limit`.
pub fn exceeds_limit(count: i32, limit: usize) -> (over: bool)
    ensures
        over == over_limit(count, limit),
{
    if count < 0 {
        false
    } else {
        (count as usize) > limit
    }
}

/// One step of the limiter: the next phase and what to do.
pub fn limiter_step(limit: usize, phase: LimiterPhase, event: LimiterEvent) -> (r: (
    LimiterPhase,
    LimiterAction,
))
    ensures
        r == limiter_step_spec(limit, phase, event),
{
    match phase {
        LimiterPhase::Start => match event {
            LimiterEvent::StoreAbsent => (LimiterPhase::Done, LimiterAction::Forward),
            LimiterEvent::StorePresent => (LimiterPhase::Connecting, LimiterAction::Connect),
            _ => (LimiterPhase::Start, LimiterAction::Wait),
        },
        LimiterPhase::Connecting => match event {
            LimiterEvent::ConnectFailed => (LimiterPhase::Done, LimiterAction::Forward),
            LimiterEvent::Connected => (LimiterPhase::Counting, LimiterAction::Increment),
            _ => (LimiterPhase::Connecting, LimiterAction::Wait),
        },
        LimiterPhase::Counting => match event {
            LimiterEvent::CountFailed => (LimiterPhase::Done, LimiterAction::Forward),
            LimiterEvent::Counted(c) => (
                LimiterPhase::Done,
                if exceeds_limit(c, limit) {
                    LimiterAction::Reject
                } else {
                    LimiterAction::Forward
                },
            ),
            _ => (LimiterPhase::Counting, LimiterAction::Wait),
        },
        LimiterPhase::Done => (LimiterPhase::Done, LimiterAction::Wait),
    }
}

/// Distinct clients have distinct counters.
pub proof fn lemma_keys_isolate_clients(a: Seq<char>, b: Seq<char>)
    requires
        key_prefix() + a == key_prefix() + b,
    ensures
        a == b,
{
    let n = key_prefix().len();
    assert((key_prefix() + a).subrange(n as int, (n + a.len()) as int) =~= a);
    assert((key_prefix() + b).subrange(n as int, (n + b.len()) as int) =~= b);
}

/// Over any events, from any phase: a request is rejected only at the
/// report of a count above the limit, and gets at most one verdict (none
/// once done).
pub proof fn lemma_limiter_run(limit: usize, phase: LimiterPhase, events: Seq<LimiterEvent>)
    ensures
        ({
            let (last, actions) = limiter_run(limit, phase, events);
            &&& actions.len() == events.len()
            &&& forall|i: int|
                0 <= i < actions.len() && (#[trigger] actions[i]) is Reject ==> (events[i] matches LimiterEvent::Counted(
                    c,
                ) && over_limit(c, limit))
            &&& verdicts(actions) <= (if phase is Done {
                0nat
            } else {
                1nat
            })
            &&& (last is Done <==> (phase is Done || verdicts(actions) == 1))
        }),
    decreases events.len(),
{
    if events.len() > 0 {
        let (next, action) = limiter_step_spec(limit, phase, events[0]);
        lemma_limiter_run(limit, next, events.drop_first());
        let (last, rest) = limiter_run(limit, next, events.drop_first());
        let actions = seq![action] + rest;
        assert(actions.drop_first() =~= rest);
        assert forall|i: int|
            0 <= i < actions.len() && (#[trigger] actions[i]) is Reject implies (events[i] matches LimiterEvent::Counted(
            c,
        ) && over_limit(c, limit)) by {
            if i > 0 {
                assert(actions[i] == rest[i - 1]);
                assert(events[i] == events.drop_first()[i - 1]);
            }
        }
    }
}

/// Fail-open: without a counter store, when the store cannot be reached, or
/// when the increment fails, the request is forwarded; after a successful
/// increment it is rejected exactly when the count exceeds the limit.
pub proof fn lemma_fail_open(limit: usize, count: i32)
    ensures
        limiter_run(limit, LimiterPhase::Start, seq![LimiterEvent::StoreAbsent]).1 == seq![
            LimiterAction::Forward,
        ],
        limiter_run(
            limit,
            LimiterPhase::Start,
            seq![LimiterEvent::StorePresent, LimiterEvent::ConnectFailed],
        ).1 == seq![LimiterAction::Connect, LimiterAction::Forward],
        limiter_run(
            limit,
            LimiterPhase::Start,
            seq![LimiterEvent::StorePresent, LimiterEvent::Connected, LimiterEvent::CountFailed],
        ).1 == seq![LimiterAction::Connect, LimiterAction::Increment, LimiterAction::Forward],
        limiter_run(
            limit,
            LimiterPhase::Start,
            seq![LimiterEvent::StorePresent, LimiterEvent::Connected, LimiterEvent::Counted(count)],
        ).1 == seq![
            LimiterAction::Connect,
            LimiterAction::Increment,
            if over_limit(count, limit) {
                LimiterAction::Reject
            } else {
                LimiterAction::Forward
            },
        ],
{
    reveal_with_fuel(limiter_run, 4);
    let e1 = seq![LimiterEvent::StoreAbsent];
    assert(e1.drop_first() =~= Seq::<LimiterEvent>::empty());
    assert(limiter_run(limit, LimiterPhase::Start, e1).1 =~= seq![LimiterAction::Forward]);
    let e2 = seq![LimiterEvent::StorePresent, LimiterEvent::ConnectFailed];
    assert(e2.drop_first() =~= seq![LimiterEvent::ConnectFailed]);
    assert(e2.drop_first().drop_first() =~= Seq::<LimiterEvent>::empty());
    assert(limiter_run(limit, LimiterPhase::Start, e2).1 =~= seq![
        LimiterAction::Connect,
        LimiterAction::Forward,
    ]);
    let e3 = seq![LimiterEvent::StorePresent, LimiterEvent::Connected, LimiterEvent::CountFailed];
    assert(e3.drop_first() =~= seq![LimiterEvent::Connected, LimiterEvent::CountFailed]);
    assert(e3.drop_first().drop_first() =~= seq![LimiterEvent::CountFailed]);
    assert(e3.drop_first().drop_first().drop_first() =~= Seq::<LimiterEvent>::empty());
    assert(limiter_run(limit, LimiterPhase::Start, e3).1 =~= seq![
        LimiterAction::Connect,
        LimiterAction::Increment,
        LimiterAction::Forward,
    ]);
    let e4 = seq![
        LimiterEvent::StorePresent,
        LimiterEvent::Connected,
        LimiterEvent::Counted(count),
    ];
    assert(e4.drop_first() =~= seq![LimiterEvent::Connected, LimiterEvent::Counted(count)]);
    assert(e4.drop_first().drop_first() =~= seq![LimiterEvent::Counted(count)]);
    assert(e4.drop_first().drop_first().drop_first() =~= Seq::<LimiterEvent>::empty());
    assert(limiter_run(limit, LimiterPhase::Start, e4).1 =~= seq![
        LimiterAction::Connect,
        LimiterAction::Increment,
        if over_limit(count, limit) {
            LimiterAction::Reject
        } else {
            LimiterAction::Forward
        },
    ]);
}

/// Once the counter's value is known, every count above the limit is
/// rejected and every count at or below it is forwarded.
pub proof fn lemma_reject_exactly_above_limit(limit: usize, count: i32)
    ensures
        limit < count ==> limiter_step_spec(
            limit,
            LimiterPhase::Counting,
            LimiterEvent::Counted(count),
        ) == (LimiterPhase::Done, LimiterAction::Reject),
        count <= limit ==> limiter_step_spec(
            limit,
            LimiterPhase::Counting,
            LimiterEvent::Counted(count),
        ) == (LimiterPhase::Done, LimiterAction::Forward),
{
}

/// A request's counter key is `rate_limit:` followed by its client, and
/// behind no proxy the client is the peer address (or `anonymous`) whatever
/// the headers say.
pub proof fn lemma_key_and_identity(
    client: Seq<char>,
    forwarded: Option<Seq<char>>,
    connecting: Option<Seq<char>>,
    peer: Option<Seq<char>>,
)
    ensures
        key_prefix() + client == "rate_limit:"@ + client,
        client_identity_spec(false, forwarded, connecting, peer) == (match peer {
            Some(p) => p,
            None => "anonymous"@,
        }),
        forwarded matches Some(f) ==> client_identity_spec(true, forwarded, connecting, peer) == f,
        forwarded is None ==> (connecting matches Some(c) ==> client_identity_spec(
            true,
            forwarded,
            connecting,
            peer,
        ) == c),
{
}

} // verus!
