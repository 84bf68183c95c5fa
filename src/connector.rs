use vstd::prelude::*;

use crate::action::BridgeAction;
use crate::naming::PeerName;

verus! {

/// What came of one attempt to obtain a stream from the transport.
#[derive(Clone, Copy, Debug, PartialEq, Eq, Structural)]
pub enum AttemptOutcome {
    /// A remote peer attached and the stream is open.
    Connected,
    /// The attempt ran out of its time bound.
    TimedOut,
    /// The transport reported another failure.
    Failed,
}

/// What the connector decides after an attempt.
#[derive(Clone, Copy, Debug, PartialEq, Eq, Structural)]
pub enum ConnectorStep {
    /// Keep the stream of the attempt with this number (counted from one).
    Established { attempt: u64 },
    /// Make another attempt at once.
    Retry,
    /// Give up on this bridge.
    Abort,
}

/// A registration to hand to the transport: the name this side goes by, and
/// the peer to connect to (none to advertise and wait).
#[derive(Debug)]
pub struct ConnectRequest {
    pub self_name: PeerName,
    pub target: Option<PeerName>,
}

/// Number of seconds each directed connect attempt may take.
pub const ATTEMPT_TIMEOUT_SECS: u64 = 10;

/// The decision after the attempt with number `attempt`.
pub open spec fn decide(action: BridgeAction, outcome: AttemptOutcome, attempt: u64) -> ConnectorStep {
    match outcome {
        AttemptOutcome::Connected => ConnectorStep::Established { attempt },
        AttemptOutcome::TimedOut => if action == BridgeAction::SubscribeBridge {
            ConnectorStep::Retry
        } else {
            ConnectorStep::Abort
        },
        AttemptOutcome::Failed => ConnectorStep::Abort,
    }
}

/// The number of attempts made and the last decision, when the transport
/// answers the attempts with `outcomes` in turn, starting after `made`
/// attempts.
pub open spec fn run_attempts(action: BridgeAction, made: u64, outcomes: Seq<AttemptOutcome>) -> (u64, ConnectorStep)
    decreases outcomes.len(),
{
    if outcomes.len() == 0 || made == u64::MAX {
        (made, ConnectorStep::Retry)
    } else {
        let n = (made + 1) as u64;
        let d = decide(action, outcomes[0], n);
        if d == ConnectorStep::Retry {
            run_attempts(action, n, outcomes.subrange(1, outcomes.len() as int))
        } else {
            (n, d)
        }
    }
}

/// `k` timeouts followed by a success.
pub open spec fn timeouts_then_success(k: nat) -> Seq<AttemptOutcome> {
    Seq::new(k, |i: int| AttemptOutcome::TimedOut).push(AttemptOutcome::Connected)
}

/// Obtains the stream of one bridge: a publish bridge advertises its topic's
/// peer name once; a subscribe bridge connects to it under a fresh identity,
/// again after each timeout, for as long as it takes.
pub struct Connector {
    pub action: BridgeAction,
    pub topic_peer: PeerName,
    pub attempts: u64,
}

/// Relies on rand's `random` for 32 bytes: nothing is known of their value.
#[verifier::external_body]
fn random_bytes() -> (r: Vec<u8>)
    ensures
        r@.len() == 32,
{
    rand::random::<[u8; 32]>().to_vec()
}

/// A fresh random identity for one connect attempt.
pub fn random_peer_name() -> (r: PeerName)
    ensures
        r@.len() == 32,
{
    PeerName { bytes: random_bytes() }
}

impl Connector {
    /// A connector that has made no attempt yet.
    pub fn new(action: BridgeAction, topic_peer: PeerName) -> (r: Connector)
        ensures
            r.action == action,
            r.topic_peer@ == topic_peer@,
            r.attempts == 0,
    {
        Connector { action, topic_peer, attempts: 0 }
    }

    /// The registration for the next attempt, with `fresh` as the identity
    /// a subscribe bridge connects under.
    pub fn request_with(&mut self, fresh: PeerName) -> (r: ConnectRequest)
        requires
            old(self).attempts < u64::MAX,
        ensures
            final(self).attempts == old(self).attempts + 1,
            final(self).action == old(self).action,
            final(self).topic_peer@ == old(self).topic_peer@,
            old(self).action == BridgeAction::SubscribeBridge ==> r.self_name@ == fresh@ && r.target.is_some()
                && r.target.unwrap()@ == old(self).topic_peer@,
            old(self).action != BridgeAction::SubscribeBridge ==> r.self_name@ == old(self).topic_peer@
                && r.target.is_none(),
    {
        self.attempts = self.attempts + 1;
        if self.action == BridgeAction::SubscribeBridge {
            ConnectRequest { self_name: fresh, target: Some(self.topic_peer.clone_name()) }
        } else {
            ConnectRequest { self_name: self.topic_peer.clone_name(), target: None }
        }
    }

    /// The registration for the next attempt, under a fresh random identity
    /// where the bridge connects to its peer.
    pub fn next_request(&mut self) -> (r: ConnectRequest)
        requires
            old(self).attempts < u64::MAX,
        ensures
            final(self).attempts == old(self).attempts + 1,
            final(self).action == old(self).action,
            final(self).topic_peer@ == old(self).topic_peer@,
            old(self).action == BridgeAction::SubscribeBridge ==> r.self_name@.len() == 32 && r.target.is_some()
                && r.target.unwrap()@ == old(self).topic_peer@,
            old(self).action != BridgeAction::SubscribeBridge ==> r.self_name@ == old(self).topic_peer@
                && r.target.is_none(),
    {
        let fresh = random_peer_name();
        self.request_with(fresh)
    }

    /// Whether the next attempt is bounded by the attempt timeout.
    pub fn bounded_attempt(&self) -> (r: bool)
        ensures
            r == (self.action == BridgeAction::SubscribeBridge),
    {
        self.action == BridgeAction::SubscribeBridge
    }

    /// The decision after the last attempt ended with `outcome`.
    pub fn on_outcome(&self, outcome: AttemptOutcome) -> (r: ConnectorStep)
        ensures
            r == decide(self.action, outcome, self.attempts),
    {
        match outcome {
            AttemptOutcome::Connected => ConnectorStep::Established { attempt: self.attempts },
            AttemptOutcome::TimedOut => if self.action == BridgeAction::SubscribeBridge {
                ConnectorStep::Retry
            } else {
                ConnectorStep::Abort
            },
            AttemptOutcome::Failed => ConnectorStep::Abort,
        }
    }
}

/// A subscribe bridge whose transport times out `k` times and then connects
/// makes exactly `k + 1` attempts and keeps the stream of the last one.
pub proof fn lemma_retry_count(k: nat)
    requires
        k < u64::MAX,
    ensures
        run_attempts(BridgeAction::SubscribeBridge, 0, timeouts_then_success(k))
            == (((k + 1) as u64), ConnectorStep::Established { attempt: (k + 1) as u64 }),
{
    lemma_retry_from(k, 0);
}

proof fn lemma_retry_from(k: nat, made: u64)
    requires
        made + k < u64::MAX,
    ensures
        run_attempts(BridgeAction::SubscribeBridge, made, timeouts_then_success(k))
            == (((made + k + 1) as u64), ConnectorStep::Established { attempt: (made + k + 1) as u64 }),
    decreases k,
{
    let outs = timeouts_then_success(k);
    if k > 0 {
        assert(outs[0] == AttemptOutcome::TimedOut);
        assert(outs.subrange(1, outs.len() as int) =~= timeouts_then_success((k - 1) as nat));
        lemma_retry_from((k - 1) as nat, (made + 1) as u64);
    } else {
        assert(outs[0] == AttemptOutcome::Connected);
    }
}

} // verus!
