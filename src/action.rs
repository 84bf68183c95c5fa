use vstd::prelude::*;
use vstd::utf8::encode_utf8;

verus! {

/// What a bridge has to do for a topic.
#[derive(Clone, Copy, Debug, PartialEq, Eq, Structural)]
pub enum BridgeAction {
    /// No local publisher: publications from the remote side are injected locally.
    PublishBridge,
    /// No local subscriber: local publications are shipped to the remote side.
    SubscribeBridge,
    /// The topic has publishers and subscribers locally: nothing to bridge.
    NoOp,
}

/// The classification policy: no publisher wins over no subscriber.
pub open spec fn action_for_counts(publisher_count: nat, subscriber_count: nat) -> BridgeAction {
    if publisher_count == 0 {
        BridgeAction::PublishBridge
    } else if subscriber_count == 0 {
        BridgeAction::SubscribeBridge
    } else {
        BridgeAction::NoOp
    }
}

/// Classifies a topic from its local publisher and subscriber counts.
pub fn resolve_action(publisher_count: u64, subscriber_count: u64) -> (r: BridgeAction)
    ensures
        r == action_for_counts(publisher_count as nat, subscriber_count as nat),
{
    if publisher_count == 0 {
        BridgeAction::PublishBridge
    } else if subscriber_count == 0 {
        BridgeAction::SubscribeBridge
    } else {
        BridgeAction::NoOp
    }
}

/// Whether `pattern` occurs in `text` as a contiguous run.
pub open spec fn occurs_in(text: Seq<u8>, pattern: Seq<u8>) -> bool {
    exists|i: int| 0 <= i && i + pattern.len() <= text.len() && #[trigger] text.subrange(i, i + pattern.len()) == pattern
}

fn matches_at(text: &[u8], pattern: &[u8], at: usize) -> (r: bool)
    requires
        at + pattern@.len() <= text@.len(),
    ensures
        r == (text@.subrange(at as int, at + pattern@.len()) == pattern@),
{
    let n: usize = text.len();
    let mut j: usize = 0;
    while j < pattern.len()
        invariant
            n == text@.len(),
            j <= pattern@.len(),
            at + pattern@.len() <= text@.len(),
            text@.subrange(at as int, at + j) =~= pattern@.subrange(0, j as int),
        decreases pattern@.len() - j,
    {
        if text[at + j] != pattern[j] {
            assert(text@.subrange(at as int, at + pattern@.len())[j as int] != pattern@[j as int]);
            return false;
        }
        j = j + 1;
        assert(text@.subrange(at as int, at + j) =~= pattern@.subrange(0, j as int));
    }
    assert(pattern@.subrange(0, pattern@.len() as int) =~= pattern@);
    true
}

fn occurs(text: &[u8], pattern: &[u8]) -> (r: bool)
    ensures
        r == occurs_in(text@, pattern@),
{
    if pattern.len() > text.len() {
        return false;
    }
    let last = text.len() - pattern.len();
    let mut i: usize = 0;
    loop
        invariant
            i <= last,
            last + pattern@.len() == text@.len(),
            forall|k: int| 0 <= k < i ==> #[trigger] text@.subrange(k, k + pattern@.len()) != pattern@,
        decreases last - i,
    {
        if matches_at(text, pattern, i) {
            return true;
        }
        if i == last {
            assert forall|k: int| 0 <= k && k + pattern@.len() <= text@.len() implies #[trigger] text@.subrange(
                k,
                k + pattern@.len(),
            ) != pattern@ by {
                if k < i {
                } else {
                    assert(k == i);
                }
            }
            return false;
        }
        i = i + 1;
    }
}

/// The action for a topic from the report of the local introspection tool:
/// a report that lists "Publisher count: 0" stands for no publisher, one that
/// lists "Subscription count: 0" for no subscriber, and the policy of
/// `action_for_counts` decides.
pub open spec fn action_for_report(report: Seq<u8>) -> BridgeAction {
    action_for_counts(
        if occurs_in(report, encode_utf8("Publisher count: 0"@)) { 0 } else { 1 },
        if occurs_in(report, encode_utf8("Subscription count: 0"@)) { 0 } else { 1 },
    )
}

/// Classifies a topic from the text the introspection tool printed for it.
pub fn classify_topic_report(report: &[u8]) -> (r: BridgeAction)
    ensures
        r == action_for_report(report@),
{
    let publishers: u64 = if occurs(report, "Publisher count: 0".as_bytes()) { 0 } else { 1 };
    let subscribers: u64 = if occurs(report, "Subscription count: 0".as_bytes()) { 0 } else { 1 };
    resolve_action(publishers, subscribers)
}

/// Whether a bridge task is started for the action.
pub open spec fn needs_bridge(action: BridgeAction) -> bool {
    action != BridgeAction::NoOp
}

/// The action a configuration entry names: `publish` (or `pub`), `subscribe`
/// (or `sub`); `None` for any other word.
pub open spec fn configured_action_of(word: Seq<char>) -> Option<BridgeAction> {
    if word == "publish"@ || word == "pub"@ {
        Some(BridgeAction::PublishBridge)
    } else if word == "subscribe"@ || word == "sub"@ {
        Some(BridgeAction::SubscribeBridge)
    } else {
        None
    }
}

fn same_text(a: &String, b: &str) -> (r: bool)
    ensures
        r == (a@ == b@),
{
    let owned = b.to_owned();
    *a == owned
}

/// Reads the action word of a configuration entry. An entry without a word
/// bridges nothing; an unknown word is rejected.
pub fn parse_configured_action(word: &Option<String>) -> (r: Option<BridgeAction>)
    ensures
        word.is_none() ==> r == Some(BridgeAction::NoOp),
        word.is_some() ==> r == configured_action_of(word.unwrap()@),
{
    match word {
        None => Some(BridgeAction::NoOp),
        Some(w) => {
            if same_text(w, "publish") || same_text(w, "pub") {
                Some(BridgeAction::PublishBridge)
            } else if same_text(w, "subscribe") || same_text(w, "sub") {
                Some(BridgeAction::SubscribeBridge)
            } else {
                None
            }
        },
    }
}

} // verus!
