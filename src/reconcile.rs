use vstd::prelude::*;

use crate::action::{
    action_for_report, classify_topic_report, configured_action_of, needs_bridge, parse_configured_action,
    BridgeAction,
};
use crate::naming::{derive_peer_name, peer_name_of, PeerName};
use crate::registry::BridgeRegistry;

verus! {

/// A topic named in the static configuration, with its action word if any.
pub struct ConfiguredTopic {
    pub topic_name: String,
    pub topic_type: String,
    pub action: Option<String>,
}

/// A topic as the local domain lists it: its name and declared types.
pub struct TopicListing {
    pub topic_name: String,
    pub topic_types: Vec<String>,
}

/// A topic's name and the type it is bridged under.
pub struct TopicDescriptor {
    pub topic_name: String,
    pub topic_type: String,
}

/// A new topic with the report the introspection tool printed for it.
pub struct ObservedTopic {
    pub topic_name: String,
    pub topic_type: String,
    pub report: Vec<u8>,
}

/// A topic together with the action it was given.
pub struct ClassifiedTopic {
    pub topic_name: String,
    pub topic_type: String,
    pub action: BridgeAction,
}

impl View for ClassifiedTopic {
    type V = (Seq<char>, Seq<char>, BridgeAction);

    open spec fn view(&self) -> (Seq<char>, Seq<char>, BridgeAction) {
        (self.topic_name@, self.topic_type@, self.action)
    }
}

/// A bridge to start: the topic, its action and its peer name.
pub struct BridgePlan {
    pub topic_name: String,
    pub topic_type: String,
    pub action: BridgeAction,
    pub peer_name: PeerName,
}

impl View for BridgePlan {
    type V = (Seq<char>, Seq<char>, BridgeAction, Seq<u8>);

    open spec fn view(&self) -> (Seq<char>, Seq<char>, BridgeAction, Seq<u8>) {
        (self.topic_name@, self.topic_type@, self.action, self.peer_name@)
    }
}

/// A configuration that cannot be used.
#[derive(Clone, Copy, Debug, PartialEq, Eq, Structural)]
pub enum ConfigError {
    /// The entry at this position names an action that does not exist.
    UnknownAction { index: usize },
}

/// What the control task does on each tick after bootstrap.
#[derive(Clone, Copy, Debug, PartialEq, Eq, Structural)]
pub enum ControlStep {
    /// List the local topics and bridge the new ones.
    Enumerate,
    /// Do nothing but keep the process alive.
    Idle,
}

/// Number of milliseconds between two discovery ticks.
pub const DISCOVERY_TICK_MILLIS: u64 = 5000;

/// The registry after a topic was classified: a topic that has an entry
/// keeps it unchanged.
pub open spec fn admit_one(m: Map<Seq<char>, BridgeAction>, name: Seq<char>, action: BridgeAction) -> Map<Seq<char>, BridgeAction> {
    if m.contains_key(name) {
        m
    } else {
        m.insert(name, action)
    }
}

/// The registry after the classified topics were admitted in order.
pub open spec fn admit_all_spec(
    m: Map<Seq<char>, BridgeAction>,
    items: Seq<(Seq<char>, Seq<char>, BridgeAction)>,
) -> Map<Seq<char>, BridgeAction>
    decreases items.len(),
{
    if items.len() == 0 {
        m
    } else {
        admit_one(admit_all_spec(m, items.drop_last()), items.last().0, items.last().2)
    }
}

/// The bridge started for a classified topic.
pub open spec fn plan_of(item: (Seq<char>, Seq<char>, BridgeAction), certificate: Seq<u8>) -> (
    Seq<char>,
    Seq<char>,
    BridgeAction,
    Seq<u8>,
) {
    (item.0, item.1, item.2, peer_name_of(item.0, item.1, certificate))
}

/// The bridges started while the classified topics were admitted in order:
/// one for each topic that got a new entry and an action other than `NoOp`.
pub open spec fn plans_spec(
    m: Map<Seq<char>, BridgeAction>,
    items: Seq<(Seq<char>, Seq<char>, BridgeAction)>,
    certificate: Seq<u8>,
) -> Seq<(Seq<char>, Seq<char>, BridgeAction, Seq<u8>)>
    decreases items.len(),
{
    if items.len() == 0 {
        Seq::empty()
    } else {
        let item = items.last();
        let before = admit_all_spec(m, items.drop_last());
        plans_spec(m, items.drop_last(), certificate) + if !before.contains_key(item.0) && needs_bridge(item.2) {
            seq![plan_of(item, certificate)]
        } else {
            Seq::empty()
        }
    }
}

/// The action of a configuration entry, `None` for an unknown word.
pub open spec fn entry_action(c: ConfiguredTopic) -> Option<BridgeAction> {
    match c.action {
        None => Some(BridgeAction::NoOp),
        Some(w) => configured_action_of(w@),
    }
}

/// The configuration entries with their actions (each one known).
pub open spec fn configured_items(config: Seq<ConfiguredTopic>) -> Seq<(Seq<char>, Seq<char>, BridgeAction)> {
    Seq::new(config.len(), |i: int| (config[i].topic_name@, config[i].topic_type@, entry_action(config[i]).unwrap()))
}

/// The observed topics with the actions their reports give.
pub open spec fn observed_items(observed: Seq<ObservedTopic>) -> Seq<(Seq<char>, Seq<char>, BridgeAction)> {
    Seq::new(
        observed.len(),
        |i: int|
            (
                observed[i].topic_name@,
                observed[i].topic_type@,
                action_for_report(observed[i].report@),
            ),
    )
}

/// The listed topics without an entry in `m` that declare a type, each with
/// its first declared type.
pub open spec fn fresh_spec(m: Map<Seq<char>, BridgeAction>, listings: Seq<TopicListing>) -> Seq<(Seq<char>, Seq<char>)>
    decreases listings.len(),
{
    if listings.len() == 0 {
        Seq::empty()
    } else {
        let l = listings.last();
        fresh_spec(m, listings.drop_last()) + if !m.contains_key(l.topic_name@) && l.topic_types@.len() > 0 {
            seq![(l.topic_name@, l.topic_types@[0]@)]
        } else {
            Seq::empty()
        }
    }
}

/// The decision of the control task on every tick after bootstrap.
pub open spec fn control_of(discovery_enabled: bool) -> ControlStep {
    if discovery_enabled {
        ControlStep::Enumerate
    } else {
        ControlStep::Idle
    }
}

/// What the control task does on a tick after bootstrap.
pub fn control_step(discovery_enabled: bool) -> (r: ControlStep)
    ensures
        r == control_of(discovery_enabled),
{
    if discovery_enabled {
        ControlStep::Enumerate
    } else {
        ControlStep::Idle
    }
}

fn copy_plan_parts(name: &String, ty: &String) -> (r: (String, String))
    ensures
        r.0@ == name@,
        r.1@ == ty@,
{
    (name.clone(), ty.clone())
}

/// Admits the classified topics in order into the registry and returns the
/// bridges to start.
pub fn admit_all(registry: &mut BridgeRegistry, items: &Vec<ClassifiedTopic>, certificate: &[u8]) -> (r: Vec<BridgePlan>)
    requires
        old(registry).wf(),
    ensures
        final(registry).wf(),
        final(registry).view().dom().finite(),
        final(registry).view() == admit_all_spec(old(registry).view(), items@.map_values(|c: ClassifiedTopic| c@)),
        r@.map_values(|p: BridgePlan| p@) == plans_spec(
            old(registry).view(),
            items@.map_values(|c: ClassifiedTopic| c@),
            certificate@,
        ),
{
    let ghost start = registry.view();
    let ghost all = items@.map_values(|c: ClassifiedTopic| c@);
    let mut plans: Vec<BridgePlan> = Vec::new();
    let mut i: usize = 0;
    while i < items.len()
        invariant
            i <= items@.len(),
            all == items@.map_values(|c: ClassifiedTopic| c@),
            registry.wf(),
            registry.view() == admit_all_spec(start, all.subrange(0, i as int)),
            plans@.map_values(|p: BridgePlan| p@) == plans_spec(start, all.subrange(0, i as int), certificate@),
        decreases items@.len() - i,
    {
        let item = &items[i];
        let ghost before = registry.view();
        proof {
            assert(all.subrange(0, i + 1).drop_last() =~= all.subrange(0, i as int));
            assert(all.subrange(0, i + 1).last() == item@);
        }
        let (name, ty) = copy_plan_parts(&item.topic_name, &item.topic_type);
        let added = registry.record(name, item.action);
        if added && item.action != BridgeAction::NoOp {
            let peer_name = derive_peer_name(item.topic_name.as_str(), item.topic_type.as_str(), certificate);
            let (name, ty) = copy_plan_parts(&item.topic_name, &item.topic_type);
            let ghost old_plans = plans@.map_values(|p: BridgePlan| p@);
            plans.push(BridgePlan { topic_name: name, topic_type: ty, action: item.action, peer_name });
            proof {
                assert(plans@.map_values(|p: BridgePlan| p@) =~= old_plans.push(plan_of(item@, certificate@)));
            }
        } else {
            proof {
                assert(plans_spec(start, all.subrange(0, i + 1), certificate@) =~= plans_spec(
                    start,
                    all.subrange(0, i as int),
                    certificate@,
                ));
            }
        }
        i = i + 1;
    }
    proof {
        assert(all.subrange(0, items@.len() as int) =~= all);
        registry.lemma_finite();
    }
    plans
}

/// Bootstrap: classifies each configured topic by its configured action,
/// records it in a new registry and returns the bridges to start. Fails on
/// the first entry whose action word is unknown.
pub fn bootstrap(config: &Vec<ConfiguredTopic>, certificate: &[u8]) -> (r: Result<(BridgeRegistry, Vec<BridgePlan>), ConfigError>)
    ensures
        r.is_err() <==> exists|i: int| 0 <= i < config@.len() && entry_action(#[trigger] config@[i]).is_none(),
        r.is_err() ==> ({
            let i = r->Err_0->index as int;
            &&& 0 <= i < config@.len()
            &&& entry_action(config@[i]).is_none()
            &&& forall|j: int| 0 <= j < i ==> entry_action(#[trigger] config@[j]).is_some()
        }),
        r.is_ok() ==> ({
            let (registry, plans) = r.unwrap();
            &&& registry.wf()
            &&& registry.view().dom().finite()
            &&& registry.view() == admit_all_spec(Map::empty(), configured_items(config@))
            &&& plans@.map_values(|p: BridgePlan| p@) == plans_spec(Map::empty(), configured_items(config@), certificate@)
        }),
{
    let mut items: Vec<ClassifiedTopic> = Vec::new();
    let mut i: usize = 0;
    while i < config.len()
        invariant
            i <= config@.len(),
            items@.len() == i,
            forall|j: int| 0 <= j < i ==> entry_action(#[trigger] config@[j]).is_some(),
            forall|j: int| 0 <= j < i ==> #[trigger] items@[j]@ == configured_items(config@)[j],
        decreases config@.len() - i,
    {
        let entry = &config[i];
        match parse_configured_action(&entry.action) {
            None => {
                return Err(ConfigError::UnknownAction { index: i });
            },
            Some(action) => {
                let (name, ty) = copy_plan_parts(&entry.topic_name, &entry.topic_type);
                items.push(ClassifiedTopic { topic_name: name, topic_type: ty, action });
            },
        }
        i = i + 1;
    }
    proof {
        assert(items@.map_values(|c: ClassifiedTopic| c@) =~= configured_items(config@));
    }
    let mut registry = BridgeRegistry::new();
    let plans = admit_all(&mut registry, &items, certificate);
    Ok((registry, plans))
}

/// The listed topics that have no entry yet and declare a type, each with
/// its first declared type: the topics to read counts for on this tick.
pub fn fresh_topics(registry: &BridgeRegistry, listings: &Vec<TopicListing>) -> (r: Vec<TopicDescriptor>)
    requires
        registry.wf(),
    ensures
        r@.map_values(|d: TopicDescriptor| (d.topic_name@, d.topic_type@)) == fresh_spec(registry.view(), listings@),
{
    let mut out: Vec<TopicDescriptor> = Vec::new();
    let mut i: usize = 0;
    while i < listings.len()
        invariant
            i <= listings@.len(),
            registry.wf(),
            out@.map_values(|d: TopicDescriptor| (d.topic_name@, d.topic_type@)) == fresh_spec(
                registry.view(),
                listings@.subrange(0, i as int),
            ),
        decreases listings@.len() - i,
    {
        let l = &listings[i];
        proof {
            assert(listings@.subrange(0, i + 1).drop_last() =~= listings@.subrange(0, i as int));
        }
        let ghost old_out = out@.map_values(|d: TopicDescriptor| (d.topic_name@, d.topic_type@));
        if !registry.contains(&l.topic_name) && l.topic_types.len() > 0 {
            let (name, ty) = copy_plan_parts(&l.topic_name, &l.topic_types[0]);
            out.push(TopicDescriptor { topic_name: name, topic_type: ty });
            proof {
                assert(out@.map_values(|d: TopicDescriptor| (d.topic_name@, d.topic_type@)) =~= old_out.push(
                    (l.topic_name@, l.topic_types@[0]@),
                ));
            }
        } else {
            proof {
                assert(fresh_spec(registry.view(), listings@.subrange(0, i + 1)) =~= old_out);
            }
        }
        i = i + 1;
    }
    proof {
        assert(listings@.subrange(0, listings@.len() as int) =~= listings@);
    }
    out
}

/// One discovery tick: classifies each observed topic from its report,
/// records the ones without an entry and returns the bridges to start.
/// Topics that have an entry are left as they are.
pub fn run_discovery(registry: &mut BridgeRegistry, observed: &Vec<ObservedTopic>, certificate: &[u8]) -> (r: Vec<BridgePlan>)
    requires
        old(registry).wf(),
    ensures
        final(registry).wf(),
        final(registry).view().dom().finite(),
        final(registry).view() == admit_all_spec(old(registry).view(), observed_items(observed@)),
        r@.map_values(|p: BridgePlan| p@) == plans_spec(old(registry).view(), observed_items(observed@), certificate@),
{
    let mut items: Vec<ClassifiedTopic> = Vec::new();
    let mut i: usize = 0;
    while i < observed.len()
        invariant
            i <= observed@.len(),
            items@.len() == i,
            forall|j: int| 0 <= j < i ==> #[trigger] items@[j]@ == observed_items(observed@)[j],
        decreases observed@.len() - i,
    {
        let o = &observed[i];
        let action = classify_topic_report(o.report.as_slice());
        let (name, ty) = copy_plan_parts(&o.topic_name, &o.topic_type);
        items.push(ClassifiedTopic { topic_name: name, topic_type: ty, action });
        i = i + 1;
    }
    proof {
        assert(items@.map_values(|c: ClassifiedTopic| c@) =~= observed_items(observed@));
    }
    admit_all(registry, &items, certificate)
}

/// A topic whose classification failed: it gets an entry without action,
/// unless it has one, so no later tick classifies it again and no bridge is
/// started for it.
pub fn abandon_topic(registry: &mut BridgeRegistry, topic_name: String)
    requires
        old(registry).wf(),
    ensures
        final(registry).wf(),
        final(registry).view().dom().finite(),
        final(registry).view() == admit_one(old(registry).view(), topic_name@, BridgeAction::NoOp),
{
    registry.record(topic_name, BridgeAction::NoOp);
}

proof fn lemma_admit_all_covers(m: Map<Seq<char>, BridgeAction>, items: Seq<(Seq<char>, Seq<char>, BridgeAction)>)
    ensures
        forall|k: Seq<char>| m.contains_key(k) ==> #[trigger] admit_all_spec(m, items).contains_key(k),
        forall|j: int| 0 <= j < items.len() ==> admit_all_spec(m, items).contains_key(#[trigger] items[j].0),
    decreases items.len(),
{
    if items.len() > 0 {
        let rest = items.drop_last();
        lemma_admit_all_covers(m, rest);
        assert forall|k: Seq<char>| m.contains_key(k) implies #[trigger] admit_all_spec(m, items).contains_key(k) by {
            assert(admit_all_spec(m, rest).contains_key(k));
        }
        assert forall|j: int| 0 <= j < items.len() implies admit_all_spec(m, items).contains_key(#[trigger] items[j].0) by {
            if j < items.len() - 1 {
                assert(rest[j] == items[j]);
            }
        }
    }
}

proof fn lemma_admit_all_stable(
    m: Map<Seq<char>, BridgeAction>,
    items: Seq<(Seq<char>, Seq<char>, BridgeAction)>,
    certificate: Seq<u8>,
)
    requires
        forall|j: int| 0 <= j < items.len() ==> m.contains_key(#[trigger] items[j].0),
    ensures
        admit_all_spec(m, items) == m,
        plans_spec(m, items, certificate) == Seq::<(Seq<char>, Seq<char>, BridgeAction, Seq<u8>)>::empty(),
    decreases items.len(),
{
    if items.len() > 0 {
        let rest = items.drop_last();
        assert forall|j: int| 0 <= j < rest.len() implies m.contains_key(#[trigger] rest[j].0) by {
            assert(rest[j] == items[j]);
        }
        lemma_admit_all_stable(m, rest, certificate);
        assert(m.contains_key(items[items.len() - 1].0));
        assert(plans_spec(m, items, certificate) =~= Seq::<(Seq<char>, Seq<char>, BridgeAction, Seq<u8>)>::empty());
    }
}

/// Running discovery a second time over the same topics adds no entry,
/// changes none and starts no bridge.
pub proof fn lemma_discovery_idempotent(
    m: Map<Seq<char>, BridgeAction>,
    items: Seq<(Seq<char>, Seq<char>, BridgeAction)>,
    certificate: Seq<u8>,
)
    ensures
        admit_all_spec(admit_all_spec(m, items), items) == admit_all_spec(m, items),
        plans_spec(admit_all_spec(m, items), items, certificate) == Seq::<(Seq<char>, Seq<char>, BridgeAction, Seq<u8>)>::empty(),
{
    lemma_admit_all_covers(m, items);
    lemma_admit_all_stable(admit_all_spec(m, items), items, certificate);
}

/// Admitting topics never changes or removes an entry that was there.
pub proof fn lemma_entries_kept(
    m: Map<Seq<char>, BridgeAction>,
    items: Seq<(Seq<char>, Seq<char>, BridgeAction)>,
    name: Seq<char>,
)
    requires
        m.contains_key(name),
    ensures
        admit_all_spec(m, items).contains_key(name),
        admit_all_spec(m, items)[name] == m[name],
    decreases items.len(),
{
    if items.len() > 0 {
        lemma_entries_kept(m, items.drop_last(), name);
    }
}

/// The decisions of the control task over its first `ticks` ticks after
/// bootstrap.
pub open spec fn control_trace(discovery_enabled: bool, ticks: nat) -> Seq<ControlStep> {
    Seq::new(ticks, |i: int| control_of(discovery_enabled))
}

proof fn lemma_admit_all_dom(m: Map<Seq<char>, BridgeAction>, items: Seq<(Seq<char>, Seq<char>, BridgeAction)>)
    ensures
        forall|k: Seq<char>| #[trigger] admit_all_spec(m, items).contains_key(k) <==> (m.contains_key(k) || exists|j: int|
            0 <= j < items.len() && items[j].0 == k),
    decreases items.len(),
{
    if items.len() > 0 {
        let rest = items.drop_last();
        lemma_admit_all_dom(m, rest);
        assert(admit_all_spec(m, items) == admit_one(admit_all_spec(m, rest), items.last().0, items.last().2));
        assert forall|k: Seq<char>| #[trigger] admit_all_spec(m, items).contains_key(k) <==> (m.contains_key(k) || exists|j: int|
            0 <= j < items.len() && items[j].0 == k) by {
            assert(admit_all_spec(m, rest).contains_key(k) <==> (m.contains_key(k) || exists|j: int|
                0 <= j < rest.len() && rest[j].0 == k));
            if exists|j: int| 0 <= j < items.len() && items[j].0 == k {
                let j = choose|j: int| 0 <= j < items.len() && items[j].0 == k;
                if j < items.len() - 1 {
                    assert(rest[j].0 == k);
                }
            }
            if exists|j: int| 0 <= j < rest.len() && rest[j].0 == k {
                let j = choose|j: int| 0 <= j < rest.len() && rest[j].0 == k;
                assert(items[j].0 == k);
            }
            if k == items.last().0 {
                assert(items[items.len() - 1].0 == k);
            }
        }
    }
}

/// A tick over topics that all have an entry but one, `name`, which is new:
/// afterwards the registry holds exactly the old names and `name`, one entry
/// more than before, and every old entry unchanged.
pub proof fn lemma_one_new_topic(
    m: Map<Seq<char>, BridgeAction>,
    items: Seq<(Seq<char>, Seq<char>, BridgeAction)>,
    name: Seq<char>,
)
    requires
        m.dom().finite(),
        !m.contains_key(name),
        exists|j: int| 0 <= j < items.len() && items[j].0 == name,
        forall|j: int| 0 <= j < items.len() ==> items[j].0 == name || m.contains_key(#[trigger] items[j].0),
    ensures
        admit_all_spec(m, items).dom() == m.dom().insert(name),
        admit_all_spec(m, items).dom().len() == m.dom().len() + 1,
        forall|k: Seq<char>| #[trigger] m.contains_key(k) ==> admit_all_spec(m, items)[k] == m[k],
{
    lemma_admit_all_dom(m, items);
    assert forall|k: Seq<char>| #[trigger] admit_all_spec(m, items).dom().contains(k) <==> m.dom().insert(name).contains(k) by {
        if exists|j: int| 0 <= j < items.len() && items[j].0 == k {
            let j = choose|j: int| 0 <= j < items.len() && items[j].0 == k;
            assert(items[j].0 == name || m.contains_key(items[j].0));
        }
    }
    assert(admit_all_spec(m, items).dom() =~= m.dom().insert(name));
    assert forall|k: Seq<char>| #[trigger] m.contains_key(k) implies admit_all_spec(m, items)[k] == m[k] by {
        lemma_entries_kept(m, items, k);
    }
}

/// With discovery disabled, no tick after bootstrap ever lists the topics.
pub proof fn lemma_disabled_never_enumerates(ticks: nat)
    ensures
        forall|t: int| 0 <= t < ticks ==> #[trigger] control_trace(false, ticks)[t] != ControlStep::Enumerate,
{
}

} // verus!
