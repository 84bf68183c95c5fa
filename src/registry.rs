use vstd::prelude::*;

use crate::action::BridgeAction;

verus! {

/// The recorded status of a topic that has been classified.
#[derive(Clone, Copy, Debug, PartialEq, Eq, Structural)]
pub struct RosTopicStatus {
    pub action: BridgeAction,
}

/// The map that a list of distinct names and their actions stands for.
pub open spec fn map_of(names: Seq<Seq<char>>, actions: Seq<BridgeAction>) -> Map<Seq<char>, BridgeAction>
    decreases names.len(),
{
    if names.len() == 0 || actions.len() == 0 {
        Map::empty()
    } else {
        map_of(names.drop_last(), actions.drop_last()).insert(names.last(), actions.last())
    }
}

proof fn lemma_map_of_lookup(names: Seq<Seq<char>>, actions: Seq<BridgeAction>)
    requires
        names.len() == actions.len(),
        names.no_duplicates(),
    ensures
        map_of(names, actions).dom().finite(),
        forall|k: Seq<char>| #[trigger] map_of(names, actions).contains_key(k) <==> names.contains(k),
        forall|i: int| 0 <= i < names.len() ==> map_of(names, actions)[#[trigger] names[i]] == actions[i],
    decreases names.len(),
{
    if names.len() > 0 {
        let n0 = names.drop_last();
        let a0 = actions.drop_last();
        assert(n0.no_duplicates()) by {
            assert forall|i: int, j: int| 0 <= i < j < n0.len() implies n0[i] != n0[j] by {
                assert(n0[i] == names[i] && n0[j] == names[j]);
            }
        }
        lemma_map_of_lookup(n0, a0);
        assert(map_of(names, actions) == map_of(n0, a0).insert(names.last(), actions.last()));
        assert forall|k: Seq<char>| #[trigger] map_of(names, actions).contains_key(k) <==> names.contains(k) by {
            if names.contains(k) && k != names.last() {
                let j = choose|j: int| 0 <= j < names.len() && names[j] == k;
                assert(n0[j] == k);
            }
            if n0.contains(k) {
                let j = choose|j: int| 0 <= j < n0.len() && n0[j] == k;
                assert(names[j] == k);
            }
            if k == names.last() {
                assert(names[names.len() - 1] == k);
            }
        }
        assert forall|i: int| 0 <= i < names.len() implies map_of(names, actions)[#[trigger] names[i]] == actions[i] by {
            if i < names.len() - 1 {
                assert(n0[i] == names[i]);
                assert(names[i] != names.last());
            }
        }
    }
}

/// Topics that have been classified, each with the action it was given.
/// An entry is written once and never changed or removed.
pub struct BridgeRegistry {
    names: Vec<String>,
    statuses: Vec<RosTopicStatus>,
}

impl BridgeRegistry {
    pub closed spec fn name_seq(&self) -> Seq<Seq<char>> {
        self.names@.map_values(|s: String| s@)
    }

    pub closed spec fn action_seq(&self) -> Seq<BridgeAction> {
        self.statuses@.map_values(|s: RosTopicStatus| s.action)
    }

    /// The entries recorded so far, by topic name.
    pub closed spec fn view(&self) -> Map<Seq<char>, BridgeAction> {
        map_of(self.name_seq(), self.action_seq())
    }

    /// Each name is recorded once, with one status, and there are finitely
    /// many entries.
    pub closed spec fn wf(&self) -> bool {
        &&& self.names@.len() == self.statuses@.len()
        &&& self.name_seq().no_duplicates()
        &&& self.view().dom().finite()
    }

    /// A well-formed registry holds finitely many entries.
    pub proof fn lemma_finite(&self)
        requires
            self.wf(),
        ensures
            self.view().dom().finite(),
    {
    }

    /// An empty registry.
    pub fn new() -> (r: Self)
        ensures
            r.wf(),
            r.view() == Map::<Seq<char>, BridgeAction>::empty(),
            r.view().dom().finite(),
    {
        BridgeRegistry { names: Vec::new(), statuses: Vec::new() }
    }

    fn position(&self, topic_name: &String) -> (r: Option<usize>)
        requires
            self.wf(),
        ensures
            r.is_none() ==> !self.name_seq().contains(topic_name@),
            r.is_some() ==> r.unwrap() < self.names@.len() && self.name_seq()[r.unwrap() as int] == topic_name@,
    {
        let mut i: usize = 0;
        while i < self.names.len()
            invariant
                i <= self.names@.len(),
                forall|j: int| 0 <= j < i ==> self.name_seq()[j] != topic_name@,
            decreases self.names@.len() - i,
        {
            if self.names[i] == *topic_name {
                return Some(i);
            }
            i = i + 1;
        }
        None
    }

    /// Whether the topic already has an entry.
    pub fn contains(&self, topic_name: &String) -> (r: bool)
        requires
            self.wf(),
        ensures
            r == self.view().contains_key(topic_name@),
    {
        proof {
            lemma_map_of_lookup(self.name_seq(), self.action_seq());
        }
        self.position(topic_name).is_some()
    }

    /// The status recorded for the topic, if any.
    pub fn get(&self, topic_name: &String) -> (r: Option<RosTopicStatus>)
        requires
            self.wf(),
        ensures
            r.is_some() == self.view().contains_key(topic_name@),
            r.is_some() ==> r.unwrap().action == self.view()[topic_name@],
    {
        proof {
            lemma_map_of_lookup(self.name_seq(), self.action_seq());
        }
        match self.position(topic_name) {
            None => None,
            Some(i) => Some(self.statuses[i]),
        }
    }

    /// Records the topic's action unless the topic already has an entry, in
    /// which case nothing changes. Returns whether an entry was added.
    pub fn record(&mut self, topic_name: String, action: BridgeAction) -> (r: bool)
        requires
            old(self).wf(),
        ensures
            final(self).wf(),
            final(self).view().dom().finite(),
            r == !old(self).view().contains_key(topic_name@),
            final(self).view() == (if r { old(self).view().insert(topic_name@, action) } else { old(self).view() }),
    {
        proof {
            lemma_map_of_lookup(self.name_seq(), self.action_seq());
        }
        if self.position(&topic_name).is_some() {
            return false;
        }
        let ghost key = topic_name@;
        self.names.push(topic_name);
        self.statuses.push(RosTopicStatus { action });
        proof {
            assert(self.name_seq().drop_last() =~= old(self).name_seq());
            assert(self.action_seq().drop_last() =~= old(self).action_seq());
            assert(self.name_seq().last() == key);
            assert(self.name_seq() =~= old(self).name_seq().push(key));
            lemma_map_of_lookup(self.name_seq(), self.action_seq());
        }
        true
    }
}

} // verus!
