//! Topic registry and delivery decisions of the broker.
//!
//! Two delivery modes share a topic:
//! - broadcast: every subscriber of the topic receives every message;
//! - consumer groups (queue subscribe): each message goes to exactly one
//!   worker of each group, chosen round-robin.
//!
//! This module keeps the registry (topics, groups, worker ids, round-robin
//! counters) and decides, for each publish, which worker of each group gets
//! the message. Handing the message to the subscribers' channels is left to
//! the caller, which reports back how many broadcast receivers took it.

use vstd::prelude::*;
use crate::segments::{bytes_eq, to_vec};
use crate::state::MessageState;

verus! {

/// Capacity of each topic's broadcast channel and of each worker's queue.
pub const CHANNEL_CAPACITY: usize = 1024usize;

/// Abstract state of a consumer group: workers `0 .. next_worker_id` are
/// members, and `rr_counter` counts the dispatches made so far.
pub struct GroupView {
    pub next_worker_id: usize,
    pub rr_counter: usize,
}

/// A consumer group (work queue): members compete for messages.
pub struct ConsumerGroup {
    /// Member worker ids, in increasing order.
    workers: Vec<usize>,
    /// The id the next member gets.
    next_worker_id: usize,
    /// Round-robin position.
    rr_counter: usize,
}

/// The member that receives the next message: position `rr_counter` modulo
/// the number of members, or none when the group is empty.
pub open spec fn dispatch_target(g: GroupView) -> Option<usize> {
    if g.next_worker_id == 0 {
        None
    } else {
        Some((g.rr_counter % g.next_worker_id) as usize)
    }
}

/// The group after one dispatch: the counter advances (wrapping) when the
/// group has members.
pub open spec fn after_dispatch(g: GroupView) -> GroupView {
    if g.next_worker_id == 0 {
        g
    } else {
        GroupView {
            next_worker_id: g.next_worker_id,
            rr_counter: vstd::wrapping::usize_specs::wrapping_add(g.rr_counter, 1),
        }
    }
}

/// The group after one more worker joins.
pub open spec fn after_join(g: GroupView) -> GroupView {
    GroupView { next_worker_id: (g.next_worker_id + 1) as usize, rr_counter: g.rr_counter }
}

impl ConsumerGroup {
    pub closed spec fn view(&self) -> GroupView {
        GroupView { next_worker_id: self.next_worker_id, rr_counter: self.rr_counter }
    }

    /// The members are exactly `0 .. next_worker_id`, in order.
    pub closed spec fn wf(&self) -> bool {
        &&& self.workers@.len() == self.next_worker_id
        &&& forall|i: int| 0 <= i < self.workers@.len() ==> #[trigger] self.workers@[i] == i
    }

    /// An empty group.
    pub fn new() -> (r: Self)
        ensures
            r.wf(),
            r.view() == (GroupView { next_worker_id: 0, rr_counter: 0 }),
    {
        ConsumerGroup { workers: Vec::new(), next_worker_id: 0, rr_counter: 0 }
    }

    /// Adds a member and returns its id: ids are handed out as 0, 1, 2, ...
    pub fn add_worker(&mut self) -> (id: usize)
        requires
            old(self).wf(),
        ensures
            final(self).wf(),
            id == old(self).view().next_worker_id,
            final(self).view() == after_join(old(self).view()),
    {
        let id = self.next_worker_id;
        self.workers.push(id);
        let len = self.workers.len();
        self.next_worker_id = len;
        assert(self.workers@ =~= old(self).workers@.push(id));
        id
    }

    /// Picks the member that receives one message, round-robin, and advances
    /// the counter; `None` when the group has no members.
    pub fn dispatch(&mut self) -> (r: Option<usize>)
        requires
            old(self).wf(),
        ensures
            final(self).wf(),
            r == dispatch_target(old(self).view()),
            final(self).view() == after_dispatch(old(self).view()),
    {
        if self.workers.len() == 0 {
            return None;
        }
        let idx = self.rr_counter;
        self.rr_counter = self.rr_counter.wrapping_add(1);
        let target = self.workers[idx % self.workers.len()];
        Some(target)
    }

    /// Number of members.
    pub fn worker_count(&self) -> (r: usize)
        requires
            self.wf(),
        ensures
            r == self.view().next_worker_id,
    {
        self.workers.len()
    }
}

impl Default for ConsumerGroup {
    fn default() -> (r: Self)
        ensures
            r.wf(),
            r.view() == (GroupView { next_worker_id: 0, rr_counter: 0 }),
    {
        ConsumerGroup::new()
    }
}

/// Abstract state of one topic: its name and its consumer groups, in the
/// order they were created.
pub struct TopicView {
    pub name: Seq<u8>,
    pub groups: Seq<(Seq<u8>, GroupView)>,
}

struct TopicEntry {
    topic: Vec<u8>,
    groups: Vec<(Vec<u8>, ConsumerGroup)>,
}

/// Result of a publish, as reported to the publisher.
#[derive(Debug, Clone, Copy, PartialEq, Eq, Structural)]
pub struct PublishResult {
    pub state: MessageState,
    /// Number of broadcast subscribers that received the message.
    pub subscribers: usize,
}

/// Whether some topic in `v` is named `t`.
pub open spec fn has_topic(v: Seq<TopicView>, t: Seq<u8>) -> bool {
    exists|i: int| 0 <= i < v.len() && #[trigger] v[i].name == t
}

/// The index of the topic named `t` (meaningful when `has_topic(v, t)`).
pub open spec fn topic_index(v: Seq<TopicView>, t: Seq<u8>) -> int {
    choose|i: int| 0 <= i < v.len() && #[trigger] v[i].name == t
}

/// Whether some group in `gs` is named `g`.
pub open spec fn has_group(gs: Seq<(Seq<u8>, GroupView)>, g: Seq<u8>) -> bool {
    exists|j: int| 0 <= j < gs.len() && #[trigger] gs[j].0 == g
}

/// The index of the group named `g` (meaningful when `has_group(gs, g)`).
pub open spec fn group_index(gs: Seq<(Seq<u8>, GroupView)>, g: Seq<u8>) -> int {
    choose|j: int| 0 <= j < gs.len() && #[trigger] gs[j].0 == g
}

/// The registry with topic `t` present: unchanged when it exists, else `t`
/// added last with no groups.
pub open spec fn with_topic(v: Seq<TopicView>, t: Seq<u8>) -> Seq<TopicView> {
    if has_topic(v, t) {
        v
    } else {
        v.push(TopicView { name: t, groups: seq![] })
    }
}

/// The registry after a worker joins group `g` of topic `t`, and the id it gets.
pub open spec fn after_queue_subscribe(v: Seq<TopicView>, t: Seq<u8>, g: Seq<u8>) -> (
    Seq<TopicView>,
    usize,
) {
    let v1 = with_topic(v, t);
    let i = topic_index(v1, t);
    let gs = v1[i].groups;
    if has_group(gs, g) {
        let j = group_index(gs, g);
        (
            v1.update(i, TopicView { name: t, groups: gs.update(j, (g, after_join(gs[j].1))) }),
            gs[j].1.next_worker_id,
        )
    } else {
        (
            v1.update(
                i,
                TopicView {
                    name: t,
                    groups: gs.push((g, GroupView { next_worker_id: 1, rr_counter: 0 })),
                },
            ),
            0,
        )
    }
}

/// The registry after a publish to topic `t`: every group of `t` dispatches once.
pub open spec fn after_publish(v: Seq<TopicView>, t: Seq<u8>) -> Seq<TopicView> {
    if has_topic(v, t) {
        let i = topic_index(v, t);
        v.update(
            i,
            TopicView {
                name: t,
                groups: v[i].groups.map_values(
                    |e: (Seq<u8>, GroupView)| (e.0, after_dispatch(e.1)),
                ),
            },
        )
    } else {
        v
    }
}

/// The delivery plan of a publish to `t`: for each group of `t`, in order,
/// its name and the member that receives the message.
pub open spec fn publish_plan(v: Seq<TopicView>, t: Seq<u8>) -> Option<
    Seq<(Seq<u8>, Option<usize>)>,
> {
    if has_topic(v, t) {
        let i = topic_index(v, t);
        Some(
            v[i].groups.map_values(
                |e: (Seq<u8>, GroupView)| (e.0, dispatch_target(e.1)),
            ),
        )
    } else {
        None
    }
}

/// Names in the registry are distinct: topics among topics, groups within a topic.
pub open spec fn names_distinct(v: Seq<TopicView>) -> bool {
    &&& forall|i: int, j: int|
        0 <= i < v.len() && 0 <= j < v.len() && i != j ==> #[trigger] v[i].name != #[trigger] v[j].name
    &&& forall|i: int, a: int, b: int|
        0 <= i < v.len() && 0 <= a < v[i].groups.len() && 0 <= b < v[i].groups.len() && a != b
            ==> #[trigger] v[i].groups[a].0 != #[trigger] v[i].groups[b].0
}

/// The byte view of a delivery plan.
pub open spec fn plan_view(p: Seq<(Vec<u8>, Option<usize>)>) -> Seq<(Seq<u8>, Option<usize>)> {
    p.map_values(|e: (Vec<u8>, Option<usize>)| (e.0@, e.1))
}

/// The topic registry of the broker.
pub struct Router {
    topics: Vec<TopicEntry>,
}

impl Router {
    closed spec fn entry_view(e: TopicEntry) -> TopicView {
        TopicView {
            name: e.topic@,
            groups: e.groups@.map_values(|g: (Vec<u8>, ConsumerGroup)| (g.0@, g.1.view())),
        }
    }

    /// The topics in creation order, with their groups.
    pub closed spec fn view(&self) -> Seq<TopicView> {
        self.topics@.map_values(|e: TopicEntry| Router::entry_view(e))
    }

    /// Names are distinct and every group's members are `0 .. next_worker_id`.
    pub closed spec fn wf(&self) -> bool {
        &&& names_distinct(self.view())
        &&& forall|i: int, j: int|
            0 <= i < self.topics@.len() && 0 <= j < self.topics@[i].groups@.len()
                ==> #[trigger] self.topics@[i].groups@[j].1.wf()
    }

    /// An empty registry.
    pub fn new() -> (r: Self)
        ensures
            r.wf(),
            r.view() == Seq::<TopicView>::empty(),
    {
        let r = Router { topics: Vec::new() };
        assert(r.view() =~= Seq::<TopicView>::empty());
        r
    }

    /// The index of topic `topic`, if registered.
    fn find_topic(&self, topic: &[u8]) -> (r: Option<usize>)
        requires
            self.wf(),
        ensures
            r matches Some(i) ==> i < self.view().len() && self.view()[i as int].name == topic@
                && topic_index(self.view(), topic@) == i,
            r is None <==> !has_topic(self.view(), topic@),
    {
        let mut i: usize = 0;
        while i < self.topics.len()
            invariant
                self.wf(),
                i <= self.topics@.len(),
                self.view().len() == self.topics@.len(),
                forall|k: int| 0 <= k < i ==> #[trigger] self.view()[k].name != topic@,
            decreases self.topics@.len() - i,
        {
            assert(self.view()[i as int].name == self.topics@[i as int].topic@);
            if bytes_eq(self.topics[i].topic.as_slice(), topic) {
                assert(self.view()[i as int].name == topic@);
                let ghost c = topic_index(self.view(), topic@);
                assert(self.view()[c].name == topic@);
                assert(c == i as int);
                return Some(i);
            }
            i = i + 1;
        }
        None
    }

    /// The index of group `group` of topic number `ti`, if it exists.
    fn find_group(&self, ti: usize, group: &[u8]) -> (r: Option<usize>)
        requires
            self.wf(),
            ti < self.view().len(),
        ensures
            r matches Some(j) ==> j < self.view()[ti as int].groups.len()
                && self.view()[ti as int].groups[j as int].0 == group@
                && group_index(self.view()[ti as int].groups, group@) == j,
            r is None <==> !has_group(self.view()[ti as int].groups, group@),
    {
        let groups = &self.topics[ti].groups;
        let ghost gs = self.view()[ti as int].groups;
        assert(gs.len() == groups@.len());
        let mut j: usize = 0;
        while j < groups.len()
            invariant
                self.wf(),
                ti < self.view().len(),
                groups == self.topics@[ti as int].groups,
                gs == self.view()[ti as int].groups,
                gs.len() == groups@.len(),
                j <= groups@.len(),
                forall|k: int| 0 <= k < j ==> #[trigger] gs[k].0 != group@,
            decreases groups@.len() - j,
        {
            assert(gs[j as int].0 == groups@[j as int].0@);
            if bytes_eq(groups[j].0.as_slice(), group) {
                let ghost c = group_index(gs, group@);
                assert(gs[c].0 == group@);
                assert(c == j as int);
                return Some(j);
            }
            j = j + 1;
        }
        None
    }

    /// Registers topic `topic` for broadcast subscribers. Returns whether the
    /// topic was created by this call; an existing topic is left as it is.
    pub fn subscribe(&mut self, topic: &[u8]) -> (created: bool)
        requires
            old(self).wf(),
        ensures
            final(self).wf(),
            created == !has_topic(old(self).view(), topic@),
            final(self).view() == with_topic(old(self).view(), topic@),
    {
        match self.find_topic(topic) {
            Some(_) => false,
            None => {
                self.ensure_topic_exists(topic);
                true
            },
        }
    }

    /// Adds topic `topic` when it is missing; returns its index.
    fn ensure_topic_exists(&mut self, topic: &[u8]) -> (i: usize)
        requires
            old(self).wf(),
        ensures
            final(self).wf(),
            final(self).view() == with_topic(old(self).view(), topic@),
            i < final(self).view().len(),
            final(self).view()[i as int].name == topic@,
            i == topic_index(final(self).view(), topic@),
    {
        match self.find_topic(topic) {
            Some(i) => i,
            None => {
                let ghost old_view = self.view();
                let i = self.topics.len();
                self.topics.push(TopicEntry { topic: to_vec(topic), groups: Vec::new() });
                assert(self.view() =~= old_view.push(TopicView { name: topic@, groups: seq![] })) by {
                    assert(Router::entry_view(self.topics@[i as int]).groups =~= Seq::<(Seq<u8>, GroupView)>::empty());
                }
                assert(names_distinct(self.view())) by {
                    assert forall|a: int, b: int|
                        0 <= a < self.view().len() && 0 <= b < self.view().len() && a != b
                        implies #[trigger] self.view()[a].name != #[trigger] self.view()[b].name by {
                        if a == i as int {
                            assert(old_view[b].name != topic@);
                        } else if b == i as int {
                            assert(old_view[a].name != topic@);
                        }
                    }
                }
                let ghost c = topic_index(self.view(), topic@);
                assert(self.view()[i as int].name == topic@);
                assert(self.view()[c].name == topic@);
                i
            },
        }
    }

    /// Adds a worker to consumer group `group` of topic `topic`, creating the
    /// topic and the group when missing. Returns the worker's id: ids in a
    /// group are handed out as 0, 1, 2, ...
    pub fn queue_subscribe(&mut self, topic: &[u8], group: &[u8]) -> (worker_id: usize)
        requires
            old(self).wf(),
        ensures
            final(self).wf(),
            (final(self).view(), worker_id) == after_queue_subscribe(old(self).view(), topic@, group@),
    {
        let ghost v0 = self.view();
        let i = self.ensure_topic_exists(topic);
        let ghost v1 = self.view();
        let ghost gs = v1[i as int].groups;
        match self.find_group(i, group) {
            Some(j) => {
                let ghost gj = gs[j as int].1;
                assert(self.topics@[i as int].groups@[j as int].1.wf());
                let id = self.topics[i].groups[j].1.add_worker();
                proof {
                    let v2 = self.view();
                    assert(v2 =~= v1.update(i as int, TopicView { name: topic@, groups: gs.update(j as int, (group@, after_join(gj))) })) by {
                        assert(Router::entry_view(self.topics@[i as int]).groups =~= gs.update(j as int, (group@, after_join(gj))));
                    }
                    self.lemma_wf_after_group_change(v1, i as int);
                }
                id
            },
            None => {
                let mut g = ConsumerGroup::new();
                let id = g.add_worker();
                self.topics[i].groups.push((to_vec(group), g));
                proof {
                    let v2 = self.view();
                    assert(v2 =~= v1.update(i as int, TopicView { name: topic@, groups: gs.push((group@, GroupView { next_worker_id: 1, rr_counter: 0 })) })) by {
                        assert(Router::entry_view(self.topics@[i as int]).groups =~= gs.push((group@, GroupView { next_worker_id: 1, rr_counter: 0 })));
                    }
                    assert forall|a: int, b: int|
                        0 <= a < v2[i as int].groups.len() && 0 <= b < v2[i as int].groups.len() && a != b
                        implies #[trigger] v2[i as int].groups[a].0 != #[trigger] v2[i as int].groups[b].0 by {
                        let last = gs.len() as int;
                        if a == last {
                            assert(gs[b].0 != group@);
                        } else if b == last {
                            assert(gs[a].0 != group@);
                        } else {
                            assert(v1[i as int].groups[a].0 != v1[i as int].groups[b].0);
                        }
                    }
                    self.lemma_wf_after_group_change(v1, i as int);
                }
                id
            },
        }
    }

    /// After topic `i`'s groups change and keep distinct names, the registry
    /// is still well formed, provided every group is well formed.
    proof fn lemma_wf_after_group_change(&self, before: Seq<TopicView>, i: int)
        requires
            names_distinct(before),
            0 <= i < before.len(),
            self.view().len() == before.len(),
            forall|k: int| 0 <= k < before.len() ==> #[trigger] self.view()[k].name == before[k].name,
            forall|k: int| 0 <= k < before.len() && k != i ==> #[trigger] self.view()[k] == before[k],
            forall|a: int, b: int|
                0 <= a < self.view()[i].groups.len() && 0 <= b < self.view()[i].groups.len() && a != b
                    ==> #[trigger] self.view()[i].groups[a].0 != #[trigger] self.view()[i].groups[b].0,
            forall|k: int, j: int|
                0 <= k < self.topics@.len() && 0 <= j < self.topics@[k].groups@.len()
                    ==> #[trigger] self.topics@[k].groups@[j].1.wf(),
        ensures
            self.wf(),
    {
        let v = self.view();
        assert forall|a: int, b: int| 0 <= a < v.len() && 0 <= b < v.len() && a != b implies #[trigger] v[a].name != #[trigger] v[b].name by {
            assert(before[a].name != before[b].name);
        }
        assert forall|k: int, a: int, b: int|
            0 <= k < v.len() && 0 <= a < v[k].groups.len() && 0 <= b < v[k].groups.len() && a != b
            implies #[trigger] v[k].groups[a].0 != #[trigger] v[k].groups[b].0 by {
            if k != i {
                assert(before[k].groups[a].0 != before[k].groups[b].0);
            }
        }
    }

    /// Decides the deliveries of a message published on `topic`: `None` when
    /// the topic is unknown (the message is dropped); otherwise, for each
    /// consumer group of the topic in creation order, the worker that gets the
    /// message, each group advancing its round-robin position once.
    pub fn publish(&mut self, topic: &[u8]) -> (plan: Option<Vec<(Vec<u8>, Option<usize>)>>)
        requires
            old(self).wf(),
        ensures
            final(self).wf(),
            final(self).view() == after_publish(old(self).view(), topic@),
            match plan {
                Some(p) => publish_plan(old(self).view(), topic@) == Some(plan_view(p@)),
                None => publish_plan(old(self).view(), topic@) is None,
            },
    {
        let ghost v0 = self.view();
        match self.find_topic(topic) {
            None => None,
            Some(i) => {
                let ghost gs = v0[i as int].groups;
                let n = self.topics[i].groups.len();
                assert(gs.len() == n);
                let mut plan: Vec<(Vec<u8>, Option<usize>)> = Vec::new();
                let mut j: usize = 0;
                while j < n
                    invariant
                        j <= n,
                        i < self.topics@.len(),
                        n == self.topics@[i as int].groups@.len(),
                        gs.len() == n,
                        self.topics@.len() == v0.len(),
                        forall|k: int| 0 <= k < v0.len() && k != i ==> #[trigger] self.view()[k] == v0[k],
                        self.view()[i as int].name == v0[i as int].name,
                        forall|k: int, m: int|
                            0 <= k < self.topics@.len() && 0 <= m < self.topics@[k].groups@.len()
                                ==> #[trigger] self.topics@[k].groups@[m].1.wf(),
                        forall|m: int| 0 <= m < n ==> #[trigger] self.view()[i as int].groups[m].0 == gs[m].0,
                        forall|m: int| 0 <= m < j ==> #[trigger] self.view()[i as int].groups[m].1 == after_dispatch(gs[m].1),
                        forall|m: int| j <= m < n ==> #[trigger] self.view()[i as int].groups[m].1 == gs[m].1,
                        plan_view(plan@) == gs.take(j as int).map_values(
                            |e: (Seq<u8>, GroupView)| (e.0, dispatch_target(e.1)),
                        ),
                    decreases n - j,
                {
                    let ghost before = self.view();
                    let ghost old_topics = self.topics@;
                    let ghost old_plan = plan_view(plan@);
                    assert(self.view()[i as int].groups[j as int] == (self.topics@[i as int].groups@[j as int].0@, self.topics@[i as int].groups@[j as int].1.view()));
                    assert(self.view()[i as int].groups[j as int].1 == gs[j as int].1);
                    assert(self.view()[i as int].groups[j as int].0 == gs[j as int].0);
                    assert(self.topics@[i as int].groups@[j as int].1.view() == gs[j as int].1);
                    assert(self.topics@[i as int].groups@[j as int].0@ == gs[j as int].0);
                    let target = self.topics[i].groups[j].1.dispatch();
                    assert(target == dispatch_target(gs[j as int].1));
                    assert(self.topics@[i as int].groups@[j as int].0 == old_topics[i as int].groups@[j as int].0);
                    let name = to_vec(self.topics[i].groups[j].0.as_slice());
                    assert(name@ == gs[j as int].0);
                    plan.push((name, target));
                    proof {
                        assert(forall|k: int| 0 <= k < old_topics.len() && k != i ==> #[trigger] self.topics@[k] == old_topics[k]);
                        assert(self.topics@[i as int].topic == old_topics[i as int].topic);
                        assert(self.topics@[i as int].groups@.len() == n);
                        assert(forall|m: int| 0 <= m < n && m != j ==> #[trigger] self.topics@[i as int].groups@[m] == old_topics[i as int].groups@[m]);
                        assert(self.topics@[i as int].groups@[j as int].0 == old_topics[i as int].groups@[j as int].0);
                        assert(plan_view(plan@) =~= old_plan.push((gs[j as int].0, dispatch_target(gs[j as int].1))));
                        assert(gs.take(j + 1) =~= gs.take(j as int).push(gs[j as int]));
                        let after = self.view();
                        assert forall|k: int| 0 <= k < v0.len() && k != i implies #[trigger] after[k] == v0[k] by {
                            assert(after[k] == before[k]);
                        }
                        assert(after[i as int].groups.len() == n);
                        assert forall|m: int| 0 <= m < n implies #[trigger] after[i as int].groups[m] == if m == j { (gs[m].0, after_dispatch(gs[m].1)) } else { before[i as int].groups[m] } by {}
                        assert(plan_view(plan@) =~= gs.take(j + 1).map_values(
                            |e: (Seq<u8>, GroupView)| (e.0, dispatch_target(e.1)),
                        ));
                    }
                    j = j + 1;
                }
                proof {
                    let v2 = self.view();
                    assert(gs.take(n as int) =~= gs);
                    let ti = topic_index(v0, topic@);
                    assert(ti == i as int);
                    assert(v2 =~= after_publish(v0, topic@)) by {
                        assert(v2[i as int].groups.len() == n);
                        assert forall|m: int| 0 <= m < n implies #[trigger] v2[i as int].groups[m] == (gs[m].0, after_dispatch(gs[m].1)) by {
                            assert(v2[i as int].groups[m].0 == gs[m].0);
                            assert(v2[i as int].groups[m].1 == after_dispatch(gs[m].1));
                        }
                        assert(v2[i as int].groups =~= gs.map_values(|e: (Seq<u8>, GroupView)| (e.0, after_dispatch(e.1))));
                        assert(v2[i as int] == after_publish(v0, topic@)[i as int]);
                    }
                    self.lemma_wf_after_group_change(v0, i as int);
                }
                Some(plan)
            },
        }
    }

    /// Number of registered topics.
    pub fn topic_count(&self) -> (r: usize)
        requires
            self.wf(),
        ensures
            r == self.view().len(),
    {
        self.topics.len()
    }

    /// Number of consumer groups of `topic` (0 for an unknown topic).
    pub fn group_count(&self, topic: &[u8]) -> (r: usize)
        requires
            self.wf(),
        ensures
            has_topic(self.view(), topic@) ==> r == self.view()[topic_index(self.view(), topic@)].groups.len(),
            !has_topic(self.view(), topic@) ==> r == 0,
    {
        match self.find_topic(topic) {
            Some(i) => self.topics[i].groups.len(),
            None => 0,
        }
    }
}

impl Default for Router {
    fn default() -> (r: Self)
        ensures
            r.wf(),
            r.view() == Seq::<TopicView>::empty(),
    {
        Router::new()
    }
}

impl PublishResult {
    /// The result reported for a publish that `receivers` broadcast
    /// subscribers received: `Delivered` when at least one did, `Routed`
    /// otherwise (also for an unknown topic, where nobody receives it).
    pub fn from_receivers(receivers: usize) -> (r: Self)
        ensures
            r.subscribers == receivers,
            r.state == (if receivers > 0 { MessageState::Delivered } else { MessageState::Routed }),
    {
        let state = if receivers > 0 { MessageState::Delivered } else { MessageState::Routed };
        PublishResult { state, subscribers: receivers }
    }
}

/// The group after `m` dispatches.
pub open spec fn dispatches(g: GroupView, m: nat) -> GroupView
    decreases m,
{
    if m == 0 {
        g
    } else {
        after_dispatch(dispatches(g, (m - 1) as nat))
    }
}

/// Round-robin law: starting from a group with `k > 0` members, the `m`-th
/// dispatch goes to member `(rr_counter + m) % k` (while the counter does not
/// wrap), so any `k` consecutive messages reach `k` different members: each
/// member gets exactly one of them.
pub proof fn lemma_round_robin_fair(g: GroupView, m1: nat, m2: nat)
    requires
        g.next_worker_id > 0,
        g.rr_counter + g.next_worker_id <= usize::MAX,
        m1 < g.next_worker_id,
        m2 < g.next_worker_id,
    ensures
        dispatch_target(dispatches(g, m1)) == Some(((g.rr_counter + m1) % (g.next_worker_id as int)) as usize),
        m1 != m2 ==> dispatch_target(dispatches(g, m1)) != dispatch_target(dispatches(g, m2)),
{
    lemma_dispatches_counter(g, m1);
    lemma_dispatches_counter(g, m2);
    let k = g.next_worker_id as int;
    if m1 != m2 {
        let a = g.rr_counter + m1;
        let b = g.rr_counter + m2;
        assert(a % k != b % k) by (nonlinear_arith)
            requires
                k > 0,
                a != b,
                a - b < k,
                b - a < k,
                a >= 0,
                b >= 0,
        {
            if a % k == b % k {
                assert(a == k * (a / k) + a % k);
                assert(b == k * (b / k) + b % k);
                if a / k > b / k {
                    assert(k * (a / k) >= k * (b / k) + k);
                } else if a / k < b / k {
                    assert(k * (b / k) >= k * (a / k) + k);
                }
            }
        }
    }
}

/// Without wrap-around, `m` dispatches advance the counter by `m` and keep the members.
proof fn lemma_dispatches_counter(g: GroupView, m: nat)
    requires
        g.next_worker_id > 0,
        g.rr_counter + m <= usize::MAX,
    ensures
        dispatches(g, m).next_worker_id == g.next_worker_id,
        dispatches(g, m).rr_counter == g.rr_counter + m,
    decreases m,
{
    if m > 0 {
        lemma_dispatches_counter(g, (m - 1) as nat);
    }
}

/// Subscribing to a topic twice registers it once: `with_topic` is
/// idempotent, adds at most one topic, and keeps names distinct.
pub proof fn lemma_subscribe_idempotent(v: Seq<TopicView>, t: Seq<u8>)
    requires
        names_distinct(v),
    ensures
        with_topic(with_topic(v, t), t) == with_topic(v, t),
        has_topic(with_topic(v, t), t),
        with_topic(v, t).len() == v.len() + (if has_topic(v, t) { 0int } else { 1int }),
        names_distinct(with_topic(v, t)),
{
    let w = with_topic(v, t);
    if !has_topic(v, t) {
        assert(w[v.len() as int].name == t);
        assert forall|i: int, j: int| 0 <= i < w.len() && 0 <= j < w.len() && i != j implies #[trigger] w[i].name != #[trigger] w[j].name by {
            if i == v.len() {
                assert(v[j].name != t);
            } else if j == v.len() {
                assert(v[i].name != t);
            } else {
                assert(v[i].name != v[j].name);
            }
        }
    }
}

/// Workers joining the same group get consecutive ids: a second join right
/// after the first gets the next id.
pub proof fn lemma_worker_ids_consecutive(v: Seq<TopicView>, t: Seq<u8>, g: Seq<u8>)
    requires
        names_distinct(v),
        after_queue_subscribe(v, t, g).1 < usize::MAX,
    ensures
        after_queue_subscribe(after_queue_subscribe(v, t, g).0, t, g).1 == after_queue_subscribe(v, t, g).1 + 1,
{
    lemma_subscribe_idempotent(v, t);
    let v1 = with_topic(v, t);
    let i = topic_index(v1, t);
    assert(v1[i].name == t);
    let gs = v1[i].groups;
    let (v2, a) = after_queue_subscribe(v, t, g);
    assert(has_topic(v2, t)) by {
        assert(v2[i].name == t);
    }
    assert(with_topic(v2, t) == v2);
    let i2 = topic_index(v2, t);
    assert(v2[i2].name == t);
    assert(v2[i].name == t);
    assert(i2 == i) by {
        if i2 != i {
            assert(v1[i2].name == v2[i2].name);
            assert(v1[i2].name != v1[i].name);
        }
    }
    let gs2 = v2[i].groups;
    if has_group(gs, g) {
        let j = group_index(gs, g);
        assert(gs[j].0 == g);
        assert(gs2[j].0 == g);
        assert(has_group(gs2, g));
        let j2 = group_index(gs2, g);
        assert(gs2[j2].0 == g);
        assert(j2 == j) by {
            if j2 != j {
                assert(gs[j2].0 == gs2[j2].0);
                assert(gs[j2].0 != gs[j].0);
            }
        }
    } else {
        let j = gs.len() as int;
        assert(gs2[j].0 == g);
        assert(has_group(gs2, g));
        let j2 = group_index(gs2, g);
        assert(gs2[j2].0 == g);
        assert(j2 == j) by {
            if j2 != j {
                assert(gs[j2].0 == gs2[j2].0);
                assert(!has_group(gs, g));
                assert(gs[j2].0 != g);
            }
        }
    }
}

/// Publishing on one topic leaves every other topic, and every consumer
/// group of those topics, unchanged.
pub proof fn lemma_publish_isolated(v: Seq<TopicView>, t: Seq<u8>, k: int)
    requires
        0 <= k < v.len(),
        v[k].name != t,
    ensures
        after_publish(v, t).len() == v.len(),
        after_publish(v, t)[k] == v[k],
{
    if has_topic(v, t) {
        let i = topic_index(v, t);
        assert(v[i].name == t);
    }
}

/// Every-group law: a publish on an existing topic advances the round robin
/// of each of its consumer groups exactly once and keeps their members and
/// names: group `m` keeps its member count, and its counter moves on by one
/// (wrapping at `usize::MAX`) when it has members.
pub proof fn lemma_publish_advances_every_group(v: Seq<TopicView>, t: Seq<u8>, m: int)
    requires
        has_topic(v, t),
        0 <= m < v[topic_index(v, t)].groups.len(),
    ensures
        ({
            let i = topic_index(v, t);
            let before = v[i].groups[m];
            let after = after_publish(v, t)[i].groups[m];
            &&& after_publish(v, t)[i].name == t
            &&& after_publish(v, t)[i].groups.len() == v[i].groups.len()
            &&& after.0 == before.0
            &&& after.1.next_worker_id == before.1.next_worker_id
            &&& before.1.next_worker_id > 0 && before.1.rr_counter < usize::MAX ==> after.1.rr_counter
                == before.1.rr_counter + 1
            &&& before.1.next_worker_id > 0 && before.1.rr_counter == usize::MAX ==> after.1.rr_counter
                == 0
            &&& before.1.next_worker_id == 0 ==> after.1.rr_counter == before.1.rr_counter
        }),
{
    let i = topic_index(v, t);
    assert(v[i].name == t);
}

/// Two publishes in a row: every group with `k > 0` members sends the first
/// message to member `rr_counter % k` and the second to `(rr_counter + 1) % k`
/// (while the counter does not wrap), so consecutive messages of every group
/// go to consecutive members.
pub proof fn lemma_consecutive_publishes(v: Seq<TopicView>, t: Seq<u8>, m: int)
    requires
        has_topic(v, t),
        names_distinct(v),
        0 <= m < v[topic_index(v, t)].groups.len(),
        v[topic_index(v, t)].groups[m].1.next_worker_id > 0,
        v[topic_index(v, t)].groups[m].1.rr_counter < usize::MAX,
    ensures
        ({
            let g = v[topic_index(v, t)].groups[m];
            let k = g.1.next_worker_id as int;
            let first = publish_plan(v, t);
            let second = publish_plan(after_publish(v, t), t);
            &&& first is Some && second is Some
            &&& first.unwrap().len() == v[topic_index(v, t)].groups.len()
            &&& second.unwrap().len() == v[topic_index(v, t)].groups.len()
            &&& first.unwrap()[m] == (g.0, Some(((g.1.rr_counter as int) % k) as usize))
            &&& second.unwrap()[m] == (g.0, Some(((g.1.rr_counter as int + 1) % k) as usize))
        }),
{
    let i = topic_index(v, t);
    assert(v[i].name == t);
    lemma_publish_advances_every_group(v, t, m);
    let w = after_publish(v, t);
    assert(w[i].name == t);
    assert(has_topic(w, t));
    let i2 = topic_index(w, t);
    assert(w[i2].name == t);
    assert(i2 == i) by {
        if i2 != i {
            lemma_publish_isolated(v, t, i2);
            assert(w[i2] == v[i2]);
            assert(v[i2].name != v[i].name);
        }
    }
}

} // verus!
