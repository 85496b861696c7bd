//! Trie-based topic routing with wildcard patterns.
//!
//! Patterns are dotted topic names:
//! - `trades.us.aapl` matches that exact topic only;
//! - `trades.us.*` matches `trades.us.X` for any one segment `X`;
//! - `trades.>` matches `trades` followed by one or more segments.
//!
//! The trie has one node per registered segment path. Matching walks the
//! topic's segments from the root, so its cost depends on the topic's depth,
//! not on how many patterns are registered.

use vstd::prelude::*;
use vstd::string::*;
use crate::segments::{split_dot, join_dot, lemma_join_split, lemma_split_injective, bytes_eq, to_vec, views, split_segments};

verus! {

broadcast use vstd::utf8::encode_utf8_valid_utf8;

/// The segment `*`.
pub open spec fn star_seg() -> Seq<u8> {
    seq![42u8]
}

/// The segment `>`.
pub open spec fn gt_seg() -> Seq<u8> {
    seq![62u8]
}

/// How a pattern matches.
#[derive(Clone, Copy, PartialEq, Eq, Structural)]
pub enum PatternKind {
    /// No wildcard: matches one topic.
    Exact,
    /// Ends in `*`: matches exactly one more segment.
    Single,
    /// Ends in `>`: matches one or more further segments.
    Recursive,
}

/// The kind of a pattern, from its last segment.
pub open spec fn pattern_kind(p: Seq<u8>) -> PatternKind {
    let q = split_dot(p);
    if q.last() == star_seg() {
        PatternKind::Single
    } else if q.last() == gt_seg() {
        PatternKind::Recursive
    } else {
        PatternKind::Exact
    }
}

/// The fixed segments of a pattern: all of them for an exact pattern, all
/// but the trailing wildcard otherwise.
pub open spec fn pattern_prefix(p: Seq<u8>) -> Seq<Seq<u8>> {
    let q = split_dot(p);
    if pattern_kind(p) is Exact {
        q
    } else {
        q.drop_last()
    }
}

/// A pattern is accepted when it is non-empty and `*` and `>` appear only
/// as its last segment.
pub open spec fn valid_pattern(p: Seq<u8>) -> bool {
    &&& p.len() > 0
    &&& forall|i: int|
        0 <= i < split_dot(p).len() - 1 ==> #[trigger] split_dot(p)[i] != star_seg()
            && split_dot(p)[i] != gt_seg()
}

/// Whether pattern `p` matches the (non-empty) topic `topic`.
pub open spec fn pattern_matches(p: Seq<u8>, topic: Seq<u8>) -> bool {
    let t = split_dot(topic);
    let pre = pattern_prefix(p);
    &&& topic.len() > 0
    &&& match pattern_kind(p) {
        PatternKind::Exact => t == pre,
        PatternKind::Single => t.len() == pre.len() + 1 && t.take(pre.len() as int) == pre,
        PatternKind::Recursive => t.len() > pre.len() && t.take(pre.len() as int) == pre,
    }
}

/// The registered pattern of kind `k` whose fixed segments are `pre`, as a
/// sequence of zero or one element.
pub open spec fn registered_at(s: Set<Seq<u8>>, k: PatternKind, pre: Seq<Seq<u8>>) -> Seq<
    Seq<u8>,
> {
    if exists|p: Seq<u8>| #[trigger] s.contains(p) && pattern_kind(p) == k && pattern_prefix(p) == pre {
        seq![choose|p: Seq<u8>| #[trigger] s.contains(p) && pattern_kind(p) == k && pattern_prefix(p) == pre]
    } else {
        seq![]
    }
}

/// The matches reported for topic segments `t` from depth `d` on: first the
/// deeper ones, then the `*` pattern whose fixed part is `t[..d]` (when one
/// segment remains), then the `>` pattern whose fixed part is `t[..d]`; at
/// full depth, the exact pattern `t`.
pub open spec fn matches_from(s: Set<Seq<u8>>, t: Seq<Seq<u8>>, d: int) -> Seq<Seq<u8>>
    decreases t.len() - d,
{
    if d >= t.len() {
        registered_at(s, PatternKind::Exact, t)
    } else {
        matches_from(s, t, d + 1) + (if d + 1 == t.len() {
            registered_at(s, PatternKind::Single, t.take(d))
        } else {
            seq![]
        }) + registered_at(s, PatternKind::Recursive, t.take(d))
    }
}

/// Everything `match_topic` reports for `topic`, in order.
pub open spec fn topic_matches(s: Set<Seq<u8>>, topic: Seq<u8>) -> Seq<Seq<u8>> {
    if topic.len() == 0 {
        seq![]
    } else {
        matches_from(s, split_dot(topic), 0)
    }
}

/// One node of the trie.
pub struct TrieNode {
    /// Child nodes, each with the segment that leads to it.
    pub children: Vec<(Vec<u8>, usize)>,
    /// The exact pattern that ends at this node.
    pub handlers: Option<Vec<u8>>,
    /// The `*` pattern whose fixed part ends at this node.
    pub wildcard_handler: Option<Vec<u8>>,
    /// The `>` pattern whose fixed part ends at this node.
    pub recursive_handler: Option<Vec<u8>>,
}

/// The byte view of an optional pattern.
pub open spec fn opt_view(o: Option<Vec<u8>>) -> Option<Seq<u8>> {
    match o {
        Some(v) => Some(v@),
        None => None,
    }
}

impl TrieNode {
    /// A node with no children and no patterns.
    pub fn new() -> (r: Self)
        ensures
            r.children@.len() == 0,
            r.handlers is None,
            r.wildcard_handler is None,
            r.recursive_handler is None,
    {
        TrieNode {
            children: Vec::new(),
            handlers: None,
            wildcard_handler: None,
            recursive_handler: None,
        }
    }

    /// The pattern of kind `k` held by this node.
    pub open spec fn slot(&self, k: PatternKind) -> Option<Seq<u8>> {
        match k {
            PatternKind::Exact => opt_view(self.handlers),
            PatternKind::Single => opt_view(self.wildcard_handler),
            PatternKind::Recursive => opt_view(self.recursive_handler),
        }
    }
}

impl Default for TrieNode {
    fn default() -> (r: Self)
        ensures
            r.children@.len() == 0,
            r.handlers is None,
            r.wildcard_handler is None,
            r.recursive_handler is None,
    {
        TrieNode::new()
    }
}

/// Wildcard pattern router. Its view is the set of registered patterns.
pub struct TrieRouter {
    nodes: Vec<TrieNode>,
    /// The segments leading from the root to each node.
    paths: Ghost<Seq<Seq<Seq<u8>>>>,
    patterns: Ghost<Set<Seq<u8>>>,
}

/// Two patterns of the same kind with the same fixed segments are equal.
pub proof fn lemma_kind_prefix_determines(p: Seq<u8>, q: Seq<u8>)
    requires
        pattern_kind(p) == pattern_kind(q),
        pattern_prefix(p) == pattern_prefix(q),
    ensures
        p == q,
{
    lemma_join_split(p);
    lemma_join_split(q);
    let sp = split_dot(p);
    let sq = split_dot(q);
    if !(pattern_kind(p) is Exact) {
        assert(sp =~= sp.drop_last().push(sp.last()));
        assert(sq =~= sq.drop_last().push(sq.last()));
        assert(sp.last() == sq.last());
        assert(sp == sq);
    }
    lemma_split_injective(p, q);
}

impl TrieRouter {
    /// The set of registered patterns.
    pub closed spec fn patterns(&self) -> Set<Seq<u8>> {
        self.patterns@
    }

    closed spec fn n(&self) -> int {
        self.nodes@.len() as int
    }

    closed spec fn path(&self, i: int) -> Seq<Seq<u8>> {
        self.paths@[i]
    }

    closed spec fn nkids(&self, i: int) -> int {
        self.nodes@[i].children@.len() as int
    }

    closed spec fn seg(&self, i: int, k: int) -> Seq<u8> {
        self.nodes@[i].children@[k].0@
    }

    closed spec fn tgt(&self, i: int, k: int) -> int {
        self.nodes@[i].children@[k].1 as int
    }

    closed spec fn edge_ok(&self, i: int, k: int) -> bool {
        0 <= self.tgt(i, k) < self.n() && self.path(self.tgt(i, k)) == self.path(i).push(
            self.seg(i, k),
        )
    }

    closed spec fn has_parent(&self, j: int) -> bool {
        exists|i: int, k: int| 0 <= i < self.n() && 0 <= k < self.nkids(i) && #[trigger] self.tgt(i, k) == j
    }

    closed spec fn handlers_ok(&self, i: int) -> bool {
        forall|k: PatternKind|
            #[trigger] self.nodes@[i].slot(k) matches Some(p) ==> {
                &&& self.patterns@.contains(p)
                &&& valid_pattern(p)
                &&& pattern_kind(p) == k
                &&& pattern_prefix(p) == self.path(i)
            }
    }

    closed spec fn stored(&self, p: Seq<u8>) -> bool {
        &&& valid_pattern(p)
        &&& exists|i: int|
            0 <= i < self.n() && self.path(i) == pattern_prefix(p) && #[trigger] self.nodes@[i].slot(
                pattern_kind(p),
            ) == Some(p)
    }

    /// Well-formedness: every node's path is its parent's path plus the edge
    /// segment, paths are distinct, and each registered pattern sits in the
    /// slot for its kind at the node of its fixed segments.
    pub closed spec fn wf(&self) -> bool {
        &&& self.n() >= 1
        &&& self.paths@.len() == self.n()
        &&& self.path(0) == Seq::<Seq<u8>>::empty()
        &&& forall|i: int, k: int| 0 <= i < self.n() && 0 <= k < self.nkids(i) ==> #[trigger] self.edge_ok(i, k)
        &&& forall|i: int, k1: int, k2: int|
            0 <= i < self.n() && 0 <= k1 < self.nkids(i) && 0 <= k2 < self.nkids(i) && k1 != k2
                ==> #[trigger] self.seg(i, k1) != #[trigger] self.seg(i, k2)
        &&& forall|j: int| 0 < j < self.n() ==> #[trigger] self.has_parent(j)
        &&& forall|i: int, j: int|
            0 <= i < self.n() && 0 <= j < self.n() && i != j ==> #[trigger] self.path(i) != #[trigger] self.path(j)
        &&& forall|i: int| 0 <= i < self.n() ==> #[trigger] self.handlers_ok(i)
        &&& forall|p: Seq<u8>| #[trigger] self.patterns@.contains(p) ==> self.stored(p)
    }

    /// An empty router.
    pub fn new() -> (r: Self)
        ensures
            r.wf(),
            r.patterns() == Set::<Seq<u8>>::empty(),
    {
        let mut nodes: Vec<TrieNode> = Vec::new();
        nodes.push(TrieNode::new());
        let ghost root_paths: Seq<Seq<Seq<u8>>> = seq![Seq::<Seq<u8>>::empty()];
        let ghost no_patterns: Set<Seq<u8>> = Set::empty();
        let r = TrieRouter { nodes, paths: Ghost(root_paths), patterns: Ghost(no_patterns) };
        assert forall|i: int| 0 <= i < r.n() implies #[trigger] r.handlers_ok(i) by {
            assert forall|k: PatternKind| #[trigger] r.nodes@[i].slot(k) is None by {}
        }
        r
    }

    /// A node has a path to the root through existing nodes: every prefix
    /// of its path is the path of some node.
    proof fn lemma_ancestor(&self, j: int, k: int)
        requires
            self.wf(),
            0 <= j < self.n(),
            0 <= k <= self.path(j).len(),
        ensures
            exists|a: int| 0 <= a < self.n() && #[trigger] self.path(a) == self.path(j).take(k),
        decreases self.path(j).len() - k,
    {
        if k == self.path(j).len() {
            assert(self.path(j).take(k) =~= self.path(j));
        } else {
            assert(j != 0);
            assert(self.has_parent(j));
            let (i, e) = choose|i: int, e: int| 0 <= i < self.n() && 0 <= e < self.nkids(i) && #[trigger] self.tgt(i, e) == j;
            assert(self.edge_ok(i, e));
            assert(self.path(i) =~= self.path(j).drop_last());
            self.lemma_ancestor(i, k);
            assert(self.path(i).take(k) =~= self.path(j).take(k));
        }
    }

    /// The slot of kind `k` at node `i` is exactly the registered pattern of
    /// that kind whose fixed segments are the node's path.
    proof fn lemma_slot_is_registered(&self, i: int, k: PatternKind)
        requires
            self.wf(),
            0 <= i < self.n(),
        ensures
            registered_at(self.patterns@, k, self.path(i)) == (match self.nodes@[i].slot(k) {
                Some(p) => seq![p],
                None => seq![],
            }),
    {
        assert(self.handlers_ok(i));
        match self.nodes@[i].slot(k) {
            Some(p) => {
                assert(self.patterns@.contains(p) && pattern_kind(p) == k && pattern_prefix(p)
                    == self.path(i));
                let q = choose|q: Seq<u8>| #[trigger] self.patterns@.contains(q) && pattern_kind(q) == k && pattern_prefix(q) == self.path(i);
                lemma_kind_prefix_determines(p, q);
            },
            None => {
                if exists|q: Seq<u8>| #[trigger] self.patterns@.contains(q) && pattern_kind(q) == k && pattern_prefix(q) == self.path(i) {
                    let q = choose|q: Seq<u8>| #[trigger] self.patterns@.contains(q) && pattern_kind(q) == k && pattern_prefix(q) == self.path(i);
                    assert(self.stored(q));
                    let a = choose|a: int| 0 <= a < self.n() && self.path(a) == pattern_prefix(q) && #[trigger] self.nodes@[a].slot(pattern_kind(q)) == Some(q);
                    assert(a == i);
                }
            },
        }
    }

    /// When no node has the path `t[..d0]`, nothing is reported from any
    /// depth `dd >= d0` on.
    proof fn lemma_nothing_below(&self, t: Seq<Seq<u8>>, d0: int, dd: int)
        requires
            self.wf(),
            1 <= d0 <= dd <= t.len(),
            forall|a: int| 0 <= a < self.n() ==> #[trigger] self.path(a) != t.take(d0),
        ensures
            matches_from(self.patterns@, t, dd) == Seq::<Seq<u8>>::empty(),
        decreases t.len() - dd,
    {
        assert forall|d: int, k: PatternKind| d0 <= d <= t.len() implies registered_at(
            self.patterns@,
            k,
            t.take(d),
        ) == Seq::<Seq<u8>>::empty() by {
            if exists|q: Seq<u8>| #[trigger] self.patterns@.contains(q) && pattern_kind(q) == k && pattern_prefix(q) == t.take(d) {
                let q = choose|q: Seq<u8>| #[trigger] self.patterns@.contains(q) && pattern_kind(q) == k && pattern_prefix(q) == t.take(d);
                assert(self.stored(q));
                let a = choose|a: int| 0 <= a < self.n() && self.path(a) == pattern_prefix(q) && #[trigger] self.nodes@[a].slot(pattern_kind(q)) == Some(q);
                self.lemma_ancestor(a, d0);
                let b = choose|b: int| 0 <= b < self.n() && #[trigger] self.path(b) == self.path(a).take(d0);
                assert(t.take(d).take(d0) =~= t.take(d0));
                assert(self.path(b) == t.take(d0));
            }
        }
        if dd < t.len() {
            self.lemma_nothing_below(t, d0, dd + 1);
            assert(registered_at(self.patterns@, PatternKind::Recursive, t.take(dd)) =~= Seq::<Seq<u8>>::empty());
            assert(registered_at(self.patterns@, PatternKind::Single, t.take(dd)) =~= Seq::<Seq<u8>>::empty());
            assert(matches_from(self.patterns@, t, dd) =~= Seq::<Seq<u8>>::empty());
        } else {
            assert(t.take(t.len() as int) =~= t);
            assert(registered_at(self.patterns@, PatternKind::Exact, t.take(dd)) =~= Seq::<Seq<u8>>::empty());
        }
    }

    /// Finds the child of `node` reached through `segment`.
    fn find_child(&self, node: usize, segment: &Vec<u8>) -> (r: Option<usize>)
        requires
            self.wf(),
            node < self.n(),
        ensures
            r matches Some(j) ==> j < self.n() && self.path(j as int) == self.path(node as int).push(
                segment@,
            ),
            r is None ==> forall|k: int| 0 <= k < self.nkids(node as int) ==> #[trigger] self.seg(node as int, k) != segment@,
    {
        let children = &self.nodes[node].children;
        let mut k: usize = 0;
        while k < children.len()
            invariant
                self.wf(),
                node < self.n(),
                children == self.nodes@[node as int].children,
                k <= children@.len(),
                forall|k2: int| 0 <= k2 < k ==> #[trigger] self.seg(node as int, k2) != segment@,
            decreases children@.len() - k,
        {
            let (seg, idx) = &children[k];
            if bytes_eq(seg.as_slice(), segment.as_slice()) {
                assert(self.edge_ok(node as int, k as int));
                return Some(*idx);
            }
            k = k + 1;
        }
        None
    }

    /// Returns the child of `node` reached through `segment`, creating it when missing.
    fn get_or_create_child(&mut self, node: usize, segment: &Vec<u8>) -> (r: usize)
        requires
            old(self).wf(),
            node < old(self).n(),
        ensures
            final(self).wf(),
            final(self).patterns() == old(self).patterns(),
            r < final(self).n(),
            final(self).path(r as int) == old(self).path(node as int).push(segment@),
            final(self).n() >= old(self).n(),
            forall|i: int| 0 <= i < old(self).n() ==> #[trigger] final(self).path(i) == old(self).path(i),
    {
        match self.find_child(node, segment) {
            Some(j) => j,
            None => {
                let ghost old_self = *self;
                let m = self.nodes.len();
                let new_path = Ghost(self.paths@[node as int].push(segment@));
                self.nodes.push(TrieNode::new());
                self.paths = Ghost(self.paths@.push(new_path@));
                let seg_copy = to_vec(segment.as_slice());
                self.nodes[node].children.push((seg_copy, m));
                proof {
                    let s = *self;
                    assert(s.n() == old_self.n() + 1);
                    assert forall|i: int| 0 <= i < old_self.n() implies #[trigger] s.path(i) == old_self.path(i) by {}
                    assert forall|i: int| 0 <= i < old_self.n() && i != node implies #[trigger] s.nodes@[i] == old_self.nodes@[i] by {}
                    assert(s.nkids(m as int) == 0);
                    assert(s.nkids(node as int) == old_self.nkids(node as int) + 1);
                    assert forall|k: int| 0 <= k < old_self.nkids(node as int) implies #[trigger] s.seg(node as int, k) == old_self.seg(node as int, k) && s.tgt(node as int, k) == old_self.tgt(node as int, k) by {}
                    // edges
                    assert forall|i: int, k: int| 0 <= i < s.n() && 0 <= k < s.nkids(i) implies #[trigger] s.edge_ok(i, k) by {
                        if i == node && k == s.nkids(i) - 1 {
                        } else if i < old_self.n() {
                            assert(old_self.edge_ok(i, k));
                        }
                    }
                    // distinct segments
                    assert forall|i: int, k1: int, k2: int|
                        0 <= i < s.n() && 0 <= k1 < s.nkids(i) && 0 <= k2 < s.nkids(i) && k1 != k2
                        implies #[trigger] s.seg(i, k1) != #[trigger] s.seg(i, k2) by {
                        if i == node {
                            let last = s.nkids(i) - 1;
                            if k1 == last {
                                assert(old_self.seg(node as int, k2) != segment@);
                            } else if k2 == last {
                                assert(old_self.seg(node as int, k1) != segment@);
                            } else {
                                assert(old_self.seg(i, k1) != old_self.seg(i, k2));
                            }
                        } else if i < old_self.n() {
                            assert(old_self.seg(i, k1) != old_self.seg(i, k2));
                        }
                    }
                    // parents
                    assert forall|j: int| 0 < j < s.n() implies #[trigger] s.has_parent(j) by {
                        if j == m {
                            assert(s.tgt(node as int, s.nkids(node as int) - 1) == j);
                        } else {
                            assert(old_self.has_parent(j));
                            let (i, e) = choose|i: int, e: int| 0 <= i < old_self.n() && 0 <= e < old_self.nkids(i) && #[trigger] old_self.tgt(i, e) == j;
                            if i == node {
                                assert(s.tgt(i, e) == j);
                            } else {
                                assert(s.tgt(i, e) == j);
                            }
                        }
                    }
                    // distinct paths
                    assert forall|i: int, j: int| 0 <= i < s.n() && 0 <= j < s.n() && i != j implies #[trigger] s.path(i) != #[trigger] s.path(j) by {
                        if i == m || j == m {
                            let o = if i == m { j } else { i };
                            if s.path(o) == s.path(m as int) {
                                assert(s.path(m as int).len() >= 1);
                                assert(s.path(0) == old_self.path(0));
                                assert(o != 0);
                                assert(old_self.has_parent(o));
                                let (pi, e) = choose|pi: int, e: int| 0 <= pi < old_self.n() && 0 <= e < old_self.nkids(pi) && #[trigger] old_self.tgt(pi, e) == o;
                                assert(old_self.edge_ok(pi, e));
                                assert(old_self.path(pi) =~= old_self.path(o).drop_last());
                                assert(old_self.path(node as int) =~= s.path(m as int).drop_last());
                                assert(pi == node);
                                assert(old_self.seg(pi, e) == old_self.path(o).last());
                                assert(old_self.seg(pi, e) == segment@);
                            }
                        } else {
                            assert(old_self.path(i) != old_self.path(j));
                        }
                    }
                    // handlers
                    assert forall|i: int| 0 <= i < s.n() implies #[trigger] s.handlers_ok(i) by {
                        if i < old_self.n() {
                            assert(old_self.handlers_ok(i));
                            assert forall|k: PatternKind| #[trigger] s.nodes@[i].slot(k) == old_self.nodes@[i].slot(k) by {}
                        } else {
                            assert forall|k: PatternKind| #[trigger] s.nodes@[i].slot(k) is None by {}
                        }
                    }
                    assert forall|p: Seq<u8>| #[trigger] s.patterns@.contains(p) implies s.stored(p) by {
                        assert(old_self.stored(p));
                        let a = choose|a: int| 0 <= a < old_self.n() && old_self.path(a) == pattern_prefix(p) && #[trigger] old_self.nodes@[a].slot(pattern_kind(p)) == Some(p);
                        assert(s.nodes@[a].slot(pattern_kind(p)) == old_self.nodes@[a].slot(pattern_kind(p)));
                    }
                }
                m
            },
        }
    }

    /// Puts `p` into the slot for its kind at `node`.
    fn register(&mut self, node: usize, kind: PatternKind, p: Vec<u8>)
        requires
            old(self).wf(),
            node < old(self).n(),
            valid_pattern(p@),
            pattern_kind(p@) == kind,
            pattern_prefix(p@) == old(self).path(node as int),
        ensures
            final(self).wf(),
            final(self).patterns() == old(self).patterns().insert(p@),
            final(self).n() == old(self).n(),
            forall|i: int| 0 <= i < old(self).n() ==> #[trigger] final(self).path(i) == old(self).path(i),
    {
        let ghost old_self = *self;
        let ghost pv = p@;
        match kind {
            PatternKind::Exact => {
                self.nodes[node].handlers = Some(p);
            },
            PatternKind::Single => {
                self.nodes[node].wildcard_handler = Some(p);
            },
            PatternKind::Recursive => {
                self.nodes[node].recursive_handler = Some(p);
            },
        }
        self.patterns = Ghost(self.patterns@.insert(pv));
        proof {
            let s = *self;
            assert(s.nodes@[node as int].slot(kind) == Some(pv));
            assert forall|i: int| 0 <= i < s.n() implies #[trigger] s.nodes@[i].children == old_self.nodes@[i].children by {}
            assert forall|i: int, k: PatternKind| 0 <= i < s.n() && !(i == node && k == kind) implies #[trigger] s.nodes@[i].slot(k) == old_self.nodes@[i].slot(k) by {}
            assert forall|i: int, k: int| 0 <= i < s.n() && 0 <= k < s.nkids(i) implies #[trigger] s.edge_ok(i, k) by {
                assert(old_self.edge_ok(i, k));
            }
            assert forall|i: int, k1: int, k2: int|
                0 <= i < s.n() && 0 <= k1 < s.nkids(i) && 0 <= k2 < s.nkids(i) && k1 != k2
                implies #[trigger] s.seg(i, k1) != #[trigger] s.seg(i, k2) by {
                assert(old_self.seg(i, k1) != old_self.seg(i, k2));
            }
            assert forall|j: int| 0 < j < s.n() implies #[trigger] s.has_parent(j) by {
                assert(old_self.has_parent(j));
                let (i, e) = choose|i: int, e: int| 0 <= i < old_self.n() && 0 <= e < old_self.nkids(i) && #[trigger] old_self.tgt(i, e) == j;
                assert(s.tgt(i, e) == j);
            }
            assert forall|i: int, j: int| 0 <= i < s.n() && 0 <= j < s.n() && i != j implies #[trigger] s.path(i) != #[trigger] s.path(j) by {
                assert(old_self.path(i) != old_self.path(j));
            }
            assert forall|i: int| 0 <= i < s.n() implies #[trigger] s.handlers_ok(i) by {
                assert(old_self.handlers_ok(i));
                assert forall|k: PatternKind| #[trigger] s.nodes@[i].slot(k) is Some implies {
                    &&& s.patterns@.contains(s.nodes@[i].slot(k).unwrap())
                    &&& valid_pattern(s.nodes@[i].slot(k).unwrap())
                    &&& pattern_kind(s.nodes@[i].slot(k).unwrap()) == k
                    &&& pattern_prefix(s.nodes@[i].slot(k).unwrap()) == s.path(i)
                } by {
                    if i == node && k == kind {
                    } else {
                        assert(old_self.nodes@[i].slot(k) == s.nodes@[i].slot(k));
                    }
                }
            }
            assert forall|q: Seq<u8>| #[trigger] s.patterns@.contains(q) implies s.stored(q) by {
                if q == pv {
                    assert(s.nodes@[node as int].slot(pattern_kind(q)) == Some(q));
                } else {
                    assert(old_self.patterns@.contains(q));
                    assert(old_self.stored(q));
                    let a = choose|a: int| 0 <= a < old_self.n() && old_self.path(a) == pattern_prefix(q) && #[trigger] old_self.nodes@[a].slot(pattern_kind(q)) == Some(q);
                    if a == node && pattern_kind(q) == kind {
                        lemma_kind_prefix_determines(q, pv);
                    }
                    assert(s.nodes@[a].slot(pattern_kind(q)) == Some(q));
                }
            }
        }
    }

    /// Registers `pattern`. A pattern is refused when it is empty or when `*`
    /// or `>` appears before its last segment; nothing is registered then.
    /// Registering a pattern twice keeps one copy.
    pub fn subscribe_pattern(&mut self, pattern: &str) -> (r: Result<(), String>)
        requires
            old(self).wf(),
        ensures
            final(self).wf(),
            r is Ok <==> valid_pattern(pattern.spec_bytes()),
            r is Ok ==> final(self).patterns() == old(self).patterns().insert(pattern.spec_bytes()),
            r is Err ==> final(self).patterns() == old(self).patterns(),
            r matches Err(m) ==> m@ == pattern_error_message(pattern.spec_bytes()),
    {
        let bytes = pattern.as_bytes();
        if bytes.len() == 0 {
            return Err(String::from_str("empty pattern"));
        }
        let parts = split_segments(bytes);
        let ghost q = views(parts@);
        proof {
            lemma_join_split(bytes@);
        }
        let pattern_bytes = to_vec(bytes);
        let mut node: usize = 0;
        let mut i: usize = 0;
        let n = parts.len();
        assert(q.take(0) =~= Seq::<Seq<u8>>::empty());
        while i < n
            invariant
                self.wf(),
                n == parts@.len(),
                n >= 1,
                q == views(parts@),
                q == split_dot(bytes@),
                pattern_bytes@ == bytes@,
                bytes@ == pattern.spec_bytes(),
                bytes@.len() > 0,
                i <= n,
                node < self.n(),
                self.path(node as int) == q.take(i as int),
                self.patterns() == old(self).patterns(),
                forall|j: int| 0 <= j < i ==> #[trigger] q[j] != star_seg() && q[j] != gt_seg(),
                first_misplaced_from(q, 0) == first_misplaced_from(q, i as int),
            decreases n - i,
        {
            let part = &parts[i];
            let is_last = i == n - 1;
            let is_star = part.len() == 1 && part[0] == 42u8;
            let is_gt = part.len() == 1 && part[0] == 62u8;
            assert(is_star <==> q[i as int] == star_seg()) by {
                if part@.len() == 1 {
                    assert(part@ =~= seq![part@[0]]);
                }
            }
            assert(is_gt <==> q[i as int] == gt_seg()) by {
                if part@.len() == 1 {
                    assert(part@ =~= seq![part@[0]]);
                }
            }
            if is_last && (is_star || is_gt) {
                assert(q.drop_last() =~= q.take(i as int));
                let kind = if is_star { PatternKind::Single } else { PatternKind::Recursive };
                self.register(node, kind, pattern_bytes);
                return Ok(());
            }
            if is_gt {
                proof { lemma_first_misplaced_at(q, i as int); }
                return Err(String::from_str("recursive wildcard `>` must be at end of pattern"));
            }
            if is_star {
                proof { lemma_first_misplaced_at(q, i as int); }
                return Err(String::from_str("single-level wildcard `*` must be at end of pattern"));
            }
            proof { lemma_first_misplaced_step(q, i as int); }
            node = self.get_or_create_child(node, part);
            assert(q.take(i + 1) =~= q.take(i as int).push(q[i as int]));
            i = i + 1;
        }
        assert(q.take(n as int) =~= q);
        self.register(node, PatternKind::Exact, pattern_bytes);
        Ok(())
    }

    /// A pattern sits in at most one slot of the trie.
    proof fn lemma_slot_unique(&self, a: int, ka: PatternKind, b: int, kb: PatternKind, p: Seq<u8>)
        requires
            self.wf(),
            0 <= a < self.n(),
            0 <= b < self.n(),
            self.nodes@[a].slot(ka) == Some(p),
            self.nodes@[b].slot(kb) == Some(p),
        ensures
            a == b,
            ka == kb,
    {
        assert(self.handlers_ok(a));
        assert(self.handlers_ok(b));
    }

    /// Every registered pattern, each once. The order is the order in which
    /// the trie's nodes were created.
    pub fn all_patterns(&self) -> (r: Vec<Vec<u8>>)
        requires
            self.wf(),
        ensures
            views(r@).no_duplicates(),
            forall|p: Seq<u8>| #[trigger] views(r@).contains(p) <==> self.patterns().contains(p),
    {
        let mut r: Vec<Vec<u8>> = Vec::new();
        let mut i: usize = 0;
        while i < self.nodes.len()
            invariant
                self.wf(),
                i <= self.n(),
                views(r@).no_duplicates(),
                forall|p: Seq<u8>|
                    #[trigger] views(r@).contains(p) <==> exists|a: int, k: PatternKind|
                        0 <= a < i && #[trigger] self.nodes@[a as int].slot(k) == Some(p),
            decreases self.n() - i,
        {
            let ghost before = views(r@);
            let node = &self.nodes[i];
            let slots: [&Option<Vec<u8>>; 3] = [&node.handlers, &node.wildcard_handler, &node.recursive_handler];
            let ghost kinds: Seq<PatternKind> = seq![PatternKind::Exact, PatternKind::Single, PatternKind::Recursive];
            let mut j: usize = 0;
            while j < 3
                invariant
                    self.wf(),
                    i < self.n(),
                    node == self.nodes@[i as int],
                    j <= 3,
                    kinds == seq![PatternKind::Exact, PatternKind::Single, PatternKind::Recursive],
                    forall|m: int| 0 <= m < 3 ==> opt_view(*slots@[m]) == #[trigger] node.slot(kinds[m]),
                    views(r@).no_duplicates(),
                    forall|p: Seq<u8>|
                        #[trigger] views(r@).contains(p) <==> (exists|a: int, k: PatternKind|
                            0 <= a < i && #[trigger] self.nodes@[a as int].slot(k) == Some(p))
                            || (exists|m: int| 0 <= m < j && #[trigger] node.slot(kinds[m]) == Some(p)),
                decreases 3 - j,
            {
                let ghost prev = views(r@);
                match slots[j] {
                    Some(p) => {
                        let ghost pv = p@;
                        assert(node.slot(kinds[j as int]) == Some(pv));
                        proof {
                        if prev.contains(pv) {
                            if exists|a: int, k: PatternKind| 0 <= a < i && #[trigger] self.nodes@[a as int].slot(k) == Some(pv) {
                                let (a, k) = choose|a: int, k: PatternKind| 0 <= a < i && #[trigger] self.nodes@[a as int].slot(k) == Some(pv);
                                self.lemma_slot_unique(a, k, i as int, kinds[j as int], pv);
                            } else {
                                let m = choose|m: int| 0 <= m < j && #[trigger] node.slot(kinds[m]) == Some(pv);
                                self.lemma_slot_unique(i as int, kinds[m], i as int, kinds[j as int], pv);
                            }
                        }
                        }
                        r.push(to_vec(p.as_slice()));
                        assert(views(r@) =~= prev.push(pv));
                        assert forall|x: Seq<u8>| #[trigger] views(r@).contains(x) <==> (prev.contains(x) || x == pv) by {
                            if views(r@).contains(x) {
                                let w = choose|w: int| 0 <= w < views(r@).len() && views(r@)[w] == x;
                                if w < prev.len() {
                                    assert(prev[w] == x);
                                }
                            }
                            if prev.contains(x) {
                                let w = choose|w: int| 0 <= w < prev.len() && prev[w] == x;
                                assert(views(r@)[w] == x);
                            }
                            if x == pv {
                                assert(views(r@)[prev.len() as int] == x);
                            }
                        }
                    },
                    None => {
                        assert(node.slot(kinds[j as int]) is None);
                    },
                }
                j = j + 1;
            }
            assert forall|p: Seq<u8>| #[trigger] views(r@).contains(p) <==> exists|a: int, k: PatternKind|
                0 <= a < i + 1 && #[trigger] self.nodes@[a as int].slot(k) == Some(p) by {
                if exists|k: PatternKind| #[trigger] self.nodes@[i as int].slot(k) == Some(p) {
                    let k = choose|k: PatternKind| #[trigger] self.nodes@[i as int].slot(k) == Some(p);
                    match k {
                        PatternKind::Exact => { assert(node.slot(kinds[0]) == Some(p)); },
                        PatternKind::Single => { assert(node.slot(kinds[1]) == Some(p)); },
                        PatternKind::Recursive => { assert(node.slot(kinds[2]) == Some(p)); },
                    }
                }
                if exists|a: int, k: PatternKind| 0 <= a < i + 1 && #[trigger] self.nodes@[a as int].slot(k) == Some(p) {
                    let (a, k) = choose|a: int, k: PatternKind| 0 <= a < i + 1 && #[trigger] self.nodes@[a as int].slot(k) == Some(p);
                    if a == i {
                        match k {
                            PatternKind::Exact => { assert(node.slot(kinds[0]) == Some(p)); },
                            PatternKind::Single => { assert(node.slot(kinds[1]) == Some(p)); },
                            PatternKind::Recursive => { assert(node.slot(kinds[2]) == Some(p)); },
                        }
                    }
                }
            }
            i = i + 1;
        }
        assert forall|p: Seq<u8>| #[trigger] views(r@).contains(p) <==> self.patterns().contains(p) by {
            if views(r@).contains(p) {
                let (a, k) = choose|a: int, k: PatternKind| 0 <= a < self.n() && #[trigger] self.nodes@[a as int].slot(k) == Some(p);
                assert(self.handlers_ok(a));
            }
            if self.patterns().contains(p) {
                assert(self.stored(p));
            }
        }
        r
    }

    /// Appends to `results` the matches for `parts` from `depth` on, starting at `node`.
    fn dfs_match(
        &self,
        node: usize,
        parts: &Vec<Vec<u8>>,
        depth: usize,
        results: &mut Vec<Vec<u8>>,
    )
        requires
            self.wf(),
            node < self.n(),
            depth <= parts@.len(),
            self.path(node as int) == views(parts@).take(depth as int),
        ensures
            views(final(results)@) == views(old(results)@) + matches_from(
                self.patterns(),
                views(parts@),
                depth as int,
            ),
        decreases parts@.len() - depth,
    {
        let ghost t = views(parts@);
        let ghost start = views(results@);
        proof {
            self.lemma_slot_is_registered(node as int, PatternKind::Exact);
            self.lemma_slot_is_registered(node as int, PatternKind::Single);
            self.lemma_slot_is_registered(node as int, PatternKind::Recursive);
        }
        if depth == parts.len() {
            assert(t.take(depth as int) =~= t);
            match &self.nodes[node].handlers {
                Some(p) => {
                    results.push(to_vec(p.as_slice()));
                    assert(views(results@) =~= start + seq![p@]);
                },
                None => {
                    assert(views(results@) =~= start + Seq::<Seq<u8>>::empty());
                },
            }
            return;
        }
        match self.find_child(node, &parts[depth]) {
            Some(next) => {
                assert(t.take(depth + 1) =~= t.take(depth as int).push(t[depth as int]));
                self.dfs_match(next, parts, depth + 1, results);
            },
            None => {
                proof {
                    assert forall|a: int| 0 <= a < self.n() implies #[trigger] self.path(a) != t.take(depth + 1) by {
                        if self.path(a) == t.take(depth + 1) {
                            assert(a != 0);
                            assert(self.has_parent(a));
                            let (pi, e) = choose|pi: int, e: int| 0 <= pi < self.n() && 0 <= e < self.nkids(pi) && #[trigger] self.tgt(pi, e) == a;
                            assert(self.edge_ok(pi, e));
                            assert(self.path(pi) =~= self.path(a).drop_last());
                            assert(t.take(depth + 1).drop_last() =~= t.take(depth as int));
                            assert(pi == node);
                            assert(self.path(a).last() == self.seg(pi, e));
                            assert(t.take(depth + 1).last() == t[depth as int]);
                            assert(t[depth as int] == parts@[depth as int]@);
                            assert(self.seg(pi, e) == t[depth as int]);
                        }
                    }
                    self.lemma_nothing_below(t, depth + 1, depth + 1);
                }
                assert(views(results@) =~= start + matches_from(self.patterns(), t, depth + 1));
            },
        }
        let ghost mid = views(results@);
        if depth + 1 == parts.len() {
            match &self.nodes[node].wildcard_handler {
                Some(p) => {
                    results.push(to_vec(p.as_slice()));
                    assert(views(results@) =~= mid.push(p@));
                },
                None => {},
            }
        }
        let ghost mid2 = views(results@);
        match &self.nodes[node].recursive_handler {
            Some(p) => {
                results.push(to_vec(p.as_slice()));
                assert(views(results@) =~= mid2.push(p@));
            },
            None => {},
        }
        assert(views(results@) =~= start + matches_from(self.patterns(), t, depth as int));
    }

    /// The registered patterns that match `topic`, in this order: the exact
    /// pattern, then the `*` pattern for its parent, then the `>` patterns
    /// from the deepest to the shallowest. An empty topic matches nothing.
    pub fn match_topic(&self, topic: &str) -> (r: Vec<Vec<u8>>)
        requires
            self.wf(),
        ensures
            views(r@) == topic_matches(self.patterns(), topic.spec_bytes()),
    {
        let bytes = topic.as_bytes();
        let mut results: Vec<Vec<u8>> = Vec::new();
        if bytes.len() == 0 {
            assert(views(results@) =~= Seq::<Seq<u8>>::empty());
            return results;
        }
        let parts = split_segments(bytes);
        assert(views(parts@).take(0) =~= Seq::<Seq<u8>>::empty());
        self.dfs_match(0, &parts, 0, &mut results);
        assert(views(results@) =~= matches_from(self.patterns(), split_dot(bytes@), 0));
        results
    }
}

/// The element of `registered_at`, if any, is the one registered pattern
/// with that kind and those fixed segments.
proof fn lemma_registered_at_members(s: Set<Seq<u8>>, k: PatternKind, pre: Seq<Seq<u8>>)
    ensures
        registered_at(s, k, pre).len() <= 1,
        forall|x: Seq<u8>|
            #[trigger] registered_at(s, k, pre).contains(x) <==> (s.contains(x) && pattern_kind(x)
                == k && pattern_prefix(x) == pre),
{
    if exists|p: Seq<u8>| #[trigger] s.contains(p) && pattern_kind(p) == k && pattern_prefix(p) == pre {
        let c = choose|p: Seq<u8>| #[trigger] s.contains(p) && pattern_kind(p) == k && pattern_prefix(p) == pre;
        assert(registered_at(s, k, pre) == seq![c]);
        assert forall|x: Seq<u8>|
            #[trigger] registered_at(s, k, pre).contains(x) <==> (s.contains(x) && pattern_kind(x)
                == k && pattern_prefix(x) == pre) by {
            if s.contains(x) && pattern_kind(x) == k && pattern_prefix(x) == pre {
                lemma_kind_prefix_determines(x, c);
                assert(seq![c][0] == x);
            }
        }
    }
}

/// Whether `x` is reported for topic segments `t` from depth `d` on.
pub open spec fn reported_from(x: Seq<u8>, t: Seq<Seq<u8>>, d: int) -> bool {
    let pre = pattern_prefix(x);
    match pattern_kind(x) {
        PatternKind::Exact => pre == t,
        PatternKind::Single => d <= pre.len() && pre.len() + 1 == t.len() && t.take(pre.len() as int)
            == pre,
        PatternKind::Recursive => d <= pre.len() < t.len() && t.take(pre.len() as int) == pre,
    }
}

proof fn lemma_matches_from_members(s: Set<Seq<u8>>, t: Seq<Seq<u8>>, d: int)
    requires
        0 <= d <= t.len(),
    ensures
        matches_from(s, t, d).no_duplicates(),
        forall|x: Seq<u8>|
            #[trigger] matches_from(s, t, d).contains(x) <==> (s.contains(x) && reported_from(x, t, d)),
    decreases t.len() - d,
{
    if d == t.len() {
        lemma_registered_at_members(s, PatternKind::Exact, t);
        let m = matches_from(s, t, d);
        assert forall|x: Seq<u8>| #[trigger] m.contains(x) <==> (s.contains(x) && reported_from(x, t, d)) by {
            assert(m.contains(x) <==> registered_at(s, PatternKind::Exact, t).contains(x));
            if s.contains(x) && reported_from(x, t, d) {
                if !(pattern_kind(x) is Exact) {
                    assert(pattern_prefix(x).len() < t.len());
                }
            }
        }
    } else {
        lemma_matches_from_members(s, t, d + 1);
        lemma_registered_at_members(s, PatternKind::Single, t.take(d));
        lemma_registered_at_members(s, PatternKind::Recursive, t.take(d));
        let deeper = matches_from(s, t, d + 1);
        let a: Seq<Seq<u8>> = if d + 1 == t.len() {
            registered_at(s, PatternKind::Single, t.take(d))
        } else {
            seq![]
        };
        let b = registered_at(s, PatternKind::Recursive, t.take(d));
        let m = matches_from(s, t, d);
        assert(m == deeper + a + b);
        assert forall|x: Seq<u8>| a.contains(x) implies s.contains(x) && pattern_kind(x) == PatternKind::Single && pattern_prefix(x) == t.take(d) by {
            if d + 1 == t.len() {
                assert(registered_at(s, PatternKind::Single, t.take(d)).contains(x));
            }
        }
        assert forall|x: Seq<u8>| #[trigger] m.contains(x) <==> (s.contains(x) && reported_from(x, t, d)) by {
            assert(m.contains(x) <==> (deeper.contains(x) || a.contains(x) || b.contains(x))) by {
                if m.contains(x) {
                    let i = choose|i: int| 0 <= i < m.len() && m[i] == x;
                    if i < deeper.len() {
                        assert(deeper[i] == x);
                    } else if i < deeper.len() + a.len() {
                        assert(a[i - deeper.len()] == x);
                    } else {
                        assert(b[i - deeper.len() - a.len()] == x);
                    }
                }
                if deeper.contains(x) {
                    let i = choose|i: int| 0 <= i < deeper.len() && deeper[i] == x;
                    assert(m[i] == x);
                }
                if a.contains(x) {
                    let i = choose|i: int| 0 <= i < a.len() && a[i] == x;
                    assert(m[deeper.len() + i] == x);
                }
                if b.contains(x) {
                    let i = choose|i: int| 0 <= i < b.len() && b[i] == x;
                    assert(m[deeper.len() + a.len() + i] == x);
                }
            }
            if s.contains(x) && reported_from(x, t, d) && !reported_from(x, t, d + 1) {
                let pre = pattern_prefix(x);
                assert(pre.len() == d);
                assert(t.take(d) == pre);
                if pattern_kind(x) is Single {
                    assert(registered_at(s, PatternKind::Single, t.take(d)).contains(x));
                } else {
                    assert(b.contains(x));
                }
            }
            if a.contains(x) || b.contains(x) {
                assert(pattern_prefix(x) == t.take(d));
                assert(pattern_prefix(x).len() == d);
            }
        }
        // no duplicates: the three parts hold patterns with fixed parts of
        // different lengths or of different kinds
        assert forall|i: int, j: int| 0 <= i < m.len() && 0 <= j < m.len() && i != j implies m[i] != m[j] by {
            let li = deeper.len();
            let la = a.len();
            if i < li && j < li {
                assert(deeper[i] != deeper[j]);
            } else if m[i] == m[j] {
                let x = m[i];
                assert(m.contains(x));
                if i < li || j < li {
                    let o = if i < li { i } else { j };
                    let w = if i < li { j } else { i };
                    assert(deeper.contains(deeper[o]));
                    assert(reported_from(x, t, d + 1));
                    if w < li + la {
                        assert(a.contains(a[w - li]));
                    } else {
                        assert(b.contains(b[w - li - la]));
                    }
                    assert(pattern_prefix(x).len() == d);
                } else {
                    if i < li + la && j < li + la {
                    } else if i >= li + la && j >= li + la {
                    } else {
                        let ia = if i < li + la { i } else { j };
                        let ib = if i < li + la { j } else { i };
                        assert(a.contains(a[ia - li]));
                        assert(b.contains(b[ib - li - la]));
                    }
                }
            }
        }
    }
}

/// Matching law: `match_topic` reports exactly the registered patterns that
/// match the topic (exact equality, `*` for one more segment, `>` for one or
/// more), each of them once.
pub proof fn lemma_topic_matches_semantics(s: Set<Seq<u8>>, topic: Seq<u8>)
    ensures
        topic_matches(s, topic).no_duplicates(),
        forall|x: Seq<u8>|
            #[trigger] topic_matches(s, topic).contains(x) <==> (s.contains(x) && pattern_matches(x, topic)),
{
    if topic.len() > 0 {
        let t = split_dot(topic);
        lemma_matches_from_members(s, t, 0);
    }
}

/// Idempotence law: registering a pattern that is already registered
/// leaves the registered patterns, and so the matches of every topic, as
/// they were; a pattern registered twice is held once.
pub proof fn lemma_subscribe_pattern_idempotent(s: Set<Seq<u8>>, p: Seq<u8>, topic: Seq<u8>)
    ensures
        s.insert(p).insert(p) == s.insert(p),
        topic_matches(s.insert(p).insert(p), topic) == topic_matches(s.insert(p), topic),
{
    assert(s.insert(p).insert(p) =~= s.insert(p));
}

/// The first segment before the last one that is `*` or `>`, from index `i` on
/// (empty when there is none).
pub open spec fn first_misplaced_from(q: Seq<Seq<u8>>, i: int) -> Seq<u8>
    decreases q.len() - i,
{
    if i < 0 || i >= q.len() - 1 {
        Seq::<u8>::empty()
    } else if q[i] == gt_seg() || q[i] == star_seg() {
        q[i]
    } else {
        first_misplaced_from(q, i + 1)
    }
}

/// The message with which `subscribe_pattern` refuses `p`.
pub open spec fn pattern_error_message(p: Seq<u8>) -> Seq<char> {
    if p.len() == 0 {
        "empty pattern"@
    } else if first_misplaced_from(split_dot(p), 0) == gt_seg() {
        "recursive wildcard `>` must be at end of pattern"@
    } else {
        "single-level wildcard `*` must be at end of pattern"@
    }
}

proof fn lemma_first_misplaced_at(q: Seq<Seq<u8>>, i: int)
    requires
        0 <= i < q.len() - 1,
        q[i] == gt_seg() || q[i] == star_seg(),
    ensures
        first_misplaced_from(q, i) == q[i],
{
}

proof fn lemma_first_misplaced_step(q: Seq<Seq<u8>>, i: int)
    requires
        0 <= i < q.len(),
        q[i] != gt_seg(),
        q[i] != star_seg(),
    ensures
        first_misplaced_from(q, i) == first_misplaced_from(q, i + 1),
{
}


impl Default for TrieRouter {
    fn default() -> (r: Self)
        ensures
            r.wf(),
            r.patterns() == Set::<Seq<u8>>::empty(),
    {
        TrieRouter::new()
    }
}

} // verus!
