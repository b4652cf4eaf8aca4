//! One member of the cluster, as a snapshot of the cluster's state shows it.

use crate::text::str_equal;
use vstd::prelude::*;

verus! {

/// What a node does in the cluster.
#[derive(Clone, Copy, Debug, PartialEq, Eq, Structural)]
pub enum Role {
    /// The node runs workloads.
    Worker,
    /// The node runs the cluster's control plane.
    ControlPlane,
}

/// A node as the selector sees it.
pub struct NodeView {
    /// The node's name, which identifies it.
    pub name: Seq<char>,
    /// Whether workloads may be scheduled on the node.
    pub schedulable: bool,
    /// What the node does in the cluster.
    pub role: Role,
    /// The node's annotations, each key with its value.
    pub annotations: Map<Seq<char>, Seq<char>>,
    /// For how many seconds the node has been ready without a break; `None`
    /// for a node that is not ready.
    pub ready: Option<nat>,
}

/// No key stands twice in `pairs`.
spec fn distinct_keys(pairs: Seq<(String, String)>) -> bool {
    forall|i: int, j: int| 0 <= i < j < pairs.len() ==> pairs[i].0@ != pairs[j].0@
}

/// `pairs` holds `key` at `at`.
spec fn key_at(pairs: Seq<(String, String)>, key: Seq<char>, at: int) -> bool {
    0 <= at < pairs.len() && pairs[at].0@ == key
}

/// The mapping that `pairs` writes down.
spec fn annotation_map(pairs: Seq<(String, String)>) -> Map<Seq<char>, Seq<char>> {
    Map::new(
        |key: Seq<char>| exists|at: int| key_at(pairs, key, at),
        |key: Seq<char>| pairs[choose|at: int| key_at(pairs, key, at)].1@,
    )
}

/// Where no key stands twice, each pair is an entry of the mapping.
proof fn lemma_pair_is_entry(pairs: Seq<(String, String)>, at: int)
    requires
        distinct_keys(pairs),
        0 <= at < pairs.len(),
    ensures
        annotation_map(pairs).contains_key(pairs[at].0@),
        annotation_map(pairs)[pairs[at].0@] == pairs[at].1@,
{
    let key = pairs[at].0@;
    assert(key_at(pairs, key, at));
    let chosen = choose|i: int| key_at(pairs, key, i);
    assert(key_at(pairs, key, chosen));
    assert(chosen == at);
}

/// One more pair with a new key adds one entry to the mapping.
proof fn lemma_push_inserts(pairs: Seq<(String, String)>, pair: (String, String))
    requires
        distinct_keys(pairs),
        forall|at: int| 0 <= at < pairs.len() ==> pairs[at].0@ != pair.0@,
    ensures
        distinct_keys(pairs.push(pair)),
        annotation_map(pairs.push(pair)) == annotation_map(pairs).insert(pair.0@, pair.1@),
{
    let more = pairs.push(pair);
    let left = annotation_map(more);
    let right = annotation_map(pairs).insert(pair.0@, pair.1@);
    assert(distinct_keys(more));
    assert forall|key: Seq<char>| left.contains_key(key) <==> right.contains_key(key) by {
        if left.contains_key(key) {
            let at = choose|at: int| key_at(more, key, at);
            if at < pairs.len() {
                assert(key_at(pairs, key, at));
            }
        }
        if right.contains_key(key) {
            if key == pair.0@ {
                assert(key_at(more, key, pairs.len() as int));
            } else {
                let at = choose|at: int| key_at(pairs, key, at);
                assert(key_at(more, key, at));
            }
        }
    }
    assert forall|key: Seq<char>| left.contains_key(key) implies left[key] == right[key] by {
        let at = choose|at: int| key_at(more, key, at);
        lemma_pair_is_entry(more, at);
        if at < pairs.len() {
            lemma_pair_is_entry(pairs, at);
        }
    }
    assert(left =~= right);
}

/// A new value for a key that `pairs` holds changes that entry of the mapping.
proof fn lemma_update_inserts(pairs: Seq<(String, String)>, at: int, pair: (String, String))
    requires
        distinct_keys(pairs),
        0 <= at < pairs.len(),
        pairs[at].0@ == pair.0@,
    ensures
        distinct_keys(pairs.update(at, pair)),
        annotation_map(pairs.update(at, pair)) == annotation_map(pairs).insert(pair.0@, pair.1@),
{
    let changed = pairs.update(at, pair);
    let left = annotation_map(changed);
    let right = annotation_map(pairs).insert(pair.0@, pair.1@);
    assert(distinct_keys(changed));
    assert forall|key: Seq<char>| left.contains_key(key) <==> right.contains_key(key) by {
        if left.contains_key(key) {
            let i = choose|i: int| key_at(changed, key, i);
            assert(key_at(pairs, key, i));
        }
        if right.contains_key(key) {
            if key == pair.0@ {
                assert(key_at(changed, key, at));
            } else {
                let i = choose|i: int| key_at(pairs, key, i);
                assert(key_at(changed, key, i));
            }
        }
    }
    assert forall|key: Seq<char>| left.contains_key(key) implies left[key] == right[key] by {
        let i = choose|i: int| key_at(changed, key, i);
        lemma_pair_is_entry(changed, i);
        if i != at {
            lemma_pair_is_entry(pairs, i);
        }
    }
    assert(left =~= right);
}

/// One node of the cluster. A node is built once from a snapshot and then
/// only read.
#[derive(Debug)]
pub struct Node {
    name: String,
    schedulable: bool,
    role: Role,
    annotations: Vec<(String, String)>,
    ready: Option<u64>,
}

impl View for Node {
    type V = NodeView;

    closed spec fn view(&self) -> NodeView {
        NodeView {
            name: self.name@,
            schedulable: self.schedulable,
            role: self.role,
            annotations: annotation_map(self.annotations@),
            ready: match self.ready {
                Some(seconds) => Some(seconds as nat),
                None => None,
            },
        }
    }
}

impl DeepView for Node {
    type V = NodeView;

    open spec fn deep_view(&self) -> NodeView {
        self@
    }
}

/// Some annotation in `annotations` has the value `value`.
pub open spec fn carries_value(annotations: Map<Seq<char>, Seq<char>>, value: Seq<char>) -> bool {
    exists|key: Seq<char>| annotations.contains_key(key) && #[trigger] annotations[key] == value
}

impl Node {
    #[verifier::type_invariant]
    spec fn well_formed(self) -> bool {
        distinct_keys(self.annotations@)
    }

    /// A node without annotations. `ready` is the time in seconds for which
    /// the node has been ready, `None` for a node that is not ready.
    pub fn new(name: String, schedulable: bool, role: Role, ready: Option<u64>) -> (node: Node)
        ensures
            node@ == (NodeView {
                name: name@,
                schedulable,
                role,
                annotations: Map::empty(),
                ready: match ready {
                    Some(seconds) => Some(seconds as nat),
                    None => None,
                },
            }),
    {
        let node = Node { name, schedulable, role, annotations: Vec::new(), ready };
        assert(annotation_map(node.annotations@) =~= Map::empty());
        node
    }

    /// The node with the annotation `key` set to `value`, whether it had that
    /// annotation or not.
    pub fn with_annotation(self, key: String, value: String) -> (node: Node)
        ensures
            node@ == (NodeView {
                annotations: self@.annotations.insert(key@, value@),
                ..self@
            }),
    {
        proof {
            use_type_invariant(&self);
        }
        let Node { name, schedulable, role, annotations, ready } = self;
        let mut annotations = annotations;
        let mut i: usize = 0;
        while i < annotations.len()
            invariant
                i <= annotations.len(),
                name == self.name,
                schedulable == self.schedulable,
                role == self.role,
                ready == self.ready,
                annotations == self.annotations,
                distinct_keys(annotations@),
                forall|j: int| 0 <= j < i ==> annotations@[j].0@ != key@,
            decreases annotations.len() - i,
        {
            if str_equal(annotations[i].0.as_str(), key.as_str()) {
                proof {
                    lemma_update_inserts(annotations@, i as int, (key, value));
                }
                annotations.set(i, (key, value));
                return Node { name, schedulable, role, annotations, ready };
            }
            i += 1;
        }
        proof {
            lemma_push_inserts(annotations@, (key, value));
        }
        annotations.push((key, value));
        Node { name, schedulable, role, annotations, ready }
    }

    /// The node's name.
    pub fn name(&self) -> (name: &str)
        ensures
            name@ == self@.name,
    {
        self.name.as_str()
    }

    /// Whether workloads may be scheduled on the node.
    pub fn is_schedulable(&self) -> (schedulable: bool)
        ensures
            schedulable == self@.schedulable,
    {
        self.schedulable
    }

    /// What the node does in the cluster.
    pub fn role(&self) -> (role: Role)
        ensures
            role == self@.role,
    {
        self.role
    }

    /// For how many seconds the node has been ready; `None` for a node that
    /// is not ready.
    pub fn ready_duration(&self) -> (ready: Option<u64>)
        ensures
            match ready {
                Some(seconds) => self@.ready == Some(seconds as nat),
                None => self@.ready is None,
            },
    {
        self.ready
    }

    /// The value of the annotation `key`, where the node has that annotation.
    pub fn annotation(&self, key: &str) -> (value: Option<&str>)
        ensures
            match value {
                Some(v) => self@.annotations.contains_key(key@) && self@.annotations[key@] == v@,
                None => !self@.annotations.contains_key(key@),
            },
    {
        proof {
            use_type_invariant(self);
        }
        let mut i: usize = 0;
        while i < self.annotations.len()
            invariant
                i <= self.annotations.len(),
                distinct_keys(self.annotations@),
                forall|j: int| 0 <= j < i ==> !key_at(self.annotations@, key@, j),
            decreases self.annotations.len() - i,
        {
            if str_equal(self.annotations[i].0.as_str(), key) {
                proof {
                    lemma_pair_is_entry(self.annotations@, i as int);
                }
                return Some(self.annotations[i].1.as_str());
            }
            i += 1;
        }
        None
    }

    /// Whether some annotation of the node has the value `value`.
    pub fn has_annotation_value(&self, value: &str) -> (found: bool)
        ensures
            found == carries_value(self@.annotations, value@),
    {
        proof {
            use_type_invariant(self);
        }
        let mut i: usize = 0;
        while i < self.annotations.len()
            invariant
                i <= self.annotations.len(),
                distinct_keys(self.annotations@),
                forall|j: int| 0 <= j < i ==> self.annotations@[j].1@ != value@,
            decreases self.annotations.len() - i,
        {
            if str_equal(self.annotations[i].1.as_str(), value) {
                proof {
                    lemma_pair_is_entry(self.annotations@, i as int);
                }
                return true;
            }
            i += 1;
        }
        proof {
            let annotations = self@.annotations;
            assert forall|key: Seq<char>| annotations.contains_key(key) implies annotations[key]
                != value@ by {
                let at = choose|at: int| key_at(self.annotations@, key, at);
                lemma_pair_is_entry(self.annotations@, at);
            }
        }
        false
    }
}

} // verus!
