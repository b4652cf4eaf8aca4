//! The selection of candidate nodes: which nodes of a scale set may serve as
//! the prototype, and in which order they are preferred.

use crate::argument_types::{MinimumReadyTime, NodeName, VmssName};
use crate::node::{carries_value, Node, NodeView, Role};
use crate::pattern::{pattern_matches, search, PATCH_DATE_PATTERN};
use crate::text::{occurs_in, str_contains, str_equal};
use vstd::prelude::*;

verus! {

/// What a selection goes by, besides the scale set and the nodes.
#[derive(Debug)]
pub struct SelectionCriteria {
    /// Nodes that are never candidates, by name.
    pub node_ignore_names: Vec<NodeName>,
    /// Values that bar a node which has an annotation with one of them.
    pub node_ignore_annotations: Vec<String>,
    /// The mark of a pending reboot: it bars a node which has an annotation
    /// with that value.
    pub pending_reboot_annotation: String,
    /// The key of the annotation that holds the date of the last patch.
    pub last_patch_annotation: String,
    /// For how long a candidate must have been ready.
    pub minimum_ready_time: MinimumReadyTime,
    /// The version of the latest image. Where it is set, a candidate must
    /// show the date of its last patch.
    pub latest_image: Option<String>,
    /// The node that the selection itself runs on, which is no candidate.
    pub self_node: Option<String>,
}

/// The criteria of a selection as plain values.
pub struct CriteriaView {
    /// The names of the nodes that are never candidates.
    pub ignore_names: Set<Seq<char>>,
    /// The annotation values that bar a node.
    pub ignore_values: Set<Seq<char>>,
    /// The mark of a pending reboot.
    pub pending_reboot: Seq<char>,
    /// The key of the annotation that holds the date of the last patch.
    pub last_patch_key: Seq<char>,
    /// The least time in seconds for which a candidate has been ready.
    pub minimum_ready: nat,
    /// The version of the latest image, where patches count.
    pub latest_image: Option<Seq<char>>,
    /// The name of the node that the selection runs on.
    pub self_node: Option<Seq<char>>,
}

/// The names in `names`, as a set.
pub open spec fn name_set(names: Seq<NodeName>) -> Set<Seq<char>> {
    Set::new(|name: Seq<char>| exists|i: int| 0 <= i < names.len() && #[trigger] names[i]@ == name)
}

/// The strings in `values`, as a set.
pub open spec fn value_set(values: Seq<String>) -> Set<Seq<char>> {
    Set::new(
        |value: Seq<char>| exists|i: int| 0 <= i < values.len() && #[trigger] values[i]@ == value,
    )
}

impl View for SelectionCriteria {
    type V = CriteriaView;

    open spec fn view(&self) -> CriteriaView {
        CriteriaView {
            ignore_names: name_set(self.node_ignore_names@),
            ignore_values: value_set(self.node_ignore_annotations@),
            pending_reboot: self.pending_reboot_annotation@,
            last_patch_key: self.last_patch_annotation@,
            minimum_ready: self.minimum_ready_time@ as nat,
            latest_image: match self.latest_image {
                Some(image) => Some(image@),
                None => None,
            },
            self_node: match self.self_node {
                Some(name) => Some(name@),
                None => None,
            },
        }
    }
}

/// Why a node is no candidate. The order of the variants is the order in
/// which the reasons are tried.
#[derive(Clone, Copy, Debug, PartialEq, Eq, Structural)]
pub enum Exclusion {
    /// The node's name does not hold the scale set's name.
    OtherScaleSet,
    /// The node is the one that the selection runs on.
    SelfNode,
    /// The node's name is among those to ignore.
    IgnoredName,
    /// No workloads may be scheduled on the node.
    Unschedulable,
    /// The node runs the control plane.
    ControlPlane,
    /// An annotation of the node has a value that bars it.
    Annotation,
    /// Patches count, and the node does not show the date of its last one.
    LastPatch,
    /// The node is not ready, or has not been for long enough.
    NotReady,
}

/// Whether `node` shows the date of its last patch: it has the annotation
/// that holds it, and the value holds a match of `PATCH_DATE_PATTERN`.
pub open spec fn patch_dated(node: NodeView, criteria: CriteriaView) -> bool {
    &&& node.annotations.contains_key(criteria.last_patch_key)
    &&& pattern_matches(PATCH_DATE_PATTERN@, node.annotations[criteria.last_patch_key])
}

/// Some annotation of `node` has a value that bars it: one of the values to
/// ignore, or the mark of a pending reboot.
pub open spec fn barred_by_annotation(node: NodeView, criteria: CriteriaView) -> bool {
    exists|key: Seq<char>|
        node.annotations.contains_key(key) && (criteria.ignore_values.contains(
            #[trigger] node.annotations[key],
        ) || node.annotations[key] == criteria.pending_reboot)
}

/// Whether the reason `reason` bars `node` from the candidates of the scale
/// set `vmss`, where `dated` says whether the node shows the date of its last
/// patch. Each reason is judged by itself.
pub open spec fn excluded_by(
    reason: Exclusion,
    vmss: Seq<char>,
    node: NodeView,
    criteria: CriteriaView,
    dated: bool,
) -> bool {
    match reason {
        Exclusion::OtherScaleSet => !occurs_in(node.name, vmss),
        Exclusion::SelfNode => criteria.self_node == Some(node.name),
        Exclusion::IgnoredName => criteria.ignore_names.contains(node.name),
        Exclusion::Unschedulable => !node.schedulable,
        Exclusion::ControlPlane => node.role == Role::ControlPlane,
        Exclusion::Annotation => barred_by_annotation(node, criteria),
        Exclusion::LastPatch => criteria.latest_image is Some && !dated,
        Exclusion::NotReady => !(node.ready matches Some(seconds) && seconds
            >= criteria.minimum_ready),
    }
}

/// The first reason, in the order of `Exclusion`, that bars `node`; `None`
/// where no reason does.
pub open spec fn first_exclusion_given(
    vmss: Seq<char>,
    node: NodeView,
    criteria: CriteriaView,
    dated: bool,
) -> Option<Exclusion> {
    if excluded_by(Exclusion::OtherScaleSet, vmss, node, criteria, dated) {
        Some(Exclusion::OtherScaleSet)
    } else if excluded_by(Exclusion::SelfNode, vmss, node, criteria, dated) {
        Some(Exclusion::SelfNode)
    } else if excluded_by(Exclusion::IgnoredName, vmss, node, criteria, dated) {
        Some(Exclusion::IgnoredName)
    } else if excluded_by(Exclusion::Unschedulable, vmss, node, criteria, dated) {
        Some(Exclusion::Unschedulable)
    } else if excluded_by(Exclusion::ControlPlane, vmss, node, criteria, dated) {
        Some(Exclusion::ControlPlane)
    } else if excluded_by(Exclusion::Annotation, vmss, node, criteria, dated) {
        Some(Exclusion::Annotation)
    } else if excluded_by(Exclusion::LastPatch, vmss, node, criteria, dated) {
        Some(Exclusion::LastPatch)
    } else if excluded_by(Exclusion::NotReady, vmss, node, criteria, dated) {
        Some(Exclusion::NotReady)
    } else {
        None
    }
}

/// The first reason that bars `node` from the candidates of `vmss`.
pub open spec fn first_exclusion(vmss: Seq<char>, node: NodeView, criteria: CriteriaView) -> Option<
    Exclusion,
> {
    first_exclusion_given(vmss, node, criteria, patch_dated(node, criteria))
}

/// No reason bars `node` from the candidates of `vmss`.
pub open spec fn eligible(vmss: Seq<char>, node: NodeView, criteria: CriteriaView) -> bool {
    first_exclusion(vmss, node, criteria) is None
}

/// The test that a node is eligible, as a function of the node.
pub open spec fn is_eligible(vmss: Seq<char>, criteria: CriteriaView) -> spec_fn(NodeView) -> bool {
    |node: NodeView| eligible(vmss, node, criteria)
}

/// The place of a node in the order of preference: the seconds for which it
/// has been ready, and less than any such number where it is not ready.
pub open spec fn ready_rank(node: NodeView) -> int {
    match node.ready {
        Some(seconds) => seconds as int,
        None => -1,
    }
}

/// `sorted` with `node` put behind every node that has been ready for as long
/// or longer.
pub open spec fn insert_by_ready(sorted: Seq<NodeView>, node: NodeView) -> Seq<NodeView>
    decreases sorted.len(),
{
    if sorted.len() > 0 && ready_rank(sorted.last()) < ready_rank(node) {
        insert_by_ready(sorted.drop_last(), node).push(sorted.last())
    } else {
        sorted.push(node)
    }
}

/// The nodes of `nodes` with the one that has been ready longest first; nodes
/// that have been ready for the same time keep their order.
pub open spec fn longest_ready_first(nodes: Seq<NodeView>) -> Seq<NodeView>
    decreases nodes.len(),
{
    if nodes.len() == 0 {
        nodes
    } else {
        insert_by_ready(longest_ready_first(nodes.drop_last()), nodes.last())
    }
}

/// The candidates among `nodes` for the scale set `vmss`: the eligible
/// nodes, longest ready first.
pub open spec fn candidate_list(vmss: Seq<char>, nodes: Seq<NodeView>, criteria: CriteriaView) -> Seq<
    NodeView,
> {
    longest_ready_first(nodes.filter(is_eligible(vmss, criteria)))
}

/// Whether `name` is one of `names`.
fn is_ignored_name(name: &str, names: &Vec<NodeName>) -> (ignored: bool)
    ensures
        ignored == name_set(names@).contains(name@),
{
    let mut i: usize = 0;
    while i < names.len()
        invariant
            i <= names.len(),
            forall|j: int| 0 <= j < i ==> names@[j]@ != name@,
        decreases names.len() - i,
    {
        if str_equal(names[i].as_str(), name) {
            return true;
        }
        i += 1;
    }
    false
}

/// Whether some annotation of `node` has a value that bars it.
fn is_barred_by_annotation(node: &Node, criteria: &SelectionCriteria) -> (barred: bool)
    ensures
        barred == barred_by_annotation(node@, criteria@),
{
    let ghost annotations = node@.annotations;
    if node.has_annotation_value(criteria.pending_reboot_annotation.as_str()) {
        return true;
    }
    let values = &criteria.node_ignore_annotations;
    let mut i: usize = 0;
    while i < values.len()
        invariant
            i <= values.len(),
            annotations == node@.annotations,
            *values == criteria.node_ignore_annotations,
            forall|j: int| 0 <= j < i ==> !carries_value(annotations, #[trigger] values@[j]@),
        decreases values.len() - i,
    {
        if node.has_annotation_value(values[i].as_str()) {
            let ghost key = choose|key: Seq<char>|
                annotations.contains_key(key) && #[trigger] annotations[key] == values@[i as int]@;
            assert(value_set(values@).contains(annotations[key]));
            return true;
        }
        i += 1;
    }
    assert forall|key: Seq<char>| annotations.contains_key(key) implies !value_set(
        values@,
    ).contains(#[trigger] annotations[key]) by {
        if value_set(values@).contains(annotations[key]) {
            let j = choose|j: int| 0 <= j < values@.len() && #[trigger] values@[j]@ == annotations[key];
            assert(carries_value(annotations, values@[j]@));
        }
    }
    false
}

/// Whether `node` shows the date of its last patch: the annotation that
/// `criteria` names for it holds a date.
pub fn has_patch_date(node: &Node, criteria: &SelectionCriteria) -> (dated: bool)
    ensures
        dated == patch_dated(node@, criteria@),
{
    match node.annotation(criteria.last_patch_annotation.as_str()) {
        Some(value) => match search(PATCH_DATE_PATTERN, value) {
            Some(found) => found,
            None => false,
        },
        None => false,
    }
}

/// The first reason that bars `node` from the candidates of `vmss`, where
/// `dated` says whether the node shows the date of its last patch.
pub fn exclusion_given(
    vmss: &VmssName,
    node: &Node,
    criteria: &SelectionCriteria,
    dated: bool,
) -> (reason: Option<Exclusion>)
    ensures
        reason == first_exclusion_given(vmss@, node@, criteria@, dated),
{
    if !str_contains(node.name(), vmss.as_str()) {
        return Some(Exclusion::OtherScaleSet);
    }
    let is_self = match &criteria.self_node {
        Some(name) => str_equal(name.as_str(), node.name()),
        None => false,
    };
    if is_self {
        return Some(Exclusion::SelfNode);
    }
    if is_ignored_name(node.name(), &criteria.node_ignore_names) {
        return Some(Exclusion::IgnoredName);
    }
    if !node.is_schedulable() {
        return Some(Exclusion::Unschedulable);
    }
    match node.role() {
        Role::ControlPlane => {
            return Some(Exclusion::ControlPlane);
        },
        Role::Worker => {},
    }
    if is_barred_by_annotation(node, criteria) {
        return Some(Exclusion::Annotation);
    }
    if criteria.latest_image.is_some() && !dated {
        return Some(Exclusion::LastPatch);
    }
    let ready_enough = match node.ready_duration() {
        Some(seconds) => seconds >= criteria.minimum_ready_time.seconds() as u64,
        None => false,
    };
    if !ready_enough {
        return Some(Exclusion::NotReady);
    }
    None
}

/// The first reason that bars `node` from the candidates of `vmss`; `None`
/// for a node that is eligible.
pub fn node_exclusion(vmss: &VmssName, node: &Node, criteria: &SelectionCriteria) -> (reason: Option<
    Exclusion,
>)
    ensures
        reason == first_exclusion(vmss@, node@, criteria@),
{
    let dated = if criteria.latest_image.is_some() {
        has_patch_date(node, criteria)
    } else {
        false
    };
    exclusion_given(vmss, node, criteria, dated)
}

/// Whether `a` comes behind `b` where both are ready for different times.
fn ready_for_less(a: &Node, b: &Node) -> (less: bool)
    ensures
        less == (ready_rank(a@) < ready_rank(b@)),
{
    match (a.ready_duration(), b.ready_duration()) {
        (Some(x), Some(y)) => x < y,
        (None, Some(_)) => true,
        (_, None) => false,
    }
}

/// To put `node` at `at` is to put it behind every node that has been ready
/// for as long or longer, where the nodes from `at` on have been ready for
/// less and the one before `at` has not.
proof fn lemma_insert_at(sorted: Seq<NodeView>, node: NodeView, at: int)
    requires
        0 <= at <= sorted.len(),
        forall|j: int| at <= j < sorted.len() ==> ready_rank(#[trigger] sorted[j]) < ready_rank(node),
        at > 0 ==> ready_rank(sorted[at - 1]) >= ready_rank(node),
    ensures
        insert_by_ready(sorted, node) == sorted.insert(at, node),
    decreases sorted.len(),
{
    if at == sorted.len() {
        assert(sorted.insert(at, node) =~= sorted.push(node));
    } else {
        lemma_insert_at(sorted.drop_last(), node, at);
        assert(sorted.drop_last().insert(at, node).push(sorted.last()) =~= sorted.insert(
            at,
            node,
        ));
    }
}

/// Puts the nodes in the order of preference: the one that has been ready
/// longest comes first, and nodes that have been ready for the same time keep
/// their order.
pub fn order_by_ready<'a>(nodes: Vec<&'a Node>) -> (ordered: Vec<&'a Node>)
    ensures
        ordered.deep_view() == longest_ready_first(nodes.deep_view()),
{
    let mut ordered: Vec<&'a Node> = Vec::new();
    let mut i: usize = 0;
    assert(nodes.deep_view().take(0) =~= Seq::empty());
    assert(ordered.deep_view() =~= Seq::empty());
    while i < nodes.len()
        invariant
            i <= nodes.len(),
            ordered.deep_view() == longest_ready_first(nodes.deep_view().take(i as int)),
        decreases nodes.len() - i,
    {
        let node: &'a Node = nodes[i];
        let mut at: usize = ordered.len();
        while at > 0 && ready_for_less(ordered[at - 1], node)
            invariant
                at <= ordered.len(),
                forall|j: int|
                    at <= j < ordered.len() ==> ready_rank(#[trigger] ordered.deep_view()[j])
                        < ready_rank(node@),
            decreases at,
        {
            at -= 1;
        }
        proof {
            lemma_insert_at(ordered.deep_view(), node@, at as int);
            assert(nodes.deep_view().take(i + 1).drop_last() =~= nodes.deep_view().take(i as int));
            assert(nodes.deep_view().take(i + 1).last() == node@);
        }
        let ghost before = ordered.deep_view();
        ordered.insert(at, node);
        assert(ordered.deep_view() =~= before.insert(at as int, node@));
        i += 1;
    }
    assert(nodes.deep_view().take(nodes.len() as int) =~= nodes.deep_view());
    ordered
}

/// The candidates among `nodes` for the prototype of the scale set `vmss`,
/// the one that has been ready longest first. The list is empty where no
/// node is eligible.
pub fn get_candidate_nodes<'a>(
    vmss: &VmssName,
    nodes: &'a Vec<Node>,
    criteria: &SelectionCriteria,
) -> (candidates: Vec<&'a Node>)
    ensures
        candidates.deep_view() == candidate_list(vmss@, nodes.deep_view(), criteria@),
{
    let mut kept: Vec<&'a Node> = Vec::new();
    let ghost test = is_eligible(vmss@, criteria@);
    let mut i: usize = 0;
    assert(nodes.deep_view().take(0) =~= Seq::empty());
    assert(kept.deep_view() =~= Seq::<NodeView>::empty().filter(test)) by {
        reveal(Seq::filter);
    }
    while i < nodes.len()
        invariant
            i <= nodes.len(),
            test == is_eligible(vmss@, criteria@),
            kept.deep_view() == nodes.deep_view().take(i as int).filter(test),
        decreases nodes.len() - i,
    {
        let node: &'a Node = &nodes[i];
        let ghost before = kept.deep_view();
        proof {
            assert(nodes.deep_view().take(i + 1) =~= nodes.deep_view().take(i as int).push(node@));
            nodes.deep_view().take(i as int).lemma_filter_push(node@, test);
        }
        if node_exclusion(vmss, node, criteria).is_none() {
            kept.push(node);
            assert(kept.deep_view() =~= before.push(node@));
        }
        i += 1;
    }
    assert(nodes.deep_view().take(nodes.len() as int) =~= nodes.deep_view());
    order_by_ready(kept)
}

/// No node of `nodes` stands before one that has been ready for longer.
pub open spec fn descending(nodes: Seq<NodeView>) -> bool {
    forall|i: int, j: int|
        0 <= i < j < nodes.len() ==> ready_rank(#[trigger] nodes[i]) >= ready_rank(
            #[trigger] nodes[j],
        )
}

/// The test that a node's place in the order of preference is `rank`.
pub open spec fn has_rank(rank: int) -> spec_fn(NodeView) -> bool {
    |node: NodeView| ready_rank(node) == rank
}

/// Where `insert_by_ready` puts a node.
spec fn insertion_point(sorted: Seq<NodeView>, node: NodeView) -> int
    decreases sorted.len(),
{
    if sorted.len() > 0 && ready_rank(sorted.last()) < ready_rank(node) {
        insertion_point(sorted.drop_last(), node)
    } else {
        sorted.len() as int
    }
}

/// `insert_by_ready` puts a node at its insertion point: behind the last
/// node that has been ready for as long or longer.
proof fn lemma_insertion_point(sorted: Seq<NodeView>, node: NodeView)
    ensures
        0 <= insertion_point(sorted, node) <= sorted.len(),
        forall|j: int|
            insertion_point(sorted, node) <= j < sorted.len() ==> ready_rank(#[trigger] sorted[j])
                < ready_rank(node),
        insertion_point(sorted, node) > 0 ==> ready_rank(sorted[insertion_point(sorted, node) - 1])
            >= ready_rank(node),
        insert_by_ready(sorted, node) == sorted.insert(insertion_point(sorted, node), node),
    decreases sorted.len(),
{
    let at = insertion_point(sorted, node);
    if sorted.len() > 0 && ready_rank(sorted.last()) < ready_rank(node) {
        let rest = sorted.drop_last();
        lemma_insertion_point(rest, node);
        assert forall|j: int| at <= j < sorted.len() implies ready_rank(#[trigger] sorted[j])
            < ready_rank(node) by {
            if j < rest.len() {
                assert(sorted[j] == rest[j]);
            }
        }
        if at > 0 {
            assert(sorted[at - 1] == rest[at - 1]);
        }
    }
    lemma_insert_at(sorted, node, at);
}

/// A descending list with one more node put in is descending.
proof fn lemma_insert_keeps_descending(sorted: Seq<NodeView>, node: NodeView)
    requires
        descending(sorted),
    ensures
        descending(insert_by_ready(sorted, node)),
{
    lemma_insertion_point(sorted, node);
    let at = insertion_point(sorted, node);
    let out = sorted.insert(at, node);
    assert forall|i: int, j: int| 0 <= i < j < out.len() implies ready_rank(#[trigger] out[i])
        >= ready_rank(#[trigger] out[j]) by {
        if i < at && j == at {
            assert(ready_rank(sorted[i]) >= ready_rank(sorted[at - 1]) || i == at - 1);
        } else if i < at && j > at {
            assert(out[j] == sorted[j - 1]);
        } else if i == at {
            assert(out[j] == sorted[j - 1]);
        } else if i > at {
            assert(out[i] == sorted[i - 1]);
            assert(out[j] == sorted[j - 1]);
        }
    }
}

/// Seen rank by rank, to put a node in is to put it at the end.
proof fn lemma_insert_keeps_rank(sorted: Seq<NodeView>, node: NodeView, rank: int)
    ensures
        insert_by_ready(sorted, node).filter(has_rank(rank)) == sorted.push(node).filter(
            has_rank(rank),
        ),
    decreases sorted.len(),
{
    if sorted.len() > 0 && ready_rank(sorted.last()) < ready_rank(node) {
        let rest = sorted.drop_last();
        let last = sorted.last();
        lemma_insert_keeps_rank(rest, node, rank);
        assert(rest.push(last) =~= sorted);
        insert_by_ready(rest, node).lemma_filter_push(last, has_rank(rank));
        rest.lemma_filter_push(node, has_rank(rank));
        rest.lemma_filter_push(last, has_rank(rank));
        sorted.lemma_filter_push(node, has_rank(rank));
    }
}

/// To put a node in adds that node and nothing else.
proof fn lemma_insert_adds_one(sorted: Seq<NodeView>, node: NodeView)
    ensures
        insert_by_ready(sorted, node).to_multiset() == sorted.to_multiset().insert(node),
    decreases sorted.len(),
{
    broadcast use vstd::seq_lib::to_multiset_build;

    if sorted.len() > 0 && ready_rank(sorted.last()) < ready_rank(node) {
        let rest = sorted.drop_last();
        let last = sorted.last();
        lemma_insert_adds_one(rest, node);
        assert(rest.push(last) =~= sorted);
        assert(rest.to_multiset().insert(node).insert(last) =~= rest.to_multiset().insert(
            last,
        ).insert(node));
    }
}

/// The order of preference is descending: no candidate stands before one
/// that has been ready for longer.
pub proof fn lemma_order_is_descending(nodes: Seq<NodeView>)
    ensures
        descending(longest_ready_first(nodes)),
    decreases nodes.len(),
{
    if nodes.len() > 0 {
        lemma_order_is_descending(nodes.drop_last());
        lemma_insert_keeps_descending(longest_ready_first(nodes.drop_last()), nodes.last());
    }
}

/// The order of preference is stable: the nodes of one rank stand in it as
/// they stand in the snapshot, none lost, none added, in the same order.
pub proof fn lemma_order_keeps_ties(nodes: Seq<NodeView>, rank: int)
    ensures
        longest_ready_first(nodes).filter(has_rank(rank)) == nodes.filter(has_rank(rank)),
    decreases nodes.len(),
{
    if nodes.len() > 0 {
        let rest = nodes.drop_last();
        lemma_order_keeps_ties(rest, rank);
        lemma_insert_keeps_rank(longest_ready_first(rest), nodes.last(), rank);
        longest_ready_first(rest).lemma_filter_push(nodes.last(), has_rank(rank));
        rest.lemma_filter_push(nodes.last(), has_rank(rank));
        assert(rest.push(nodes.last()) =~= nodes);
    }
}

/// To order nodes is to rearrange them: each node stands in the order as
/// often as in the snapshot.
pub proof fn lemma_order_rearranges(nodes: Seq<NodeView>)
    ensures
        longest_ready_first(nodes).to_multiset() == nodes.to_multiset(),
        longest_ready_first(nodes).len() == nodes.len(),
    decreases nodes.len(),
{
    broadcast use vstd::seq_lib::to_multiset_build;
    broadcast use vstd::seq_lib::to_multiset_len;

    if nodes.len() > 0 {
        let rest = nodes.drop_last();
        lemma_order_rearranges(rest);
        lemma_insert_adds_one(longest_ready_first(rest), nodes.last());
        assert(rest.push(nodes.last()) =~= nodes);
    }
    assert(longest_ready_first(nodes).to_multiset().len() == nodes.to_multiset().len());
}

/// Nodes that stand in the order of preference already are left as they
/// stand.
pub proof fn lemma_order_leaves_descending(nodes: Seq<NodeView>)
    requires
        descending(nodes),
    ensures
        longest_ready_first(nodes) == nodes,
    decreases nodes.len(),
{
    if nodes.len() > 0 {
        let rest = nodes.drop_last();
        assert(descending(rest));
        lemma_order_leaves_descending(rest);
        assert(rest.push(nodes.last()) =~= nodes);
    }
}

/// The candidates are the eligible nodes of the snapshot and no others.
pub proof fn lemma_candidates_are_the_eligible(
    vmss: Seq<char>,
    nodes: Seq<NodeView>,
    criteria: CriteriaView,
    node: NodeView,
)
    ensures
        candidate_list(vmss, nodes, criteria).contains(node) <==> nodes.contains(node) && eligible(
            vmss,
            node,
            criteria,
        ),
{
    let test = is_eligible(vmss, criteria);
    let kept = nodes.filter(test);
    lemma_order_rearranges(kept);
    vstd::seq_lib::to_multiset_contains(kept, node);
    vstd::seq_lib::to_multiset_contains(longest_ready_first(kept), node);
    assert(candidate_list(vmss, nodes, criteria).contains(node) <==> kept.contains(node));
    if kept.contains(node) {
        let at = choose|at: int| 0 <= at < kept.len() && kept[at] == node;
        nodes.lemma_filter_pred(test, at);
        nodes.lemma_filter_contains_rev(test, node);
    }
    if nodes.contains(node) && eligible(vmss, node, criteria) {
        let at = choose|at: int| 0 <= at < nodes.len() && nodes[at] == node;
        nodes.lemma_filter_contains(test, at);
    }
}

/// A selection depends on nothing but what it is handed: two selections
/// from the same scale set, snapshot and criteria give the same candidates in
/// the same order.
pub proof fn lemma_selection_is_repeatable(
    vmss: Seq<char>,
    nodes: Seq<NodeView>,
    criteria: CriteriaView,
    first: Seq<NodeView>,
    second: Seq<NodeView>,
)
    requires
        first == candidate_list(vmss, nodes, criteria),
        second == candidate_list(vmss, nodes, criteria),
    ensures
        first == second,
        descending(first),
        forall|rank: int|
            #[trigger] first.filter(has_rank(rank)) == nodes.filter(is_eligible(vmss, criteria)).filter(
                has_rank(rank),
            ),
{
    let kept = nodes.filter(is_eligible(vmss, criteria));
    lemma_order_is_descending(kept);
    assert forall|rank: int| #[trigger]
        first.filter(has_rank(rank)) == kept.filter(has_rank(rank)) by {
        lemma_order_keeps_ties(kept, rank);
    }
}

/// To select among the candidates of a selection changes nothing: they are
/// all candidates again, in the same order.
pub proof fn lemma_selection_is_idempotent(
    vmss: Seq<char>,
    nodes: Seq<NodeView>,
    criteria: CriteriaView,
)
    ensures
        candidate_list(vmss, candidate_list(vmss, nodes, criteria), criteria) == candidate_list(
            vmss,
            nodes,
            criteria,
        ),
{
    let test = is_eligible(vmss, criteria);
    let list = candidate_list(vmss, nodes, criteria);
    assert forall|i: int| 0 <= i < list.len() implies test(#[trigger] list[i]) by {
        assert(list.contains(list[i]));
        lemma_candidates_are_the_eligible(vmss, nodes, criteria, list[i]);
    }
    lemma_filter_keeps_all(list, test);
    lemma_order_is_descending(nodes.filter(test));
    lemma_order_leaves_descending(list);
}

/// A test that every node passes keeps the list as it is.
proof fn lemma_filter_keeps_all(nodes: Seq<NodeView>, test: spec_fn(NodeView) -> bool)
    requires
        forall|i: int| 0 <= i < nodes.len() ==> test(#[trigger] nodes[i]),
    ensures
        nodes.filter(test) == nodes,
    decreases nodes.len(),
{
    reveal(Seq::filter);
    if nodes.len() > 0 {
        lemma_filter_keeps_all(nodes.drop_last(), test);
        assert(nodes.drop_last().push(nodes.last()) =~= nodes);
    }
}

/// A node that exactly one reason bars is a candidate once that reason is
/// lifted and all else is as before: with `relaxed`, `relaxed_nodes` and
/// `relaxed_criteria` the reason `reason` bars the node at `at` no longer,
/// and each other reason bars it as little as it did.
pub proof fn lemma_exclusions_are_independent(
    reason: Exclusion,
    vmss: Seq<char>,
    nodes: Seq<NodeView>,
    criteria: CriteriaView,
    relaxed_vmss: Seq<char>,
    relaxed_nodes: Seq<NodeView>,
    relaxed_criteria: CriteriaView,
    at: int,
)
    requires
        0 <= at < nodes.len(),
        relaxed_nodes.len() == nodes.len(),
        excluded_by(reason, vmss, nodes[at], criteria, patch_dated(nodes[at], criteria)),
        forall|other: Exclusion|
            other != reason ==> !excluded_by(
                other,
                vmss,
                nodes[at],
                criteria,
                patch_dated(nodes[at], criteria),
            ),
        !excluded_by(
            reason,
            relaxed_vmss,
            relaxed_nodes[at],
            relaxed_criteria,
            patch_dated(relaxed_nodes[at], relaxed_criteria),
        ),
        forall|other: Exclusion|
            other != reason ==> excluded_by(
                other,
                relaxed_vmss,
                relaxed_nodes[at],
                relaxed_criteria,
                patch_dated(relaxed_nodes[at], relaxed_criteria),
            ) == excluded_by(other, vmss, nodes[at], criteria, patch_dated(nodes[at], criteria)),
    ensures
        first_exclusion(vmss, nodes[at], criteria) == Some(reason),
        !candidate_list(vmss, nodes, criteria).contains(nodes[at]),
        candidate_list(relaxed_vmss, relaxed_nodes, relaxed_criteria).contains(relaxed_nodes[at]),
{
    let node = relaxed_nodes[at];
    let dated = patch_dated(node, relaxed_criteria);
    assert forall|any: Exclusion| !excluded_by(any, relaxed_vmss, node, relaxed_criteria, dated) by {
        if any != reason {
            assert(!excluded_by(any, vmss, nodes[at], criteria, patch_dated(nodes[at], criteria)));
        }
    }
    assert(!excluded_by(Exclusion::OtherScaleSet, relaxed_vmss, node, relaxed_criteria, dated));
    assert(!excluded_by(Exclusion::SelfNode, relaxed_vmss, node, relaxed_criteria, dated));
    assert(!excluded_by(Exclusion::IgnoredName, relaxed_vmss, node, relaxed_criteria, dated));
    assert(!excluded_by(Exclusion::Unschedulable, relaxed_vmss, node, relaxed_criteria, dated));
    assert(!excluded_by(Exclusion::ControlPlane, relaxed_vmss, node, relaxed_criteria, dated));
    assert(!excluded_by(Exclusion::Annotation, relaxed_vmss, node, relaxed_criteria, dated));
    assert(!excluded_by(Exclusion::LastPatch, relaxed_vmss, node, relaxed_criteria, dated));
    assert(!excluded_by(Exclusion::NotReady, relaxed_vmss, node, relaxed_criteria, dated));
    assert(eligible(relaxed_vmss, node, relaxed_criteria));
    assert(relaxed_nodes.contains(node));
    lemma_candidates_are_the_eligible(relaxed_vmss, relaxed_nodes, relaxed_criteria, node);
    lemma_candidates_are_the_eligible(vmss, nodes, criteria, nodes[at]);
}

/// Where no node is eligible there are no candidates; so it is for a
/// snapshot without nodes.
pub proof fn lemma_no_eligible_node_no_candidate(
    vmss: Seq<char>,
    nodes: Seq<NodeView>,
    criteria: CriteriaView,
)
    requires
        forall|i: int| 0 <= i < nodes.len() ==> !eligible(vmss, #[trigger] nodes[i], criteria),
    ensures
        candidate_list(vmss, nodes, criteria) == Seq::<NodeView>::empty(),
{
    let list = candidate_list(vmss, nodes, criteria);
    if list.len() > 0 {
        assert(list.contains(list[0]));
        lemma_candidates_are_the_eligible(vmss, nodes, criteria, list[0]);
        let at = choose|at: int| 0 <= at < nodes.len() && nodes[at] == list[0];
        assert(!eligible(vmss, nodes[at], criteria));
    }
    assert(list =~= Seq::empty());
}

/// In a descending list, no node has been ready for less than the last.
proof fn lemma_last_is_least(nodes: Seq<NodeView>, node: NodeView)
    requires
        descending(nodes),
        nodes.contains(node),
    ensures
        ready_rank(node) >= ready_rank(nodes.last()),
{
    let at = choose|at: int| 0 <= at < nodes.len() && nodes[at] == node;
    if at < nodes.len() - 1 {
        assert(ready_rank(nodes[at]) >= ready_rank(nodes[nodes.len() - 1]));
    }
}

/// Two descending lists that hold, rank for rank, the same nodes in the same
/// order are the same list.
proof fn lemma_same_ties_same_list(first: Seq<NodeView>, second: Seq<NodeView>)
    requires
        descending(first),
        descending(second),
        forall|rank: int| #[trigger] first.filter(has_rank(rank)) == second.filter(has_rank(rank)),
    ensures
        first == second,
    decreases first.len(),
{
    if first.len() == 0 {
        if second.len() > 0 {
            let rank = ready_rank(second[0]);
            second.lemma_filter_contains(has_rank(rank), 0);
            first.lemma_filter_len(has_rank(rank));
            assert(first.filter(has_rank(rank)) == second.filter(has_rank(rank)));
        }
        assert(first =~= second);
    } else {
        let x = first.last();
        let rank = ready_rank(x);
        let head = first.drop_last();
        assert(head.push(x) =~= first);
        head.lemma_filter_push(x, has_rank(rank));
        assert(first.filter(has_rank(rank)) == second.filter(has_rank(rank)));
        assert(second.filter(has_rank(rank)).len() > 0);
        second.lemma_filter_len(has_rank(rank));
        let y = second.last();
        let other = second.drop_last();
        assert(other.push(y) =~= second);
        // both lists end with a node of the least rank, which is the same in both
        assert(second.filter(has_rank(rank)).contains(x)) by {
            assert(first.filter(has_rank(rank)).last() == x);
        }
        second.lemma_filter_contains_rev(has_rank(rank), x);
        lemma_last_is_least(second, x);
        other.lemma_filter_push(y, has_rank(ready_rank(y)));
        assert(first.filter(has_rank(ready_rank(y))) == second.filter(has_rank(ready_rank(y))));
        assert(first.filter(has_rank(ready_rank(y))).contains(y)) by {
            assert(second.filter(has_rank(ready_rank(y))).last() == y);
        }
        first.lemma_filter_contains_rev(has_rank(ready_rank(y)), y);
        lemma_last_is_least(first, y);
        assert(ready_rank(y) == rank);
        assert(x == y) by {
            assert(first.filter(has_rank(rank)).last() == x);
            assert(second.filter(has_rank(rank)).last() == y);
        }
        assert forall|r: int| #[trigger] head.filter(has_rank(r)) == other.filter(has_rank(r)) by {
            head.lemma_filter_push(x, has_rank(r));
            other.lemma_filter_push(y, has_rank(r));
            assert(first.filter(has_rank(r)) == second.filter(has_rank(r)));
            if r == rank {
                assert(head.filter(has_rank(r)).push(x).drop_last() =~= head.filter(has_rank(r)));
                assert(other.filter(has_rank(r)).push(y).drop_last() =~= other.filter(has_rank(r)));
            }
        }
        assert(descending(head));
        assert(descending(other));
        lemma_same_ties_same_list(head, other);
    }
}

/// The order of preference is the only one that is descending and stable: a
/// list in which no node stands before one that has been ready for longer,
/// and which holds for each rank the nodes of the snapshot with that rank,
/// in the snapshot's order, is the list that `longest_ready_first` gives.
pub proof fn lemma_order_is_the_only_one(nodes: Seq<NodeView>, ordered: Seq<NodeView>)
    requires
        descending(ordered),
        forall|rank: int| #[trigger] ordered.filter(has_rank(rank)) == nodes.filter(has_rank(rank)),
    ensures
        ordered == longest_ready_first(nodes),
{
    lemma_order_is_descending(nodes);
    assert forall|rank: int| #[trigger]
        ordered.filter(has_rank(rank)) == longest_ready_first(nodes).filter(has_rank(rank)) by {
        lemma_order_keeps_ties(nodes, rank);
        assert(ordered.filter(has_rank(rank)) == nodes.filter(has_rank(rank)));
    }
    lemma_same_ties_same_list(ordered, longest_ready_first(nodes));
}

} // verus!
