use vstd::prelude::*;
use vstd::multiset::Multiset;

use crate::aabb::{surrounding_box, Aabb};
use crate::random::random_int;

verus! {

/// A node of the hierarchy's arena: a leaf refers to one object by its index in
/// the scene's object list; an internal node to its two children by node index.
#[derive(Clone, Copy, Debug, PartialEq, Eq, Structural)]
pub enum BvhNode {
    Leaf { aabb: Aabb, object: usize },
    Internal { aabb: Aabb, left: usize, right: usize },
}

impl BvhNode {
    pub open spec fn spec_bbox(self) -> Aabb {
        match self {
            BvhNode::Leaf { aabb, .. } => aabb,
            BvhNode::Internal { aabb, .. } => aabb,
        }
    }

    /// The box that holds everything under this node.
    pub fn bbox(&self) -> (r: Aabb)
        ensures
            r == self.spec_bbox(),
    {
        match self {
            BvhNode::Leaf { aabb, .. } => *aabb,
            BvhNode::Internal { aabb, .. } => *aabb,
        }
    }
}

/// Why a hierarchy could not be built.
#[derive(Clone, Copy, Debug, PartialEq, Eq, Structural)]
pub enum BuildError {
    /// The object at `index` has no finite bounding box.
    MissingBoundingBox { index: usize },
}

/// Node `i` is sound: a leaf holds the box of its object, an internal node
/// refers to earlier nodes and holds the union of their boxes.
pub open spec fn node_wf(nodes: Seq<BvhNode>, i: int, boxes: Seq<Option<Aabb>>) -> bool {
    &&& node_shape(nodes, i, boxes.len())
    &&& match nodes[i] {
        BvhNode::Leaf { aabb, object } => boxes[object as int] == Some(aabb),
        BvhNode::Internal { aabb, left, right } => {
            aabb == nodes[left as int].spec_bbox().union(nodes[right as int].spec_bbox())
        },
    }
}

/// The shape of node `i` over a scene of `n` objects: a leaf names an object,
/// an internal node refers to earlier nodes, and no more than `n` leaves lie
/// under it.
pub open spec fn node_shape(nodes: Seq<BvhNode>, i: int, n: nat) -> bool {
    &&& subtree_objects(nodes, i).len() <= n
    &&& match nodes[i] {
        BvhNode::Leaf { object, .. } => object < n,
        BvhNode::Internal { left, right, .. } => left < i && right < i,
    }
}

pub open spec fn nodes_wf(nodes: Seq<BvhNode>, boxes: Seq<Option<Aabb>>) -> bool {
    forall|i: int| 0 <= i < nodes.len() ==> #[trigger] node_wf(nodes, i, boxes)
}

/// The objects at the leaves under node `i`, each as often as it occurs.
pub open spec fn subtree_objects(nodes: Seq<BvhNode>, i: int) -> Multiset<usize>
    decreases i,
{
    if 0 <= i < nodes.len() {
        match nodes[i] {
            BvhNode::Leaf { object, .. } => Multiset::singleton(object),
            BvhNode::Internal { left, right, .. } => {
                if left < i && right < i {
                    subtree_objects(nodes, left as int).add(subtree_objects(nodes, right as int))
                } else {
                    Multiset::empty()
                }
            },
        }
    } else {
        Multiset::empty()
    }
}

/// `n2` keeps the first `n1.len()` nodes of `n1`.
pub open spec fn extends(n1: Seq<BvhNode>, n2: Seq<BvhNode>) -> bool {
    &&& n1.len() <= n2.len()
    &&& forall|j: int| 0 <= j < n1.len() ==> n2[j] == n1[j]
}

proof fn lemma_extends_subtree(n1: Seq<BvhNode>, n2: Seq<BvhNode>, i: int)
    requires
        extends(n1, n2),
        0 <= i < n1.len(),
    ensures
        subtree_objects(n2, i) == subtree_objects(n1, i),
    decreases i,
{
    match n1[i] {
        BvhNode::Leaf { .. } => {},
        BvhNode::Internal { left, right, .. } => {
            if left < i && right < i {
                lemma_extends_subtree(n1, n2, left as int);
                lemma_extends_subtree(n1, n2, right as int);
            }
        },
    }
}

proof fn lemma_extends_wf(n1: Seq<BvhNode>, n2: Seq<BvhNode>, boxes: Seq<Option<Aabb>>)
    requires
        extends(n1, n2),
        nodes_wf(n1, boxes),
    ensures
        forall|i: int| 0 <= i < n1.len() ==> #[trigger] node_wf(n2, i, boxes),
        forall|i: int| 0 <= i < n1.len() ==> #[trigger] subtree_objects(n2, i) == subtree_objects(n1, i),
{
    assert forall|i: int| 0 <= i < n1.len() implies #[trigger] node_wf(n2, i, boxes) by {
        assert(node_wf(n1, i, boxes));
        lemma_extends_subtree(n1, n2, i);
    }
    assert forall|i: int| 0 <= i < n1.len() implies #[trigger] subtree_objects(n2, i) == subtree_objects(n1, i) by {
        lemma_extends_subtree(n1, n2, i);
    }
}

/// Reordering pairs keeps the multiset of their second components.
proof fn lemma_permuted_seconds(s: Seq<(i32, usize)>, t: Seq<(i32, usize)>)
    requires
        s.to_multiset() == t.to_multiset(),
    ensures
        s.map_values(|p: (i32, usize)| p.1).to_multiset() == t.map_values(|p: (i32, usize)| p.1).to_multiset(),
    decreases s.len(),
{
    broadcast use vstd::seq_lib::group_to_multiset_ensures;

    let f = |p: (i32, usize)| p.1;
    vstd::seq_lib::to_multiset_len(s);
    vstd::seq_lib::to_multiset_len(t);
    if s.len() == 0 {
        assert(t.len() == 0);
        assert(s.map_values(f) =~= Seq::empty());
        assert(t.map_values(f) =~= Seq::empty());
    } else {
        let x = s.last();
        let s0 = s.drop_last();
        assert(s =~= s0.push(x));
        assert(s.to_multiset().count(x) > 0);
        assert(t.contains(x));
        let j = choose|j: int| 0 <= j < t.len() && t[j] == x;
        let t0 = t.remove(j);
        assert(t.to_multiset() == t0.to_multiset().insert(x)) by {
            vstd::seq_lib::to_multiset_remove(t, j);
        }
        assert(s0.to_multiset() =~= t0.to_multiset());
        lemma_permuted_seconds(s0, t0);
        assert(s.map_values(f) =~= s0.map_values(f).push(x.1));
        assert(t0.map_values(f) =~= t.map_values(f).remove(j));
        vstd::seq_lib::to_multiset_remove(t.map_values(f), j);
        assert(t.map_values(f).to_multiset() =~= t0.map_values(f).to_multiset().insert(x.1));
    }
}

/// Relies on `slice::sort_unstable`: afterwards the pairs are a reordering of
/// what they were, in ascending order.
#[verifier::external_body]
fn sort_pairs(v: &mut Vec<(i32, usize)>)
    ensures
        final(v)@.to_multiset() == old(v)@.to_multiset(),
        forall|i: int, j: int| 0 <= i < j < final(v)@.len() ==> final(v)@[i].0 <= final(v)@[j].0,
{
    v.sort_unstable();
}

/// The indices `0..n`.
pub open spec fn indices(n: nat) -> Seq<usize> {
    Seq::new(n, |i: int| i as usize)
}

proof fn lemma_indices_count(n: nat, o: usize)
    requires
        n <= usize::MAX + 1,
    ensures
        indices(n).to_multiset().count(o) == if (o as int) < n { 1nat } else { 0nat },
    decreases n,
{
    broadcast use vstd::seq_lib::group_to_multiset_ensures;

    if n > 0 {
        let m = (n - 1) as nat;
        assert(indices(n) =~= indices(m).push((n - 1) as usize));
        lemma_indices_count(m, o);
    } else {
        assert(indices(n) =~= Seq::<usize>::empty());
    }
}

fn new_leaf(nodes: &mut Vec<BvhNode>, boxes: &Vec<Option<Aabb>>, object: usize) -> (id: usize)
    requires
        object < boxes@.len(),
        boxes@[object as int].is_some(),
        nodes_wf(old(nodes)@, boxes@),
    ensures
        id == old(nodes)@.len(),
        final(nodes)@.len() == old(nodes)@.len() + 1,
        extends(old(nodes)@, final(nodes)@),
        nodes_wf(final(nodes)@, boxes@),
        subtree_objects(final(nodes)@, id as int) == Multiset::singleton(object),
{
    let aabb = boxes[object].unwrap();
    let id = nodes.len();
    proof {
        let n1 = nodes@;
        let n2 = n1.push(BvhNode::Leaf { aabb, object });
        lemma_extends_wf(n1, n2, boxes@);
        assert(node_wf(n2, id as int, boxes@));
    }
    nodes.push(BvhNode::Leaf { aabb, object });
    id
}

fn new_node(nodes: &mut Vec<BvhNode>, boxes: &Vec<Option<Aabb>>, left: usize, right: usize) -> (id: usize)
    requires
        left < old(nodes)@.len(),
        right < old(nodes)@.len(),
        nodes_wf(old(nodes)@, boxes@),
        subtree_objects(old(nodes)@, left as int).len() + subtree_objects(old(nodes)@, right as int).len()
            <= boxes@.len(),
    ensures
        id == old(nodes)@.len(),
        final(nodes)@.len() == old(nodes)@.len() + 1,
        extends(old(nodes)@, final(nodes)@),
        nodes_wf(final(nodes)@, boxes@),
        subtree_objects(final(nodes)@, id as int) == subtree_objects(
            old(nodes)@,
            left as int,
        ).add(subtree_objects(old(nodes)@, right as int)),
{
    let aabb = surrounding_box(&nodes[left].bbox(), &nodes[right].bbox());
    let id = nodes.len();
    proof {
        let n1 = nodes@;
        let n2 = n1.push(BvhNode::Internal { aabb, left, right });
        lemma_extends_wf(n1, n2, boxes@);
        assert(subtree_objects(n2, id as int) == subtree_objects(n2, left as int).add(
            subtree_objects(n2, right as int),
        ));
        assert(subtree_objects(n2, left as int) == subtree_objects(n1, left as int));
        assert(subtree_objects(n2, right as int) == subtree_objects(n1, right as int));
        assert(node_wf(n2, id as int, boxes@));
    }
    nodes.push(BvhNode::Internal { aabb, left, right });
    id
}

/// Builds the subtree over `items` (object indices): draws a split axis,
/// orders the objects by the low corner of their boxes on it, and halves.
fn build(nodes: &mut Vec<BvhNode>, boxes: &Vec<Option<Aabb>>, items: Vec<usize>) -> (id: usize)
    requires
        items@.len() >= 1,
        items@.len() <= boxes@.len(),
        forall|j: int|
            0 <= j < items@.len() ==> items@[j] < boxes@.len() && (#[trigger] boxes@[items@[j] as int]).is_some(),
        nodes_wf(old(nodes)@, boxes@),
    ensures
        old(nodes)@.len() <= id < final(nodes)@.len(),
        final(nodes)@.len() == old(nodes)@.len() + 2 * items@.len() - 1,
        extends(old(nodes)@, final(nodes)@),
        nodes_wf(final(nodes)@, boxes@),
        subtree_objects(final(nodes)@, id as int) == items@.to_multiset(),
    decreases items@.len(),
{
    if items.len() == 1 {
        let id = new_leaf(nodes, boxes, items[0]);
        proof {
            broadcast use vstd::seq_lib::group_to_multiset_ensures;
            assert(items@ =~= Seq::<usize>::empty().push(items@[0]));
            assert(items@.to_multiset() =~= Multiset::singleton(items@[0]));
        }
        return id;
    }
    let axis = random_int(0, 3) as usize;
    let mut keyed: Vec<(i32, usize)> = Vec::new();
    let mut i: usize = 0;
    while i < items.len()
        invariant
            i <= items@.len(),
            axis < 3,
            keyed@.len() == i,
            forall|j: int| 0 <= j < items@.len() ==> items@[j] < boxes@.len() && (#[trigger] boxes@[items@[j] as int]).is_some(),
            forall|j: int| 0 <= j < i ==> (#[trigger] keyed@[j]).1 == items@[j],
        decreases items@.len() - i,
    {
        let object = items[i];
        assert(boxes@[items@[i as int] as int].is_some());
        let key = boxes[object].unwrap().min.get(axis);
        keyed.push((key, object));
        i = i + 1;
    }
    let ghost unsorted = keyed@;
    sort_pairs(&mut keyed);
    proof {
        lemma_permuted_seconds(keyed@, unsorted);
        assert(unsorted.map_values(|p: (i32, usize)| p.1) =~= items@);
    }
    let mut order: Vec<usize> = Vec::new();
    let mut i: usize = 0;
    while i < keyed.len()
        invariant
            i <= keyed@.len(),
            order@ =~= keyed@.map_values(|p: (i32, usize)| p.1).subrange(0, i as int),
        decreases keyed@.len() - i,
    {
        order.push(keyed[i].1);
        i = i + 1;
    }
    proof {
        assert(order@ =~= keyed@.map_values(|p: (i32, usize)| p.1));
        assert(order@.to_multiset() == items@.to_multiset());
        vstd::seq_lib::to_multiset_len(order@);
        vstd::seq_lib::to_multiset_len(items@);
        assert forall|j: int| 0 <= j < order@.len() implies order@[j] < boxes@.len()
            && (#[trigger] boxes@[order@[j] as int]).is_some() by {
            vstd::seq_lib::to_multiset_contains(order@, order@[j]);
            vstd::seq_lib::to_multiset_contains(items@, order@[j]);
        }
    }
    let half = order.len() / 2;
    let ghost whole = order@;
    let right_items = order.split_off(half);
    proof {
        assert(whole =~= order@ + right_items@);
        vstd::seq_lib::lemma_multiset_commutative(order@, right_items@);
    }
    let left = build(nodes, boxes, order);
    let ghost n1 = nodes@;
    let right = build(nodes, boxes, right_items);
    let ghost n2 = nodes@;
    proof {
        lemma_extends_subtree(n1, n2, left as int);
        vstd::seq_lib::to_multiset_len(order@);
        vstd::seq_lib::to_multiset_len(right_items@);
    }
    let id = new_node(nodes, boxes, left, right);
    id
}

/// Every call of `object_hit` on one object gives the same answer.
pub open spec fn deterministic<T, O: Fn(usize) -> Option<(i32, T)>>(object_hit: O) -> bool {
    forall|o: usize, r1: Option<(i32, T)>, r2: Option<(i32, T)>|
        call_ensures(object_hit, (o,), r1) && call_ensures(object_hit, (o,), r2) ==> r1 == r2
}

/// The box test of a node passes whenever some object under that node is hit:
/// what the slab test guarantees of boxes that enclose their contents.
pub open spec fn conservative<T, B: Fn(usize) -> bool, O: Fn(usize) -> Option<(i32, T)>>(
    nodes: Seq<BvhNode>,
    box_hit: B,
    object_hit: O,
) -> bool {
    forall|n: usize, b: bool, o: usize, h: (i32, T)|
        n < nodes.len() && #[trigger] call_ensures(box_hit, (n,), b) && #[trigger] subtree_objects(
            nodes,
            n as int,
        ).contains(o) && #[trigger] call_ensures(object_hit, (o,), Some(h)) ==> b
}

/// `r` is the outcome of a search for the nearest hit among `objects`: a hit
/// that one of them reports, nearer than or as near as every hit that any of
/// them reports (the latter when box tests are conservative and object tests
/// deterministic).
pub open spec fn nearest_among<T, B: Fn(usize) -> bool, O: Fn(usize) -> Option<(i32, T)>>(
    nodes: Seq<BvhNode>,
    objects: Multiset<usize>,
    box_hit: B,
    object_hit: O,
    r: Option<(i32, T)>,
) -> bool {
    &&& (r matches Some(h) ==> exists|o: usize| objects.contains(o) && call_ensures(object_hit, (o,), Some(h)))
    &&& (conservative(nodes, box_hit, object_hit) && deterministic(object_hit) ==> forall|o: usize, h: (i32, T)|
        objects.contains(o) && #[trigger] call_ensures(object_hit, (o,), Some(h)) ==> (r matches Some(g) && g.0 <= h.0))
}

/// A bounding-volume hierarchy over a scene's objects, its nodes in an arena.
pub struct BvhTree {
    nodes: Vec<BvhNode>,
    root: usize,
    objects_len: usize,
}

impl BvhTree {
    #[verifier::type_invariant]
    closed spec fn inv(self) -> bool {
        &&& self.nodes@.len() > 0 ==> self.root < self.nodes@.len()
        &&& forall|i: int| 0 <= i < self.nodes@.len() ==> #[trigger] node_shape(self.nodes@, i, self.objects_len as nat)
    }

    /// The number of objects of the scene the tree was built over.
    pub closed spec fn spec_objects_len(self) -> nat {
        self.objects_len as nat
    }

    pub closed spec fn spec_nodes(self) -> Seq<BvhNode> {
        self.nodes@
    }

    pub closed spec fn spec_root(self) -> int {
        self.root as int
    }

    /// Every node is sound over the objects' `boxes`, and the root is a node.
    pub open spec fn wf(self, boxes: Seq<Option<Aabb>>) -> bool {
        &&& nodes_wf(self.spec_nodes(), boxes)
        &&& boxes.len() > 0 ==> 0 <= self.spec_root() < self.spec_nodes().len()
        &&& self.spec_objects_len() == boxes.len()
    }

    /// The objects at the tree's leaves, each as often as it occurs (none in a
    /// tree without nodes).
    pub open spec fn objects(self) -> Multiset<usize> {
        subtree_objects(self.spec_nodes(), self.spec_root())
    }

    /// Builds the hierarchy over a scene whose object `i` has bounding box
    /// `boxes[i]` (`None`: unbounded). Every object stands at exactly one leaf;
    /// a scene without objects gives a tree without nodes, which every ray misses.
    pub fn new(boxes: &Vec<Option<Aabb>>) -> (r: Result<BvhTree, BuildError>)
        ensures
            forall|index: usize|
                r == Err::<BvhTree, BuildError>(BuildError::MissingBoundingBox { index }) <==> {
                    &&& index < boxes@.len()
                    &&& boxes@[index as int].is_none()
                    &&& forall|j: int| 0 <= j < index ==> boxes@[j].is_some()
                },
            r.is_ok() <==> forall|j: int| 0 <= j < boxes@.len() ==> boxes@[j].is_some(),
            boxes@.len() == 0 ==> (r matches Ok(tree) && tree.spec_nodes().len() == 0 && tree.objects() =~= Multiset::empty()),
            r matches Ok(tree) ==> {
                &&& tree.wf(boxes@)
                &&& tree.spec_nodes().len() == if boxes@.len() == 0 { 0 } else { 2 * boxes@.len() - 1 }
                &&& forall|o: usize| #[trigger] tree.objects().count(o) == if o < boxes@.len() { 1nat } else { 0nat }
            },
    {
        let mut items: Vec<usize> = Vec::new();
        let mut i: usize = 0;
        while i < boxes.len()
            invariant
                i <= boxes@.len(),
                items@ =~= indices(i as nat),
                forall|j: int| 0 <= j < i ==> boxes@[j].is_some(),
            decreases boxes@.len() - i,
        {
            if boxes[i].is_none() {
                return Err(BuildError::MissingBoundingBox { index: i });
            }
            items.push(i);
            i = i + 1;
        }
        let mut nodes: Vec<BvhNode> = Vec::new();
        if boxes.len() == 0 {
            let tree = BvhTree { nodes, root: 0, objects_len: 0 };
            assert(tree.objects() =~= Multiset::empty());
            return Ok(tree);
        }
        let root = build(&mut nodes, boxes, items);
        proof {
            assert forall|i: int| 0 <= i < nodes@.len() implies #[trigger] node_shape(nodes@, i, boxes@.len()) by {
                assert(node_wf(nodes@, i, boxes@));
            }
        }
        let tree = BvhTree { nodes, root, objects_len: boxes.len() };
        proof {
            assert forall|o: usize| #[trigger] tree.objects().count(o) == if o < boxes@.len() { 1nat } else { 0nat } by {
                lemma_indices_count(boxes@.len(), o);
            }
        }
        Ok(tree)
    }

    /// The nearest hit under node `id`. `box_hit(n)` tests the ray against the box
    /// of node `n`; `object_hit(o)` intersects it with object `o`, giving the
    /// distance as an order key with the hit record. Of two equally near hits
    /// the one of the second child is kept.
    ///
    /// Without any assumption on the tests: a hit is reported only when the box
    /// test of `id` passed (so a rejected box gives `None`), and at a leaf the
    /// result is `None` on a rejected box and otherwise exactly what
    /// `object_hit` gave for its object.
    pub fn intersects_id<T, B: Fn(usize) -> bool, O: Fn(usize) -> Option<(i32, T)>>(
        &self,
        id: usize,
        box_hit: &B,
        object_hit: &O,
    ) -> (r: Option<(i32, T)>)
        requires
            id < self.spec_nodes().len(),
            forall|n: usize| call_requires(*box_hit, (n,)),
            forall|o: usize| call_requires(*object_hit, (o,)),
        ensures
            r.is_some() ==> call_ensures(*box_hit, (id,), true),
            self.spec_nodes()[id as int] matches BvhNode::Leaf { object, .. } ==> {
                ||| (r.is_none() && call_ensures(*box_hit, (id,), false))
                ||| (call_ensures(*box_hit, (id,), true) && call_ensures(*object_hit, (object,), r))
            },
            nearest_among(self.spec_nodes(), subtree_objects(self.spec_nodes(), id as int), *box_hit, *object_hit, r),
        decreases id,
    {
        proof {
            use_type_invariant(self);
            assert(node_shape(self.nodes@, id as int, self.objects_len as nat));
        }
        let ghost nodes = self.nodes@;
        let hit_box = box_hit(id);
        if !hit_box {
            proof {
                if conservative(nodes, *box_hit, *object_hit) {
                    assert forall|o: usize, h: (i32, T)|
                        subtree_objects(nodes, id as int).contains(o) && #[trigger] call_ensures(
                            *object_hit,
                            (o,),
                            Some(h),
                        ) implies false by {
                        assert(call_ensures(*box_hit, (id,), hit_box));
                    }
                }
            }
            return None;
        }
        match self.nodes[id] {
            BvhNode::Leaf { object, .. } => {
                let r = object_hit(object);
                let ghost gr = r;
                proof {
                    assert(subtree_objects(nodes, id as int) == Multiset::singleton(object));
                    assert(subtree_objects(nodes, id as int).contains(object));
                    match gr {
                        Some(h) => {
                            assert(call_ensures(*object_hit, (object,), Some(h)));
                        },
                        None => {},
                    }
                }
                r
            },
            BvhNode::Internal { left, right, .. } => {
                let hit_left = self.intersects_id(left, box_hit, object_hit);
                let hit_right = self.intersects_id(right, box_hit, object_hit);
                let ghost gl = hit_left;
                let ghost gr = hit_right;
                let ghost sub = subtree_objects(nodes, id as int);
                let ghost sl = subtree_objects(nodes, left as int);
                let ghost sr = subtree_objects(nodes, right as int);
                proof {
                    assert(sub == sl.add(sr));
                    assert forall|o: usize| sl.contains(o) || sr.contains(o) implies #[trigger] sub.contains(o) by {}
                    assert forall|o: usize| #[trigger] sub.contains(o) implies sl.contains(o) || sr.contains(o) by {}
                }
                let res = match (hit_left, hit_right) {
                    (None, None) => None,
                    (None, hit) => hit,
                    (hit, None) => hit,
                    (Some(l), Some(r)) => {
                        if l.0 < r.0 {
                            Some(l)
                        } else {
                            Some(r)
                        }
                    },
                };
                proof {
                    assert(res == gl || res == gr);
                    assert(gl matches Some(g) ==> (res matches Some(q) && q.0 <= g.0));
                    assert(gr matches Some(g) ==> (res matches Some(q) && q.0 <= g.0));
                    let gres = res;
                    match gres {
                        None => {},
                        Some(h) => {
                            if gres == gl {
                                let o = choose|o: usize| sl.contains(o) && call_ensures(*object_hit, (o,), Some(h));
                                assert(sub.contains(o));
                            } else {
                                let o = choose|o: usize| sr.contains(o) && call_ensures(*object_hit, (o,), Some(h));
                                assert(sub.contains(o));
                            }
                        },
                    }
                }
                res
            },
        }
    }

    /// The nearest hit in the whole tree: by the contract of `intersects_id`,
    /// what a linear search over every object of the scene reports.
    pub fn hit<T, B: Fn(usize) -> bool, O: Fn(usize) -> Option<(i32, T)>>(
        &self,
        box_hit: &B,
        object_hit: &O,
    ) -> (r: Option<(i32, T)>)
        requires
            forall|n: usize| call_requires(*box_hit, (n,)),
            forall|o: usize| call_requires(*object_hit, (o,)),
        ensures
            nearest_among(self.spec_nodes(), self.objects(), *box_hit, *object_hit, r),
    {
        proof {
            use_type_invariant(self);
        }
        if self.nodes.len() == 0 {
            return None;
        }
        self.intersects_id(self.root, box_hit, object_hit)
    }

    /// The number of objects at the leaves under node `id`.
    pub fn number_hittables(&self, id: usize) -> (r: usize)
        requires
            id < self.spec_nodes().len(),
        ensures
            r == subtree_objects(self.spec_nodes(), id as int).len(),
        decreases id,
    {
        proof {
            use_type_invariant(self);
            assert(node_shape(self.nodes@, id as int, self.objects_len as nat));
        }
        match self.nodes[id] {
            BvhNode::Leaf { .. } => 1,
            BvhNode::Internal { left, right, .. } => {
                let count_left = self.number_hittables(left);
                let count_right = self.number_hittables(right);
                count_left + count_right
            },
        }
    }

    /// The number of nodes in the arena.
    pub fn node_count(&self) -> (r: usize)
        ensures
            r == self.spec_nodes().len(),
    {
        self.nodes.len()
    }

    /// The box of node `id`, or `None` past the last node.
    pub fn node_box(&self, id: usize) -> (r: Option<Aabb>)
        ensures
            id < self.spec_nodes().len() ==> r == Some(self.spec_nodes()[id as int].spec_bbox()),
            id >= self.spec_nodes().len() ==> r.is_none(),
    {
        if id < self.nodes.len() {
            Some(self.nodes[id].bbox())
        } else {
            None
        }
    }

    /// The index of the root node; `None` for a tree without nodes.
    pub fn root(&self) -> (r: Option<usize>)
        ensures
            self.spec_nodes().len() == 0 <==> r.is_none(),
            r matches Some(id) ==> id == self.spec_root() && id < self.spec_nodes().len(),
    {
        proof {
            use_type_invariant(self);
        }
        if self.nodes.len() == 0 {
            None
        } else {
            Some(self.root)
        }
    }

    /// The box that holds every object of the tree: that of the root; `None`
    /// for a tree without nodes.
    pub fn bounding_box(&self) -> (r: Option<Aabb>)
        ensures
            self.spec_nodes().len() == 0 <==> r.is_none(),
            r matches Some(b) ==> b == self.spec_nodes()[self.spec_root()].spec_bbox(),
    {
        proof {
            use_type_invariant(self);
        }
        if self.nodes.len() == 0 {
            None
        } else {
            Some(self.nodes[self.root].bbox())
        }
    }
}

/// The hierarchy answers as a linear search over the scene does. For a tree
/// built over `boxes`, and an answer `r` of `hit`: when box tests pass for every
/// node over a hit object and object tests are repeatable, every hit that some
/// object of the scene reports is matched or beaten by `r`, and `r` is itself
/// reported by an object of the scene.
pub proof fn lemma_hit_matches_linear_search<T, B: Fn(usize) -> bool, O: Fn(usize) -> Option<(i32, T)>>(
    tree: BvhTree,
    boxes: Seq<Option<Aabb>>,
    box_hit: B,
    object_hit: O,
    r: Option<(i32, T)>,
)
    requires
        forall|o: usize| #[trigger] tree.objects().count(o) == if o < boxes.len() { 1nat } else { 0nat },
        nearest_among(tree.spec_nodes(), tree.objects(), box_hit, object_hit, r),
    ensures
        r matches Some(g) ==> exists|o: usize| o < boxes.len() && call_ensures(object_hit, (o,), Some(g)),
        conservative(tree.spec_nodes(), box_hit, object_hit) && deterministic(object_hit) ==> forall|o: usize, h: (i32, T)|
            o < boxes.len() && #[trigger] call_ensures(object_hit, (o,), Some(h)) ==> (r matches Some(g) && g.0 <= h.0),
{
    assert forall|o: usize| #[trigger] tree.objects().contains(o) <==> o < boxes.len() by {
        assert(tree.objects().count(o) == if o < boxes.len() { 1nat } else { 0nat });
    }
    if conservative(tree.spec_nodes(), box_hit, object_hit) && deterministic(object_hit) {
        assert forall|o: usize, h: (i32, T)|
            o < boxes.len() && #[trigger] call_ensures(object_hit, (o,), Some(h)) implies (r matches Some(g) && g.0 <= h.0) by {
            assert(tree.objects().contains(o));
        }
    }
}

/// The box of every node encloses the box of every object under it: a ray that
/// misses a node's box misses all of that node's objects.
pub proof fn lemma_node_encloses_objects(nodes: Seq<BvhNode>, boxes: Seq<Option<Aabb>>, i: int, o: usize)
    requires
        nodes_wf(nodes, boxes),
        0 <= i < nodes.len(),
        subtree_objects(nodes, i).contains(o),
    ensures
        o < boxes.len(),
        boxes[o as int] matches Some(b) && nodes[i].spec_bbox().encloses(b),
    decreases i,
{
    assert(node_wf(nodes, i, boxes));
    match nodes[i] {
        BvhNode::Leaf { object, .. } => {
            assert(subtree_objects(nodes, i) == Multiset::singleton(object));
        },
        BvhNode::Internal { left, right, .. } => {
            assert(subtree_objects(nodes, i) == subtree_objects(nodes, left as int).add(
                subtree_objects(nodes, right as int),
            ));
            if subtree_objects(nodes, left as int).contains(o) {
                lemma_node_encloses_objects(nodes, boxes, left as int, o);
            } else {
                lemma_node_encloses_objects(nodes, boxes, right as int, o);
            }
        },
    }
}

} // verus!
