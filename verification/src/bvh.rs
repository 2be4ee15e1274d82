//! The bounding-volume hierarchy.
//!
//! Building sorts the primitives by bounding-box centroid along a
//! round-robin axis and splits the list at its midpoint by count;
//! every build is proved to keep exactly the primitives it was given
//! (as a multiset), to give each leaf the box of its primitive, and to
//! give each internal node the union of its children's boxes — so the
//! root box is the union of all the primitives' boxes. Traversal
//! prunes a subtree when the slab test misses its box and otherwise
//! combines the children's hits, keeping the strictly nearer one.

use vstd::prelude::*;
use vstd::seq_lib::group_seq_properties;
use crate::vec3::{Vec3, in_range, PMAX, DIRMAX, ORIMAX};
use crate::ray::Ray;
use crate::bbox::{BoundingBox, slab_hit, min2, max2};
use crate::shapes::{Primitive, ShapeIntersection, prim_hit};
use crate::fixed::rdiv;

verus! {

broadcast use group_seq_properties, vstd::seq_lib::group_to_multiset_ensures;

pub enum Node {
    Member(Box<TreeNode>),
    Leaf(Box<TreeNode>),
    Empty,
}

pub struct TreeNode {
    pub left: Node,
    pub right: Node,
    pub shape: Option<Primitive>,
    pub bbox: BoundingBox,
}

/// Result of a tree query: the leaf that was hit and the hit distance.
pub enum NodeIntersection<'a> {
    Hit(&'a TreeNode, i64),
    Missed,
}

/// The primitives stored in the subtree, in left-to-right order.
pub open spec fn node_prims(n: Node) -> Seq<Primitive>
    decreases n,
{
    match n {
        Node::Empty => Seq::empty(),
        Node::Leaf(tn) => match tn.shape {
            Some(p) => seq![p],
            None => Seq::empty(),
        },
        Node::Member(tn) => node_prims(tn.left) + node_prims(tn.right),
    }
}

/// The box stored at the root of the subtree.
pub open spec fn node_bbox(n: Node) -> BoundingBox {
    match n {
        Node::Empty => BoundingBox {
            min: Vec3 { x: 0, y: 0, z: 0 },
            max: Vec3 { x: 0, y: 0, z: 0 },
        },
        Node::Leaf(tn) => tn.bbox,
        Node::Member(tn) => tn.bbox,
    }
}

/// The componentwise union of two boxes, as `BoundingBox::add`
/// computes it.
pub open spec fn union_spec(a: BoundingBox, b: BoundingBox) -> BoundingBox {
    BoundingBox {
        min: Vec3 {
            x: min2(a.min.x as int, b.min.x as int) as i64,
            y: min2(a.min.y as int, b.min.y as int) as i64,
            z: min2(a.min.z as int, b.min.z as int) as i64,
        },
        max: Vec3 {
            x: max2(a.max.x as int, b.max.x as int) as i64,
            y: max2(a.max.y as int, b.max.y as int) as i64,
            z: max2(a.max.z as int, b.max.z as int) as i64,
        },
    }
}

/// `inner` lies inside `outer`.
pub open spec fn box_le(inner: BoundingBox, outer: BoundingBox) -> bool {
    outer.min.x <= inner.min.x && outer.min.y <= inner.min.y && outer.min.z <= inner.min.z
        && inner.max.x <= outer.max.x && inner.max.y <= outer.max.y && inner.max.z <= outer.max.z
}

/// `bb` is exactly the union of the boxes of the primitives in `s`:
/// it contains each of them, and each of its six faces is attained.
pub open spec fn is_union_of(bb: BoundingBox, s: Seq<Primitive>) -> bool {
    &&& forall|i: int| 0 <= i < s.len() ==> box_le(#[trigger] s[i].bbox_spec(), bb)
    &&& exists|i: int| 0 <= i < s.len() && (#[trigger] s[i].bbox_spec()).min.x == bb.min.x
    &&& exists|i: int| 0 <= i < s.len() && (#[trigger] s[i].bbox_spec()).min.y == bb.min.y
    &&& exists|i: int| 0 <= i < s.len() && (#[trigger] s[i].bbox_spec()).min.z == bb.min.z
    &&& exists|i: int| 0 <= i < s.len() && (#[trigger] s[i].bbox_spec()).max.x == bb.max.x
    &&& exists|i: int| 0 <= i < s.len() && (#[trigger] s[i].bbox_spec()).max.y == bb.max.y
    &&& exists|i: int| 0 <= i < s.len() && (#[trigger] s[i].bbox_spec()).max.z == bb.max.z
}

/// Well-formed subtree: leaves hold exactly one well-formed primitive
/// and its box; internal nodes hold two non-empty children and the
/// union of their boxes.
pub open spec fn node_wf(n: Node) -> bool
    decreases n,
{
    match n {
        Node::Empty => true,
        Node::Leaf(tn) => {
            &&& tn.left is Empty
            &&& tn.right is Empty
            &&& tn.shape is Some
            &&& tn.shape.unwrap().wf()
            &&& tn.bbox == tn.shape.unwrap().bbox_spec()
        },
        Node::Member(tn) => {
            &&& tn.shape is None
            &&& !(tn.left is Empty)
            &&& !(tn.right is Empty)
            &&& node_wf(tn.left)
            &&& node_wf(tn.right)
            &&& tn.bbox == union_spec(node_bbox(tn.left), node_bbox(tn.right))
        },
    }
}

/// The traversal result: prune a subtree whose box the slab test
/// misses, intersect at leaves, and keep the strictly nearer of two
/// child hits (the right one on a tie).
pub open spec fn node_hit(n: Node, ray: Ray) -> Option<(Primitive, int)>
    decreases n,
{
    match n {
        Node::Empty => None,
        Node::Leaf(tn) => match tn.shape {
            Some(p) => match prim_hit(p, ray) {
                Some(t) => Some((p, t)),
                None => None,
            },
            None => None,
        },
        Node::Member(tn) => {
            if !slab_hit(tn.bbox, ray) {
                None
            } else {
                match (node_hit(tn.left, ray), node_hit(tn.right, ray)) {
                    (Some((p0, t0)), Some((p1, t1))) => if t0 < t1 {
                        Some((p0, t0))
                    } else {
                        Some((p1, t1))
                    },
                    (Some((p0, t0)), None) => Some((p0, t0)),
                    (None, Some((p1, t1))) => Some((p1, t1)),
                    (None, None) => None,
                }
            }
        },
    }
}

/// Non-decreasing centroid keys on `axis`.
pub open spec fn sorted_by_key(s: Seq<Primitive>, axis: u64) -> bool {
    forall|i: int, j: int| 0 <= i < j < s.len()
        ==> prim_key(#[trigger] s[i], axis) <= prim_key(#[trigger] s[j], axis)
}

/// The build arrangement at every level: each internal node splits a
/// centroid-sorted ordering of its primitives at the midpoint by
/// count, the left child holding the lower half and the right child
/// the upper, on the round-robin axis of its depth; children are
/// arranged one level deeper.
pub open spec fn arranged(n: Node, depth: nat) -> bool
    decreases n,
{
    match n {
        Node::Empty => true,
        Node::Leaf(_) => true,
        Node::Member(tn) => {
            &&& exists|sorted: Seq<Primitive>|
                #![trigger sorted.len()]
            {
                &&& sorted.to_multiset() == node_prims(n).to_multiset()
                &&& sorted_by_key(sorted, (depth % 3) as u64)
                &&& node_prims(tn.left).to_multiset()
                    == sorted.subrange(0, sorted.len() as int / 2).to_multiset()
                &&& node_prims(tn.right).to_multiset()
                    == sorted.subrange(sorted.len() as int / 2, sorted.len() as int).to_multiset()
            }
            &&& arranged(tn.left, depth + 1)
            &&& arranged(tn.right, depth + 1)
        },
    }
}

/// The sort key used on `axis` while building: the centroid coordinate
/// of the primitive's box.
pub open spec fn prim_key(p: Primitive, axis: u64) -> int {
    let bb = p.bbox_spec();
    if axis == 0 {
        rdiv(bb.min.x + bb.max.x, 2)
    } else if axis == 1 {
        rdiv(bb.min.y + bb.max.y, 2)
    } else {
        rdiv(bb.min.z + bb.max.z, 2)
    }
}

impl TreeNode {
    pub fn new() -> (n: TreeNode)
        ensures
            n.left is Empty,
            n.right is Empty,
            n.shape is None,
    {
        TreeNode {
            left: Node::Empty,
            right: Node::Empty,
            shape: None,
            bbox: BoundingBox::new(),
        }
    }

    /// An internal node over two subtrees, carrying the union of
    /// their boxes.
    pub fn init(left: Node, right: Node) -> (n: TreeNode)
        requires
            in_range(node_bbox(left).min, crate::bbox::BBMAX as int),
            in_range(node_bbox(left).max, crate::bbox::BBMAX as int),
            in_range(node_bbox(right).min, crate::bbox::BBMAX as int),
            in_range(node_bbox(right).max, crate::bbox::BBMAX as int),
        ensures
            n.shape is None,
            n.bbox == union_spec(node_bbox(left), node_bbox(right)),
            n.left == left,
            n.right == right,
    {
        let left_bbox = get_node_bbox(&left);
        let right_bbox = get_node_bbox(&right);

        let mut node = TreeNode::new();
        node.bbox = left_bbox.add(right_bbox);
        node.left = left;
        node.right = right;
        node
    }

    /// The primitive at a leaf; only leaves carry one.
    pub fn get_shape(&self) -> (p: &Primitive)
        requires
            self.shape is Some,
        ensures
            *p == self.shape.unwrap(),
    {
        match &self.shape {
            Some(shape) => shape,
            None => unreached(),
        }
    }
}

/// The centroid coordinate of a primitive's box on `axis`.
fn prim_key_exec(p: &Primitive, axis: u64) -> (k: i64)
    requires
        p.wf(),
        axis < 3,
    ensures
        k == prim_key(*p, axis),
{
    let bb = p.get_bbox();
    let c = bb.centroid();
    if axis == 0 {
        c.x
    } else if axis == 1 {
        c.y
    } else {
        c.z
    }
}

/// Stable selection sort on the centroid key: repeatedly move the
/// first minimal element over.
fn sort_by_axis(v: Vec<Primitive>, axis: u64) -> (r: Vec<Primitive>)
    requires
        axis < 3,
        forall|i: int| 0 <= i < v@.len() ==> (#[trigger] v@[i]).wf(),
    ensures
        r@.len() == v@.len(),
        r@.to_multiset() == v@.to_multiset(),
        forall|i: int| 0 <= i < r@.len() ==> (#[trigger] r@[i]).wf(),
        forall|i: int, j: int| 0 <= i < j < r@.len()
            ==> prim_key(#[trigger] r@[i], axis) <= prim_key(#[trigger] r@[j], axis),
        sorted_by_key(r@, axis),
{
    let mut src = v;
    let mut out: Vec<Primitive> = Vec::new();
    proof {
        assert(out@.to_multiset().add(src@.to_multiset()) =~= v@.to_multiset());
    }
    while src.len() > 0
        invariant
            axis < 3,
            out@.to_multiset().add(src@.to_multiset()) == v@.to_multiset(),
            out@.len() + src@.len() == v@.len(),
            forall|i: int| 0 <= i < src@.len() ==> (#[trigger] src@[i]).wf(),
            forall|i: int| 0 <= i < out@.len() ==> (#[trigger] out@[i]).wf(),
            forall|i: int, j: int| 0 <= i < j < out@.len()
                ==> prim_key(#[trigger] out@[i], axis) <= prim_key(#[trigger] out@[j], axis),
            forall|i: int, j: int| 0 <= i < out@.len() && 0 <= j < src@.len()
                ==> prim_key(#[trigger] out@[i], axis) <= prim_key(#[trigger] src@[j], axis),
        decreases src@.len(),
    {
        let mut best: usize = 0;
        let mut k: usize = 1;
        while k < src.len()
            invariant
                src@.len() > 0,
                0 <= best < src@.len(),
                1 <= k <= src@.len(),
                axis < 3,
                forall|i: int| 0 <= i < src@.len() ==> (#[trigger] src@[i]).wf(),
                forall|i: int| 0 <= i < k
                    ==> prim_key(src@[best as int], axis) <= prim_key(#[trigger] src@[i], axis),
            decreases src@.len() - k,
        {
            if prim_key_exec(&src[k], axis) < prim_key_exec(&src[best], axis) {
                best = k;
            }
            k += 1;
        }
        let picked = src.remove(best);
        proof {
            assert(src@.to_multiset().insert(picked) =~= old_multiset_with(src@, picked, best as int));
        }
        out.push(picked);
    }
    out
}

/// Helper naming the multiset of a sequence before `remove(at)` gave
/// back `picked`.
pub open spec fn old_multiset_with(
    s: Seq<Primitive>,
    picked: Primitive,
    at: int,
) -> vstd::multiset::Multiset<Primitive> {
    s.to_multiset().insert(picked)
}

/// Split a vector at `mid`, preserving order.
fn split_vec(v: Vec<Primitive>, mid: usize) -> (r: (Vec<Primitive>, Vec<Primitive>))
    requires
        mid <= v@.len(),
    ensures
        r.0@ == v@.subrange(0, mid as int),
        r.1@ == v@.subrange(mid as int, v@.len() as int),
{
    let mut left = v;
    let right = left.split_off(mid);
    (left, right)
}

/// Recursive build; see the module description.
fn build(shapes: Vec<Primitive>, depth: u64) -> (n: Node)
    requires
        forall|i: int| 0 <= i < shapes@.len() ==> (#[trigger] shapes@[i]).wf(),
        depth as int + shapes@.len() <= 0xffff_ffff_ffff_ffff,
    ensures
        node_wf(n),
        arranged(n, depth as nat),
        node_prims(n).to_multiset() == shapes@.to_multiset(),
        node_prims(n).len() == shapes@.len(),
        shapes@.len() == 0 <==> n is Empty,
        shapes@.len() == 1 ==> (n matches Node::Leaf(tn)
            && tn.shape == Some(shapes@[0]) && tn.bbox == shapes@[0].bbox_spec()),
        shapes@.len() >= 2 ==> n is Member,
        shapes@.len() >= 1 ==> is_union_of(node_bbox(n), node_prims(n)),
    decreases shapes@.len(),
{
    let ghost orig = shapes@;
    if shapes.len() == 0 {
        proof {
            assert(node_prims(Node::Empty).to_multiset() =~= shapes@.to_multiset());
        }
        Node::Empty
    } else if shapes.len() == 1 {
        let mut shapes = shapes;
        let p = shapes.pop().unwrap();
        let bb = p.get_bbox();
        let mut node = TreeNode::new();
        node.bbox = bb;
        node.shape = Some(p);
        let n = Node::Leaf(Box::new(node));
        proof {
            assert(node_prims(n) =~= seq![p]);
            assert(orig =~= shapes@.push(p));
            assert(seq![p] =~= shapes@.push(p));
            assert(node_prims(n).to_multiset() == orig.to_multiset());
            assert(is_union_of(bb, node_prims(n))) by {
                assert(node_prims(n)[0] == p);
            }
        }
        n
    } else {
        let axis = depth % 3;
        let sorted = sort_by_axis(shapes, axis);
        let ghost sorted_seq = sorted@;
        proof {
            lemma_multiset_wf_transfer(shapes@, sorted@);
        }
        let half = sorted.len() / 2;
        let (head, tail) = split_vec(sorted, half);
        proof {
            assert(head@ + tail@ =~= sorted_seq);
            vstd::seq_lib::lemma_multiset_commutative(head@, tail@);
            assert(forall|i: int| 0 <= i < head@.len() ==> (#[trigger] head@[i]).wf());
            assert(forall|i: int| 0 <= i < tail@.len() ==> (#[trigger] tail@[i]).wf());
        }
        let left = build(head, depth + 1);
        let right = build(tail, depth + 1);
        proof {
            lemma_node_bbox_in_range(left);
            lemma_node_bbox_in_range(right);
        }
        let lb = get_node_bbox(&left);
        let rb = get_node_bbox(&right);
        let mut node = TreeNode::new();
        node.bbox = lb.add(rb);
        let ghost lseq = node_prims(left);
        let ghost rseq = node_prims(right);
        node.left = left;
        node.right = right;
        let n = Node::Member(Box::new(node));
        proof {
            assert(node_prims(n) =~= lseq + rseq);
            vstd::seq_lib::lemma_multiset_commutative(lseq, rseq);
            assert(node_prims(n).to_multiset() == sorted_seq.to_multiset());
            assert(node_prims(n).to_multiset() == orig.to_multiset());
            lemma_union_of_concat(node_bbox(n), lseq, rseq, node_bbox((n->Member_0).left), node_bbox((n->Member_0).right));
            assert(arranged(n, depth as nat)) by {
                assert(sorted_seq.len() == 1 + ((sorted_seq.len() - 1) as nat));
                assert(sorted_seq.to_multiset() == node_prims(n).to_multiset());
                assert(sorted_by_key(sorted_seq, ((depth as nat) % 3) as u64));
                assert(node_prims((n->Member_0).left).to_multiset()
                    == sorted_seq.subrange(0, sorted_seq.len() as int / 2).to_multiset());
                assert(node_prims((n->Member_0).right).to_multiset()
                    == sorted_seq.subrange(sorted_seq.len() as int / 2, sorted_seq.len() as int).to_multiset());
            }
        }
        n
    }
}

/// The stored box of a node.
fn get_node_bbox(node: &Node) -> (b: BoundingBox)
    ensures
        b == node_bbox(*node),
{
    match node {
        Node::Member(n) => n.bbox,
        Node::Leaf(n) => n.bbox,
        Node::Empty => BoundingBox::new(),
    }
}

/// Well-formedness carries across a permutation.
proof fn lemma_multiset_wf_transfer(a: Seq<Primitive>, b: Seq<Primitive>)
    requires
        a.to_multiset() == b.to_multiset(),
        forall|i: int| 0 <= i < a.len() ==> (#[trigger] a[i]).wf(),
    ensures
        forall|i: int| 0 <= i < b.len() ==> (#[trigger] b[i]).wf(),
{
    assert forall|i: int| 0 <= i < b.len() implies (#[trigger] b[i]).wf() by {
        assert(b.to_multiset().count(b[i]) > 0);
        assert(a.to_multiset().count(b[i]) > 0);
        assert(a.contains(b[i]));
        let j = choose|j: int| 0 <= j < a.len() && a[j] == b[i];
        assert(a[j].wf());
    }
}

/// A union box over a concatenation, from union boxes over the parts.
#[verifier::rlimit(60)]
proof fn lemma_union_of_concat(
    bb: BoundingBox,
    l: Seq<Primitive>,
    r: Seq<Primitive>,
    lb: BoundingBox,
    rb: BoundingBox,
)
    requires
        l.len() >= 1,
        r.len() >= 1,
        is_union_of(lb, l),
        is_union_of(rb, r),
        bb == union_spec(lb, rb),
    ensures
        is_union_of(bb, l + r),
{
    let s = l + r;
    assert forall|i: int| 0 <= i < s.len() implies box_le(#[trigger] s[i].bbox_spec(), bb) by {
        if i < l.len() {
            assert(s[i] == l[i]);
        } else {
            assert(s[i] == r[i - l.len()]);
        }
    }
    assert(s.len() == l.len() + r.len());
    if lb.min.x <= rb.min.x {
        let i = choose|i: int| 0 <= i < l.len() && (#[trigger] l[i].bbox_spec()).min.x == lb.min.x;
        assert(s[i] == l[i]);
        assert(0 <= i < s.len() && s[i].bbox_spec().min.x == bb.min.x);
    } else {
        let i = choose|i: int| 0 <= i < r.len() && (#[trigger] r[i].bbox_spec()).min.x == rb.min.x;
        assert(s[l.len() + i] == r[i]);
        assert(0 <= l.len() + i < s.len() && s[l.len() + i].bbox_spec().min.x == bb.min.x);
    }
    if lb.min.y <= rb.min.y {
        let i = choose|i: int| 0 <= i < l.len() && (#[trigger] l[i].bbox_spec()).min.y == lb.min.y;
        assert(s[i] == l[i]);
        assert(0 <= i < s.len() && s[i].bbox_spec().min.y == bb.min.y);
    } else {
        let i = choose|i: int| 0 <= i < r.len() && (#[trigger] r[i].bbox_spec()).min.y == rb.min.y;
        assert(s[l.len() + i] == r[i]);
        assert(0 <= l.len() + i < s.len() && s[l.len() + i].bbox_spec().min.y == bb.min.y);
    }
    if lb.min.z <= rb.min.z {
        let i = choose|i: int| 0 <= i < l.len() && (#[trigger] l[i].bbox_spec()).min.z == lb.min.z;
        assert(s[i] == l[i]);
        assert(0 <= i < s.len() && s[i].bbox_spec().min.z == bb.min.z);
    } else {
        let i = choose|i: int| 0 <= i < r.len() && (#[trigger] r[i].bbox_spec()).min.z == rb.min.z;
        assert(s[l.len() + i] == r[i]);
        assert(0 <= l.len() + i < s.len() && s[l.len() + i].bbox_spec().min.z == bb.min.z);
    }
    if lb.max.x >= rb.max.x {
        let i = choose|i: int| 0 <= i < l.len() && (#[trigger] l[i].bbox_spec()).max.x == lb.max.x;
        assert(s[i] == l[i]);
        assert(0 <= i < s.len() && s[i].bbox_spec().max.x == bb.max.x);
    } else {
        let i = choose|i: int| 0 <= i < r.len() && (#[trigger] r[i].bbox_spec()).max.x == rb.max.x;
        assert(s[l.len() + i] == r[i]);
        assert(0 <= l.len() + i < s.len() && s[l.len() + i].bbox_spec().max.x == bb.max.x);
    }
    if lb.max.y >= rb.max.y {
        let i = choose|i: int| 0 <= i < l.len() && (#[trigger] l[i].bbox_spec()).max.y == lb.max.y;
        assert(s[i] == l[i]);
        assert(0 <= i < s.len() && s[i].bbox_spec().max.y == bb.max.y);
    } else {
        let i = choose|i: int| 0 <= i < r.len() && (#[trigger] r[i].bbox_spec()).max.y == rb.max.y;
        assert(s[l.len() + i] == r[i]);
        assert(0 <= l.len() + i < s.len() && s[l.len() + i].bbox_spec().max.y == bb.max.y);
    }
    if lb.max.z >= rb.max.z {
        let i = choose|i: int| 0 <= i < l.len() && (#[trigger] l[i].bbox_spec()).max.z == lb.max.z;
        assert(s[i] == l[i]);
        assert(0 <= i < s.len() && s[i].bbox_spec().max.z == bb.max.z);
    } else {
        let i = choose|i: int| 0 <= i < r.len() && (#[trigger] r[i].bbox_spec()).max.z == rb.max.z;
        assert(s[l.len() + i] == r[i]);
        assert(0 <= l.len() + i < s.len() && s[l.len() + i].bbox_spec().max.z == bb.max.z);
    }
}

pub struct Tree {
    pub root: Node,
}

impl Tree {
    pub fn new() -> (t: Tree)
        ensures
            t.root is Empty,
    {
        Tree { root: Node::Empty }
    }

    /// Build the hierarchy from the scene's primitives.
    pub fn init(&mut self, shapes: Vec<Primitive>)
        requires
            forall|i: int| 0 <= i < shapes@.len() ==> (#[trigger] shapes@[i]).wf(),
        ensures
            node_wf(final(self).root),
            arranged(final(self).root, 0),
            node_prims(final(self).root).to_multiset() == shapes@.to_multiset(),
            node_prims(final(self).root).len() == shapes@.len(),
            shapes@.len() == 0 <==> final(self).root is Empty,
            shapes@.len() == 1 ==> (final(self).root matches Node::Leaf(tn)
                && tn.shape == Some(shapes@[0]) && tn.bbox == shapes@[0].bbox_spec()),
            shapes@.len() >= 2 ==> final(self).root is Member,
            shapes@.len() >= 1
                ==> is_union_of(node_bbox(final(self).root), node_prims(final(self).root)),
    {
        let count = shapes.len();
        proof {
            assert(shapes@.len() == count as int);
        }
        let root = build(shapes, 0);
        self.root = root;
    }

    /// Query the hierarchy; see `node_hit`.
    pub fn intersects(&self, ray: &Ray) -> (r: NodeIntersection<'_>)
        requires
            node_wf(self.root),
            in_range(ray.ori, ORIMAX as int),
            in_range(ray.dir, DIRMAX as int),
        ensures
            match r {
                NodeIntersection::Hit(tn, t) => tn.shape is Some
                    && node_hit(self.root, *ray) == Some((tn.shape.unwrap(), t as int)),
                NodeIntersection::Missed => node_hit(self.root, *ray) is None,
            },
    {
        Tree::intersects_node(&self.root, ray)
    }

    fn intersects_node<'a>(node: &'a Node, ray: &Ray) -> (r: NodeIntersection<'a>)
        requires
            node_wf(*node),
            in_range(ray.ori, ORIMAX as int),
            in_range(ray.dir, DIRMAX as int),
        ensures
            match r {
                NodeIntersection::Hit(tn, t) => tn.shape is Some
                    && node_hit(*node, *ray) == Some((tn.shape.unwrap(), t as int)),
                NodeIntersection::Missed => node_hit(*node, *ray) is None,
            },
        decreases *node,
    {
        match node {
            Node::Empty => NodeIntersection::Missed,
            Node::Leaf(tn) => match &tn.shape {
                Some(shape) => match shape.intersects(ray) {
                    ShapeIntersection::Hit(p) => NodeIntersection::Hit(&**tn, p),
                    ShapeIntersection::Missed => NodeIntersection::Missed,
                },
                None => NodeIntersection::Missed,
            },
            Node::Member(tn) => {
                proof {
                    lemma_node_bbox_in_range(*node);
                }
                if tn.bbox.intersects(ray) {
                    let left = Tree::intersects_node(&tn.left, ray);
                    let right = Tree::intersects_node(&tn.right, ray);
                    match (left, right) {
                        (NodeIntersection::Hit(n0, p0), NodeIntersection::Hit(n1, p1)) => {
                            if p0 < p1 {
                                NodeIntersection::Hit(n0, p0)
                            } else {
                                NodeIntersection::Hit(n1, p1)
                            }
                        },
                        (NodeIntersection::Hit(n0, p0), NodeIntersection::Missed) => {
                            NodeIntersection::Hit(n0, p0)
                        },
                        (NodeIntersection::Missed, NodeIntersection::Hit(n1, p1)) => {
                            NodeIntersection::Hit(n1, p1)
                        },
                        (NodeIntersection::Missed, NodeIntersection::Missed) => {
                            NodeIntersection::Missed
                        },
                    }
                } else {
                    NodeIntersection::Missed
                }
            },
        }
    }
}

/// The slab test pruned no subtree that actually contains a hit: for
/// every internal node whose box the ray's slab test misses, every
/// primitive stored beneath it misses the ray. Rays that are not
/// tangent to any bounding plane satisfy this; it is the precise form
/// of the usual conservativeness of the slab test.
pub open spec fn prune_safe(n: Node, ray: Ray) -> bool
    decreases n,
{
    match n {
        Node::Empty => true,
        Node::Leaf(_) => true,
        Node::Member(tn) => {
            if slab_hit(tn.bbox, ray) {
                prune_safe(tn.left, ray) && prune_safe(tn.right, ray)
            } else {
                forall|i: int| 0 <= i < node_prims(n).len()
                    ==> prim_hit(#[trigger] node_prims(n)[i], ray) is None
            }
        },
    }
}

/// When no hit was pruned away, a missed traversal means every stored
/// primitive misses, and a hit's distance is minimal among the stored
/// primitives' hits.
pub proof fn lemma_node_hit_complete(n: Node, ray: Ray)
    requires
        node_wf(n),
        prune_safe(n, ray),
    ensures
        node_hit(n, ray) is None ==> forall|i: int| 0 <= i < node_prims(n).len()
            ==> prim_hit(#[trigger] node_prims(n)[i], ray) is None,
        match node_hit(n, ray) {
            Some((p, t)) => forall|i: int| 0 <= i < node_prims(n).len()
                && prim_hit(#[trigger] node_prims(n)[i], ray) is Some
                ==> prim_hit(node_prims(n)[i], ray).unwrap() >= t,
            None => true,
        },
    decreases n,
{
    match n {
        Node::Empty => {},
        Node::Leaf(tn) => {
            assert(node_prims(n)[0] == tn.shape.unwrap());
            assert(forall|i: int| 0 <= i < node_prims(n).len()
                ==> #[trigger] node_prims(n)[i] == tn.shape.unwrap());
        },
        Node::Member(tn) => {
            let l = node_prims(tn.left);
            let r = node_prims(tn.right);
            assert(forall|i: int| 0 <= i < l.len()
                ==> #[trigger] node_prims(n)[i] == l[i]);
            assert(forall|i: int| l.len() <= i < node_prims(n).len()
                ==> #[trigger] node_prims(n)[i] == r[i - l.len()]);
            if slab_hit(tn.bbox, ray) {
                lemma_node_hit_complete(tn.left, ray);
                lemma_node_hit_complete(tn.right, ray);
            }
        },
    }
}

/// Every primitive stored in a well-formed subtree is well formed.
pub proof fn lemma_node_wf_prims(n: Node)
    requires
        node_wf(n),
    ensures
        forall|i: int| 0 <= i < node_prims(n).len() ==> (#[trigger] node_prims(n)[i]).wf(),
    decreases n,
{
    match n {
        Node::Empty => {},
        Node::Leaf(tn) => {},
        Node::Member(tn) => {
            lemma_node_wf_prims(tn.left);
            lemma_node_wf_prims(tn.right);
            let l = node_prims(tn.left);
            let r = node_prims(tn.right);
            assert forall|i: int| 0 <= i < node_prims(n).len()
                implies (#[trigger] node_prims(n)[i]).wf() by {
                if i < l.len() {
                    assert(node_prims(n)[i] == l[i]);
                } else {
                    assert(node_prims(n)[i] == r[i - l.len()]);
                }
            }
        },
    }
}

/// A hit the traversal reports is a genuine hit of one of the stored
/// primitives, at that primitive's own hit distance.
pub proof fn lemma_node_hit_sound(n: Node, ray: Ray)
    requires
        node_wf(n),
    ensures
        match node_hit(n, ray) {
            Some((p, t)) => exists|i: int| 0 <= i < node_prims(n).len()
                && #[trigger] node_prims(n)[i] == p && prim_hit(p, ray) == Some(t),
            None => true,
        },
    decreases n,
{
    match n {
        Node::Empty => {},
        Node::Leaf(tn) => {
            if node_hit(n, ray) is Some {
                let p = tn.shape.unwrap();
                assert(node_prims(n)[0] == p);
            }
        },
        Node::Member(tn) => {
            lemma_node_hit_sound(tn.left, ray);
            lemma_node_hit_sound(tn.right, ray);
            let l = node_prims(tn.left);
            let r = node_prims(tn.right);
            match node_hit(n, ray) {
                Some((p, t)) => {
                    if node_hit(tn.left, ray) == Some((p, t)) {
                        let i = choose|i: int| 0 <= i < l.len()
                            && #[trigger] l[i] == p && prim_hit(p, ray) == Some(t);
                        assert(node_prims(n)[i] == p);
                    } else {
                        assert(node_hit(tn.right, ray) == Some((p, t)));
                        let i = choose|i: int| 0 <= i < r.len()
                            && #[trigger] r[i] == p && prim_hit(p, ray) == Some(t);
                        assert(node_prims(n)[l.len() + i] == p);
                    }
                },
                None => {},
            }
        },
    }
}

/// Boxes of well-formed subtrees stay within the slab test's bounds.
proof fn lemma_node_bbox_in_range(n: Node)
    requires
        node_wf(n),
        !(n is Empty),
    ensures
        in_range(node_bbox(n).min, crate::bbox::BBMAX as int),
        in_range(node_bbox(n).max, crate::bbox::BBMAX as int),
    decreases n,
{
    match n {
        Node::Empty => {},
        Node::Leaf(tn) => {
            lemma_prim_bbox_in_range(tn.shape.unwrap());
        },
        Node::Member(tn) => {
            lemma_node_bbox_in_range(tn.left);
            lemma_node_bbox_in_range(tn.right);
        },
    }
}

/// A well-formed primitive's box is within twice the coordinate bound.
proof fn lemma_prim_bbox_in_range(p: Primitive)
    requires
        p.wf(),
    ensures
        in_range(p.bbox_spec().min, 2 * PMAX as int),
        in_range(p.bbox_spec().max, 2 * PMAX as int),
{
}

} // verus!
