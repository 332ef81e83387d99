use vstd::prelude::*;

use crate::body::Body;
use crate::bound::{
    Bound, MAX_UNIT, lemma_child_wf, lemma_distinct_points_room, lemma_quadrant_covers,
};
use crate::lemmas::{lemma_body_moment, lemma_cluster_with, lemma_inserted, lemma_moments};
use crate::vec_2d::Vec2D;

verus! {

/// Total mass and first moments of a group of bodies: a virtual body whose
/// position is the group's centre of mass, `moment / mass`.
#[derive(Clone, Copy, Debug, PartialEq, Eq, Structural)]
pub struct Cluster {
    pub mass: u64,
    pub moment_x: i128,
    pub moment_y: i128,
}

impl Cluster {
    /// The summary after folding `b` into it.
    pub open spec fn with(self, b: Body) -> Cluster {
        Cluster {
            mass: (self.mass + b.mass) as u64,
            moment_x: (self.moment_x + b.mass * b.position.x) as i128,
            moment_y: (self.moment_y + b.mass * b.position.y) as i128,
        }
    }

    /// The summary of no body.
    pub open spec fn empty() -> Cluster {
        Cluster { mass: 0, moment_x: 0, moment_y: 0 }
    }
}

/// What a node of a [`QuadTree`] holds.
#[derive(Debug)]
pub enum Node {
    /// No body.
    Empty,
    /// Exactly one body (bodies at one position are merged into one).
    External(Body),
    /// A subdivided region: the summary of every body below it and the four
    /// quadrants NW, NE, SW, SE.
    Internal {
        cluster: Cluster,
        nw: Box<QuadTree>,
        ne: Box<QuadTree>,
        sw: Box<QuadTree>,
        se: Box<QuadTree>,
    },
}

/// A Barnes–Hut quadtree over a rectangular region.
#[derive(Debug)]
pub struct QuadTree {
    pub boundary: Bound,
    pub node: Node,
}

/// An internal node over `bd` with an empty cluster and four empty quadrants.
pub open spec fn split_tree(bd: Bound) -> QuadTree {
    QuadTree {
        boundary: bd,
        node: Node::Internal {
            cluster: Cluster::empty(),
            nw: Box::new(empty_tree(bd.child(0))),
            ne: Box::new(empty_tree(bd.child(1))),
            sw: Box::new(empty_tree(bd.child(2))),
            se: Box::new(empty_tree(bd.child(3))),
        },
    }
}

/// A leaf holding `b` over `bd`.
pub open spec fn leaf(bd: Bound, b: Body) -> QuadTree {
    QuadTree { boundary: bd, node: Node::External(b) }
}

/// An empty tree over `bd`.
pub open spec fn empty_tree(bd: Bound) -> QuadTree {
    QuadTree { boundary: bd, node: Node::Empty }
}

/// The child `i` of the tree that holds exactly the two bodies `o` and `b`
/// (at different positions) over `bd`.
pub open spec fn pair_child(bd: Bound, o: Body, b: Body, i: int) -> QuadTree
    decreases MAX_UNIT - bd.unit, 0int,
{
    let qo = bd.quadrant(o.position);
    let qb = bd.quadrant(b.position);
    if i == qo && i == qb {
        if bd.unit < 1 || 2 * bd.unit > MAX_UNIT {
            empty_tree(bd.child(i))
        } else {
            pair_tree(bd.child(i), o, b)
        }
    } else if i == qo {
        leaf(bd.child(i), o)
    } else if i == qb {
        leaf(bd.child(i), b)
    } else {
        empty_tree(bd.child(i))
    }
}

/// The tree over `bd` that holds exactly the two bodies `o` and `b`, at
/// different positions: it is subdivided until they part. (The test on
/// `unit` only bounds the recursion: two different points in one cell of a
/// well-formed bound always leave room to subdivide.)
pub open spec fn pair_tree(bd: Bound, o: Body, b: Body) -> QuadTree
    decreases MAX_UNIT - bd.unit, 1int,
{
    if bd.unit < 1 || 2 * bd.unit > MAX_UNIT {
        leaf(bd, o)
    } else {
        QuadTree {
            boundary: bd,
            node: Node::Internal {
                cluster: Cluster::empty().with(o).with(b),
                nw: Box::new(pair_child(bd, o, b, 0)),
                ne: Box::new(pair_child(bd, o, b, 1)),
                sw: Box::new(pair_child(bd, o, b, 2)),
                se: Box::new(pair_child(bd, o, b, 3)),
            },
        }
    }
}

/// An internal node taken apart on the way down an insertion: its boundary,
/// its updated cluster, the quadrant the insertion went on into, and its four
/// quadrants (that one replaced when the node is put back together).
struct Frame {
    boundary: Bound,
    cluster: Cluster,
    quadrant: u8,
    nw: Box<QuadTree>,
    ne: Box<QuadTree>,
    sw: Box<QuadTree>,
    se: Box<QuadTree>,
}

impl Frame {
    /// The node, with `t` in the quadrant that the insertion went on into.
    spec fn fill(self, t: QuadTree) -> QuadTree {
        let q = self.quadrant;
        QuadTree {
            boundary: self.boundary,
            node: Node::Internal {
                cluster: self.cluster,
                nw: if q == 0 { Box::new(t) } else { self.nw },
                ne: if q == 1 { Box::new(t) } else { self.ne },
                sw: if q == 2 { Box::new(t) } else { self.sw },
                se: if q >= 3 { Box::new(t) } else { self.se },
            },
        }
    }

    /// Puts the node back together around `t`.
    fn assemble(self, t: QuadTree) -> (r: QuadTree)
        ensures
            r == self.fill(t),
    {
        let Frame { boundary, cluster, quadrant, mut nw, mut ne, mut sw, mut se } = self;
        if quadrant == 0 {
            nw = Box::new(t);
        } else if quadrant == 1 {
            ne = Box::new(t);
        } else if quadrant == 2 {
            sw = Box::new(t);
        } else {
            se = Box::new(t);
        }
        QuadTree { boundary, node: Node::Internal { cluster, nw, ne, sw, se } }
    }
}

/// The tree that the frames, innermost last, make around `t`.
spec fn plug(frames: Seq<Frame>, t: QuadTree) -> QuadTree
    decreases frames.len(),
{
    if frames.len() == 0 {
        t
    } else {
        plug(frames.drop_last(), frames.last().fill(t))
    }
}

impl QuadTree {
    /// Total mass of the bodies held in the leaves.
    pub open spec fn total_mass(self) -> int
        decreases self,
    {
        match self.node {
            Node::Empty => 0,
            Node::External(b) => b.mass as int,
            Node::Internal { nw, ne, sw, se, .. } => nw.total_mass() + ne.total_mass()
                + sw.total_mass() + se.total_mass(),
        }
    }

    /// Sum of `mass * x` over the bodies held in the leaves.
    pub open spec fn moment_x(self) -> int
        decreases self,
    {
        match self.node {
            Node::Empty => 0,
            Node::External(b) => b.mass * b.position.x,
            Node::Internal { nw, ne, sw, se, .. } => nw.moment_x() + ne.moment_x() + sw.moment_x()
                + se.moment_x(),
        }
    }

    /// Sum of `mass * y` over the bodies held in the leaves.
    pub open spec fn moment_y(self) -> int
        decreases self,
    {
        match self.node {
            Node::Empty => 0,
            Node::External(b) => b.mass * b.position.y,
            Node::Internal { nw, ne, sw, se, .. } => nw.moment_y() + ne.moment_y() + sw.moment_y()
                + se.moment_y(),
        }
    }

    /// The positions of the bodies held in the leaves.
    pub open spec fn positions(self) -> Set<Vec2D>
        decreases self,
    {
        match self.node {
            Node::Empty => Set::empty(),
            Node::External(b) => set![b.position],
            Node::Internal { nw, ne, sw, se, .. } => nw.positions() + ne.positions()
                + sw.positions() + se.positions(),
        }
    }

    /// The number of leaves that hold a body.
    pub open spec fn leaf_count(self) -> nat
        decreases self,
    {
        match self.node {
            Node::Empty => 0,
            Node::External(_) => 1,
            Node::Internal { nw, ne, sw, se, .. } => nw.leaf_count() + ne.leaf_count()
                + sw.leaf_count() + se.leaf_count(),
        }
    }

    /// The bodies held in the leaves, quadrants in the order NW, NE, SW, SE.
    pub open spec fn leaves(self) -> Seq<Body>
        decreases self,
    {
        match self.node {
            Node::Empty => seq![],
            Node::External(b) => seq![b],
            Node::Internal { nw, ne, sw, se, .. } => nw.leaves() + ne.leaves() + sw.leaves()
                + se.leaves(),
        }
    }

    /// The tree is well formed: every leaf body lies in its node's cell, each
    /// internal node's quadrants are the exact quarters of its boundary, and
    /// its cluster is the total mass and first moments of the bodies below it.
    pub open spec fn wf(self) -> bool
        decreases self,
    {
        &&& self.boundary.wf()
        &&& match self.node {
            Node::Empty => true,
            Node::External(b) => b.mass > 0 && self.boundary.covers(b.position),
            Node::Internal { cluster, nw, ne, sw, se } => {
                &&& 2 * self.boundary.unit <= MAX_UNIT
                &&& nw.boundary == self.boundary.child(0)
                &&& ne.boundary == self.boundary.child(1)
                &&& sw.boundary == self.boundary.child(2)
                &&& se.boundary == self.boundary.child(3)
                &&& nw.wf() && ne.wf() && sw.wf() && se.wf()
                &&& cluster.mass == self.total_mass()
                &&& cluster.moment_x == self.moment_x()
                &&& cluster.moment_y == self.moment_y()
            },
        }
    }

    /// 0 for an internal node, 1 otherwise: splitting a leaf lowers it.
    pub open spec fn rank(self) -> int {
        match self.node {
            Node::Internal { .. } => 0,
            _ => 1,
        }
    }

    /// Child `i` of an internal node (NW, NE, SW, SE for 0..4).
    pub open spec fn sub(self, i: int) -> QuadTree {
        match self.node {
            Node::Internal { nw, ne, sw, se, .. } => if i == 0 {
                *nw
            } else if i == 1 {
                *ne
            } else if i == 2 {
                *sw
            } else {
                *se
            },
            _ => self,
        }
    }

    /// The tree after `b` is placed in it, `b` lying in the boundary's cell:
    /// an empty node takes `b`; a leaf at `b`'s position takes `b`'s mass; a
    /// leaf elsewhere is split until the two bodies part; an internal node
    /// folds `b` into its cluster and places it in the quadrant that owns it.
    pub open spec fn inserted(self, b: Body) -> QuadTree
        decreases self,
    {
        match self.node {
            Node::Empty => leaf(self.boundary, b),
            Node::External(o) => if o.position == b.position {
                leaf(self.boundary, Body { position: o.position, mass: (o.mass + b.mass) as u64 })
            } else {
                pair_tree(self.boundary, o, b)
            },
            Node::Internal { cluster, nw, ne, sw, se } => {
                let q = self.boundary.quadrant(b.position);
                QuadTree {
                    boundary: self.boundary,
                    node: Node::Internal {
                        cluster: cluster.with(b),
                        nw: if q == 0 { Box::new(nw.inserted(b)) } else { nw },
                        ne: if q == 1 { Box::new(ne.inserted(b)) } else { ne },
                        sw: if q == 2 { Box::new(sw.inserted(b)) } else { sw },
                        se: if q == 3 { Box::new(se.inserted(b)) } else { se },
                    },
                }
            },
        }
    }

    /// The tree after the top-level insertion of `b`: a body that the root
    /// boundary does not strictly contain is left out.
    pub open spec fn admitted(self, b: Body) -> QuadTree {
        if self.boundary.strictly_inside(b.position) {
            self.inserted(b)
        } else {
            self
        }
    }

    /// An empty tree over `boundary`.
    pub fn new(boundary: Bound) -> (r: QuadTree)
        requires
            boundary.wf(),
        ensures
            r == empty_tree(boundary),
            r.wf(),
    {
        QuadTree { boundary, node: Node::Empty }
    }

    /// The boundaries of all nodes, each node before its quadrants NW, NE,
    /// SW, SE.
    pub open spec fn rectangles(self) -> Seq<Bound>
        decreases self,
    {
        match self.node {
            Node::Internal { nw, ne, sw, se, .. } => seq![self.boundary] + nw.rectangles()
                + ne.rectangles() + sw.rectangles() + se.rectangles(),
            _ => seq![self.boundary],
        }
    }

    /// Total mass of the bodies in the tree.
    pub fn mass(&self) -> (r: u64)
        requires
            self.wf(),
        ensures
            r == self.total_mass(),
    {
        match &self.node {
            Node::Empty => 0,
            Node::External(b) => b.mass,
            Node::Internal { cluster, .. } => cluster.mass,
        }
    }

    /// Appends the bodies held in the leaves to `out`.
    fn collect_leaves(&self, out: &mut Vec<Body>)
        ensures
            final(out)@ == old(out)@ + self.leaves(),
        decreases self,
    {
        match &self.node {
            Node::Empty => {
                assert(old(out)@ + seq![] =~= old(out)@);
            },
            Node::External(b) => {
                out.push(*b);
            },
            Node::Internal { nw, ne, sw, se, .. } => {
                nw.collect_leaves(out);
                ne.collect_leaves(out);
                sw.collect_leaves(out);
                se.collect_leaves(out);
                assert(final(out)@ =~= old(out)@ + self.leaves());
            },
        }
    }

    /// The bodies held in the leaves, quadrants in the order NW, NE, SW, SE.
    pub fn leaf_bodies(&self) -> (r: Vec<Body>)
        ensures
            r@ == self.leaves(),
    {
        let mut out: Vec<Body> = Vec::new();
        self.collect_leaves(&mut out);
        assert(out@ =~= self.leaves());
        out
    }

    /// Appends the boundaries of all nodes to `out`.
    fn collect_rectangles(&self, out: &mut Vec<Bound>)
        ensures
            final(out)@ == old(out)@ + self.rectangles(),
        decreases self,
    {
        out.push(self.boundary);
        match &self.node {
            Node::Internal { nw, ne, sw, se, .. } => {
                nw.collect_rectangles(out);
                ne.collect_rectangles(out);
                sw.collect_rectangles(out);
                se.collect_rectangles(out);
                assert(final(out)@ =~= old(out)@ + self.rectangles());
            },
            _ => {},
        }
    }

    /// The boundaries of all nodes, for drawing the subdivision: each node
    /// before its quadrants NW, NE, SW, SE.
    pub fn get_rectangles(&self) -> (r: Vec<Bound>)
        ensures
            r@ == self.rectangles(),
    {
        let mut out: Vec<Bound> = Vec::new();
        self.collect_rectangles(&mut out);
        assert(out@ =~= self.rectangles());
        out
    }

    /// Folds body `b` into the cluster `a`: the masses add up and the centre
    /// of mass moves to the mass-weighted mean of the two.
    pub fn update_cluster(a: &mut Cluster, b: &Body)
        requires
            old(a).mass + b.mass <= u64::MAX,
            i32::MIN * old(a).mass <= old(a).moment_x <= i32::MAX * old(a).mass,
            i32::MIN * old(a).mass <= old(a).moment_y <= i32::MAX * old(a).mass,
        ensures
            *final(a) == old(a).with(*b),
            final(a).mass == old(a).mass + b.mass,
            final(a).moment_x == old(a).moment_x + b.mass * b.position.x,
            final(a).moment_y == old(a).moment_y + b.mass * b.position.y,
    {
        proof {
            lemma_cluster_with(*a, *b, a.mass as int);
            lemma_body_moment(b.mass as int, b.position.x as int);
            lemma_body_moment(b.mass as int, b.position.y as int);
        }
        let m = b.mass as i128;
        a.mass = a.mass + b.mass;
        a.moment_x = a.moment_x + m * (b.position.x as i128);
        a.moment_y = a.moment_y + m * (b.position.y as i128);
    }

    /// An internal node over `bound` with four empty quadrants.
    fn split_space(bound: &Bound) -> (r: Node)
        requires
            bound.wf(),
            2 * bound.unit <= MAX_UNIT,
        ensures
            r == split_tree(*bound).node,
    {
        let (nw, ne, sw, se) = bound.subdivide();
        Node::Internal {
            cluster: Cluster { mass: 0, moment_x: 0, moment_y: 0 },
            nw: Box::new(QuadTree { boundary: nw, node: Node::Empty }),
            ne: Box::new(QuadTree { boundary: ne, node: Node::Empty }),
            sw: Box::new(QuadTree { boundary: sw, node: Node::Empty }),
            se: Box::new(QuadTree { boundary: se, node: Node::Empty }),
        }
    }

    /// Places `body`, which lies in the boundary's cell, by recursion.
    fn place(&mut self, body: Body)
        requires
            old(self).wf(),
            old(self).boundary.covers(body.position),
            body.mass > 0,
            old(self).total_mass() + body.mass <= u64::MAX,
        ensures
            *final(self) == old(self).inserted(body),
        decreases MAX_UNIT - old(self).boundary.unit, old(self).rank(),
    {
        proof {
            lemma_moments(*self);
        }
        let ghost bd = self.boundary;
        let mut node = Node::Empty;
        std::mem::swap(&mut self.node, &mut node);
        match node {
            Node::Empty => {
                self.node = Node::External(body);
            },
            Node::External(o) => {
                if o.position == body.position {
                    self.node = Node::External(
                        Body { position: o.position, mass: o.mass + body.mass },
                    );
                } else {
                    proof {
                        lemma_distinct_points_room(bd, o.position, body.position);
                        lemma_split_wf(bd);
                        lemma_inserted(split_tree(bd), o);
                        lemma_split_pair(bd, o, body);
                    }
                    self.node = QuadTree::split_space(&self.boundary);
                    self.place(o);
                    self.place(body);
                }
            },
            Node::Internal { cluster, mut nw, mut ne, mut sw, mut se } => {
                proof {
                    lemma_moments(*nw);
                    lemma_moments(*ne);
                    lemma_moments(*sw);
                    lemma_moments(*se);
                    lemma_quadrant_covers(bd, body.position);
                }
                let mut c = cluster;
                QuadTree::update_cluster(&mut c, &body);
                let q = self.boundary.quadrant_of(body.position);
                if q == 0 {
                    nw.place(body);
                } else if q == 1 {
                    ne.place(body);
                } else if q == 2 {
                    sw.place(body);
                } else {
                    se.place(body);
                }
                self.node = Node::Internal { cluster: c, nw, ne, sw, se };
            },
        }
    }

    /// Inserts `body` with a loop and an explicit stack of the nodes passed on
    /// the way down, so deep trees do not deepen the call stack. Gives the
    /// same tree as [`QuadTree::insert_rec`].
    pub fn insert(&mut self, body: Body)
        requires
            old(self).wf(),
            body.mass > 0,
            old(self).total_mass() + body.mass <= u64::MAX,
        ensures
            *final(self) == old(self).admitted(body),
            final(self).wf(),
            final(self).boundary == old(self).boundary,
            old(self).boundary.strictly_inside(body.position) ==> {
                &&& final(self).total_mass() == old(self).total_mass() + body.mass
                &&& final(self).positions() == old(self).positions().insert(body.position)
            },
            !old(self).boundary.strictly_inside(body.position) ==> *final(self) == *old(self),
    {
        if !self.boundary.contains_point(body.position) {
            return;
        }
        proof {
            lemma_inserted(*self, body);
        }
        let ghost target = self.inserted(body);
        let mut cur = QuadTree { boundary: self.boundary, node: Node::Empty };
        std::mem::swap(self, &mut cur);
        let mut stack: Vec<Frame> = Vec::new();
        loop
            invariant_except_break
                cur.wf(),
                cur.boundary.covers(body.position),
                cur.total_mass() + body.mass <= u64::MAX,
                plug(stack@, cur.inserted(body)) == target,
            invariant
                body.mass > 0,
            ensures
                plug(stack@, cur) == target,
            decreases MAX_UNIT - cur.boundary.unit, cur.rank(),
        {
            proof {
                lemma_moments(cur);
            }
            let ghost before = cur;
            let QuadTree { boundary, node } = cur;
            match node {
                Node::Internal { cluster, mut nw, mut ne, mut sw, mut se } => {
                    proof {
                        lemma_moments(*nw);
                        lemma_moments(*ne);
                        lemma_moments(*sw);
                        lemma_moments(*se);
                        lemma_quadrant_covers(boundary, body.position);
                    }
                    let mut c = cluster;
                    QuadTree::update_cluster(&mut c, &body);
                    let q = boundary.quadrant_of(body.position);
                    let mut next = QuadTree { boundary, node: Node::Empty };
                    if q == 0 {
                        std::mem::swap(&mut *nw, &mut next);
                    } else if q == 1 {
                        std::mem::swap(&mut *ne, &mut next);
                    } else if q == 2 {
                        std::mem::swap(&mut *sw, &mut next);
                    } else {
                        std::mem::swap(&mut *se, &mut next);
                    }
                    let frame = Frame { boundary, cluster: c, quadrant: q, nw, ne, sw, se };
                    proof {
                        assert(next == before.sub(q as int));
                        assert(frame.fill(next.inserted(body)) == before.inserted(body));
                        assert(stack@.push(frame).drop_last() =~= stack@);
                    }
                    stack.push(frame);
                    cur = next;
                },
                Node::External(o) => {
                    if o.position == body.position {
                        cur = QuadTree {
                            boundary,
                            node: Node::External(
                                Body { position: o.position, mass: o.mass + body.mass },
                            ),
                        };
                        break ;
                    }
                    proof {
                        lemma_distinct_points_room(boundary, o.position, body.position);
                        lemma_split_wf(boundary);
                        lemma_inserted(split_tree(boundary), o);
                        lemma_split_pair(boundary, o, body);
                    }
                    let mut split = QuadTree { boundary, node: QuadTree::split_space(&boundary) };
                    split.place(o);
                    cur = split;
                },
                Node::Empty => {
                    cur = QuadTree { boundary, node: Node::External(body) };
                    break ;
                },
            }
        }
        let mut r = cur;
        while stack.len() > 0
            invariant
                plug(stack@, r) == target,
            decreases stack.len(),
        {
            let ghost frames = stack@;
            let frame = stack.pop().unwrap();
            proof {
                assert(stack@ == frames.drop_last() && frame == frames.last());
            }
            r = frame.assemble(r);
        }
        *self = r;
    }

    /// Inserts `body` by recursion. A body that the root boundary does not
    /// strictly contain is left out.
    pub fn insert_rec(&mut self, body: Body)
        requires
            old(self).wf(),
            body.mass > 0,
            old(self).total_mass() + body.mass <= u64::MAX,
        ensures
            *final(self) == old(self).admitted(body),
            final(self).wf(),
            final(self).boundary == old(self).boundary,
            old(self).boundary.strictly_inside(body.position) ==> {
                &&& final(self).total_mass() == old(self).total_mass() + body.mass
                &&& final(self).positions() == old(self).positions().insert(body.position)
            },
            !old(self).boundary.strictly_inside(body.position) ==> *final(self) == *old(self),
    {
        if self.boundary.contains_point(body.position) {
            proof {
                lemma_inserted(*self, body);
            }
            self.place(body);
        }
    }
}

/// A freshly split node is well formed.
pub proof fn lemma_split_wf(bd: Bound)
    requires
        bd.wf(),
        2 * bd.unit <= MAX_UNIT,
    ensures
        split_tree(bd).wf(),
        split_tree(bd).total_mass() == 0,
        split_tree(bd).positions() == Set::<Vec2D>::empty(),
        split_tree(bd).leaf_count() == 0,
{
    assert forall|i: int| 0 <= i < 4 implies {
        let e = #[trigger] empty_tree(bd.child(i));
        &&& e.wf()
        &&& e.total_mass() == 0
        &&& e.moment_x() == 0
        &&& e.moment_y() == 0
        &&& e.positions() == Set::<Vec2D>::empty()
        &&& e.leaf_count() == 0
    } by {
        lemma_child_wf(bd, i);
    }
    let t = split_tree(bd);
    assert(t.sub(0) == empty_tree(bd.child(0)));
    assert(t.sub(1) == empty_tree(bd.child(1)));
    assert(t.sub(2) == empty_tree(bd.child(2)));
    assert(t.sub(3) == empty_tree(bd.child(3)));
    assert(t.positions() =~= Set::<Vec2D>::empty());
}

/// Splitting a leaf and placing its body and then a body at another position
/// gives the tree of those two bodies.
pub proof fn lemma_split_pair(bd: Bound, o: Body, b: Body)
    requires
        bd.wf(),
        2 * bd.unit <= MAX_UNIT,
        o.position != b.position,
    ensures
        split_tree(bd).inserted(o).inserted(b) == pair_tree(bd, o, b),
{
    let s1 = split_tree(bd).inserted(o);
    let s2 = s1.inserted(b);
    let p = pair_tree(bd, o, b);
    let qo = bd.quadrant(o.position);
    let qb = bd.quadrant(b.position);
    assert forall|i: int| 0 <= i < 4 implies #[trigger] s2.sub(i) == p.sub(i) by {
        let e = empty_tree(bd.child(i));
        assert(split_tree(bd).sub(i) == e);
        assert(e.inserted(o) == leaf(bd.child(i), o));
        assert(e.inserted(b) == leaf(bd.child(i), b));
        assert(leaf(bd.child(i), o).inserted(b) == pair_tree(bd.child(i), o, b));
        assert(p.sub(i) == pair_child(bd, o, b, i));
        if i == qo {
            assert(s1.sub(i) == leaf(bd.child(i), o));
        } else {
            assert(s1.sub(i) == e);
        }
    }
    assert(s2.sub(0) == p.sub(0));
    assert(s2.sub(1) == p.sub(1));
    assert(s2.sub(2) == p.sub(2));
    assert(s2.sub(3) == p.sub(3));
}

} // verus!
