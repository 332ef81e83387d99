use vstd::prelude::*;

use crate::body::Body;
use crate::bound::Bound;
use crate::lemmas::lemma_inserted;
use crate::quadtree::{Cluster, QuadTree, empty_tree};
use crate::traversal::Theta;
use crate::vec_2d::Vec2D;

verus! {

/// Sum of the masses in `s`.
pub open spec fn mass_sum(s: Seq<Body>) -> int
    decreases s.len(),
{
    if s.len() == 0 {
        0
    } else {
        mass_sum(s.drop_last()) + s.last().mass
    }
}

/// Every body in `s` has a positive mass.
pub open spec fn all_massive(s: Seq<Body>) -> bool {
    forall|i: int| 0 <= i < s.len() ==> (#[trigger] s[i]).mass > 0
}

/// The tree over `bd` after inserting the bodies of `s` in order.
pub open spec fn built(bd: Bound, s: Seq<Body>) -> QuadTree
    decreases s.len(),
{
    if s.len() == 0 {
        empty_tree(bd)
    } else {
        built(bd, s.drop_last()).admitted(s.last())
    }
}

/// `p` lies in the closed square `[min, max]²`.
pub open spec fn in_world(p: Vec2D, min: int, max: int) -> bool {
    &&& min <= p.x <= max
    &&& min <= p.y <= max
}

/// The root boundary of the world `[min, max]²`: the square reaching half
/// a grid unit beyond it on every side, so that the grid points strictly
/// inside the root are exactly those of the closed square, the bodies that a
/// step keeps.
pub fn world_bound(min: i32, max: i32) -> (r: Bound)
    requires
        min < max,
    ensures
        r == (Bound {
            x: (2 * min - 1) as i128,
            y: (2 * min - 1) as i128,
            w: (2 * (max - min) + 2) as i128,
            h: (2 * (max - min) + 2) as i128,
            unit: 2,
        }),
        r.wf(),
        forall|p: Vec2D| #[trigger] r.strictly_inside(p) <==> in_world(p, min as int, max as int),
{
    let lo = 2 * (min as i128) - 1;
    let w = 2 * (max as i128 - min as i128) + 2;
    Bound { x: lo, y: lo, w, h: w, unit: 2 }
}

/// True iff `p` lies in the closed square `[min, max]²`.
pub fn is_in_world(p: Vec2D, min: i32, max: i32) -> (r: bool)
    ensures
        r == in_world(p, min as int, max as int),
{
    min <= p.x && p.x <= max && min <= p.y && p.y <= max
}

/// The indices, in increasing order, of the bodies of `s` that lie in the
/// closed square `[min, max]²`.
pub open spec fn kept(s: Seq<Body>, min: int, max: int) -> Seq<usize>
    decreases s.len(),
{
    if s.len() == 0 {
        seq![]
    } else {
        kept(s.drop_last(), min, max) + if in_world(s.last().position, min, max) {
            seq![(s.len() - 1) as usize]
        } else {
            seq![]
        }
    }
}

/// The indices, in increasing order, of the bodies that lie in the closed
/// square `[min, max]²`: the bodies that a step keeps. The others have left
/// the world and are culled.
pub fn retained(bodies: &Vec<Body>, min: i32, max: i32) -> (r: Vec<usize>)
    ensures
        r@ == kept(bodies@, min as int, max as int),
{
    let mut r: Vec<usize> = Vec::new();
    let mut i: usize = 0;
    while i < bodies.len()
        invariant
            i <= bodies@.len(),
            r@ == kept(bodies@.take(i as int), min as int, max as int),
        decreases bodies@.len() - i,
    {
        let ghost before = bodies@.take(i as int);
        assert(bodies@.take(i + 1).drop_last() =~= before);
        assert(bodies@.take(i + 1).last() == bodies@[i as int]);
        if is_in_world(bodies[i].position, min, max) {
            r.push(i);
        } else {
            assert(r@ + seq![] =~= r@);
        }
        i += 1;
    }
    assert(bodies@.take(i as int) =~= bodies@);
    r
}

/// True iff the masses of `bodies` add up to at most `u64::MAX`.
pub fn total_mass_fits(bodies: &Vec<Body>) -> (r: bool)
    ensures
        r == (mass_sum(bodies@) <= u64::MAX),
{
    let mut sum: u64 = 0;
    let mut i: usize = 0;
    while i < bodies.len()
        invariant
            i <= bodies@.len(),
            sum == mass_sum(bodies@.take(i as int)),
        decreases bodies@.len() - i,
    {
        assert(bodies@.take(i + 1).drop_last() =~= bodies@.take(i as int));
        match sum.checked_add(bodies[i].mass) {
            Some(s) => {
                sum = s;
            },
            None => {
                proof {
                    lemma_mass_sum_prefix(bodies@, i + 1);
                }
                return false;
            },
        }
        i += 1;
    }
    assert(bodies@.take(i as int) =~= bodies@);
    true
}

/// A prefix never outweighs the whole sequence.
pub proof fn lemma_mass_sum_prefix(s: Seq<Body>, n: int)
    requires
        0 <= n <= s.len(),
    ensures
        mass_sum(s.take(n)) <= mass_sum(s),
    decreases s.len() - n,
{
    if n < s.len() {
        lemma_mass_sum_prefix(s, n + 1);
        assert(s.take(n + 1).drop_last() =~= s.take(n));
    } else {
        assert(s.take(n) =~= s);
    }
}

/// A tree built from bodies of positive mass whose masses fit `u64` is well
/// formed, and holds no more mass than was inserted.
pub proof fn lemma_built(bd: Bound, s: Seq<Body>)
    requires
        bd.wf(),
        all_massive(s),
        mass_sum(s) <= u64::MAX,
    ensures
        built(bd, s).wf(),
        built(bd, s).boundary == bd,
        0 <= built(bd, s).total_mass() <= mass_sum(s),
    decreases s.len(),
{
    if s.len() > 0 {
        let p = s.drop_last();
        assert(all_massive(p)) by {
            assert forall|i: int| 0 <= i < p.len() implies (#[trigger] p[i]).mass > 0 by {
                assert(p[i] == s[i]);
            }
        }
        lemma_built(bd, p);
        let t = built(bd, p);
        let b = s.last();
        assert(b == s[s.len() - 1]);
        if t.boundary.strictly_inside(b.position) {
            lemma_inserted(t, b);
        }
    } else {
        assert(empty_tree(bd).wf());
    }
}

/// Builds the tree over `bd` of the given bodies, inserted in order; bodies
/// outside `bd` are left out.
pub fn build_tree(bd: Bound, bodies: &Vec<Body>) -> (r: QuadTree)
    requires
        bd.wf(),
        all_massive(bodies@),
        mass_sum(bodies@) <= u64::MAX,
    ensures
        r == built(bd, bodies@),
        r.wf(),
{
    let mut tree = QuadTree::new(bd);
    let mut i: usize = 0;
    while i < bodies.len()
        invariant
            bd.wf(),
            all_massive(bodies@),
            mass_sum(bodies@) <= u64::MAX,
            i <= bodies@.len(),
            tree == built(bd, bodies@.take(i as int)),
        decreases bodies@.len() - i,
    {
        let ghost p = bodies@.take(i as int);
        let ghost q = bodies@.take(i + 1);
        proof {
            assert(q.drop_last() =~= p);
            assert(q.last() == bodies@[i as int]);
            assert(all_massive(p)) by {
                assert forall|k: int| 0 <= k < p.len() implies (#[trigger] p[k]).mass > 0 by {
                    assert(p[k] == bodies@[k]);
                }
            }
            lemma_mass_sum_prefix(bodies@, i as int);
            lemma_mass_sum_prefix(bodies@, i + 1);
            lemma_built(bd, p);
            assert(bodies@[i as int].mass > 0);
        }
        tree.insert(bodies[i]);
        i += 1;
    }
    proof {
        assert(bodies@.take(i as int) =~= bodies@);
        lemma_built(bd, bodies@);
    }
    tree
}

/// For each body, what acts on it in the tree, as point masses.
pub fn interaction_lists(tree: &QuadTree, bodies: &Vec<Body>, theta: Theta) -> (r: Vec<Vec<Cluster>>)
    requires
        tree.wf(),
    ensures
        r@.len() == bodies@.len(),
        forall|i: int|
            0 <= i < bodies@.len() ==> (#[trigger] r@[i])@ == tree.interactions(
                bodies@[i].position,
                theta,
            ),
{
    let mut r: Vec<Vec<Cluster>> = Vec::new();
    let mut i: usize = 0;
    while i < bodies.len()
        invariant
            tree.wf(),
            i <= bodies@.len(),
            r@.len() == i,
            forall|k: int|
                0 <= k < i ==> (#[trigger] r@[k])@ == tree.interactions(
                    bodies@[k].position,
                    theta,
                ),
        decreases bodies@.len() - i,
    {
        r.push(tree.close_bodies(&bodies[i], theta));
        i += 1;
    }
    r
}

} // verus!
