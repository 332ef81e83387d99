use vstd::prelude::*;

use crate::body::Body;
use crate::bound::Bound;
use crate::lemmas::{lemma_body_moment, lemma_cluster_with, lemma_moments};
use crate::quadtree::{Cluster, Node, QuadTree};
use crate::vec_2d::Vec2D;
use crate::wide::{add_wide, lt_wide, mul_wide, wide_val};

verus! {

/// The opening threshold θ of the Barnes–Hut approximation, as the fraction
/// `num / den`.
#[derive(Clone, Copy, Debug, PartialEq, Eq, Structural)]
pub struct Theta {
    pub num: u16,
    pub den: u16,
}

impl Theta {
    /// θ = 1/2, the usual trade-off between speed and accuracy.
    pub fn half() -> (r: Theta)
        ensures
            r.num == 1,
            r.den == 2,
    {
        Theta { num: 1, den: 2 }
    }

    /// θ = 0: clusters are never approximated, every body is visited.
    pub fn exact() -> (r: Theta)
        ensures
            r.num == 0,
            r.den == 1,
    {
        Theta { num: 0, den: 1 }
    }
}

/// A single body as a cluster of one: its mass and its first moments.
pub open spec fn point_mass(b: Body) -> Cluster {
    Cluster::empty().with(b)
}

impl Cluster {
    /// The moments are those of bodies on the grid.
    pub open spec fn in_range(self) -> bool {
        &&& i32::MIN * self.mass <= self.moment_x <= i32::MAX * self.mass
        &&& i32::MIN * self.mass <= self.moment_y <= i32::MAX * self.mass
    }

    /// A single body as a cluster of one.
    pub fn from_body(b: &Body) -> (r: Cluster)
        ensures
            r == point_mass(*b),
            r.mass == b.mass,
            r.moment_x == b.mass * b.position.x,
            r.moment_y == b.mass * b.position.y,
    {
        proof {
            lemma_cluster_with(Cluster::empty(), *b, 0);
        }
        let m = b.mass as i128;
        Cluster {
            mass: b.mass,
            moment_x: m * (b.position.x as i128),
            moment_y: m * (b.position.y as i128),
        }
    }
}

/// The opening criterion, decided exactly. The cluster's centre of mass is
/// `g = moment / mass`; the cell over `bd` has width `s = bd.w / bd.unit`;
/// `d = |g - p|`. The cell is far enough from `p` to stand for its bodies
/// when `s / d < θ`. With `D = |moment - mass·p| = mass·d` this is
/// `w·den·mass < num·unit·D`, here squared. A zero distance or an empty
/// cluster is never far.
pub open spec fn far(bd: Bound, c: Cluster, p: Vec2D, theta: Theta) -> bool {
    let dx = c.moment_x - c.mass * p.x;
    let dy = c.moment_y - c.mass * p.y;
    let l = bd.w * theta.den * c.mass;
    let k = theta.num * bd.unit;
    &&& c.mass > 0
    &&& l * l < k * k * (dx * dx + dy * dy)
}

impl QuadTree {
    /// What acts on a body at `p` in the Barnes–Hut traversal, each as its
    /// exact mass and first moments, quadrants in the order NW, NE, SW, SE:
    /// a leaf at `p` itself is skipped, a leaf elsewhere gives its body, and
    /// an internal node whose cell is far from `p` gives its cluster instead
    /// of its bodies.
    pub open spec fn interactions(self, p: Vec2D, theta: Theta) -> Seq<Cluster>
        decreases self,
    {
        match self.node {
            Node::Empty => seq![],
            Node::External(b) => if b.position == p {
                seq![]
            } else {
                seq![point_mass(b)]
            },
            Node::Internal { cluster, nw, ne, sw, se } => if far(
                self.boundary,
                cluster,
                p,
                theta,
            ) {
                seq![cluster]
            } else {
                nw.interactions(p, theta) + ne.interactions(p, theta) + sw.interactions(p, theta)
                    + se.interactions(p, theta)
            },
        }
    }
}

/// `|a - m·c|` for a moment `a` of total mass `m` and a grid coordinate `c`.
fn moment_offset(a: i128, m: u64, c: i32) -> (r: u128)
    requires
        i32::MIN * m <= a <= i32::MAX * m,
    ensures
        r == (if a - m * c >= 0 { a - m * c } else { m * c - a }),
        r < 0x1_0000_0000 * 0x1_0000_0000_0000_0000,
{
    proof {
        lemma_body_moment(m as int, c as int);
    }
    let d = a - (m as i128) * (c as i128);
    if d >= 0 {
        d as u128
    } else {
        (-d) as u128
    }
}

/// Decides the opening criterion [`far`] exactly.
fn is_far(bd: &Bound, c: &Cluster, p: Vec2D, theta: Theta) -> (r: bool)
    requires
        bd.wf(),
        c.in_range(),
    ensures
        r == far(*bd, *c, p, theta),
{
    if c.mass == 0 {
        return false;
    }
    let ghost (w, u, n, e, m) = (
        bd.w as int,
        bd.unit as int,
        theta.num as int,
        theta.den as int,
        c.mass as int,
    );
    proof {
        assert(0 <= w * e <= 0x4_0000_0000 * 0xffff && 0 <= n * u <= 0xffff * 0x8_0000_0000)
            by (nonlinear_arith)
            requires
                0 < w <= 0x4_0000_0000,
                0 < u <= 0x8_0000_0000,
                0 <= n <= 0xffff,
                0 <= e <= 0xffff,
        ;
        assert(0 <= w * e * m < 0x4_0000_0000 * 0xffff * 0x1_0000_0000_0000_0000)
            by (nonlinear_arith)
            requires
                0 <= w * e <= 0x4_0000_0000 * 0xffff,
                0 < m < 0x1_0000_0000_0000_0000,
        ;
    }
    let l = (bd.w as u128) * (theta.den as u128) * (c.mass as u128);
    let k = (theta.num as u128) * (bd.unit as u128);
    let ax = moment_offset(c.moment_x, c.mass, p.x);
    let ay = moment_offset(c.moment_y, c.mass, p.y);
    proof {
        assert(ax * ax < 0x1_0000_0000_0000_0000_0000_0000_0000_0000 * 0x1_0000_0000_0000_0000 && ay * ay < 0x1_0000_0000_0000_0000_0000_0000_0000_0000
            * 0x1_0000_0000_0000_0000) by (nonlinear_arith)
            requires
                0 <= ax < 0x1_0000_0000 * 0x1_0000_0000_0000_0000,
                0 <= ay < 0x1_0000_0000 * 0x1_0000_0000_0000_0000,
        ;
        assert(k * k <= 0x1_0000_0000_0000_0000_0000_0000_0000) by (nonlinear_arith)
            requires
                0 <= k <= 0xffff * 0x8_0000_0000,
        ;
    }
    let dx2 = mul_wide(ax, ax);
    let dy2 = mul_wide(ay, ay);
    let d2 = match add_wide(dx2, dy2) {
        Some(v) => v,
        None => {
            return false;
        },
    };
    let ghost dd = wide_val(d2.0, d2.1);
    proof {
        let dx = c.moment_x - c.mass * p.x;
        let dy = c.moment_y - c.mass * p.y;
        assert(ax * ax == dx * dx && ay * ay == dy * dy) by (nonlinear_arith)
            requires
                ax == dx || ax == -dx,
                ay == dy || ay == -dy,
        ;
        assert(dd == dx * dx + dy * dy);
    }
    let k2 = k * k;
    let lhs = mul_wide(l, l);
    proof {
        assert(l * l < 0x1_0000_0000_0000_0000_0000_0000_0000_0000 * 0x1_0000_0000_0000_0000_0000_0000_0000_0000) by (nonlinear_arith)
            requires
                0 <= l < 0x4_0000_0000 * 0xffff * 0x1_0000_0000_0000_0000,
        ;
        assert(dd == d2.0 * 0x1_0000_0000_0000_0000_0000_0000_0000_0000 + d2.1);
    }
    let t = match k2.checked_mul(d2.0) {
        Some(t) => t,
        None => {
            proof {
                assert(k2 * dd >= 0x1_0000_0000_0000_0000_0000_0000_0000_0000 * 0x1_0000_0000_0000_0000_0000_0000_0000_0000) by (nonlinear_arith)
                    requires
                        k2 * d2.0 >= 0x1_0000_0000_0000_0000_0000_0000_0000_0000,
                        dd == d2.0 * 0x1_0000_0000_0000_0000_0000_0000_0000_0000 + d2.1,
                        d2.1 >= 0,
                        k2 >= 0,
                ;
            }
            return true;
        },
    };
    let low = mul_wide(k2, d2.1);
    let hi = match t.checked_add(low.0) {
        Some(h) => h,
        None => {
            proof {
                assert(k2 * dd >= 0x1_0000_0000_0000_0000_0000_0000_0000_0000 * 0x1_0000_0000_0000_0000_0000_0000_0000_0000) by (nonlinear_arith)
                    requires
                        t + low.0 >= 0x1_0000_0000_0000_0000_0000_0000_0000_0000,
                        t == k2 * d2.0,
                        low.0 * 0x1_0000_0000_0000_0000_0000_0000_0000_0000 + low.1 == k2 * d2.1,
                        dd == d2.0 * 0x1_0000_0000_0000_0000_0000_0000_0000_0000 + d2.1,
                        low.1 >= 0,
                ;
            }
            return true;
        },
    };
    proof {
        assert(wide_val(hi, low.1) == k2 * dd) by (nonlinear_arith)
            requires
                hi == t + low.0,
                t == k2 * d2.0,
                low.0 * 0x1_0000_0000_0000_0000_0000_0000_0000_0000 + low.1 == k2 * d2.1,
                dd == d2.0 * 0x1_0000_0000_0000_0000_0000_0000_0000_0000 + d2.1,
        ;
    }
    lt_wide(lhs, (hi, low.1))
}

impl QuadTree {
    /// Appends to `out` what acts on a body at `p`, in traversal order.
    pub fn collect_interactions(&self, p: Vec2D, theta: Theta, out: &mut Vec<Cluster>)
        requires
            self.wf(),
        ensures
            final(out)@ == old(out)@ + self.interactions(p, theta),
        decreases self,
    {
        match &self.node {
            Node::Empty => {
                assert(old(out)@ + seq![] =~= old(out)@);
            },
            Node::External(b) => {
                if b.position != p {
                    out.push(Cluster::from_body(b));
                } else {
                    assert(old(out)@ + seq![] =~= old(out)@);
                }
            },
            Node::Internal { cluster, nw, ne, sw, se } => {
                proof {
                    lemma_moments(*self);
                }
                if is_far(&self.boundary, cluster, p, theta) {
                    out.push(*cluster);
                } else {
                    nw.collect_interactions(p, theta, out);
                    ne.collect_interactions(p, theta, out);
                    sw.collect_interactions(p, theta, out);
                    se.collect_interactions(p, theta, out);
                    assert(final(out)@ =~= old(out)@ + self.interactions(p, theta));
                }
            },
        }
    }

    /// What acts on `body` in the Barnes–Hut traversal with threshold
    /// `theta`, each as its exact mass and first moments (position =
    /// moment / mass): the net force on `body` is the sum of the forces of
    /// these point masses.
    pub fn close_bodies(&self, body: &Body, theta: Theta) -> (r: Vec<Cluster>)
        requires
            self.wf(),
        ensures
            r@ == self.interactions(body.position, theta),
    {
        let mut out: Vec<Cluster> = Vec::new();
        self.collect_interactions(body.position, theta, &mut out);
        assert(out@ =~= self.interactions(body.position, theta));
        out
    }
}

} // verus!
