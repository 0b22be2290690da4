//! Pairwise contact generation and contact resolution over fixed-point
//! sphere and plane bodies.
//!
//! The generator tests every pair across (or within) the given lists and
//! appends one `Contact` per overlapping pair, in pair order. Exact
//! tangency does not overlap: only strict interpenetration yields a
//! contact. The resolvers then walk a contact list in order, pushing bodies
//! out along the contact normals and correcting velocities and momenta;
//! a correction that would carry any component beyond `FX_CAP` leaves the
//! body untouched, so no resolution step can overflow.

use vstd::prelude::*;
use vstd::pervasive::VecAdditionalExecFns;
use crate::geom::dot3;
use crate::geom::lemma_tdiv_ratio;
use crate::geom::lemma_abs_mul;
use crate::geom::lemma_sqrt_floor;
use crate::geom::lemma_tdiv;
use crate::geom::lemma_tdiv_bound;
use crate::geom::sqrt_floor;
use crate::geom::tdiv;
use crate::geom::vec_within;
use crate::geom::isqrt;
use crate::geom::Plane;
use crate::geom::Sphere;
use crate::geom::Vec3;
use crate::geom::FX_CAP;
use crate::geom::FX_LIMIT;
use crate::geom::FX_ONE;

verus! {

/// A detected overlap between two bodies. `a` always indexes into the
/// first, dynamic list handed to the generator that produced the contact;
/// what `b` indexes (a second dynamic list or a static list) depends on the
/// call site. The normal points from the `b` body toward the `a` body, and
/// the depth is how far the bodies interpenetrate along it, both in fixed
/// point.
#[derive(PartialEq, Eq, Structural, Clone, Copy, Debug)]
pub struct Contact<T> {
    /// Index of the overlapping body in the first, dynamic list.
    pub a: T,
    /// Index of the other body in the call-site-specific second list.
    pub b: T,
    /// The contact normal, a fixed-point unit vector from `b` toward `a`.
    pub normal: Vec3,
    /// The penetration depth along the normal, in fixed point.
    pub depth: i64,
}

/// A body the generator can test a sphere against: another sphere or a
/// half-space plane.
#[derive(PartialEq, Eq, Structural, Clone, Copy, Debug)]
pub enum Shape {
    /// A sphere body.
    Sphere(Sphere),
    /// A half-space plane body.
    Plane(Plane),
}

/// A sphere the generator accepts: center components and radius within the
/// input magnitude bound, radius not negative.
pub open spec fn sphere_ok(s: Sphere) -> bool {
    &&& vec_within(s.c, FX_LIMIT as int)
    &&& 0 <= s.r <= FX_LIMIT
}

/// A plane the generator accepts: a normal of at most twice unit magnitude
/// per component and an offset within the input magnitude bound.
pub open spec fn plane_ok(p: Plane) -> bool {
    &&& vec_within(p.n, 2 * FX_ONE as int)
    &&& -FX_LIMIT <= p.d <= FX_LIMIT
}

/// A shape the generator accepts.
pub open spec fn shape_ok(o: Shape) -> bool {
    match o {
        Shape::Sphere(b) => sphere_ok(b),
        Shape::Plane(p) => plane_ok(p),
    }
}

/// A contact the resolvers accept: a near-unit normal and a positive,
/// bounded depth. Every contact the generator emits satisfies it.
pub open spec fn contact_ok(c: Contact<usize>) -> bool {
    &&& vec_within(c.normal, 2 * FX_ONE as int)
    &&& 0 < c.depth <= 0x10_0000_0000
}

/// The signed fixed-point distance from the sphere's center to the plane,
/// along the plane's normal.
pub open spec fn sp_sd(s: Sphere, p: Plane) -> int {
    tdiv(dot3(s.c, p.n), FX_ONE as int) - p.d
}

/// Whether a sphere overlaps a plane: its signed center distance falls
/// strictly short of its radius.
pub open spec fn sp_overlap(s: Sphere, p: Plane) -> bool {
    sp_sd(s, p) < s.r
}

/// The contact for an overlapping sphere/plane pair: the plane's normal and
/// the distance the sphere must travel along it to stop overlapping.
pub open spec fn sp_contact(i: usize, j: usize, s: Sphere, p: Plane) -> Contact<usize> {
    Contact { a: i, b: j, normal: p.n, depth: (s.r - sp_sd(s, p)) as i64 }
}

/// The squared center distance of two spheres, unscaled.
pub open spec fn ss_dist2(a: Sphere, b: Sphere) -> int {
    let dx = a.c.x - b.c.x;
    let dy = a.c.y - b.c.y;
    let dz = a.c.z - b.c.z;
    dx * dx + dy * dy + dz * dz
}

/// Whether two spheres overlap: their center distance falls strictly short
/// of the sum of their radii.
pub open spec fn ss_overlap(a: Sphere, b: Sphere) -> bool {
    ss_dist2(a, b) < (a.r + b.r) * (a.r + b.r)
}

/// The contact for an overlapping sphere pair: the unit vector from the
/// second center toward the first, and the leftover of the radii beyond the
/// center distance. Centers that coincide below the fixed-point resolution
/// get the vertical unit normal.
pub open spec fn ss_contact(i: usize, j: usize, a: Sphere, b: Sphere) -> Contact<usize> {
    let dist = sqrt_floor(ss_dist2(a, b));
    let depth = (a.r + b.r - dist) as i64;
    let normal = if dist == 0 {
        Vec3 { x: 0, y: FX_ONE, z: 0 }
    } else {
        Vec3 {
            x: tdiv((a.c.x - b.c.x) * FX_ONE as int, dist) as i64,
            y: tdiv((a.c.y - b.c.y) * FX_ONE as int, dist) as i64,
            z: tdiv((a.c.z - b.c.z) * FX_ONE as int, dist) as i64,
        }
    };
    Contact { a: i, b: j, normal, depth }
}

/// Whether a sphere overlaps a shape.
pub open spec fn shape_hits(s: Sphere, o: Shape) -> bool {
    match o {
        Shape::Sphere(b) => ss_overlap(s, b),
        Shape::Plane(p) => sp_overlap(s, p),
    }
}

/// The contact for a sphere overlapping a shape.
pub open spec fn shape_contact(i: usize, j: usize, s: Sphere, o: Shape) -> Contact<usize> {
    match o {
        Shape::Sphere(b) => ss_contact(i, j, s, b),
        Shape::Plane(p) => sp_contact(i, j, s, p),
    }
}

/// The contacts of one dynamic sphere against the first `upto` shapes of
/// the second list, in index order.
pub open spec fn contacts_row(
    i: usize,
    s: Sphere,
    others: Seq<Shape>,
    upto: int,
) -> Seq<Contact<usize>>
    decreases upto,
{
    if upto <= 0 {
        Seq::empty()
    } else {
        contacts_row(i, s, others, upto - 1) + (if shape_hits(s, others[upto - 1]) {
            seq![shape_contact(i, (upto - 1) as usize, s, others[upto - 1])]
        } else {
            Seq::empty()
        })
    }
}

/// The contacts of the first `upto` dynamic spheres against the whole
/// second list, row by row.
pub open spec fn contacts_ab_upto(
    dyns: Seq<Sphere>,
    others: Seq<Shape>,
    upto: int,
) -> Seq<Contact<usize>>
    decreases upto,
{
    if upto <= 0 {
        Seq::empty()
    } else {
        contacts_ab_upto(dyns, others, upto - 1) + contacts_row(
            (upto - 1) as usize,
            dyns[upto - 1],
            others,
            others.len() as int,
        )
    }
}

/// The contacts of every pair across the two lists, in pair order: the
/// first index runs over the dynamic list, the second over the other list.
pub open spec fn spec_contacts_ab(dyns: Seq<Sphere>, others: Seq<Shape>) -> Seq<Contact<usize>> {
    contacts_ab_upto(dyns, others, dyns.len() as int)
}

/// The contacts of one sphere against the later spheres of its own list, up
/// to the given bound.
pub open spec fn contacts_row_aa(i: usize, bodies: Seq<Sphere>, upto: int) -> Seq<Contact<usize>>
    decreases upto,
{
    if upto <= i + 1 {
        Seq::empty()
    } else {
        contacts_row_aa(i, bodies, upto - 1) + (if ss_overlap(bodies[i as int], bodies[upto - 1]) {
            seq![ss_contact(i, (upto - 1) as usize, bodies[i as int], bodies[upto - 1])]
        } else {
            Seq::empty()
        })
    }
}

/// The contacts of every unordered pair within the first `upto` spheres.
pub open spec fn contacts_aa_upto(bodies: Seq<Sphere>, upto: int) -> Seq<Contact<usize>>
    decreases upto,
{
    if upto <= 0 {
        Seq::empty()
    } else {
        contacts_aa_upto(bodies, upto - 1) + contacts_row_aa(
            (upto - 1) as usize,
            bodies,
            bodies.len() as int,
        )
    }
}

/// The contacts of every unordered pair within one list, each pair once,
/// lower index first.
pub open spec fn spec_contacts_aa(bodies: Seq<Sphere>) -> Seq<Contact<usize>> {
    contacts_aa_upto(bodies, bodies.len() as int)
}

/// Tests one sphere against one plane, returning the contact exactly when
/// they overlap.
fn contact_sphere_plane(i: usize, j: usize, s: &Sphere, p: &Plane) -> (r: Option<Contact<usize>>)
    requires
        sphere_ok(*s),
        plane_ok(*p),
    ensures
        r is Some <==> sp_overlap(*s, *p),
        sp_overlap(*s, *p) ==> r == Some(sp_contact(i, j, *s, *p)) && contact_ok(
            sp_contact(i, j, *s, *p),
        ),
{
    proof {
        lemma_abs_mul(s.c.x as int, p.n.x as int, 0x4000_0000, 0x20000);
        lemma_abs_mul(s.c.y as int, p.n.y as int, 0x4000_0000, 0x20000);
        lemma_abs_mul(s.c.z as int, p.n.z as int, 0x4000_0000, 0x20000);
        lemma_tdiv_bound(dot3(s.c, p.n), FX_ONE as int, 0x1_8000_0000_0000);
    }
    let sd = s.c.dot_fx(p.n) - p.d;
    if sd < s.r {
        Some(Contact { a: i, b: j, normal: p.n, depth: s.r - sd })
    } else {
        None
    }
}

/// Tests one sphere against another, returning the contact exactly when
/// they overlap.
fn contact_sphere_sphere(i: usize, j: usize, a: &Sphere, b: &Sphere) -> (r: Option<
    Contact<usize>,
>)
    requires
        sphere_ok(*a),
        sphere_ok(*b),
    ensures
        r is Some <==> ss_overlap(*a, *b),
        ss_overlap(*a, *b) ==> r == Some(ss_contact(i, j, *a, *b)) && contact_ok(
            ss_contact(i, j, *a, *b),
        ),
{
    let dx = a.c.x - b.c.x;
    let dy = a.c.y - b.c.y;
    let dz = a.c.z - b.c.z;
    proof {
        lemma_abs_mul(dx as int, dx as int, 0x8000_0000, 0x8000_0000);
        lemma_abs_mul(dy as int, dy as int, 0x8000_0000, 0x8000_0000);
        lemma_abs_mul(dz as int, dz as int, 0x8000_0000, 0x8000_0000);
        assert(dx as int * dx as int >= 0 && dy as int * dy as int >= 0 && dz as int * dz as int
            >= 0) by (nonlinear_arith);
    }
    let d2: i128 = (dx as i128) * (dx as i128) + (dy as i128) * (dy as i128) + (dz as i128) * (
    dz as i128);
    let rsum = a.r + b.r;
    proof {
        lemma_abs_mul(rsum as int, rsum as int, 0x8000_0000, 0x8000_0000);
    }
    let r2: i128 = (rsum as i128) * (rsum as i128);
    if d2 < r2 {
        proof {
            assert(rsum > 0) by (nonlinear_arith)
                requires
                    rsum >= 0,
                    (d2 as int) < (rsum as int) * (rsum as int),
                    d2 as int >= 0,
                    rsum as int == rsum,
            ;
        }
        let du: u64 = d2 as u64;
        let dist64 = isqrt(du);
        proof {
            lemma_sqrt_floor(d2 as int);
            let dist = sqrt_floor(d2 as int);
            assert(dist < rsum) by (nonlinear_arith)
                requires
                    dist >= 0,
                    rsum > 0,
                    dist * dist <= d2 as int,
                    (d2 as int) < (rsum as int) * (rsum as int),
                    rsum as int == rsum,
            ;
        }
        let dist = dist64 as i64;
        let depth = rsum - dist;
        let normal = if dist == 0 {
            Vec3 { x: 0, y: FX_ONE, z: 0 }
        } else {
            proof {
                lemma_vec_to_unit(dx as int, d2 as int, dist as int);
                lemma_vec_to_unit(dy as int, d2 as int, dist as int);
                lemma_vec_to_unit(dz as int, d2 as int, dist as int);
            }
            Vec3 {
                x: ((dx as i128) * (FX_ONE as i128) / (dist as i128)) as i64,
                y: ((dy as i128) * (FX_ONE as i128) / (dist as i128)) as i64,
                z: ((dz as i128) * (FX_ONE as i128) / (dist as i128)) as i64,
            }
        };
        Some(Contact { a: i, b: j, normal, depth })
    } else {
        None
    }
}

/// A component of a difference vector, rescaled by the unit and divided by
/// the vector's rounded length, is a near-unit fixed-point quantity.
proof fn lemma_vec_to_unit(dc: int, d2: int, dist: int)
    requires
        dist >= 1,
        dc * dc <= d2,
        dist * dist <= d2,
        (dist + 1) * (dist + 1) > d2,
    ensures
        -(FX_ONE as int) <= tdiv(dc * FX_ONE as int, dist) <= FX_ONE as int,
        -(FX_ONE as int) * dist <= dc * FX_ONE as int <= FX_ONE as int * dist,
{
    assert(-dist <= dc <= dist) by (nonlinear_arith)
        requires
            dist >= 1,
            dc * dc <= d2,
            (dist + 1) * (dist + 1) > d2,
    ;
    assert(-(FX_ONE as int) * dist <= dc * FX_ONE as int <= FX_ONE as int * dist) by (
    nonlinear_arith)
        requires
            -dist <= dc <= dist,
            dist >= 1,
    ;
    lemma_tdiv(dc * FX_ONE as int, dist);
    let q = tdiv(dc * FX_ONE as int, dist);
    assert(q <= FX_ONE as int && -(FX_ONE as int) <= q) by (nonlinear_arith)
        requires
            dist >= 1,
            -(FX_ONE as int) * dist <= dc * FX_ONE as int <= FX_ONE as int * dist,
            (dc * FX_ONE as int >= 0 ==> q * dist <= dc * FX_ONE as int && q >= 0),
            (dc * FX_ONE as int <= 0 ==> q * dist >= dc * FX_ONE as int && q <= 0),
    ;
}

/// Tests every pair across the two lists, the dynamic spheres against the
/// other shapes, and appends one contact per strictly overlapping pair, in
/// pair order: first by dynamic index, then by the other index.
pub fn gather_contacts_ab(dyns: &Vec<Sphere>, others: &Vec<Shape>, out: &mut Vec<Contact<usize>>)
    requires
        forall|t: int| 0 <= t < dyns@.len() ==> sphere_ok(#[trigger] dyns@[t]),
        forall|t: int| 0 <= t < others@.len() ==> shape_ok(#[trigger] others@[t]),
    ensures
        final(out)@ == old(out)@ + spec_contacts_ab(dyns@, others@),
        forall|t: int|
            old(out)@.len() <= t < final(out)@.len() ==> contact_ok(#[trigger] final(out)@[t])
                && final(out)@[t].a < dyns@.len() && final(out)@[t].b < others@.len(),
{
    let n = dyns.len();
    let m = others.len();
    let mut i: usize = 0;
    while i < n
        invariant
            n == dyns@.len(),
            m == others@.len(),
            0 <= i <= n,
            forall|t: int| 0 <= t < dyns@.len() ==> sphere_ok(#[trigger] dyns@[t]),
            forall|t: int| 0 <= t < others@.len() ==> shape_ok(#[trigger] others@[t]),
            out@ == old(out)@ + contacts_ab_upto(dyns@, others@, i as int),
            forall|t: int|
                old(out)@.len() <= t < out@.len() ==> contact_ok(#[trigger] out@[t]) && out@[t].a
                    < dyns@.len() && out@[t].b < others@.len(),
        decreases n - i,
    {
        let mut j: usize = 0;
        while j < m
            invariant
                n == dyns@.len(),
                m == others@.len(),
                0 <= i < n,
                0 <= j <= m,
                forall|t: int| 0 <= t < dyns@.len() ==> sphere_ok(#[trigger] dyns@[t]),
                forall|t: int| 0 <= t < others@.len() ==> shape_ok(#[trigger] others@[t]),
                out@ == old(out)@ + contacts_ab_upto(dyns@, others@, i as int) + contacts_row(
                    i,
                    dyns@[i as int],
                    others@,
                    j as int,
                ),
                forall|t: int|
                    old(out)@.len() <= t < out@.len() ==> contact_ok(#[trigger] out@[t])
                        && out@[t].a < dyns@.len() && out@[t].b < others@.len(),
            decreases m - j,
        {
            let found = match &others[j] {
                Shape::Sphere(b) => contact_sphere_sphere(i, j, &dyns[i], b),
                Shape::Plane(p) => contact_sphere_plane(i, j, &dyns[i], p),
            };
            if let Some(ct) = found {
                out.push(ct);
            }
            proof {
                assert(out@ =~= old(out)@ + contacts_ab_upto(dyns@, others@, i as int)
                    + contacts_row(i, dyns@[i as int], others@, j + 1));
            }
            j = j + 1;
        }
        proof {
            assert(out@ =~= old(out)@ + contacts_ab_upto(dyns@, others@, i + 1));
        }
        i = i + 1;
    }
}

/// Tests every unordered pair within one list of spheres, each pair once
/// and no sphere against itself, and appends one contact per strictly
/// overlapping pair, lower index first.
pub fn gather_contacts_aa(bodies: &Vec<Sphere>, out: &mut Vec<Contact<usize>>)
    requires
        forall|t: int| 0 <= t < bodies@.len() ==> sphere_ok(#[trigger] bodies@[t]),
    ensures
        final(out)@ == old(out)@ + spec_contacts_aa(bodies@),
        forall|t: int|
            old(out)@.len() <= t < final(out)@.len() ==> contact_ok(#[trigger] final(out)@[t])
                && final(out)@[t].a < final(out)@[t].b && final(out)@[t].b < bodies@.len(),
{
    let n = bodies.len();
    let mut i: usize = 0;
    while i < n
        invariant
            n == bodies@.len(),
            0 <= i <= n,
            forall|t: int| 0 <= t < bodies@.len() ==> sphere_ok(#[trigger] bodies@[t]),
            out@ == old(out)@ + contacts_aa_upto(bodies@, i as int),
            forall|t: int|
                old(out)@.len() <= t < out@.len() ==> contact_ok(#[trigger] out@[t]) && out@[t].a
                    < out@[t].b && out@[t].b < bodies@.len(),
        decreases n - i,
    {
        let mut j: usize = i + 1;
        while j < n
            invariant
                n == bodies@.len(),
                0 <= i < n,
                i + 1 <= j <= n,
                forall|t: int| 0 <= t < bodies@.len() ==> sphere_ok(#[trigger] bodies@[t]),
                out@ == old(out)@ + contacts_aa_upto(bodies@, i as int) + contacts_row_aa(
                    i,
                    bodies@,
                    j as int,
                ),
                forall|t: int|
                    old(out)@.len() <= t < out@.len() ==> contact_ok(#[trigger] out@[t])
                        && out@[t].a < out@[t].b && out@[t].b < bodies@.len(),
            decreases n - j,
        {
            let found = contact_sphere_sphere(i, j, &bodies[i], &bodies[j]);
            if let Some(ct) = found {
                out.push(ct);
            }
            proof {
                assert(out@ =~= old(out)@ + contacts_aa_upto(bodies@, i as int) + contacts_row_aa(
                    i,
                    bodies@,
                    j + 1,
                ));
            }
            j = j + 1;
        }
        proof {
            assert(out@ =~= old(out)@ + contacts_aa_upto(bodies@, i + 1));
        }
        i = i + 1;
    }
}

/// A vector every component of which the resolvers keep within the cap.
pub open spec fn vec_capped(v: Vec3) -> bool {
    vec_within(v, FX_CAP as int)
}

/// A near-unit component scaled by a bounded fixed-point factor stays
/// within twice that bound.
proof fn lemma_scale_term_bound(nx: i64, s: i64, ms: int)
    requires
        -0x20000 <= nx <= 0x20000,
        -ms <= s <= ms,
        0 <= ms,
    ensures
        -(2 * ms) <= tdiv(nx * s, FX_ONE as int) <= 2 * ms,
{
    lemma_abs_mul(nx as int, s as int, 0x20000, ms);
    assert(0x20000 * ms == (2 * ms) * 0x10000) by (nonlinear_arith);
    lemma_tdiv_ratio((nx as int) * (s as int), 0x10000, 2 * ms);
}

/// The fixed-point dot product of a capped vector with a near-unit vector
/// stays within three halves of the cap's product with the unit.
proof fn lemma_vn_bound(v: Vec3, n: Vec3)
    requires
        vec_capped(v),
        vec_within(n, 2 * FX_ONE as int),
    ensures
        -0x1_8000_0000_0000 <= tdiv(dot3(v, n), FX_ONE as int) <= 0x1_8000_0000_0000,
{
    lemma_abs_mul(v.x as int, n.x as int, 0x4000_0000_0000, 0x20000);
    lemma_abs_mul(v.y as int, n.y as int, 0x4000_0000_0000, 0x20000);
    lemma_abs_mul(v.z as int, n.z as int, 0x4000_0000_0000, 0x20000);
    lemma_tdiv_ratio(dot3(v, n), 0x10000, 0x1_8000_0000_0000);
}

/// The velocity with its inward normal component removed: where it runs
/// against the normal, that component is taken out; where it does not, the
/// velocity is unchanged.
pub open spec fn vel_clamped(v: Vec3, n: Vec3) -> Vec3 {
    let vn = tdiv(dot3(v, n), FX_ONE as int);
    if vn < 0 {
        Vec3 {
            x: (v.x - tdiv(n.x * vn, FX_ONE as int)) as i64,
            y: (v.y - tdiv(n.y * vn, FX_ONE as int)) as i64,
            z: (v.z - tdiv(n.z * vn, FX_ONE as int)) as i64,
        }
    } else {
        v
    }
}

/// Removes the inward normal component of a velocity.
fn clamp_velocity(v: Vec3, n: Vec3) -> (r: Vec3)
    requires
        vec_capped(v),
        vec_within(n, 2 * FX_ONE as int),
    ensures
        r == vel_clamped(v, n),
        vec_within(r, 0x10_0000_0000_0000),
{
    proof {
        lemma_vn_bound(v, n);
    }
    let vn = v.dot_fx(n);
    if vn < 0 {
        proof {
            lemma_scale_term_bound(n.x, vn, 0x1_8000_0000_0000);
            lemma_scale_term_bound(n.y, vn, 0x1_8000_0000_0000);
            lemma_scale_term_bound(n.z, vn, 0x1_8000_0000_0000);
        }
        let t = n.scale_fx(vn);
        v.sub(t)
    } else {
        v
    }
}

/// A point moved along a near-unit direction by a fixed-point amount.
pub open spec fn vec_pushed(v: Vec3, n: Vec3, h: i64) -> Vec3 {
    Vec3 {
        x: (v.x + tdiv(n.x * h, FX_ONE as int)) as i64,
        y: (v.y + tdiv(n.y * h, FX_ONE as int)) as i64,
        z: (v.z + tdiv(n.z * h, FX_ONE as int)) as i64,
    }
}

/// A point moved against a near-unit direction by a fixed-point amount.
pub open spec fn vec_pulled(v: Vec3, n: Vec3, h: i64) -> Vec3 {
    Vec3 {
        x: (v.x - tdiv(n.x * h, FX_ONE as int)) as i64,
        y: (v.y - tdiv(n.y * h, FX_ONE as int)) as i64,
        z: (v.z - tdiv(n.z * h, FX_ONE as int)) as i64,
    }
}

/// The sphere as moved out along a contact normal by the contact depth.
pub open spec fn sphere_pushed(s: Sphere, n: Vec3, depth: i64) -> Sphere {
    Sphere { c: vec_pushed(s.c, n, depth), r: s.r }
}

/// One static-contact resolution step: the dynamic body is pushed out along
/// the contact normal by the penetration depth, and its momentum becomes
/// its clamped velocity times its mass. Either half is skipped where it
/// would carry a component beyond the cap.
pub open spec fn stat_step(
    bodies: Seq<Sphere>,
    moms: Seq<Vec3>,
    vels: Seq<Vec3>,
    masses: Seq<i64>,
    c: Contact<usize>,
) -> (Seq<Sphere>, Seq<Vec3>) {
    let a = c.a as int;
    let s2 = sphere_pushed(bodies[a], c.normal, c.depth);
    let v2 = vel_clamped(vels[a], c.normal);
    let m = masses[a];
    let px = tdiv(v2.x * m, FX_ONE as int);
    let py = tdiv(v2.y * m, FX_ONE as int);
    let pz = tdiv(v2.z * m, FX_ONE as int);
    let bodies2 = if vec_capped(s2.c) {
        bodies.update(a, s2)
    } else {
        bodies
    };
    let moms2 = if -FX_CAP <= px <= FX_CAP && -FX_CAP <= py <= FX_CAP && -FX_CAP <= pz
        <= FX_CAP {
        moms.update(a, Vec3 { x: px as i64, y: py as i64, z: pz as i64 })
    } else {
        moms
    };
    (bodies2, moms2)
}

/// The first `upto` static contacts resolved in order.
pub open spec fn stat_upto(
    bodies: Seq<Sphere>,
    moms: Seq<Vec3>,
    vels: Seq<Vec3>,
    masses: Seq<i64>,
    contacts: Seq<Contact<usize>>,
    upto: int,
) -> (Seq<Sphere>, Seq<Vec3>)
    decreases upto,
{
    if upto <= 0 {
        (bodies, moms)
    } else {
        let prev = stat_upto(bodies, moms, vels, masses, contacts, upto - 1);
        stat_step(prev.0, prev.1, vels, masses, contacts[upto - 1])
    }
}

/// Resolves dynamic bodies against static planes: for each contact in
/// order, the dynamic body moves out along the contact normal by the
/// penetration depth, the inward normal part of its velocity is dropped,
/// and its momentum is resynchronized to that clamped velocity times its
/// mass. The velocities themselves are read, not written: callers that
/// keep velocity derive it from momentum. Positions and momenta whose
/// correction would leave the cap are left as they are.
pub fn restitute_dyn_stat(
    bodies: &mut Vec<Sphere>,
    velocities: &Vec<Vec3>,
    momenta: &mut Vec<Vec3>,
    masses: &Vec<i64>,
    statics: &Vec<Plane>,
    contacts: &Vec<Contact<usize>>,
)
    requires
        old(bodies)@.len() == velocities@.len(),
        old(bodies)@.len() == old(momenta)@.len(),
        old(bodies)@.len() == masses@.len(),
        forall|t: int| 0 <= t < old(bodies)@.len() ==> vec_capped((#[trigger] old(bodies)@[t]).c),
        forall|t: int| 0 <= t < velocities@.len() ==> vec_capped(#[trigger] velocities@[t]),
        forall|t: int| 0 <= t < masses@.len() ==> 0 < #[trigger] masses@[t] <= FX_LIMIT,
        forall|t: int|
            0 <= t < contacts@.len() ==> contact_ok(#[trigger] contacts@[t]) && contacts@[t].a
                < old(bodies)@.len() && contacts@[t].b < statics@.len(),
    ensures
        final(bodies)@ == stat_upto(
            old(bodies)@,
            old(momenta)@,
            velocities@,
            masses@,
            contacts@,
            contacts@.len() as int,
        ).0,
        final(momenta)@ == stat_upto(
            old(bodies)@,
            old(momenta)@,
            velocities@,
            masses@,
            contacts@,
            contacts@.len() as int,
        ).1,
{
    let n = contacts.len();
    let mut k: usize = 0;
    while k < n
        invariant
            n == contacts@.len(),
            0 <= k <= n,
            bodies@.len() == old(bodies)@.len(),
            momenta@.len() == old(momenta)@.len(),
            old(bodies)@.len() == velocities@.len(),
            old(bodies)@.len() == old(momenta)@.len(),
            old(bodies)@.len() == masses@.len(),
            forall|t: int| 0 <= t < velocities@.len() ==> vec_capped(#[trigger] velocities@[t]),
            forall|t: int| 0 <= t < masses@.len() ==> 0 < #[trigger] masses@[t] <= FX_LIMIT,
            forall|t: int|
                0 <= t < contacts@.len() ==> contact_ok(#[trigger] contacts@[t]) && contacts@[t].a
                    < old(bodies)@.len() && contacts@[t].b < statics@.len(),
            forall|t: int| 0 <= t < bodies@.len() ==> vec_capped((#[trigger] bodies@[t]).c),
            bodies@ == stat_upto(
                old(bodies)@,
                old(momenta)@,
                velocities@,
                masses@,
                contacts@,
                k as int,
            ).0,
            momenta@ == stat_upto(
                old(bodies)@,
                old(momenta)@,
                velocities@,
                masses@,
                contacts@,
                k as int,
            ).1,
        decreases n - k,
    {
        let c = contacts[k];
        let ai = c.a;
        proof {
            lemma_scale_term_bound(c.normal.x, c.depth, 0x10_0000_0000);
            lemma_scale_term_bound(c.normal.y, c.depth, 0x10_0000_0000);
            lemma_scale_term_bound(c.normal.z, c.depth, 0x10_0000_0000);
        }
        let shift = c.normal.scale_fx(c.depth);
        let s = bodies[ai];
        let nc = s.c.add(shift);
        if -FX_CAP <= nc.x && nc.x <= FX_CAP && -FX_CAP <= nc.y && nc.y <= FX_CAP && -FX_CAP
            <= nc.z && nc.z <= FX_CAP {
            bodies.set(ai, Sphere { c: nc, r: s.r });
        }
        let v2 = clamp_velocity(velocities[ai], c.normal);
        let m = masses[ai];
        proof {
            lemma_abs_mul(v2.x as int, m as int, 0x10_0000_0000_0000, 0x4000_0000);
            lemma_abs_mul(v2.y as int, m as int, 0x10_0000_0000_0000, 0x4000_0000);
            lemma_abs_mul(v2.z as int, m as int, 0x10_0000_0000_0000, 0x4000_0000);
        }
        let px: i128 = (v2.x as i128) * (m as i128) / (FX_ONE as i128);
        let py: i128 = (v2.y as i128) * (m as i128) / (FX_ONE as i128);
        let pz: i128 = (v2.z as i128) * (m as i128) / (FX_ONE as i128);
        let cap = FX_CAP as i128;
        if -cap <= px && px <= cap && -cap <= py && py <= cap && -cap <= pz && pz <= cap {
            momenta.set(ai, Vec3 { x: px as i64, y: py as i64, z: pz as i64 });
        }
        proof {
            assert(bodies@ == stat_upto(
                old(bodies)@,
                old(momenta)@,
                velocities@,
                masses@,
                contacts@,
                k + 1,
            ).0);
            assert(momenta@ == stat_upto(
                old(bodies)@,
                old(momenta)@,
                velocities@,
                masses@,
                contacts@,
                k + 1,
            ).1);
        }
        k = k + 1;
    }
}

/// One dynamic-pair resolution step: the two bodies separate along the
/// contact normal by half the depth each, and where they approach along it,
/// the exchanged normal velocity moves from one to the other, one amount
/// subtracted here and added there, so their sum is untouched. Either half
/// is skipped where it would carry a component beyond the cap.
pub open spec fn dyn_step(bodies: Seq<Sphere>, vels: Seq<Vec3>, c: Contact<usize>) -> (
    Seq<Sphere>,
    Seq<Vec3>,
) {
    let a = c.a as int;
    let b = c.b as int;
    let half = tdiv(c.depth as int, 2) as i64;
    let sa = bodies[a];
    let sb = bodies[b];
    let sa2 = Sphere { c: vec_pushed(sa.c, c.normal, half), r: sa.r };
    let sb2 = Sphere { c: vec_pulled(sb.c, c.normal, half), r: sb.r };
    let bodies2 = if vec_capped(sa2.c) && vec_capped(sb2.c) {
        bodies.update(a, sa2).update(b, sb2)
    } else {
        bodies
    };
    let va = vels[a];
    let vb = vels[b];
    let rel = tdiv(dot3(va, c.normal), FX_ONE as int) - tdiv(dot3(vb, c.normal), FX_ONE as int);
    let vels2 = if rel < 0 {
        let va2 = Vec3 {
            x: (va.x - tdiv(c.normal.x * rel, FX_ONE as int)) as i64,
            y: (va.y - tdiv(c.normal.y * rel, FX_ONE as int)) as i64,
            z: (va.z - tdiv(c.normal.z * rel, FX_ONE as int)) as i64,
        };
        let vb2 = Vec3 {
            x: (vb.x + tdiv(c.normal.x * rel, FX_ONE as int)) as i64,
            y: (vb.y + tdiv(c.normal.y * rel, FX_ONE as int)) as i64,
            z: (vb.z + tdiv(c.normal.z * rel, FX_ONE as int)) as i64,
        };
        if vec_capped(va2) && vec_capped(vb2) {
            vels.update(a, va2).update(b, vb2)
        } else {
            vels
        }
    } else {
        vels
    };
    (bodies2, vels2)
}

/// The first `upto` dynamic contacts resolved in order.
pub open spec fn dyn_upto(
    bodies: Seq<Sphere>,
    vels: Seq<Vec3>,
    contacts: Seq<Contact<usize>>,
    upto: int,
) -> (Seq<Sphere>, Seq<Vec3>)
    decreases upto,
{
    if upto <= 0 {
        (bodies, vels)
    } else {
        let prev = dyn_upto(bodies, vels, contacts, upto - 1);
        dyn_step(prev.0, prev.1, contacts[upto - 1])
    }
}

/// Resolves pairs of dynamic bodies against each other: for each contact in
/// order, the pair separates along the contact normal by half the depth
/// each, and where the pair approaches along the normal, the normal
/// velocity components are exchanged, the same amount leaving one body and
/// entering the other, which conserves their summed velocity exactly.
/// Positions and velocities whose correction would leave the cap are left
/// as they are.
pub fn restitute_dyns(
    bodies: &mut Vec<Sphere>,
    velocities: &mut Vec<Vec3>,
    contacts: &Vec<Contact<usize>>,
)
    requires
        old(bodies)@.len() == old(velocities)@.len(),
        forall|t: int| 0 <= t < old(bodies)@.len() ==> vec_capped((#[trigger] old(bodies)@[t]).c),
        forall|t: int|
            0 <= t < old(velocities)@.len() ==> vec_capped(#[trigger] old(velocities)@[t]),
        forall|t: int|
            0 <= t < contacts@.len() ==> contact_ok(#[trigger] contacts@[t]) && contacts@[t].a
                < old(bodies)@.len() && contacts@[t].b < old(bodies)@.len() && contacts@[t].a
                != contacts@[t].b,
    ensures
        final(bodies)@ == dyn_upto(
            old(bodies)@,
            old(velocities)@,
            contacts@,
            contacts@.len() as int,
        ).0,
        final(velocities)@ == dyn_upto(
            old(bodies)@,
            old(velocities)@,
            contacts@,
            contacts@.len() as int,
        ).1,
{
    let n = contacts.len();
    let mut k: usize = 0;
    while k < n
        invariant
            n == contacts@.len(),
            0 <= k <= n,
            bodies@.len() == old(bodies)@.len(),
            velocities@.len() == old(velocities)@.len(),
            old(bodies)@.len() == old(velocities)@.len(),
            forall|t: int|
                0 <= t < contacts@.len() ==> contact_ok(#[trigger] contacts@[t]) && contacts@[t].a
                    < old(bodies)@.len() && contacts@[t].b < old(bodies)@.len() && contacts@[t].a
                    != contacts@[t].b,
            forall|t: int| 0 <= t < bodies@.len() ==> vec_capped((#[trigger] bodies@[t]).c),
            forall|t: int| 0 <= t < velocities@.len() ==> vec_capped(#[trigger] velocities@[t]),
            bodies@ == dyn_upto(old(bodies)@, old(velocities)@, contacts@, k as int).0,
            velocities@ == dyn_upto(old(bodies)@, old(velocities)@, contacts@, k as int).1,
        decreases n - k,
    {
        let c = contacts[k];
        let ai = c.a;
        let bi = c.b;
        let half = c.depth / 2;
        proof {
            lemma_scale_term_bound(c.normal.x, half, 0x10_0000_0000);
            lemma_scale_term_bound(c.normal.y, half, 0x10_0000_0000);
            lemma_scale_term_bound(c.normal.z, half, 0x10_0000_0000);
        }
        let shift = c.normal.scale_fx(half);
        let sa = bodies[ai];
        let sb = bodies[bi];
        let ca2 = sa.c.add(shift);
        let cb2 = sb.c.sub(shift);
        if -FX_CAP <= ca2.x && ca2.x <= FX_CAP && -FX_CAP <= ca2.y && ca2.y <= FX_CAP && -FX_CAP
            <= ca2.z && ca2.z <= FX_CAP && -FX_CAP <= cb2.x && cb2.x <= FX_CAP && -FX_CAP <= cb2.y
            && cb2.y <= FX_CAP && -FX_CAP <= cb2.z && cb2.z <= FX_CAP {
            bodies.set(ai, Sphere { c: ca2, r: sa.r });
            bodies.set(bi, Sphere { c: cb2, r: sb.r });
        }
        let va = velocities[ai];
        let vb = velocities[bi];
        proof {
            lemma_vn_bound(va, c.normal);
            lemma_vn_bound(vb, c.normal);
        }
        let vna = va.dot_fx(c.normal);
        let vnb = vb.dot_fx(c.normal);
        let rel = vna - vnb;
        if rel < 0 {
            proof {
                lemma_scale_term_bound(c.normal.x, rel, 0x3_0000_0000_0000);
                lemma_scale_term_bound(c.normal.y, rel, 0x3_0000_0000_0000);
                lemma_scale_term_bound(c.normal.z, rel, 0x3_0000_0000_0000);
            }
            let t = c.normal.scale_fx(rel);
            let va2 = va.sub(t);
            let vb2 = vb.add(t);
            if -FX_CAP <= va2.x && va2.x <= FX_CAP && -FX_CAP <= va2.y && va2.y <= FX_CAP
                && -FX_CAP <= va2.z && va2.z <= FX_CAP && -FX_CAP <= vb2.x && vb2.x <= FX_CAP
                && -FX_CAP <= vb2.y && vb2.y <= FX_CAP && -FX_CAP <= vb2.z && vb2.z <= FX_CAP {
                velocities.set(ai, va2);
                velocities.set(bi, vb2);
            }
        }
        proof {
            assert(bodies@ == dyn_upto(old(bodies)@, old(velocities)@, contacts@, k + 1).0);
            assert(velocities@ == dyn_upto(old(bodies)@, old(velocities)@, contacts@, k + 1).1);
        }
        k = k + 1;
    }
}

/// The sum of the first components of a list of vectors.
pub open spec fn sum_x(vs: Seq<Vec3>) -> int
    decreases vs.len(),
{
    if vs.len() == 0 {
        0
    } else {
        sum_x(vs.drop_last()) + vs.last().x
    }
}

/// The sum of the second components of a list of vectors.
pub open spec fn sum_y(vs: Seq<Vec3>) -> int
    decreases vs.len(),
{
    if vs.len() == 0 {
        0
    } else {
        sum_y(vs.drop_last()) + vs.last().y
    }
}

/// The sum of the third components of a list of vectors.
pub open spec fn sum_z(vs: Seq<Vec3>) -> int
    decreases vs.len(),
{
    if vs.len() == 0 {
        0
    } else {
        sum_z(vs.drop_last()) + vs.last().z
    }
}

/// Replacing one vector changes each component sum by the difference at
/// that place.
proof fn lemma_sum_upd(vs: Seq<Vec3>, i: int, v: Vec3)
    requires
        0 <= i < vs.len(),
    ensures
        sum_x(vs.update(i, v)) == sum_x(vs) - vs[i].x + v.x,
        sum_y(vs.update(i, v)) == sum_y(vs) - vs[i].y + v.y,
        sum_z(vs.update(i, v)) == sum_z(vs) - vs[i].z + v.z,
    decreases vs.len(),
{
    if i == vs.len() - 1 {
        assert(vs.update(i, v).drop_last() =~= vs.drop_last());
    } else {
        lemma_sum_upd(vs.drop_last(), i, v);
        assert(vs.update(i, v).drop_last() =~= vs.drop_last().update(i, v));
    }
}

/// Along the resolution of dynamic contacts, the velocity list keeps its
/// length, every velocity stays within the cap, and each component sum is
/// exactly conserved.
proof fn lemma_dyn_upto_sums(
    bodies: Seq<Sphere>,
    vels: Seq<Vec3>,
    contacts: Seq<Contact<usize>>,
    upto: int,
)
    requires
        0 <= upto <= contacts.len(),
        bodies.len() == vels.len(),
        forall|t: int| 0 <= t < vels.len() ==> vec_capped(#[trigger] vels[t]),
        forall|t: int|
            0 <= t < contacts.len() ==> contact_ok(#[trigger] contacts[t]) && contacts[t].a
                < bodies.len() && contacts[t].b < bodies.len() && contacts[t].a != contacts[t].b,
    ensures
        dyn_upto(bodies, vels, contacts, upto).1.len() == vels.len(),
        forall|t: int|
            0 <= t < vels.len() ==> vec_capped(
                #[trigger] dyn_upto(bodies, vels, contacts, upto).1[t],
            ),
        sum_x(dyn_upto(bodies, vels, contacts, upto).1) == sum_x(vels),
        sum_y(dyn_upto(bodies, vels, contacts, upto).1) == sum_y(vels),
        sum_z(dyn_upto(bodies, vels, contacts, upto).1) == sum_z(vels),
    decreases upto,
{
    if upto > 0 {
        lemma_dyn_upto_sums(bodies, vels, contacts, upto - 1);
        let prev = dyn_upto(bodies, vels, contacts, upto - 1);
        let c = contacts[upto - 1];
        let a = c.a as int;
        let b = c.b as int;
        let va = prev.1[a];
        let vb = prev.1[b];
        lemma_vn_bound(va, c.normal);
        lemma_vn_bound(vb, c.normal);
        let rel = tdiv(dot3(va, c.normal), FX_ONE as int) - tdiv(
            dot3(vb, c.normal),
            FX_ONE as int,
        );
        if rel < 0 {
            lemma_scale_term_bound(c.normal.x, rel as i64, 0x3_0000_0000_0000);
            lemma_scale_term_bound(c.normal.y, rel as i64, 0x3_0000_0000_0000);
            lemma_scale_term_bound(c.normal.z, rel as i64, 0x3_0000_0000_0000);
            let va2 = Vec3 {
                x: (va.x - tdiv(c.normal.x * rel, FX_ONE as int)) as i64,
                y: (va.y - tdiv(c.normal.y * rel, FX_ONE as int)) as i64,
                z: (va.z - tdiv(c.normal.z * rel, FX_ONE as int)) as i64,
            };
            let vb2 = Vec3 {
                x: (vb.x + tdiv(c.normal.x * rel, FX_ONE as int)) as i64,
                y: (vb.y + tdiv(c.normal.y * rel, FX_ONE as int)) as i64,
                z: (vb.z + tdiv(c.normal.z * rel, FX_ONE as int)) as i64,
            };
            if vec_capped(va2) && vec_capped(vb2) {
                lemma_sum_upd(prev.1, a, va2);
                lemma_sum_upd(prev.1.update(a, va2), b, vb2);
            }
        }
    }
}

/// Law: resolving dynamic pairs conserves total momentum. The bodies all
/// carry the same mass here, so momentum is velocity: after
/// `restitute_dyns`, the componentwise sum of all velocities equals the sum
/// before the call, exactly, whatever the contacts were, since what each
/// exchange takes from one body it gives to the other.
pub proof fn lemma_dyns_conserve_momentum(
    bodies: Seq<Sphere>,
    vels: Seq<Vec3>,
    contacts: Seq<Contact<usize>>,
)
    requires
        bodies.len() == vels.len(),
        forall|t: int| 0 <= t < vels.len() ==> vec_capped(#[trigger] vels[t]),
        forall|t: int|
            0 <= t < contacts.len() ==> contact_ok(#[trigger] contacts[t]) && contacts[t].a
                < bodies.len() && contacts[t].b < bodies.len() && contacts[t].a != contacts[t].b,
    ensures
        sum_x(dyn_upto(bodies, vels, contacts, contacts.len() as int).1) == sum_x(vels),
        sum_y(dyn_upto(bodies, vels, contacts, contacts.len() as int).1) == sum_y(vels),
        sum_z(dyn_upto(bodies, vels, contacts, contacts.len() as int).1) == sum_z(vels),
{
    lemma_dyn_upto_sums(bodies, vels, contacts, contacts.len() as int);
}

/// Law: resolving a sphere against a static plane settles it. For a plane
/// whose normal is exactly unit length in fixed point, the pushed-out
/// sphere's residual penetration is at most four fixed-point ulps in either
/// direction, and the clamped velocity's component along the plane normal
/// is at least minus four ulps: the body no longer measurably sinks or
/// moves into the plane.
pub proof fn lemma_stat_resolution_settles(s: Sphere, p: Plane, v: Vec3)
    requires
        sphere_ok(s),
        plane_ok(p),
        dot3(p.n, p.n) == FX_ONE as int * FX_ONE as int,
        sp_overlap(s, p),
        vec_capped(v),
    ensures
        vec_capped(sphere_pushed(s, p.n, sp_contact(0, 0, s, p).depth).c),
        s.r - 4 <= sp_sd(sphere_pushed(s, p.n, sp_contact(0, 0, s, p).depth), p) <= s.r + 4,
        tdiv(dot3(vel_clamped(v, p.n), p.n), FX_ONE as int) >= -4,
{
    let unit = FX_ONE as int;
    let n = p.n;
    lemma_unit_components(n);
    let dd = dot3(s.c, n);
    lemma_abs_mul(s.c.x as int, n.x as int, 0x4000_0000, 0x10000);
    lemma_abs_mul(s.c.y as int, n.y as int, 0x4000_0000, 0x10000);
    lemma_abs_mul(s.c.z as int, n.z as int, 0x4000_0000, 0x10000);
    lemma_tdiv_ratio(dd, 0x10000, 0xC000_0000);
    let sd0 = tdiv(dd, unit);
    let depth_int = s.r - (sd0 - p.d);
    let depth = sp_contact(0, 0, s, p).depth;
    assert(depth == depth_int);
    assert(0 < depth_int <= 0x2_0000_0000);
    lemma_scale_term_bound(n.x, depth, 0x2_0000_0000);
    lemma_scale_term_bound(n.y, depth, 0x2_0000_0000);
    lemma_scale_term_bound(n.z, depth, 0x2_0000_0000);
    let qx = tdiv(n.x * depth, unit);
    let qy = tdiv(n.y * depth, unit);
    let qz = tdiv(n.z * depth, unit);
    let s2 = sphere_pushed(s, n, depth);
    assert(s2.c.x == s.c.x + qx && s2.c.y == s.c.y + qy && s2.c.z == s.c.z + qz);
    lemma_tdiv(n.x * depth as int, unit);
    lemma_tdiv(n.y * depth as int, unit);
    lemma_tdiv(n.z * depth as int, unit);
    let ex = n.x * depth - qx * unit;
    let ey = n.y * depth - qy * unit;
    let ez = n.z * depth - qz * unit;
    assert(-unit < ex < unit && -unit < ey < unit && -unit < ez < unit);
    let dd2 = dot3(s2.c, n);
    assert(dd2 == dd + (qx * n.x + qy * n.y + qz * n.z)) by (nonlinear_arith)
        requires
            dd2 == (s.c.x + qx) * n.x + (s.c.y + qy) * n.y + (s.c.z + qz) * n.z,
            dd == s.c.x * n.x + s.c.y * n.y + s.c.z * n.z,
    ;
    let qn = qx * n.x + qy * n.y + qz * n.z;
    let ee = ex * n.x + ey * n.y + ez * n.z;
    assert(qx * n.x * unit == n.x * n.x * depth - ex * n.x) by (nonlinear_arith)
        requires
            qx * unit == n.x * depth - ex,
    ;
    assert(qy * n.y * unit == n.y * n.y * depth - ey * n.y) by (nonlinear_arith)
        requires
            qy * unit == n.y * depth - ey,
    ;
    assert(qz * n.z * unit == n.z * n.z * depth - ez * n.z) by (nonlinear_arith)
        requires
            qz * unit == n.z * depth - ez,
    ;
    assert(qn * unit == qx * n.x * unit + qy * n.y * unit + qz * n.z * unit) by (nonlinear_arith)
        requires
            qn == qx * n.x + qy * n.y + qz * n.z,
    ;
    assert(n.x * n.x * depth + n.y * n.y * depth + n.z * n.z * depth == depth * (unit * unit)) by (
    nonlinear_arith)
        requires
            n.x as int * n.x as int + n.y as int * n.y as int + n.z as int * n.z as int == unit
                * unit,
    ;
    assert(qn * unit == depth * (unit * unit) - ee);
    lemma_abs_mul(ex, n.x as int, unit, unit);
    lemma_abs_mul(ey, n.y as int, unit, unit);
    lemma_abs_mul(ez, n.z as int, unit, unit);
    assert(-3 * (unit * unit) <= ee <= 3 * (unit * unit));
    lemma_tdiv(dd, unit);
    lemma_tdiv(dd2, unit);
    let sd2 = tdiv(dd2, unit);
    let rho = dd - sd0 * unit;
    let rho2 = dd2 - sd2 * unit;
    assert(-unit < rho < unit && -unit < rho2 < unit);
    assert(sd2 * (unit * unit) == sd0 * (unit * unit) + depth * (unit * unit) + rho * unit - ee
        - rho2 * unit) by (nonlinear_arith)
        requires
            dd2 == dd + qn,
            qn * unit == depth * (unit * unit) - ee,
            rho == dd - sd0 * unit,
            rho2 == dd2 - sd2 * unit,
    ;
    assert(sd0 + depth - 4 <= sd2 <= sd0 + depth + 4) by (nonlinear_arith)
        requires
            sd2 * (unit * unit) == sd0 * (unit * unit) + depth * (unit * unit) + rho * unit - ee
                - rho2 * unit,
            -unit < rho < unit,
            -unit < rho2 < unit,
            -3 * (unit * unit) <= ee <= 3 * (unit * unit),
            unit == 0x10000,
    ;
    let vn = tdiv(dot3(v, n), unit);
    lemma_vn_bound(v, n);
    if vn < 0 {
        lemma_scale_term_bound(n.x, vn as i64, 0x1_8000_0000_0000);
        lemma_scale_term_bound(n.y, vn as i64, 0x1_8000_0000_0000);
        lemma_scale_term_bound(n.z, vn as i64, 0x1_8000_0000_0000);
        let tx = tdiv(n.x * vn, unit);
        let ty = tdiv(n.y * vn, unit);
        let tz = tdiv(n.z * vn, unit);
        let v2 = vel_clamped(v, n);
        assert(v2.x == v.x - tx && v2.y == v.y - ty && v2.z == v.z - tz);
        lemma_tdiv(n.x * vn, unit);
        lemma_tdiv(n.y * vn, unit);
        lemma_tdiv(n.z * vn, unit);
        let fx = n.x * vn - tx * unit;
        let fy = n.y * vn - ty * unit;
        let fz = n.z * vn - tz * unit;
        assert(-unit < fx < unit && -unit < fy < unit && -unit < fz < unit);
        let dv = dot3(v, n);
        let dv2 = dot3(v2, n);
        assert(dv2 == dv - (tx * n.x + ty * n.y + tz * n.z)) by (nonlinear_arith)
            requires
                dv2 == (v.x - tx) * n.x + (v.y - ty) * n.y + (v.z - tz) * n.z,
                dv == v.x * n.x + v.y * n.y + v.z * n.z,
        ;
        let tn = tx * n.x + ty * n.y + tz * n.z;
        let ff = fx * n.x + fy * n.y + fz * n.z;
        assert(tx * n.x * unit == n.x * n.x * vn - fx * n.x) by (nonlinear_arith)
            requires
                tx * unit == n.x * vn - fx,
        ;
        assert(ty * n.y * unit == n.y * n.y * vn - fy * n.y) by (nonlinear_arith)
            requires
                ty * unit == n.y * vn - fy,
        ;
        assert(tz * n.z * unit == n.z * n.z * vn - fz * n.z) by (nonlinear_arith)
            requires
                tz * unit == n.z * vn - fz,
        ;
        assert(tn * unit == tx * n.x * unit + ty * n.y * unit + tz * n.z * unit) by (
        nonlinear_arith)
            requires
                tn == tx * n.x + ty * n.y + tz * n.z,
        ;
        assert(n.x * n.x * vn + n.y * n.y * vn + n.z * n.z * vn == vn * (unit * unit)) by (
        nonlinear_arith)
            requires
                n.x as int * n.x as int + n.y as int * n.y as int + n.z as int * n.z as int == unit
                    * unit,
        ;
        assert(tn * unit == vn * (unit * unit) - ff);
        lemma_abs_mul(fx, n.x as int, unit, unit);
        lemma_abs_mul(fy, n.y as int, unit, unit);
        lemma_abs_mul(fz, n.z as int, unit, unit);
        assert(-3 * (unit * unit) <= ff <= 3 * (unit * unit));
        lemma_tdiv(dv, unit);
        lemma_tdiv(dv2, unit);
        let vn2 = tdiv(dv2, unit);
        let rv = dv - vn * unit;
        let rv2 = dv2 - vn2 * unit;
        assert(-unit < rv < unit && -unit < rv2 < unit);
        assert(vn2 * (unit * unit) == rv * unit + ff - rv2 * unit) by (nonlinear_arith)
            requires
                dv2 == dv - tn,
                tn * unit == vn * (unit * unit) - ff,
                rv == dv - vn * unit,
                rv2 == dv2 - vn2 * unit,
        ;
        assert(-4 <= vn2 <= 4) by (nonlinear_arith)
            requires
                vn2 * (unit * unit) == rv * unit + ff - rv2 * unit,
                -unit < rv < unit,
                -unit < rv2 < unit,
                -3 * (unit * unit) <= ff <= 3 * (unit * unit),
                unit == 0x10000,
        ;
    }
}

/// Moving a point along an exactly-unit direction by a fixed-point amount
/// moves its projection on that direction by the amount, within three ulps.
proof fn lemma_push_dot_shift(cv: Vec3, n: Vec3, h: i64)
    requires
        vec_capped(cv),
        dot3(n, n) == FX_ONE as int * FX_ONE as int,
        0 <= h <= 0x10_0000_0000,
    ensures
        dot3(vec_pushed(cv, n, h), n) - dot3(cv, n) - h * (FX_ONE as int) <= 3 * (FX_ONE as int),
        dot3(vec_pushed(cv, n, h), n) - dot3(cv, n) - h * (FX_ONE as int) >= -3 * (FX_ONE as int),
        dot3(vec_pulled(cv, n, h), n) - dot3(cv, n) + h * (FX_ONE as int) <= 3 * (FX_ONE as int),
        dot3(vec_pulled(cv, n, h), n) - dot3(cv, n) + h * (FX_ONE as int) >= -3 * (FX_ONE as int),
{
    let unit = FX_ONE as int;
    lemma_unit_components(n);
    lemma_scale_term_bound(n.x, h, 0x10_0000_0000);
    lemma_scale_term_bound(n.y, h, 0x10_0000_0000);
    lemma_scale_term_bound(n.z, h, 0x10_0000_0000);
    let qx = tdiv(n.x * h, unit);
    let qy = tdiv(n.y * h, unit);
    let qz = tdiv(n.z * h, unit);
    lemma_tdiv(n.x * h as int, unit);
    lemma_tdiv(n.y * h as int, unit);
    lemma_tdiv(n.z * h as int, unit);
    let ex = n.x * h - qx * unit;
    let ey = n.y * h - qy * unit;
    let ez = n.z * h - qz * unit;
    assert(-unit < ex < unit && -unit < ey < unit && -unit < ez < unit);
    let up = vec_pushed(cv, n, h);
    let dn = vec_pulled(cv, n, h);
    assert(up.x == cv.x + qx && up.y == cv.y + qy && up.z == cv.z + qz);
    assert(dn.x == cv.x - qx && dn.y == cv.y - qy && dn.z == cv.z - qz);
    let qn = qx * n.x + qy * n.y + qz * n.z;
    assert(dot3(up, n) == dot3(cv, n) + qn) by (nonlinear_arith)
        requires
            dot3(up, n) == (cv.x + qx) * n.x + (cv.y + qy) * n.y + (cv.z + qz) * n.z,
            dot3(cv, n) == cv.x * n.x + cv.y * n.y + cv.z * n.z,
            qn == qx * n.x + qy * n.y + qz * n.z,
    ;
    assert(dot3(dn, n) == dot3(cv, n) - qn) by (nonlinear_arith)
        requires
            dot3(dn, n) == (cv.x - qx) * n.x + (cv.y - qy) * n.y + (cv.z - qz) * n.z,
            dot3(cv, n) == cv.x * n.x + cv.y * n.y + cv.z * n.z,
            qn == qx * n.x + qy * n.y + qz * n.z,
    ;
    let ee = ex * n.x + ey * n.y + ez * n.z;
    assert(qx * n.x * unit == n.x * n.x * h - ex * n.x) by (nonlinear_arith)
        requires
            qx * unit == n.x * h - ex,
    ;
    assert(qy * n.y * unit == n.y * n.y * h - ey * n.y) by (nonlinear_arith)
        requires
            qy * unit == n.y * h - ey,
    ;
    assert(qz * n.z * unit == n.z * n.z * h - ez * n.z) by (nonlinear_arith)
        requires
            qz * unit == n.z * h - ez,
    ;
    assert(qn * unit == qx * n.x * unit + qy * n.y * unit + qz * n.z * unit) by (nonlinear_arith)
        requires
            qn == qx * n.x + qy * n.y + qz * n.z,
    ;
    assert(n.x * n.x * h + n.y * n.y * h + n.z * n.z * h == h * (unit * unit)) by (
    nonlinear_arith)
        requires
            n.x as int * n.x as int + n.y as int * n.y as int + n.z as int * n.z as int == unit
                * unit,
    ;
    lemma_abs_mul(ex, n.x as int, unit, unit);
    lemma_abs_mul(ey, n.y as int, unit, unit);
    lemma_abs_mul(ez, n.z as int, unit, unit);
    assert(qn * unit == h * (unit * unit) - ee);
    assert(-3 * (unit * unit) <= ee <= 3 * (unit * unit));
    assert(-3 * unit <= qn - h * unit <= 3 * unit) by (nonlinear_arith)
        requires
            qn * unit == h * (unit * unit) - ee,
            -3 * (unit * unit) <= ee <= 3 * (unit * unit),
            unit == 0x10000,
    ;
}

/// Law: resolving a dynamic pair separates it. For a contact with an
/// exactly-unit normal, the two centers as the resolver moves them, half
/// the depth each way, end up farther apart along the normal by the
/// penetration depth, within seven fixed-point ulps.
pub proof fn lemma_dyns_separate_pair(sa: Sphere, sb: Sphere, n: Vec3, depth: i64)
    requires
        vec_capped(sa.c),
        vec_capped(sb.c),
        dot3(n, n) == FX_ONE as int * FX_ONE as int,
        0 < depth <= 0x10_0000_0000,
    ensures
        ({
            let half = tdiv(depth as int, 2) as i64;
            dot3(vec_pushed(sa.c, n, half), n) - dot3(vec_pulled(sb.c, n, half), n) >= dot3(
                sa.c,
                n,
            ) - dot3(sb.c, n) + (depth - 7) * (FX_ONE as int)
        }),
{
    let half = tdiv(depth as int, 2) as i64;
    assert(half == depth as int / 2);
    assert(2 * half >= depth - 1);
    lemma_push_dot_shift(sa.c, n, half);
    lemma_push_dot_shift(sb.c, n, half);
    assert((2 * half) * (FX_ONE as int) >= (depth - 1) * (FX_ONE as int)) by (nonlinear_arith)
        requires
            2 * half >= depth - 1,
            FX_ONE == 65536,
    ;
    assert(half * (FX_ONE as int) + half * (FX_ONE as int) == (2 * half) * (FX_ONE as int)) by (
    nonlinear_arith);
    assert((depth - 1) * (FX_ONE as int) == depth * (FX_ONE as int) - FX_ONE as int) by (
    nonlinear_arith);
    assert((depth - 7) * (FX_ONE as int) == depth * (FX_ONE as int) - 7 * (FX_ONE as int)) by (
    nonlinear_arith);
}

/// A normal of exactly unit fixed-point length has every component within
/// the unit.
proof fn lemma_unit_components(n: Vec3)
    requires
        dot3(n, n) == FX_ONE as int * FX_ONE as int,
    ensures
        -(FX_ONE as int) <= n.x <= FX_ONE as int,
        -(FX_ONE as int) <= n.y <= FX_ONE as int,
        -(FX_ONE as int) <= n.z <= FX_ONE as int,
{
    assert(-(FX_ONE as int) <= n.x <= FX_ONE as int && -(FX_ONE as int) <= n.y <= FX_ONE as int
        && -(FX_ONE as int) <= n.z <= FX_ONE as int) by (nonlinear_arith)
        requires
            n.x as int * n.x as int + n.y as int * n.y as int + n.z as int * n.z as int
                == FX_ONE as int * FX_ONE as int,
            FX_ONE == 65536,
    ;
}

} // verus!
