use engine3d::collision::{
    gather_contacts_aa, gather_contacts_ab, restitute_dyn_stat, restitute_dyns, Contact, Shape,
};
use engine3d::geom::{fx_mul, Plane, Sphere, Vec3, DT, FX_ONE};

fn v3(x: i64, y: i64, z: i64) -> Vec3 {
    Vec3 { x, y, z }
}

fn ground() -> Plane {
    Plane { n: v3(0, FX_ONE, 0), d: 0 }
}

#[test]
fn sphere_on_plane_yields_one_contact_with_the_plane_normal() {
    // A sphere of radius 0.6 centered at height 0.5 sinks 0.1 into the
    // ground plane.
    let s = Sphere { c: v3(0, FX_ONE / 2, 0), r: 39321 };
    let dyns = vec![s];
    let others = vec![Shape::Plane(ground())];
    let mut out: Vec<Contact<usize>> = Vec::new();
    gather_contacts_ab(&dyns, &others, &mut out);
    assert_eq!(out.len(), 1);
    assert_eq!(out[0].a, 0);
    assert_eq!(out[0].b, 0);
    assert_eq!(out[0].normal, v3(0, FX_ONE, 0));
    // Depth is a tenth, one fixed-point ulp short of exact.
    assert_eq!(out[0].depth, 6553);
    assert!((out[0].depth - FX_ONE / 10) .abs() <= 1);
}

#[test]
fn sphere_above_plane_yields_no_contact() {
    let s = Sphere { c: v3(0, FX_ONE, 0), r: 19660 };
    let dyns = vec![s];
    let others = vec![Shape::Plane(ground())];
    let mut out: Vec<Contact<usize>> = Vec::new();
    gather_contacts_ab(&dyns, &others, &mut out);
    assert_eq!(out.len(), 0);
}

#[test]
fn spheres_near_yield_one_contact_and_far_yield_none() {
    // Two spheres of radius 0.5 with centers 0.9 apart overlap by 0.1.
    let a = Sphere { c: v3(0, 0, 0), r: FX_ONE / 2 };
    let b = Sphere { c: v3(58982, 0, 0), r: FX_ONE / 2 };
    let mut out: Vec<Contact<usize>> = Vec::new();
    gather_contacts_aa(&vec![a, b], &mut out);
    assert_eq!(out.len(), 1);
    assert_eq!((out[0].a, out[0].b), (0, 1));
    assert_eq!(out[0].depth, 6554);
    assert!((out[0].depth - FX_ONE / 10).abs() <= 1);
    // The normal points from the second body toward the first.
    assert_eq!(out[0].normal, v3(-FX_ONE, 0, 0));

    // Centers 1.1 apart stay clear.
    let far = Sphere { c: v3(72090, 0, 0), r: FX_ONE / 2 };
    let mut none: Vec<Contact<usize>> = Vec::new();
    gather_contacts_aa(&vec![a, far], &mut none);
    assert_eq!(none.len(), 0);
}

#[test]
fn empty_inputs_yield_no_contacts() {
    let empty: Vec<Sphere> = Vec::new();
    let mut out: Vec<Contact<usize>> = Vec::new();
    gather_contacts_ab(&empty, &vec![Shape::Plane(ground())], &mut out);
    assert_eq!(out.len(), 0);
    gather_contacts_ab(&vec![Sphere { c: v3(0, 0, 0), r: FX_ONE }], &Vec::new(), &mut out);
    assert_eq!(out.len(), 0);
    gather_contacts_aa(&empty, &mut out);
    assert_eq!(out.len(), 0);
}

#[test]
fn coincident_centers_fall_back_to_the_vertical_normal() {
    let a = Sphere { c: v3(7, 7, 7), r: FX_ONE / 2 };
    let b = Sphere { c: v3(7, 7, 7), r: FX_ONE / 4 };
    let mut out: Vec<Contact<usize>> = Vec::new();
    gather_contacts_aa(&vec![a, b], &mut out);
    assert_eq!(out.len(), 1);
    assert_eq!(out[0].normal, v3(0, FX_ONE, 0));
    assert_eq!(out[0].depth, 3 * FX_ONE / 4);
}

#[test]
fn tangent_spheres_do_not_touch() {
    // Exactly touching surfaces are non-overlapping by the strict test.
    let a = Sphere { c: v3(0, 0, 0), r: FX_ONE / 2 };
    let b = Sphere { c: v3(FX_ONE, 0, 0), r: FX_ONE / 2 };
    let mut out: Vec<Contact<usize>> = Vec::new();
    gather_contacts_aa(&vec![a, b], &mut out);
    assert_eq!(out.len(), 0);
}

#[test]
fn static_resolution_pushes_out_and_clamps_momentum() {
    // The sphere from the plane scenario, falling at 2.0 with unit mass.
    let s = Sphere { c: v3(0, FX_ONE / 2, 0), r: 39321 };
    let mut bodies = vec![s];
    let velocities = vec![v3(0, -2 * FX_ONE, 0)];
    let mut momenta = vec![v3(0, -2 * FX_ONE, 0)];
    let masses = vec![FX_ONE];
    let statics = vec![ground()];
    let others = vec![Shape::Plane(ground())];
    let mut contacts: Vec<Contact<usize>> = Vec::new();
    gather_contacts_ab(&bodies, &others, &mut contacts);
    assert_eq!(contacts.len(), 1);

    restitute_dyn_stat(&mut bodies, &velocities, &mut momenta, &masses, &statics, &contacts);

    // The body sits exactly at its radius: residual penetration is zero.
    assert_eq!(bodies[0].c.y, 39321);
    // The inward momentum is gone; nothing moves into the plane.
    assert_eq!(momenta[0], v3(0, 0, 0));
    assert!(momenta[0].y >= 0);

    // A fresh pass finds nothing left to resolve.
    let mut again: Vec<Contact<usize>> = Vec::new();
    gather_contacts_ab(&bodies, &others, &mut again);
    assert_eq!(again.len(), 0);
}

#[test]
fn dynamic_resolution_conserves_momentum_and_separates_the_pair() {
    // Two equal spheres of radius 0.5, centers 0.9 apart, approaching
    // head-on at 2.0 each.
    let a = Sphere { c: v3(0, 0, 0), r: FX_ONE / 2 };
    let b = Sphere { c: v3(58982, 0, 0), r: FX_ONE / 2 };
    let mut bodies = vec![a, b];
    let mut velocities = vec![v3(2 * FX_ONE, 0, 0), v3(-2 * FX_ONE, 0, 0)];
    let sum_before: i64 = velocities[0].x + velocities[1].x;

    let mut contacts: Vec<Contact<usize>> = Vec::new();
    gather_contacts_aa(&bodies, &mut contacts);
    assert_eq!(contacts.len(), 1);

    restitute_dyns(&mut bodies, &mut velocities, &contacts);

    // The pair separated along the line of centers by half the depth each.
    assert_eq!(bodies[0].c.x, -3277);
    assert_eq!(bodies[1].c.x, 62259);
    // The normal velocity components were exchanged, exactly.
    assert_eq!(velocities[0], v3(-2 * FX_ONE, 0, 0));
    assert_eq!(velocities[1], v3(2 * FX_ONE, 0, 0));
    // Total momentum along the line of centers is unchanged.
    assert_eq!(velocities[0].x + velocities[1].x, sum_before);

    // The pair is no longer interpenetrating.
    let mut again: Vec<Contact<usize>> = Vec::new();
    gather_contacts_aa(&bodies, &mut again);
    assert_eq!(again.len(), 0);
}

#[test]
fn falling_sphere_settles_on_the_ground_plane() {
    // A sphere of radius 0.3 dropped from height 3.0 under gravity 10,
    // stepped at the fixed tick rate, comes to rest on the plane instead of
    // sinking through or bouncing away.
    let gravity = 10 * FX_ONE;
    let mass = FX_ONE;
    let radius = 19661;
    let mut bodies = vec![Sphere { c: v3(0, 3 * FX_ONE, 0), r: radius }];
    let mut momenta = vec![v3(0, 0, 0)];
    let masses = vec![mass];
    let statics = vec![ground()];
    let others = vec![Shape::Plane(ground())];

    for _ in 0..600 {
        // Gravity feeds the momentum; with unit mass, velocity equals
        // momentum.
        momenta[0].y -= fx_mul(fx_mul(gravity, mass), DT);
        let velocities = vec![momenta[0]];
        bodies[0].c.y += fx_mul(velocities[0].y, DT);

        let mut contacts: Vec<Contact<usize>> = Vec::new();
        gather_contacts_ab(&bodies, &others, &mut contacts);
        restitute_dyn_stat(
            &mut bodies,
            &velocities,
            &mut momenta,
            &masses,
            &statics,
            &contacts,
        );
        // The body never falls through the plane.
        assert!(bodies[0].c.y > 0);
    }

    // At rest: residual penetration within a single tick's drift of zero,
    // and no momentum into the plane.
    assert!((bodies[0].c.y - radius).abs() <= 200);
    assert!(momenta[0].y >= 0);
    assert!(momenta[0].y <= 200);
}
