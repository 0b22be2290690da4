use engine3d::geom::{fx_div, fx_mul, isqrt, Plane, Sphere, Vec3, DT, FX_ONE};

#[test]
fn fixed_point_unit_and_tick() {
    assert_eq!(FX_ONE, 65536);
    // One tick is a sixtieth of a second, rounded down.
    assert_eq!(DT, FX_ONE / 60);
}

#[test]
fn fx_mul_scales_products_back() {
    assert_eq!(fx_mul(FX_ONE, FX_ONE), FX_ONE);
    assert_eq!(fx_mul(3 * FX_ONE, 2 * FX_ONE), 6 * FX_ONE);
    assert_eq!(fx_mul(FX_ONE / 2, FX_ONE / 2), FX_ONE / 4);
    assert_eq!(fx_mul(-3 * FX_ONE, 2 * FX_ONE), -6 * FX_ONE);
    // Rounding is toward zero on both sides.
    assert_eq!(fx_mul(1, 1), 0);
    assert_eq!(fx_mul(-1, 1), 0);
    assert_eq!(fx_mul(3, FX_ONE / 2), 1);
    assert_eq!(fx_mul(-3, FX_ONE / 2), -1);
}

#[test]
fn fx_div_scales_quotients_up() {
    assert_eq!(fx_div(FX_ONE, FX_ONE), FX_ONE);
    assert_eq!(fx_div(6 * FX_ONE, 2 * FX_ONE), 3 * FX_ONE);
    assert_eq!(fx_div(-6 * FX_ONE, 2 * FX_ONE), -3 * FX_ONE);
    assert_eq!(fx_div(FX_ONE, 3 * FX_ONE), 21845);
    assert_eq!(fx_div(0, 7), 0);
}

#[test]
fn isqrt_is_the_floor_square_root() {
    assert_eq!(isqrt(0), 0);
    assert_eq!(isqrt(1), 1);
    assert_eq!(isqrt(3), 1);
    assert_eq!(isqrt(4), 2);
    assert_eq!(isqrt(15), 3);
    assert_eq!(isqrt(16), 4);
    assert_eq!(isqrt(1 << 40), 1 << 20);
    assert_eq!(isqrt(u64::MAX), (1 << 32) - 1);
}

#[test]
fn vector_componentwise_arithmetic() {
    let a = Vec3 { x: FX_ONE, y: -2 * FX_ONE, z: 3 };
    let b = Vec3 { x: 10, y: FX_ONE, z: -3 };
    let s = a.add(b);
    assert_eq!(s, Vec3 { x: FX_ONE + 10, y: -FX_ONE, z: 0 });
    let d = a.sub(b);
    assert_eq!(d, Vec3 { x: FX_ONE - 10, y: -3 * FX_ONE, z: 6 });
}

#[test]
fn dot_fx_projects_on_a_unit_axis() {
    let v = Vec3 { x: 3 * FX_ONE, y: -5 * FX_ONE, z: 7 };
    let up = Vec3 { x: 0, y: FX_ONE, z: 0 };
    assert_eq!(v.dot_fx(up), -5 * FX_ONE);
    let right = Vec3 { x: FX_ONE, y: 0, z: 0 };
    assert_eq!(v.dot_fx(right), 3 * FX_ONE);
}

#[test]
fn scale_fx_scales_a_unit_axis() {
    let up = Vec3 { x: 0, y: FX_ONE, z: 0 };
    let t = up.scale_fx(-3 * FX_ONE / 2);
    assert_eq!(t, Vec3 { x: 0, y: -3 * FX_ONE / 2, z: 0 });
}

#[test]
fn geometry_values_hold_their_fields() {
    let s = Sphere { c: Vec3 { x: 0, y: FX_ONE / 2, z: 0 }, r: FX_ONE / 4 };
    assert_eq!(s.c.y, 32768);
    assert_eq!(s.r, 16384);
    let p = Plane { n: Vec3 { x: 0, y: FX_ONE, z: 0 }, d: 0 };
    assert_eq!(p.n.y, FX_ONE);
    assert_eq!(p.d, 0);
}
