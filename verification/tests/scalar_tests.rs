use raytracer::aabb::{Crossing, AABB};
use raytracer::base::{Axis, Vec3};
use raytracer::scalar::Scalar;

fn s(x: f64) -> Scalar {
    Scalar::from_bits(x.to_bits())
}

fn f(x: Scalar) -> f64 {
    f64::from_bits(x.to_bits())
}

fn v(x: f64, y: f64, z: f64) -> Vec3 {
    Vec3::new(s(x), s(y), s(z))
}

fn samples() -> Vec<f64> {
    vec![
        0.0,
        -0.0,
        1.0,
        -1.0,
        0.5,
        -0.5,
        1e-8,
        -1e-8,
        1e-300,
        5e-324,
        -5e-324,
        1e300,
        -1e300,
        3.25,
        -3.25,
        0.999,
        255.999,
        f64::INFINITY,
        f64::NEG_INFINITY,
        f64::NAN,
        f64::MAX,
        f64::MIN,
        f64::MIN_POSITIVE,
    ]
}

#[test]
fn constants_have_the_bits_of_their_numbers() {
    assert_eq!(Scalar::zero().to_bits(), 0.0f64.to_bits());
    assert_eq!(Scalar::one().to_bits(), 1.0f64.to_bits());
    assert_eq!(raytracer::scalar::SIGN_BIT, (-0.0f64).to_bits());
    assert_eq!(raytracer::scalar::INFINITY_BITS, f64::INFINITY.to_bits());
    assert_eq!(raytracer::base::NEAR_ZERO_BITS, 1e-8f64.to_bits());
    assert_eq!(raytracer::render::CHANNEL_MAX_BITS, 0.999f64.to_bits());
}

#[test]
fn order_agrees_with_the_numbers() {
    for &a in samples().iter() {
        assert_eq!(s(a).is_nan(), a.is_nan());
        assert_eq!(s(a).is_negative(), a.is_sign_negative());
        for &b in samples().iter() {
            assert_eq!(s(a).lt(s(b)), a < b, "{} < {}", a, b);
            assert_eq!(s(a).le(s(b)), a <= b, "{} <= {}", a, b);
        }
    }
}

#[test]
fn rank_orders_numbers_and_zeros_share_a_rank() {
    assert_eq!(s(0.0).rank_of(), 0);
    assert_eq!(s(-0.0).rank_of(), 0);
    assert_eq!(s(1.0).rank_of(), 0x3ff0_0000_0000_0000);
    assert_eq!(s(-1.0).rank_of(), -0x3ff0_0000_0000_0000);
    for &a in samples().iter() {
        for &b in samples().iter() {
            if !a.is_nan() && !b.is_nan() {
                assert_eq!(s(a).rank_of() < s(b).rank_of(), a < b);
            }
        }
    }
}

#[test]
fn from_rank_inverts_rank() {
    for &a in samples().iter() {
        let r = s(a).rank_of();
        let back = Scalar::from_rank(r);
        assert_eq!(back.rank_of(), r);
        if a != 0.0 {
            assert_eq!(back.to_bits(), a.to_bits());
        } else {
            assert_eq!(back.to_bits(), 0);
        }
    }
}

#[test]
fn neg_and_abs_are_exact() {
    for &a in samples().iter() {
        assert_eq!(s(a).neg().to_bits(), (-a).to_bits());
        assert_eq!(s(a).abs().to_bits(), a.abs().to_bits());
        assert_eq!(s(a).neg().neg(), s(a));
    }
}

#[test]
fn min_and_max_pick_the_number() {
    assert_eq!(f(s(1.0).min(s(2.0))), 1.0);
    assert_eq!(f(s(2.0).min(s(1.0))), 1.0);
    assert_eq!(f(s(1.0).max(s(2.0))), 2.0);
    assert_eq!(f(s(-3.0).max(s(-4.0))), -3.0);
    assert_eq!(f(s(f64::NAN).min(s(2.0))), 2.0);
    assert_eq!(f(s(2.0).min(s(f64::NAN))), 2.0);
    assert_eq!(f(s(f64::NAN).max(s(2.0))), 2.0);
    assert_eq!(f(s(2.0).max(s(f64::NAN))), 2.0);
    for &a in samples().iter() {
        for &b in samples().iter() {
            if !a.is_nan() && !b.is_nan() {
                assert_eq!(f(s(a).min(s(b))), a.min(b));
                assert_eq!(f(s(a).max(s(b))), a.max(b));
            }
        }
    }
}

#[test]
fn vector_components_and_near_zero() {
    let p = v(1.0, 2.0, 3.0);
    assert_eq!(f(p.get_axis(0)), 1.0);
    assert_eq!(f(p.get_axis(1)), 2.0);
    assert_eq!(f(p.get_axis(2)), 3.0);
    assert_eq!(f(p.get_axis(7)), 3.0);
    assert_eq!(f(p.component(Axis::X)), 1.0);
    assert_eq!(f(p.component(Axis::Y)), 2.0);
    assert_eq!(f(p.component(Axis::Z)), 3.0);
    assert_eq!(p.neg(), v(-1.0, -2.0, -3.0));
    assert!(v(0.0, 0.0, 0.0).is_near_zero());
    assert!(v(9e-9, -9e-9, 0.0).is_near_zero());
    assert!(!v(1e-8, 0.0, 0.0).is_near_zero());
    assert!(!v(0.0, 0.0, -2e-8).is_near_zero());
    assert!(!v(f64::NAN, 0.0, 0.0).is_near_zero());
}

#[test]
fn surrounding_box_contains_both_boxes() {
    let a = AABB::new(v(0.0, -1.0, 2.0), v(1.0, 1.0, 3.0));
    let b = AABB::new(v(-2.0, 0.0, 2.5), v(0.5, 4.0, 2.75));
    let u = AABB::surrounding_box(&a, &b);
    assert_eq!(u.min(), v(-2.0, -1.0, 2.0));
    assert_eq!(u.max(), v(1.0, 4.0, 3.0));
    let same = AABB::surrounding_box(&a, &a);
    assert_eq!(same, a);
}

#[test]
fn longest_axis_prefers_the_earlier_axis_on_ties() {
    assert_eq!(AABB::longest_axis(&v(3.0, 2.0, 1.0)), Axis::X);
    assert_eq!(AABB::longest_axis(&v(1.0, 3.0, 2.0)), Axis::Y);
    assert_eq!(AABB::longest_axis(&v(1.0, 2.0, 3.0)), Axis::Z);
    assert_eq!(AABB::longest_axis(&v(2.0, 2.0, 1.0)), Axis::X);
    assert_eq!(AABB::longest_axis(&v(1.0, 2.0, 2.0)), Axis::Y);
    assert_eq!(AABB::longest_axis(&v(2.0, 1.0, 2.0)), Axis::X);
    assert_eq!(AABB::longest_axis(&v(2.0, 2.0, 2.0)), Axis::X);
    assert_eq!(AABB::longest_axis(&v(-5.0, 2.0, 1.0)), Axis::X);
    assert_eq!(AABB::longest_axis(&v(0.0, 0.0, 0.0)), Axis::X);
}

fn crossing(lo: f64, hi: f64, origin: f64, direction: f64) -> Crossing {
    let inv_d = 1.0 / direction;
    Crossing { inv_d: s(inv_d), t0: s((lo - origin) * inv_d), t1: s((hi - origin) * inv_d) }
}

fn box_hit(lo: [f64; 3], hi: [f64; 3], o: [f64; 3], d: [f64; 3], t_min: f64, t_max: f64) -> bool {
    AABB::hit(
        &crossing(lo[0], hi[0], o[0], d[0]),
        &crossing(lo[1], hi[1], o[1], d[1]),
        &crossing(lo[2], hi[2], o[2], d[2]),
        s(t_min),
        s(t_max),
    )
}

#[test]
fn slab_test_hits_from_inside_the_box() {
    let lo = [-1.0, -1.0, -1.0];
    let hi = [1.0, 1.0, 1.0];
    let o = [0.25, -0.5, 0.0];
    for d in [[1.0, 0.0, 0.0], [0.0, -1.0, 0.0], [0.0, 0.0, 2.0], [1.0, 1.0, 1.0], [-0.3, 0.2, -5.0]] {
        assert!(box_hit(lo, hi, o, d, 0.0, f64::INFINITY));
    }
}

#[test]
fn slab_test_misses_parallel_ray_outside_the_slab() {
    let lo = [-1.0, -1.0, -1.0];
    let hi = [1.0, 1.0, 1.0];
    assert!(!box_hit(lo, hi, [0.0, 2.0, 0.0], [1.0, 0.0, 0.0], 0.0, f64::INFINITY));
    assert!(!box_hit(lo, hi, [0.0, -2.0, 0.0], [1.0, 0.0, 1.0], 0.0, f64::INFINITY));
    assert!(!box_hit(lo, hi, [3.0, 0.0, 0.0], [0.0, 0.0, -1.0], 0.0, f64::INFINITY));
}

#[test]
fn slab_test_respects_the_span() {
    let lo = [-1.0, -1.0, -1.0];
    let hi = [1.0, 1.0, 1.0];
    let o = [-5.0, 0.0, 0.0];
    let d = [1.0, 0.0, 0.0];
    assert!(box_hit(lo, hi, o, d, 0.0, f64::INFINITY));
    assert!(box_hit(lo, hi, o, d, 0.0, 4.5));
    assert!(!box_hit(lo, hi, o, d, 0.0, 4.0));
    assert!(!box_hit(lo, hi, o, d, 6.0, 100.0));
    assert!(!box_hit(lo, hi, o, [-1.0, 0.0, 0.0], 0.0, f64::INFINITY));
    assert!(box_hit(lo, hi, [5.0, 0.0, 0.0], [-1.0, 0.0, 0.0], 0.0, f64::INFINITY));
    assert!(!box_hit(lo, hi, o, [1.0, 1.0, 0.0], 0.0, f64::INFINITY));
}
