use pathtracer::aabb::{Span, AABB};
use pathtracer::ray::Ray;
use pathtracer::scalar::{
    Scalar, EPSILON_BITS, INFINITY_BITS, MAX_FINITE_BITS, MIN_FINITE_BITS, ONE_BITS, SIGN_BIT,
};
use pathtracer::vec3::Vec3;

fn s(x: f32) -> Scalar {
    Scalar::from_bits(x.to_bits())
}

fn f(x: Scalar) -> f32 {
    f32::from_bits(x.to_bits())
}

fn v(x: f32, y: f32, z: f32) -> Vec3 {
    Vec3::new(s(x), s(y), s(z))
}

fn samples() -> Vec<f32> {
    vec![
        f32::NEG_INFINITY,
        f32::MIN,
        -1.0e10,
        -2.5,
        -1.0,
        -f32::MIN_POSITIVE,
        -1.0e-45,
        -0.0,
        0.0,
        1.0e-45,
        f32::MIN_POSITIVE,
        f32::EPSILON,
        0.1,
        1.0,
        1.0000001,
        255.99,
        1.0e10,
        f32::MAX,
        f32::INFINITY,
        f32::NAN,
        -f32::NAN,
    ]
}

#[test]
fn the_named_patterns_are_the_numbers_they_stand_for() {
    assert_eq!(SIGN_BIT, (-0.0f32).to_bits());
    assert_eq!(INFINITY_BITS, f32::INFINITY.to_bits());
    assert_eq!(MAX_FINITE_BITS, f32::MAX.to_bits());
    assert_eq!(MIN_FINITE_BITS, f32::MIN.to_bits());
    assert_eq!(ONE_BITS, 1.0f32.to_bits());
    assert_eq!(EPSILON_BITS, f32::EPSILON.to_bits());
    assert_eq!(f(Scalar::zero()), 0.0);
    assert_eq!(f(Scalar::one()), 1.0);
    assert_eq!(f(Scalar::epsilon()), f32::EPSILON);
    assert_eq!(f(Scalar::infinity()), f32::INFINITY);
    assert_eq!(f(Scalar::max_finite()), f32::MAX);
    assert_eq!(f(Scalar::min_finite()), f32::MIN);
}

#[test]
fn the_order_of_scalars_is_the_order_of_the_numbers() {
    for x in samples() {
        for y in samples() {
            assert_eq!(s(x).lt(s(y)), x < y);
            assert_eq!(s(x).le(s(y)), x <= y);
        }
    }
}

#[test]
fn nan_is_told_from_numbers() {
    for x in samples() {
        assert_eq!(s(x).is_nan_value(), x.is_nan());
    }
}

#[test]
fn both_zeros_have_rank_zero_and_ranks_grow_with_the_number() {
    assert_eq!(s(0.0).rank_value(), 0);
    assert_eq!(s(-0.0).rank_value(), 0);
    assert_eq!(s(1.0).rank_value(), 0x3f80_0000);
    assert_eq!(s(-1.0).rank_value(), -0x3f80_0000);
    assert_eq!(s(f32::INFINITY).rank_value(), 0x7f80_0000);
    let numbers: Vec<f32> = samples().into_iter().filter(|x| !x.is_nan()).collect();
    for x in &numbers {
        for y in &numbers {
            assert_eq!(s(*x).rank_value() < s(*y).rank_value(), x < y);
        }
    }
}

#[test]
fn min_and_max_take_the_first_argument_only_where_it_is_strictly_better() {
    for x in samples() {
        for y in samples() {
            let low = if x < y { x } else { y };
            let high = if x > y { x } else { y };
            assert_eq!(s(x).min(s(y)).to_bits(), low.to_bits());
            assert_eq!(s(x).max(s(y)).to_bits(), high.to_bits());
        }
    }
    assert_eq!(s(-0.0).min(s(0.0)).to_bits(), 0.0f32.to_bits());
    assert_eq!(s(0.0).min(s(-0.0)).to_bits(), (-0.0f32).to_bits());
    assert!(f(s(1.0).min(s(f32::NAN))).is_nan());
    assert_eq!(f(s(f32::NAN).min(s(1.0))), 1.0);
}

#[test]
fn max_num_and_min_num_skip_a_nan() {
    assert_eq!(f(s(f32::NAN).max_num(s(2.0))), 2.0);
    assert_eq!(f(s(2.0).max_num(s(f32::NAN))), 2.0);
    assert_eq!(f(s(f32::NAN).min_num(s(2.0))), 2.0);
    assert_eq!(f(s(2.0).min_num(s(f32::NAN))), 2.0);
    assert!(f(s(f32::NAN).max_num(s(f32::NAN))).is_nan());
    for x in samples() {
        for y in samples() {
            if !x.is_nan() && !y.is_nan() {
                assert_eq!(f(s(x).max_num(s(y))), x.max(y));
                assert_eq!(f(s(x).min_num(s(y))), x.min(y));
            }
        }
    }
}

#[test]
fn abs_drops_the_sign() {
    for x in samples() {
        assert_eq!(s(x).abs().to_bits(), x.abs().to_bits());
    }
}

#[test]
fn a_window_holds_its_ends() {
    assert!(s(1.0).in_window(s(1.0), s(2.0)));
    assert!(s(2.0).in_window(s(1.0), s(2.0)));
    assert!(s(1.5).in_window(s(1.0), s(2.0)));
    assert!(!s(0.999).in_window(s(1.0), s(2.0)));
    assert!(!s(2.001).in_window(s(1.0), s(2.0)));
    assert!(!s(1.5).in_window(s(2.0), s(1.0)));
    // a NaN is neither below the start nor above the end
    assert!(s(f32::NAN).in_window(s(1.0), s(2.0)));
}

#[test]
fn vectors_are_compared_component_by_component() {
    let p = v(1.0, -2.0, 3.0);
    let q = v(0.5, 5.0, 3.0);
    assert_eq!(p.min(q), v(0.5, -2.0, 3.0));
    assert_eq!(p.max(q), v(1.0, 5.0, 3.0));
    assert_eq!(p.axis(0), s(1.0));
    assert_eq!(p.axis(1), s(-2.0));
    assert_eq!(p.axis(2), s(3.0));
    assert_eq!(Vec3::zero(), v(0.0, 0.0, 0.0));
}

#[test]
fn max_element_is_the_largest_component() {
    assert_eq!(v(1.0, -2.0, 3.0).max_element(), s(3.0));
    assert_eq!(v(7.0, -2.0, 3.0).max_element(), s(7.0));
    assert_eq!(v(-7.0, -2.0, -3.0).max_element(), s(-2.0));
    assert_eq!(v(0.0, 0.0, 0.0).max_element(), s(0.0));
}

#[test]
fn clamp_brings_a_colour_into_the_unit_range() {
    let zero = v(0.0, 0.0, 0.0);
    let one = v(1.0, 1.0, 1.0);
    assert_eq!(v(5.0, 0.25, -3.0).clamp(zero, one), v(1.0, 0.25, 0.0));
    assert_eq!(v(1.0, 0.0, 0.5).clamp(zero, one), v(1.0, 0.0, 0.5));
    assert_eq!(v(f32::INFINITY, f32::NEG_INFINITY, 1.0e-30).clamp(zero, one), v(1.0, 0.0, 1.0e-30));
}

fn cube(lo: f32, hi: f32) -> AABB {
    AABB::new(v(lo, lo, lo), v(hi, hi, hi))
}

fn inside(outer: AABB, inner: AABB) -> bool {
    (0..3).all(|i| outer.min.axis(i).le(inner.min.axis(i)) && inner.max.axis(i).le(outer.max.axis(i)))
}

#[test]
fn a_merge_contains_both_boxes() {
    let p = AABB::new(v(-1.0, 0.0, 2.0), v(1.0, 4.0, 3.0));
    let q = AABB::new(v(0.0, -5.0, 2.5), v(0.5, 1.0, 9.0));
    let m = p.merge(&q);
    assert_eq!(m, AABB::new(v(-1.0, -5.0, 2.0), v(1.0, 4.0, 9.0)));
    assert!(m.is_wf());
    assert!(inside(m, p) && inside(m, q));
    assert!(!inside(p, m));
}

#[test]
fn merging_is_commutative_and_associative() {
    let boxes = [
        AABB::new(v(-1.0, 0.0, 2.0), v(1.0, 4.0, 3.0)),
        AABB::new(v(0.0, -5.0, 2.5), v(0.5, 1.0, 9.0)),
        AABB::new(v(-7.0, 1.0, -2.5), v(-6.5, 1.0, 0.0)),
        cube(-0.5, 0.5),
    ];
    for p in &boxes {
        for q in &boxes {
            assert_eq!(p.merge(q), q.merge(p));
            for r in &boxes {
                assert_eq!(p.merge(q).merge(r), p.merge(&q.merge(r)));
            }
        }
    }
}

#[test]
fn merges_of_signed_zeros_differ_in_the_sign_alone() {
    let p = AABB::new(v(-0.0, 0.0, 0.0), v(1.0, 1.0, 1.0));
    let q = AABB::new(v(0.0, 0.0, 0.0), v(1.0, 1.0, 1.0));
    let (pq, qp) = (p.merge(&q), q.merge(&p));
    assert_ne!(pq, qp);
    assert_eq!(f(pq.min.x), f(qp.min.x));
    assert_eq!(pq.min.x.rank_value(), qp.min.x.rank_value());
}

#[test]
fn a_box_is_well_formed_where_its_bounds_are_in_order() {
    assert!(cube(-1.0, 1.0).is_wf());
    assert!(cube(2.0, 2.0).is_wf());
    assert!(!cube(1.0, -1.0).is_wf());
    assert!(!AABB::new(v(0.0, 0.0, f32::NAN), v(1.0, 1.0, 1.0)).is_wf());
    assert!(!AABB::new(v(0.0, 0.0, 0.0), v(1.0, -1.0, 1.0)).is_wf());
}

fn crossings(b: &AABB, ray: &Ray) -> (Vec3, Vec3) {
    let o = [f(ray.origin.x), f(ray.origin.y), f(ray.origin.z)];
    let d = [f(ray.direction.x), f(ray.direction.y), f(ray.direction.z)];
    let lo = [f(b.min.x), f(b.min.y), f(b.min.z)];
    let hi = [f(b.max.x), f(b.max.y), f(b.max.z)];
    (
        v((lo[0] - o[0]) / d[0], (lo[1] - o[1]) / d[1], (lo[2] - o[2]) / d[2]),
        v((hi[0] - o[0]) / d[0], (hi[1] - o[1]) / d[1], (hi[2] - o[2]) / d[2]),
    )
}

fn meets(b: &AABB, origin: [f32; 3], toward: [f32; 3]) -> bool {
    let len = (toward[0] * toward[0] + toward[1] * toward[1] + toward[2] * toward[2]).sqrt();
    let ray = Ray {
        origin: v(origin[0], origin[1], origin[2]),
        direction: v(toward[0] / len, toward[1] / len, toward[2] / len),
    };
    let (entries, exits) = crossings(b, &ray);
    b.hit(&ray, entries, exits)
}

#[test]
fn the_slab_test_tells_hits_from_misses() {
    let b = cube(-1.0, 1.0);
    assert!(meets(&b, [0.2, 0.3, 5.0], [0.01, 0.02, -1.0]));
    assert!(meets(&b, [5.0, 5.0, 5.0], [-1.0, -1.0, -1.0]));
    assert!(meets(&b, [0.0, 0.1, 0.2], [0.3, 0.5, 0.7]));
    // past the box
    assert!(!meets(&b, [0.2, 3.0, 5.0], [0.01, 0.02, -1.0]));
    // the box lies behind the ray
    assert!(!meets(&b, [0.2, 0.3, 5.0], [0.01, 0.02, 1.0]));
    assert!(!meets(&b, [5.0, 5.0, 5.0], [1.0, 1.0, 1.0]));
}

#[test]
fn a_ray_along_a_slab_must_start_strictly_inside_it() {
    let b = cube(-1.0, 1.0);
    assert!(meets(&b, [0.0, 0.0, 5.0], [0.0, 0.0, -1.0]));
    assert!(meets(&b, [0.999, -0.999, 5.0], [0.0, 0.0, -1.0]));
    assert!(!meets(&b, [1.0, 0.0, 5.0], [0.0, 0.0, -1.0]));
    assert!(!meets(&b, [0.0, -1.0, 5.0], [0.0, 0.0, -1.0]));
    assert!(!meets(&b, [1.5, 0.0, 5.0], [0.0, 0.0, -1.0]));
    // a flat box has no inside on its flat axis
    let flat = AABB::new(v(-1.0, 0.0, -1.0), v(1.0, 0.0, 1.0));
    assert!(!meets(&flat, [0.0, 0.0, 5.0], [0.0, 0.0, -1.0]));
    assert!(meets(&flat, [0.0, 1.0, 0.0], [0.0, -1.0, 0.0]));
}

#[test]
fn one_step_of_the_slab_test_cuts_the_span() {
    let b = cube(-1.0, 1.0);
    let ray = Ray { origin: v(0.0, 0.0, 5.0), direction: v(0.0, 0.0, -1.0) };
    let whole = Span { lo: Scalar::min_finite(), hi: Scalar::max_finite() };
    // along x the ray runs inside the slab: the span stays
    assert_eq!(b.narrow(&ray, 0, s(0.0), s(0.0), whole), Some(whole));
    // along z it enters at 4 and leaves at 6, given in either order
    let cut = Some(Span { lo: s(4.0), hi: s(6.0) });
    assert_eq!(b.narrow(&ray, 2, s(6.0), s(4.0), whole), cut);
    assert_eq!(b.narrow(&ray, 2, s(4.0), s(6.0), whole), cut);
    // a span that ends before the entry is used up
    assert_eq!(b.narrow(&ray, 2, s(6.0), s(4.0), Span { lo: s(0.0), hi: s(3.0) }), None);
    // a span that ends at the origin is behind the ray
    assert_eq!(b.narrow(&ray, 2, s(-6.0), s(0.0), whole), None);
    assert_eq!(
        b.narrow(&ray, 2, s(-6.0), s(0.5), whole),
        Some(Span { lo: s(-6.0), hi: s(0.5) })
    );
}

#[test]
fn a_number_is_cut_down_to_a_byte_as_a_cast_does() {
    for x in samples() {
        assert_eq!(s(x).to_byte(), x as u8);
    }
    for (x, byte) in [
        (0.0f32, 0u8),
        (0.999, 0),
        (1.0, 1),
        (1.999, 1),
        (2.0, 2),
        (127.5, 127),
        (254.99, 254),
        (255.0, 255),
        (255.99, 255),
        (256.0, 255),
        (1.0e9, 255),
        (-0.5, 0),
        (-3.0, 0),
    ] {
        assert_eq!(s(x).to_byte(), byte);
    }
    assert_eq!(s(1.0f32 * 255.99).to_byte(), 255);
    assert_eq!(s(0.5f32 * 255.99).to_byte(), 127);
    assert_eq!(s(0.0f32 * 255.99).to_byte(), 0);
}

#[test]
fn every_exponent_is_cut_down_as_a_cast_does() {
    // all exponents and signs, with fractions that reach into every place
    let fractions = [0u32, 1, 0x7f_ffff, 0x40_0000, 0x12_3456, 0x7f_0000, 0x00_ffff, 0x55_5555];
    for sign in [0u32, 0x8000_0000] {
        for exponent in 0..=255u32 {
            for fraction in fractions {
                let bits = sign | (exponent << 23) | fraction;
                assert_eq!(Scalar::from_bits(bits).to_byte(), f32::from_bits(bits) as u8);
                assert_eq!(Scalar::from_bits(bits).to_u32(), f32::from_bits(bits) as u32);
            }
        }
    }
    // and every number from 0 to 256 in steps of a 64th
    for k in 0..=(256 * 64) {
        let x = k as f32 / 64.0;
        assert_eq!(s(x).to_byte(), x as u8);
    }
}

#[test]
fn a_number_is_cut_down_to_an_integer_as_a_cast_does() {
    for x in samples() {
        assert_eq!(s(x).to_u32(), x as u32);
    }
    for (x, whole) in [
        (0.0f32, 0u32),
        (0.75, 0),
        (1.0, 1),
        (639.9999, 639),
        (16777215.0, 16777215),
        (16777216.0, 16777216),
        (33554432.0, 33554432),
        (4294967040.0, 4294967040),
        (4294967296.0, u32::MAX),
        (1.0e20, u32::MAX),
        (f32::INFINITY, u32::MAX),
        (-1.0, 0),
        (f32::NAN, 0),
    ] {
        assert_eq!(s(x).to_u32(), whole);
    }
}

#[test]
fn powers_of_two_are_exact() {
    use_power(0, 1);
    use_power(1, 2);
    use_power(16, 65536);
    use_power(31, 2147483648);
}

fn use_power(k: u32, p: u32) {
    assert_eq!(pathtracer::scalar::power_of_two(k), p);
}
