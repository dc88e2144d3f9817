use pathtracer::aabb::AABB;
use pathtracer::material::{Material, MtlRecord, Refraction, ScatteredRay};
use pathtracer::mesh::{gather_faces, point_at};
use pathtracer::primitive::{Sphere, Triangle};
use pathtracer::ray::Ray;
use pathtracer::scalar::Scalar;
use pathtracer::vec3::Vec3;

fn s(x: f32) -> Scalar {
    Scalar::from_bits(x.to_bits())
}

fn v(x: f32, y: f32, z: f32) -> Vec3 {
    Vec3::new(s(x), s(y), s(z))
}

fn splat(x: f32) -> Vec3 {
    v(x, x, x)
}

fn candidate(tag: f32, coefficient: Vec3) -> ScatteredRay {
    ScatteredRay { ray: Ray { origin: splat(tag), direction: v(0.0, 1.0, 0.0) }, coefficient }
}

#[test]
fn the_stock_materials_have_their_values() {
    let plaster = Material::plaster();
    assert_eq!(plaster.ambient, splat(0.1));
    assert_eq!(plaster.diffuse, splat(0.8));
    assert_eq!(plaster.specular, splat(0.8));
    assert_eq!(plaster.emissive, splat(0.0));
    assert_eq!(plaster.transmission_filter, splat(0.0));
    assert_eq!(plaster.dissolve, s(0.0));
    assert_eq!(plaster.specular_exponent, s(0.0));
    assert_eq!(plaster.optical_density, s(1.0));
    let light = Material::luminous();
    assert_eq!(light.emissive, splat(1.0));
    assert_eq!(light.diffuse, splat(0.0));
    assert_eq!(light.specular, splat(0.0));
    assert_eq!(light.ambient, splat(0.0));
    assert_eq!(light.optical_density, s(1.0));
    let mirror = Material::mirror();
    assert_eq!(mirror.specular, splat(2.0));
    assert_eq!(mirror.diffuse, splat(0.0));
    assert_eq!(mirror.specular_exponent, s(1000.0));
    assert_eq!(mirror.dissolve, s(0.0));
    let glass = Material::glass();
    assert_eq!(glass.specular, splat(2.0));
    assert_eq!(glass.transmission_filter, splat(1.0));
    assert_eq!(glass.dissolve, s(0.9));
    assert_eq!(glass.specular_exponent, s(1000.0));
    assert_eq!(glass.optical_density, s(1.5));
}

#[test]
fn scatter_keeps_the_rays_whose_weight_counts_in_their_order() {
    let diffuse = candidate(1.0, splat(0.4));
    let specular = candidate(2.0, v(0.0, 0.0, 0.1));
    let through = Ray { origin: splat(3.0), direction: v(0.0, -1.0, 0.0) };
    let rays = Material::scatter(diffuse, specular, splat(0.9), Some(through));
    assert_eq!(rays, vec![diffuse, specular, ScatteredRay { ray: through, coefficient: splat(0.9) }]);
}

#[test]
fn scatter_drops_a_ray_of_no_weight() {
    let through = Ray { origin: splat(3.0), direction: v(0.0, -1.0, 0.0) };
    let kept = candidate(2.0, v(0.0, 1.0e-30, 0.0));
    let rays = Material::scatter(candidate(1.0, splat(0.0)), kept, splat(0.0), Some(through));
    assert_eq!(rays, vec![kept]);
    let rays = Material::scatter(candidate(1.0, splat(-0.0)), candidate(2.0, splat(-1.0)), splat(0.0), None);
    assert_eq!(rays, vec![]);
    let rays = Material::scatter(kept, candidate(2.0, v(0.0, 0.0, -0.5)), v(-1.0, 0.0, 0.0), Some(through));
    assert_eq!(rays, vec![kept]);
}

#[test]
fn scatter_sends_nothing_through_on_total_reflection() {
    let diffuse = candidate(1.0, splat(0.4));
    let rays = Material::scatter(diffuse, candidate(2.0, splat(0.0)), splat(0.9), None);
    assert_eq!(rays, vec![diffuse]);
}

#[test]
fn a_light_scatters_nothing_and_a_mirror_one_ray() {
    // the weights of the stock materials: diffuse and specular times a half times one less dissolve
    let weights = |m: Material| {
        let f = |x: Scalar| f32::from_bits(x.to_bits());
        let keep = 0.5 * (1.0 - f(m.dissolve));
        (
            splat(f(m.diffuse.x) * keep),
            splat(f(m.specular.x) * keep),
            splat(f(m.transmission_filter.x) * f(m.dissolve)),
        )
    };
    let through = Ray { origin: splat(3.0), direction: v(0.0, -1.0, 0.0) };
    let count = |m: Material| {
        let (d, sp, t) = weights(m);
        Material::scatter(candidate(1.0, d), candidate(2.0, sp), t, Some(through)).len()
    };
    assert_eq!(count(Material::luminous()), 0);
    assert_eq!(count(Material::mirror()), 1);
    assert_eq!(count(Material::plaster()), 2);
    assert_eq!(count(Material::glass()), 2);
}

#[test]
fn refraction_has_three_outcomes() {
    // leaving the body with a sine above one: all is reflected
    assert_eq!(Material::refraction_kind(s(0.3), s(1.2)), Refraction::TotalReflection);
    // entering never is
    assert_eq!(Material::refraction_kind(s(-0.3), s(1.2)), Refraction::Bent);
    assert_eq!(Material::refraction_kind(s(0.0), s(1.2)), Refraction::Bent);
    // next to no sine: straight through
    assert_eq!(Material::refraction_kind(s(1.0), s(0.0)), Refraction::Straight);
    assert_eq!(Material::refraction_kind(s(-1.0), s(1.0e-8)), Refraction::Straight);
    // at the machine epsilon the ray bends
    assert_eq!(Material::refraction_kind(s(-1.0), s(f32::EPSILON)), Refraction::Bent);
    assert_eq!(Material::refraction_kind(s(0.5), s(1.0)), Refraction::Bent);
    assert_eq!(Material::refraction_kind(s(0.5), s(0.7)), Refraction::Bent);
    assert!(Material::leaves(s(0.001)));
    assert!(!Material::leaves(s(0.0)));
    assert!(!Material::leaves(s(-0.5)));
}

#[test]
fn the_smaller_root_is_preferred() {
    let pick = |d: f32, near: f32, far: f32, lo: f32, hi: f32| {
        Sphere::choose_root(s(d), s(near), s(far), s(lo), s(hi))
    };
    assert_eq!(pick(1.0, 2.0, 4.0, 0.001, 100.0), Some(s(2.0)));
    // the smaller root lies before the window: the larger one counts
    assert_eq!(pick(1.0, -2.0, 4.0, 0.001, 100.0), Some(s(4.0)));
    assert_eq!(pick(1.0, 2.0, 4.0, 3.0, 100.0), Some(s(4.0)));
    // both outside
    assert_eq!(pick(1.0, -4.0, -2.0, 0.001, 100.0), None);
    assert_eq!(pick(1.0, 2.0, 4.0, 0.001, 1.5), None);
    assert_eq!(pick(1.0, 2.0, 4.0, 2.5, 3.5), None);
    // the ends of the window belong to it
    assert_eq!(pick(1.0, 2.0, 4.0, 2.0, 100.0), Some(s(2.0)));
    assert_eq!(pick(1.0, 2.0, 4.0, 0.001, 2.0), Some(s(2.0)));
    // a discriminant that is not above zero is a miss: the ray grazes or passes
    assert_eq!(pick(0.0, 2.0, 2.0, 0.001, 100.0), None);
    assert_eq!(pick(-1.0, 2.0, 4.0, 0.001, 100.0), None);
    assert_eq!(pick(f32::NAN, 2.0, 4.0, 0.001, 100.0), None);
}

#[test]
fn a_root_answers_every_window_alike() {
    let ends = [0.5f32, 2.0, 3.0, 4.0, 50.0, f32::INFINITY];
    for (near, far) in [(2.0f32, 4.0f32), (-2.0, 4.0), (-4.0, -2.0), (3.0, 3.0)] {
        let open = Sphere::choose_root(s(1.0), s(near), s(far), s(0.001), s(f32::INFINITY));
        for end in ends {
            let seen = Sphere::choose_root(s(1.0), s(near), s(far), s(0.001), s(end));
            let clipped = match open {
                Some(t) if t.le(s(end)) => open,
                _ => None,
            };
            assert_eq!(seen, clipped);
        }
    }
}

#[test]
fn a_triangle_is_hit_inside_its_edges_only() {
    let hit = |a: f32, bv: f32, bw: f32, t: f32| {
        Triangle::accepts(s(a), s(bv), s(bw), s(bv + bw), s(t), s(0.001), s(100.0))
    };
    assert!(hit(1.0, 0.25, 0.25, 3.0));
    assert!(hit(-1.0, 0.25, 0.25, 3.0));
    // on an edge and at a vertex
    assert!(hit(1.0, 0.0, 0.5, 3.0));
    assert!(hit(1.0, 0.5, 0.5, 3.0));
    assert!(hit(1.0, 1.0, 0.0, 3.0));
    assert!(hit(1.0, 0.0, 0.0, 3.0));
    // outside
    assert!(!hit(1.0, -0.01, 0.5, 3.0));
    assert!(!hit(1.0, 0.5, -0.01, 3.0));
    assert!(!hit(1.0, 0.75, 0.5, 3.0));
    assert!(!hit(1.0, 1.5, -0.5, 3.0));
    // along the plane
    assert!(!hit(0.0, 0.25, 0.25, 3.0));
    assert!(!hit(1.0e-8, 0.25, 0.25, 3.0));
    assert!(!hit(-1.0e-8, 0.25, 0.25, 3.0));
    assert!(hit(f32::EPSILON, 0.25, 0.25, 3.0));
    // outside the window
    assert!(!hit(1.0, 0.25, 0.25, 0.0005));
    assert!(!hit(1.0, 0.25, 0.25, -3.0));
    assert!(!hit(1.0, 0.25, 0.25, 100.5));
    assert!(hit(1.0, 0.25, 0.25, 100.0));
}

#[test]
fn at_a_hit_the_weights_are_those_of_a_point_of_the_triangle() {
    let steps: Vec<f32> = (-4..=12).map(|i| i as f32 / 8.0).collect();
    let mut hits = 0;
    for bv in &steps {
        for bw in &steps {
            if Triangle::accepts(s(1.0), s(*bv), s(*bw), s(bv + bw), s(1.0), s(0.0), s(2.0)) {
                let bu = 1.0 - bv - bw;
                assert!(bu >= 0.0 && *bv >= 0.0 && *bw >= 0.0);
                assert_eq!(bu + bv + bw, 1.0);
                hits += 1;
            }
        }
    }
    assert_eq!(hits, 45);
}

#[test]
fn a_triangle_without_normals_is_flat() {
    let corners = vec![v(0.0, 0.0, 0.0), v(1.0, 0.0, 0.0), v(0.0, 1.0, 0.0)];
    let up = v(0.0, 0.0, 1.0);
    let flat = Triangle::new(corners.clone(), vec![], up, Material::plaster());
    assert_eq!((flat.v0, flat.v1, flat.v2), (corners[0], corners[1], corners[2]));
    assert_eq!((flat.n0, flat.n1, flat.n2), (up, up, up));
    assert_eq!(flat.material, Material::plaster());
    let normals = vec![v(1.0, 0.0, 0.0), v(0.0, 1.0, 0.0), v(0.0, 0.0, -1.0)];
    let smooth = Triangle::new(corners, normals.clone(), up, Material::glass());
    assert_eq!((smooth.n0, smooth.n1, smooth.n2), (normals[0], normals[1], normals[2]));
    assert_eq!(smooth.material, Material::glass());
}

#[test]
fn the_box_of_a_triangle_spans_its_vertices() {
    let tri = Triangle::new(
        vec![v(1.0, -2.0, 3.0), v(-4.0, 5.0, 3.0), v(0.5, 0.5, -6.0)],
        vec![],
        v(0.0, 0.0, 1.0),
        Material::plaster(),
    );
    assert_eq!(tri.bounding_box(), AABB::new(v(-4.0, -2.0, -6.0), v(1.0, 5.0, 3.0)));
    assert!(tri.bounding_box().is_wf());
}

#[test]
fn a_sphere_is_its_centre_radius_and_material() {
    let ball = Sphere::new(v(1.0, 2.0, 3.0), s(0.5), Material::mirror());
    assert_eq!(ball.center, v(1.0, 2.0, 3.0));
    assert_eq!(ball.radius, s(0.5));
    assert_eq!(ball.material, Material::mirror());
}

#[test]
fn a_material_record_is_taken_as_it_stands() {
    let full = MtlRecord {
        ambient: Some(v(0.1, 0.2, 0.3)),
        diffuse: Some(v(0.4, 0.5, 0.6)),
        specular: Some(v(0.7, 0.8, 0.9)),
        emissive: Some(v(3.0, 2.0, 1.0)),
        dissolve: Some(s(0.25)),
        shininess: Some(s(96.0)),
        optical_density: Some(s(1.33)),
    };
    let m = Material::from_mtl(&full);
    assert_eq!(m.ambient, v(0.1, 0.2, 0.3));
    assert_eq!(m.diffuse, v(0.4, 0.5, 0.6));
    assert_eq!(m.specular, v(0.7, 0.8, 0.9));
    assert_eq!(m.emissive, v(3.0, 2.0, 1.0));
    assert_eq!(m.transmission_filter, splat(1.0));
    assert_eq!(m.dissolve, s(0.25));
    assert_eq!(m.specular_exponent, s(96.0));
    assert_eq!(m.optical_density, s(1.33));
    // silence on light and on transparency means neither
    let plain = MtlRecord { emissive: None, dissolve: None, ..full };
    let m = Material::from_mtl(&plain);
    assert_eq!(m.emissive, splat(0.0));
    assert_eq!(m.dissolve, s(0.0));
    assert_eq!(m.transmission_filter, splat(1.0));
    assert_eq!(m.ambient, v(0.1, 0.2, 0.3));
}

#[test]
fn faces_are_gathered_by_their_indices() {
    let values: Vec<Scalar> = (0..15).map(|i| s(i as f32)).collect();
    assert_eq!(point_at(&values, 0), Some(v(0.0, 1.0, 2.0)));
    assert_eq!(point_at(&values, 4), Some(v(12.0, 13.0, 14.0)));
    assert_eq!(point_at(&values, 5), None);
    assert_eq!(point_at(&values, u32::MAX), None);
    assert_eq!(point_at(&values[..14].to_vec(), 4), None);
    assert_eq!(point_at(&vec![], 0), None);
    let faces = gather_faces(&vec![0, 1, 2, 4, 2, 0], &values).unwrap();
    assert_eq!(
        faces,
        vec![
            (v(0.0, 1.0, 2.0), v(3.0, 4.0, 5.0), v(6.0, 7.0, 8.0)),
            (v(12.0, 13.0, 14.0), v(6.0, 7.0, 8.0), v(0.0, 1.0, 2.0)),
        ]
    );
    assert_eq!(gather_faces(&vec![], &values), Some(vec![]));
    // indices that do not come in threes, or point past the vertices
    assert_eq!(gather_faces(&vec![0, 1, 2, 3], &values), None);
    assert_eq!(gather_faces(&vec![0, 1], &values), None);
    assert_eq!(gather_faces(&vec![0, 1, 5], &values), None);
    assert_eq!(gather_faces(&vec![0, 1, 2, 3, 4, 5], &values), None);
}
