use pathtracer::aabb::AABB;
use pathtracer::hittable::{HitRecord, Hittable};
use pathtracer::integrator::{ray_color, T_MAX_BITS, T_MIN_BITS};
use pathtracer::material::{Material, ScatteredRay};
use pathtracer::primitive::Sphere;
use pathtracer::ray::Ray;
use pathtracer::scalar::Scalar;
use pathtracer::scene::Scene;
use pathtracer::vec3::Vec3;
use std::cell::Cell;

fn s(x: f32) -> Scalar {
    Scalar::from_bits(x.to_bits())
}

fn f(x: Scalar) -> f32 {
    f32::from_bits(x.to_bits())
}

fn v(p: [f32; 3]) -> Vec3 {
    Vec3::new(s(p[0]), s(p[1]), s(p[2]))
}

fn a(p: Vec3) -> [f32; 3] {
    [f(p.x), f(p.y), f(p.z)]
}

fn sub(p: [f32; 3], q: [f32; 3]) -> [f32; 3] {
    [p[0] - q[0], p[1] - q[1], p[2] - q[2]]
}

fn add(p: [f32; 3], q: [f32; 3]) -> [f32; 3] {
    [p[0] + q[0], p[1] + q[1], p[2] + q[2]]
}

fn scale(p: [f32; 3], k: f32) -> [f32; 3] {
    [p[0] * k, p[1] * k, p[2] * k]
}

fn dot(p: [f32; 3], q: [f32; 3]) -> f32 {
    p[0] * q[0] + p[1] * q[1] + p[2] * q[2]
}

fn cross(p: [f32; 3], q: [f32; 3]) -> [f32; 3] {
    [p[1] * q[2] - p[2] * q[1], p[2] * q[0] - p[0] * q[2], p[0] * q[1] - p[1] * q[0]]
}

fn unit(p: [f32; 3]) -> [f32; 3] {
    scale(p, 1.0 / dot(p, p).sqrt())
}

fn ray(origin: [f32; 3], toward: [f32; 3]) -> Ray {
    Ray { origin: v(origin), direction: v(unit(toward)) }
}

struct Ball(Sphere);

impl Hittable for Ball {
    fn hit(&self, ray: &Ray, t_min: Scalar, t_max: Scalar) -> Option<HitRecord> {
        let (o, d) = (a(ray.origin), a(ray.direction));
        let (c, r) = (a(self.0.center), f(self.0.radius));
        let oc = sub(o, c);
        let half_b = dot(oc, d);
        let disc = half_b * half_b - (dot(oc, oc) - r * r);
        let sq = disc.sqrt();
        let root = Sphere::choose_root(s(disc), s(-half_b - sq), s(-half_b + sq), t_min, t_max)?;
        let p = add(o, scale(d, f(root)));
        Some(HitRecord {
            point: v(p),
            normal: v(unit(scale(sub(p, c), 1.0 / r))),
            t: root,
            material: self.0.material,
        })
    }

    fn bounding_box(&self) -> AABB {
        let (c, r) = (a(self.0.center), f(self.0.radius));
        AABB::new(v(sub(c, [r, r, r])), v(add(c, [r, r, r])))
    }
}

fn box_hit(b: AABB, ray: Ray) -> bool {
    let (o, d) = (a(ray.origin), a(ray.direction));
    let (lo, hi) = (a(b.min), a(b.max));
    let entries = v([(lo[0] - o[0]) / d[0], (lo[1] - o[1]) / d[1], (lo[2] - o[2]) / d[2]]);
    let exits = v([(hi[0] - o[0]) / d[0], (hi[1] - o[1]) / d[1], (hi[2] - o[2]) / d[2]]);
    b.hit(&ray, entries, exits)
}

fn sah(left: AABB, n_left: usize, right: AABB, n_right: usize) -> Scalar {
    let area = |b: AABB| {
        let e = sub(a(b.max), a(b.min));
        e[0] * e[1] + e[1] * e[2] + e[2] * e[0]
    };
    s(area(left) * n_left as f32 + area(right) * n_right as f32)
}

/// What a material gives off: a tenth of its ambient colour times one less
/// dissolve, and five times its emissive colour.
fn emitted(m: Material) -> Vec3 {
    let ambient = scale(a(m.ambient), (1.0 - f(m.dissolve)) * 0.1);
    v(add(ambient, scale(a(m.emissive), 5.0)))
}

fn blend(so_far: Vec3, gathered: Vec3, coefficient: Vec3) -> Vec3 {
    let (c, g, k) = (a(so_far), a(gathered), a(coefficient));
    v([c[0] + g[0] * k[0], c[1] + g[1] * k[1], c[2] + g[2] * k[2]])
}

/// The mirror ray alone, with half the specular colour as its weight.
fn mirror_only(ray: Ray, hit: HitRecord) -> Vec<ScatteredRay> {
    let (d, n) = (a(ray.direction), a(hit.normal));
    let out = sub(d, scale(n, 2.0 * dot(d, n)));
    let specular = ScatteredRay {
        ray: Ray { origin: hit.point, direction: v(unit(out)) },
        coefficient: v(scale(a(hit.material.specular), 0.5 * (1.0 - f(hit.material.dissolve)))),
    };
    let none = ScatteredRay { ray: specular.ray, coefficient: Vec3::zero() };
    Material::scatter(none, specular, Vec3::zero(), None)
}

fn scene_of(balls: Vec<Sphere>) -> Scene<Ball> {
    let mut scene = Scene::new();
    for ball in balls {
        scene.add(Ball(ball));
    }
    scene.build_bvh(&sah);
    scene
}

fn tinted(ambient: [f32; 3], emissive: [f32; 3], specular: [f32; 3]) -> Material {
    let mut m = Material::luminous();
    m.ambient = v(ambient);
    m.emissive = v(emissive);
    m.specular = v(specular);
    m
}

#[test]
fn the_window_of_a_path_runs_from_a_thousandth_to_a_hundred_thousand() {
    assert_eq!(T_MIN_BITS, 0.001f32.to_bits());
    assert_eq!(T_MAX_BITS, 100000.0f32.to_bits());
}

#[test]
fn a_ray_that_hits_nothing_is_black() {
    let scene = scene_of(vec![Sphere::new(v([0.0, 2.0, 0.0]), s(0.5), Material::luminous())]);
    let r = ray([0.0, 0.0, 4.0], [0.0, 0.0, -1.0]);
    for depth in 0..3 {
        let color = ray_color(&r, &scene, depth, 1, &box_hit, &emitted, &mirror_only, &blend);
        assert_eq!(color, v([0.0, 0.0, 0.0]));
    }
}

/// Beyond the depth allowed the colour is what the first surface gives off:
/// its ambient and emissive share, and nothing is scattered.
#[test]
fn beyond_the_depth_allowed_only_the_first_hit_counts() {
    let shiny = tinted([0.5, 0.25, 1.0], [0.1, 0.2, 0.3], [2.0, 2.0, 2.0]);
    let scene = scene_of(vec![
        Sphere::new(v([0.0, 0.0, 0.0]), s(1.0), shiny),
        Sphere::new(v([0.0, 0.0, 6.0]), s(1.0), Material::luminous()),
    ]);
    let asked = Cell::new(0u32);
    let counting = |ray: Ray, hit: HitRecord| {
        asked.set(asked.get() + 1);
        mirror_only(ray, hit)
    };
    let r = ray([0.0, 0.0, 3.0], [0.0, 0.0, -1.0]);
    let color = ray_color(&r, &scene, 1, 0, &box_hit, &emitted, &counting, &blend);
    assert_eq!(a(color), [0.5 * 0.1 + 0.1 * 5.0, 0.25 * 0.1 + 0.2 * 5.0, 1.0 * 0.1 + 0.3 * 5.0]);
    assert_eq!(asked.get(), 0);
    let color = ray_color(&r, &scene, 7, 3, &box_hit, &emitted, &counting, &blend);
    assert_eq!(color, emitted(shiny));
    assert_eq!(asked.get(), 0);
}

/// A path that starts at depth 0 with no depth allowed still follows the rays
/// scattered at its first hit, and stops at their hits.
#[test]
fn at_the_depth_allowed_the_scattered_rays_are_followed_once() {
    let shiny = tinted([0.0, 0.0, 0.0], [0.0, 0.0, 0.0], [2.0, 1.0, 0.5]);
    let lamp = tinted([0.0, 0.0, 0.0], [0.1, 0.1, 0.1], [2.0, 2.0, 2.0]);
    let scene = scene_of(vec![
        Sphere::new(v([0.0, 0.0, 0.0]), s(1.0), shiny),
        Sphere::new(v([0.0, 0.0, 6.0]), s(1.0), lamp),
    ]);
    let asked = Cell::new(0u32);
    let counting = |ray: Ray, hit: HitRecord| {
        asked.set(asked.get() + 1);
        mirror_only(ray, hit)
    };
    // from between the two spheres, straight at the first: the mirror ray
    // comes straight back and meets the second
    let r = ray([0.0, 0.0, 3.0], [0.0, 0.0, -1.0]);
    let color = ray_color(&r, &scene, 0, 0, &box_hit, &emitted, &counting, &blend);
    assert_eq!(asked.get(), 1);
    assert_eq!(a(color), [0.5 * 1.0, 0.5 * 0.5, 0.5 * 0.25]);
    // one more level: the lamp mirrors the ray back to the first sphere, which gives off nothing
    asked.set(0);
    let deeper = ray_color(&r, &scene, 0, 1, &box_hit, &emitted, &counting, &blend);
    assert_eq!(asked.get(), 2);
    assert_eq!(deeper, color);
}

#[test]
fn a_surface_that_scatters_nothing_shows_what_it_gives_off() {
    let scene = scene_of(vec![Sphere::new(v([0.0, 0.0, 0.0]), s(1.0), Material::luminous())]);
    let r = ray([0.3, 0.2, 3.0], [0.0, 0.0, -1.0]);
    for max_depth in [0u32, 1, 5] {
        let color = ray_color(&r, &scene, 0, max_depth, &box_hit, &emitted, &mirror_only, &blend);
        assert_eq!(color, v([5.0, 5.0, 5.0]));
    }
}

#[test]
fn colours_are_added_in_the_order_of_the_rays() {
    let scene = scene_of(vec![
        Sphere::new(v([0.0, 0.0, 0.0]), s(1.0), tinted([1.0; 3], [0.0; 3], [0.0; 3])),
        Sphere::new(v([0.0, 0.0, 6.0]), s(1.0), tinted([0.0; 3], [0.2; 3], [0.0; 3])),
        Sphere::new(v([0.0, 6.0, 3.0]), s(1.0), tinted([0.0; 3], [0.4; 3], [0.0; 3])),
    ]);
    // three rays from the first hit: back, up and away
    let fan = |_ray: Ray, hit: HitRecord| {
        if f(hit.material.ambient.x) != 1.0 {
            return vec![];
        }
        let from = [0.0, 0.0, 3.0];
        vec![
            ScatteredRay { ray: ray(from, [0.0, 0.0, 1.0]), coefficient: v([1.0, 0.0, 0.0]) },
            ScatteredRay { ray: ray(from, [0.0, 1.0, 0.0]), coefficient: v([0.0, 1.0, 0.0]) },
            ScatteredRay { ray: ray(from, [1.0, 0.0, 0.0]), coefficient: v([0.0, 0.0, 1.0]) },
        ]
    };
    let steps = Cell::new(0u32);
    // each addition doubles what was there before: the order shows in the result
    let doubling = |so_far: Vec3, gathered: Vec3, coefficient: Vec3| {
        steps.set(steps.get() + 1);
        blend(v(scale(a(so_far), 2.0)), gathered, coefficient)
    };
    let r = ray([0.0, 0.0, 3.0], [0.0, 0.0, -1.0]);
    let color = ray_color(&r, &scene, 0, 3, &box_hit, &emitted, &fan, &doubling);
    assert_eq!(steps.get(), 3);
    assert_eq!(a(color), [0.1 * 8.0 + 1.0 * 4.0, 0.1 * 8.0 + 2.0 * 2.0, 0.1 * 8.0]);
}

/// The camera of the scenario: at (0, 0, 4), looking at (0, 0, -1), no lens.
fn primary(i: u32, j: u32, width: u32, height: u32) -> Ray {
    let (from, at, up) = ([0.0, 0.0, 4.0], [0.0, 0.0, -1.0], [0.0, 1.0, 0.0]);
    let focal = 4.0f32;
    let h = (60.0f32.to_radians() / 2.0).tan() * focal;
    let (view_h, view_w) = (2.0 * h, width as f32 / height as f32 * 2.0 * h);
    let w = unit(sub(from, at));
    let u = unit(cross(up, w));
    let vv = unit(up);
    let corner = sub(sub(sub(from, scale(u, view_w / 2.0)), scale(vv, view_h / 2.0)), scale(w, focal));
    let (sx, sy) = ((i as f32 + 0.5) / width as f32, (j as f32 + 0.5) / height as f32);
    let target = add(add(corner, scale(u, view_w * sx)), scale(vv, view_h * sy));
    ray(from, sub(target, from))
}

/// One emissive sphere and nothing else: the pixels whose ray meets it are
/// five times its colour, cut to the unit range, and all others are black.
#[test]
fn a_lone_light_is_white_on_black() {
    let scene = scene_of(vec![Sphere::new(v([0.0, 2.0, 0.0]), s(0.5), Material::luminous())]);
    let (width, height) = (48u32, 48u32);
    let (mut lit, mut dark) = (0, 0);
    let (zero, one) = (v([0.0; 3]), v([1.0; 3]));
    for j in 0..height {
        for i in 0..width {
            let r = primary(i, j, width, height);
            let color = ray_color(&r, &scene, 0, 0, &box_hit, &emitted, &mirror_only, &blend);
            let shown = color.clamp(zero, one);
            if scene.hit_linear(&r, s(0.001), s(100000.0)).is_some() {
                assert_eq!(color, v([5.0, 5.0, 5.0]));
                assert_eq!(shown, one);
                assert!(j > height / 2);
                lit += 1;
            } else {
                assert_eq!(shown, zero);
                dark += 1;
            }
        }
    }
    assert!(lit > 20 && dark > 2000);
}
