use vstd::prelude::*;
use crate::aabb::AABB;
use crate::bvh::is_probe;
use crate::hittable::{HitRecord, Hittable};
use crate::material::{Material, ScatteredRay};
use crate::ray::Ray;
use crate::scalar::Scalar;
use crate::scene::Scene;
use crate::vec3::Vec3;

verus! {

/// The bit pattern of 0.001, the nearest ray parameter at which a hit counts.
pub const T_MIN_BITS: u32 = 0x3a83_126f;

/// The bit pattern of 100000, the farthest ray parameter at which a hit
/// counts.
pub const T_MAX_BITS: u32 = 0x47c3_5000;

/// Black: the colour of a ray that hits nothing.
pub open spec fn black() -> Vec3 {
    Vec3 { x: Scalar { bits: 0 }, y: Scalar { bits: 0 }, z: Scalar { bits: 0 } }
}

/// `found` may be what the ray hits first in the scene, by the scene's
/// hierarchy, between the nearest and the farthest parameter that count.
pub open spec fn sees<P: Hittable, F: Fn(AABB, Ray) -> bool>(
    scene: Scene<P>,
    ray: Ray,
    box_hit: F,
    found: Option<HitRecord>,
) -> bool {
    scene.hit_returns(
        ray,
        Scalar { bits: T_MIN_BITS },
        Scalar { bits: T_MAX_BITS },
        box_hit,
        found,
    )
}

/// `emitted` may return `base` for the material.
pub open spec fn emitted_returns<E: Fn(Material) -> Vec3>(emitted: E, m: Material, base: Vec3) -> bool {
    call_ensures(emitted, (m,), base)
}

/// `scatter` may return `rays` for the ray and the hit.
pub open spec fn scatter_returns<K: Fn(Ray, HitRecord) -> Vec<ScatteredRay>>(
    scatter: K,
    ray: Ray,
    hit: HitRecord,
    rays: Vec<ScatteredRay>,
) -> bool {
    call_ensures(scatter, (ray, hit), rays)
}

/// `r` may be the colour at a hit, put together from its parts: `base` is
/// what the material gives off, `rays` are the rays that it scatters, and
/// `colors` holds the colour gathered along each of them.
pub open spec fn shades<
    E: Fn(Material) -> Vec3,
    K: Fn(Ray, HitRecord) -> Vec<ScatteredRay>,
    B: Fn(Vec3, Vec3, Vec3) -> Vec3,
>(
    ray: Ray,
    hit: HitRecord,
    emitted: E,
    scatter: K,
    blend: B,
    base: Vec3,
    rays: Vec<ScatteredRay>,
    colors: Seq<Vec3>,
    r: Vec3,
) -> bool {
    &&& emitted_returns(emitted, hit.material, base)
    &&& scatter_returns(scatter, ray, hit, rays)
    &&& colors.len() == rays@.len()
    &&& blends_to(blend, base, colors, rays@, rays@.len() as int, r)
}

/// `blend` may return `r` for the colour so far, the colour gathered and the
/// coefficient.
pub open spec fn blend_returns<B: Fn(Vec3, Vec3, Vec3) -> Vec3>(
    blend: B,
    so_far: Vec3,
    gathered: Vec3,
    coefficient: Vec3,
    r: Vec3,
) -> bool {
    call_ensures(blend, (so_far, gathered, coefficient), r)
}

/// `r` may come of adding to `base`, one after another, the first `upto`
/// colours, each weighted by the coefficient of the ray it was gathered along.
/// `blend` does one such addition: it takes the colour so far, the colour
/// gathered and the coefficient.
pub open spec fn blends_to<B: Fn(Vec3, Vec3, Vec3) -> Vec3>(
    blend: B,
    base: Vec3,
    colors: Seq<Vec3>,
    rays: Seq<ScatteredRay>,
    upto: int,
    r: Vec3,
) -> bool
    decreases upto,
{
    if upto <= 0 {
        r == base
    } else {
        let last = upto - 1;
        let gathered = colors[last];
        let coefficient = rays[last].coefficient;
        exists|before: Vec3|
            blends_to(blend, base, colors, rays, last, before) && #[trigger] blend_returns(
                blend,
                before,
                gathered,
                coefficient,
                r,
            )
    }
}

/// `r` may be the colour that `ray_color` gathers along the ray.
///
/// A ray that hits nothing is black. At a hit the colour starts as what the
/// material gives off, by `emitted`. Beyond the depth allowed that is the
/// colour. Otherwise the material scatters the ray, by `scatter`; along each
/// scattered ray a colour is gathered one level deeper, and the colours are
/// added in, in the order of the rays, by `blend`.
pub open spec fn may_return<
    P: Hittable,
    F: Fn(AABB, Ray) -> bool,
    E: Fn(Material) -> Vec3,
    K: Fn(Ray, HitRecord) -> Vec<ScatteredRay>,
    B: Fn(Vec3, Vec3, Vec3) -> Vec3,
>(
    scene: Scene<P>,
    ray: Ray,
    depth: int,
    max_depth: int,
    box_hit: F,
    emitted: E,
    scatter: K,
    blend: B,
    r: Vec3,
) -> bool
    decreases max_depth + 1 - depth,
{
    exists|found: Option<HitRecord>|
        #![trigger sees(scene, ray, box_hit, found)]
        sees(scene, ray, box_hit, found) && match found {
            None => r == black(),
            Some(h) => if depth > max_depth {
                emitted_returns(emitted, h.material, r)
            } else {
                exists|base: Vec3, rays: Vec<ScatteredRay>, colors: Seq<Vec3>|
                    #![trigger shades(ray, h, emitted, scatter, blend, base, rays, colors, r)]
                    shades(ray, h, emitted, scatter, blend, base, rays, colors, r) && forall|
                        i: int,
                    |
                        0 <= i < rays@.len() ==> may_return(
                            scene,
                            (#[trigger] rays@[i]).ray,
                            depth + 1,
                            max_depth,
                            box_hit,
                            emitted,
                            scatter,
                            blend,
                            colors[i],
                        )
            },
        }
}

/// The three functions may be called on every argument.
pub open spec fn callable<
    E: Fn(Material) -> Vec3,
    K: Fn(Ray, HitRecord) -> Vec<ScatteredRay>,
    B: Fn(Vec3, Vec3, Vec3) -> Vec3,
>(emitted: E, scatter: K, blend: B) -> bool {
    &&& forall|m: Material| call_requires(emitted, (m,))
    &&& forall|ray: Ray, h: HitRecord| call_requires(scatter, (ray, h))
    &&& forall|a: Vec3, b: Vec3, c: Vec3| call_requires(blend, (a, b, c))
}

/// The colour gathered along a ray: what the surface it hits gives off, and,
/// down to the depth allowed, what comes in along the rays that the surface
/// scatters.
pub fn ray_color<
    P: Hittable,
    F: Fn(AABB, Ray) -> bool,
    E: Fn(Material) -> Vec3,
    K: Fn(Ray, HitRecord) -> Vec<ScatteredRay>,
    B: Fn(Vec3, Vec3, Vec3) -> Vec3,
>(
    ray: &Ray,
    scene: &Scene<P>,
    depth: u32,
    max_depth: u32,
    box_hit: &F,
    emitted: &E,
    scatter: &K,
    blend: &B,
) -> (color: Vec3)
    requires
        scene.is_built(),
        scene.wf(),
        is_probe(*box_hit),
        callable(*emitted, *scatter, *blend),
        max_depth < u32::MAX,
    ensures
        may_return(
            *scene,
            *ray,
            depth as int,
            max_depth as int,
            *box_hit,
            *emitted,
            *scatter,
            *blend,
            color,
        ),
    decreases max_depth + 1 - depth,
{
    let found = scene.hit(
        ray,
        Scalar::from_bits(T_MIN_BITS),
        Scalar::from_bits(T_MAX_BITS),
        box_hit,
    );
    assert(sees(*scene, *ray, *box_hit, found));
    match found {
        None => Vec3::zero(),
        Some(hit) => {
            let base = emitted(hit.material);
            assert(emitted_returns(*emitted, hit.material, base));
            if depth > max_depth {
                return base;
            }
            let scattered_rays = scatter(*ray, hit);
            assert(scatter_returns(*scatter, *ray, hit, scattered_rays));
            let mut color = base;
            let ghost mut colors: Seq<Vec3> = Seq::empty();
            let mut i: usize = 0;
            while i < scattered_rays.len()
                invariant
                    i <= scattered_rays@.len(),
                    depth <= max_depth < u32::MAX,
                    scene.is_built(),
                    scene.wf(),
                    is_probe(*box_hit),
                    sees(*scene, *ray, *box_hit, found),
                    found == Some(hit),
                    emitted_returns(*emitted, hit.material, base),
                    scatter_returns(*scatter, *ray, hit, scattered_rays),
                    callable(*emitted, *scatter, *blend),
                    colors.len() == i,
                    forall|k: int|
                        0 <= k < i ==> may_return(
                            *scene,
                            (#[trigger] scattered_rays@[k]).ray,
                            depth + 1,
                            max_depth as int,
                            *box_hit,
                            *emitted,
                            *scatter,
                            *blend,
                            colors[k],
                        ),
                    blends_to(*blend, base, colors, scattered_rays@, i as int, color),
                decreases scattered_rays@.len() - i,
            {
                let next = scattered_rays[i];
                let incoming = ray_color(
                    &next.ray,
                    scene,
                    depth + 1,
                    max_depth,
                    box_hit,
                    emitted,
                    scatter,
                    blend,
                );
                let ghost before = color;
                let ghost gathered = colors;
                color = blend(color, incoming, next.coefficient);
                proof {
                    colors = colors.push(incoming);
                    lemma_blends_to_extends(
                        *blend,
                        base,
                        gathered,
                        colors,
                        scattered_rays@,
                        i as int,
                        before,
                    );
                    // the step just made, as the next link of the chain
                    let up = i + 1;
                    assert(blends_to(*blend, base, colors, scattered_rays@, up - 1, before));
                    assert(blend_returns(
                        *blend,
                        before,
                        colors[up - 1],
                        scattered_rays@[up - 1].coefficient,
                        color,
                    ));
                    assert(blends_to(*blend, base, colors, scattered_rays@, up, color));
                }
                i += 1;
            }
            assert(shades(
                *ray,
                hit,
                *emitted,
                *scatter,
                *blend,
                base,
                scattered_rays,
                colors,
                color,
            ));
            color
        },
    }
}

/// Colours gathered later do not change what the earlier ones came to.
pub proof fn lemma_blends_to_extends<B: Fn(Vec3, Vec3, Vec3) -> Vec3>(
    blend: B,
    base: Vec3,
    colors: Seq<Vec3>,
    longer: Seq<Vec3>,
    rays: Seq<ScatteredRay>,
    upto: int,
    r: Vec3,
)
    requires
        upto <= colors.len() <= longer.len(),
        forall|k: int| 0 <= k < colors.len() ==> colors[k] == longer[k],
        blends_to(blend, base, colors, rays, upto, r),
    ensures
        blends_to(blend, base, longer, rays, upto, r),
    decreases upto,
{
    if upto > 0 {
        let last = upto - 1;
        let before = choose|before: Vec3|
            blends_to(blend, base, colors, rays, last, before) && #[trigger] blend_returns(
                blend,
                before,
                colors[last],
                rays[last].coefficient,
                r,
            );
        lemma_blends_to_extends(blend, base, colors, longer, rays, last, before);
        assert(blend_returns(blend, before, longer[last], rays[last].coefficient, r));
    }
}

/// A ray that hits nothing is black, at every depth.
pub proof fn lemma_miss_is_black<
    P: Hittable,
    F: Fn(AABB, Ray) -> bool,
    E: Fn(Material) -> Vec3,
    K: Fn(Ray, HitRecord) -> Vec<ScatteredRay>,
    B: Fn(Vec3, Vec3, Vec3) -> Vec3,
>(
    scene: Scene<P>,
    ray: Ray,
    depth: int,
    max_depth: int,
    box_hit: F,
    emitted: E,
    scatter: K,
    blend: B,
    r: Vec3,
)
    requires
        forall|found: Option<HitRecord>| #[trigger] sees(scene, ray, box_hit, found) ==> found is None,
        may_return(scene, ray, depth, max_depth, box_hit, emitted, scatter, blend, r),
    ensures
        r == black(),
{
}

/// Where nothing is scattered, the colour of a ray is what the first surface
/// it hits gives off, and nothing more: beyond the depth allowed, and at any
/// depth on a material that scatters no ray.
pub proof fn lemma_first_hit_only<
    P: Hittable,
    F: Fn(AABB, Ray) -> bool,
    E: Fn(Material) -> Vec3,
    K: Fn(Ray, HitRecord) -> Vec<ScatteredRay>,
    B: Fn(Vec3, Vec3, Vec3) -> Vec3,
>(
    scene: Scene<P>,
    ray: Ray,
    depth: int,
    max_depth: int,
    box_hit: F,
    emitted: E,
    scatter: K,
    blend: B,
    hit: HitRecord,
    r: Vec3,
)
    requires
        forall|found: Option<HitRecord>| #[trigger] sees(scene, ray, box_hit, found) ==> found == Some(hit),
        may_return(scene, ray, depth, max_depth, box_hit, emitted, scatter, blend, r),
        depth > max_depth || forall|rays: Vec<ScatteredRay>| #[trigger]
            scatter_returns(scatter, ray, hit, rays) ==> rays@.len() == 0,
    ensures
        emitted_returns(emitted, hit.material, r),
{
    if depth <= max_depth {
        let (base, rays, colors) = choose|base: Vec3, rays: Vec<ScatteredRay>, colors: Seq<Vec3>|
            #![trigger shades(ray, hit, emitted, scatter, blend, base, rays, colors, r)]
            shades(ray, hit, emitted, scatter, blend, base, rays, colors, r) && forall|i: int|
                0 <= i < rays@.len() ==> may_return(
                    scene,
                    (#[trigger] rays@[i]).ray,
                    depth + 1,
                    max_depth,
                    box_hit,
                    emitted,
                    scatter,
                    blend,
                    colors[i],
                );
        assert(rays@.len() == 0);
    }
}

} // verus!
