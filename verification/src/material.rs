use vstd::prelude::*;
use crate::ray::Ray;
use crate::scalar::{Scalar, EPSILON_BITS, ONE_BITS};
use crate::vec3::Vec3;

verus! {

/// How a surface answers light: a record of parameters, copied freely.
///
/// The colours are triples with components between 0 and 1 (a specular colour
/// may exceed 1), `dissolve` is the share of light let through, and
/// `optical_density` the refractive index.
#[derive(Clone, Copy, Debug, PartialEq, Eq, Structural)]
pub struct Material {
    pub ambient: Vec3,
    pub diffuse: Vec3,
    pub specular: Vec3,
    pub emissive: Vec3,
    pub transmission_filter: Vec3,
    pub dissolve: Scalar,
    pub specular_exponent: Scalar,
    pub optical_density: Scalar,
}

/// What a material file says of one material. A field is missing where the
/// file is silent on it.
#[derive(Clone, Copy, Debug, PartialEq, Eq, Structural)]
pub struct MtlRecord {
    pub ambient: Option<Vec3>,
    pub diffuse: Option<Vec3>,
    pub specular: Option<Vec3>,
    pub emissive: Option<Vec3>,
    pub dissolve: Option<Scalar>,
    pub shininess: Option<Scalar>,
    pub optical_density: Option<Scalar>,
}

/// One outgoing ray of a scattering event, with the per-channel weight of
/// the colour gathered along it.
#[derive(Clone, Copy, Debug, PartialEq, Eq, Structural)]
pub struct ScatteredRay {
    pub ray: Ray,
    pub coefficient: Vec3,
}

/// What becomes of light that meets the boundary of a transparent body.
#[derive(Clone, Copy, Debug, PartialEq, Eq, Structural)]
pub enum Refraction {
    /// All of it is reflected back: no ray passes.
    TotalReflection,
    /// The ray passes without a bend, along the normal.
    Straight,
    /// The ray passes and is bent.
    Bent,
}

/// The bit pattern of 0.1.
pub const TENTH_BITS: u32 = 0x3dcc_cccd;

/// The bit pattern of 0.8.
pub const FOUR_FIFTHS_BITS: u32 = 0x3f4c_cccd;

/// The bit pattern of 0.9.
pub const NINE_TENTHS_BITS: u32 = 0x3f66_6666;

/// The bit pattern of 1.5.
pub const THREE_HALVES_BITS: u32 = 0x3fc0_0000;

/// The bit pattern of 2.
pub const TWO_BITS: u32 = 0x4000_0000;

/// The bit pattern of 1000.
pub const THOUSAND_BITS: u32 = 0x447a_0000;

/// The vector with all three components of the bit pattern `bits`.
pub open spec fn splat_spec(bits: u32) -> Vec3 {
    Vec3 { x: Scalar { bits }, y: Scalar { bits }, z: Scalar { bits } }
}

/// The vector with all three components of the bit pattern `bits`.
pub fn splat(bits: u32) -> (v: Vec3)
    ensures
        v == splat_spec(bits),
{
    Vec3 { x: Scalar { bits }, y: Scalar { bits }, z: Scalar { bits } }
}

/// A weight counts where its largest component is above zero.
pub open spec fn is_positive(coefficient: Vec3) -> bool {
    (Scalar { bits: 0 }).lt_spec(coefficient.max_element_spec())
}

/// The candidate as a sequence: itself where its weight counts, nothing
/// otherwise.
pub open spec fn kept(candidate: ScatteredRay) -> Seq<ScatteredRay> {
    if is_positive(candidate.coefficient) {
        seq![candidate]
    } else {
        Seq::empty()
    }
}

/// The transmitted ray as a sequence: the refracted ray with its weight, where
/// the weight counts and the light is not reflected back wholly.
pub open spec fn kept_transmitted(coefficient: Vec3, refracted: Option<Ray>) -> Seq<ScatteredRay> {
    match refracted {
        Some(ray) => kept(ScatteredRay { ray, coefficient }),
        None => Seq::empty(),
    }
}

impl Material {
    /// What `scatter` returns: the diffuse, the specular and the transmitted
    /// ray, in this order, each only where it is kept.
    pub open spec fn scatter_spec(
        diffuse: ScatteredRay,
        specular: ScatteredRay,
        transmissive_coefficient: Vec3,
        refracted: Option<Ray>,
    ) -> Seq<ScatteredRay> {
        kept(diffuse) + kept(specular) + kept_transmitted(transmissive_coefficient, refracted)
    }

    /// The rays to follow after a hit, out of the three that the surface can
    /// send out: the diffuse and the specular ray with their weights, and the
    /// refracted ray, which is missing on total internal reflection, with the
    /// weight of transmitted light. A ray is followed only where the largest
    /// component of its weight is above zero.
    pub fn scatter(
        diffuse: ScatteredRay,
        specular: ScatteredRay,
        transmissive_coefficient: Vec3,
        refracted: Option<Ray>,
    ) -> (rays: Vec<ScatteredRay>)
        ensures
            rays@ == Self::scatter_spec(diffuse, specular, transmissive_coefficient, refracted),
            rays@.len() <= 3,
    {
        let mut scattered_rays: Vec<ScatteredRay> = Vec::new();
        if Scalar::zero().lt(diffuse.coefficient.max_element()) {
            scattered_rays.push(diffuse);
        }
        assert(scattered_rays@ == kept(diffuse));
        if Scalar::zero().lt(specular.coefficient.max_element()) {
            scattered_rays.push(specular);
        }
        assert(scattered_rays@ == kept(diffuse) + kept(specular));
        if Scalar::zero().lt(transmissive_coefficient.max_element()) {
            if let Some(ray) = refracted {
                scattered_rays.push(ScatteredRay { ray, coefficient: transmissive_coefficient });
            }
        }
        assert(scattered_rays@ == kept(diffuse) + kept(specular) + kept_transmitted(
            transmissive_coefficient,
            refracted,
        ));
        scattered_rays
    }

    /// The record names all that a material cannot do without: the ambient,
    /// diffuse and specular colour, the shininess and the optical density.
    pub open spec fn is_complete(record: MtlRecord) -> bool {
        record.ambient is Some && record.diffuse is Some && record.specular is Some
            && record.shininess is Some && record.optical_density is Some
    }

    /// The material that a record of a material file describes. The colours,
    /// the shininess and the optical density are taken as they stand. A record
    /// without an emissive colour gives off no light, one without a dissolve
    /// lets none through, and what any material lets through it does not tint.
    pub fn from_mtl(record: &MtlRecord) -> (m: Material)
        requires
            Self::is_complete(*record),
        ensures
            m.ambient == record.ambient->0,
            m.diffuse == record.diffuse->0,
            m.specular == record.specular->0,
            m.emissive == match record.emissive {
                Some(e) => e,
                None => splat_spec(0),
            },
            m.transmission_filter == splat_spec(ONE_BITS),
            m.dissolve == match record.dissolve {
                Some(d) => d,
                None => (Scalar { bits: 0 }),
            },
            m.specular_exponent == record.shininess->0,
            m.optical_density == record.optical_density->0,
    {
        let emissive = match record.emissive {
            Some(e) => e,
            None => splat(0),
        };
        let dissolve = match record.dissolve {
            Some(d) => d,
            None => Scalar::zero(),
        };
        Material {
            ambient: record.ambient.unwrap(),
            diffuse: record.diffuse.unwrap(),
            specular: record.specular.unwrap(),
            emissive,
            transmission_filter: splat(ONE_BITS),
            dissolve,
            specular_exponent: record.shininess.unwrap(),
            optical_density: record.optical_density.unwrap(),
        }
    }

    /// Whether a ray leaves the body it is in: the cosine of the angle between
    /// its direction and the surface normal is above zero.
    pub open spec fn leaves_spec(cos_theta: Scalar) -> bool {
        (Scalar { bits: 0 }).lt_spec(cos_theta)
    }

    /// What `refraction_kind` returns.
    pub open spec fn refraction_kind_spec(cos_theta: Scalar, sin_phi: Scalar) -> Refraction {
        if Self::leaves_spec(cos_theta) && (Scalar { bits: ONE_BITS }).lt_spec(sin_phi) {
            Refraction::TotalReflection
        } else if sin_phi.lt_spec(Scalar { bits: EPSILON_BITS }) {
            Refraction::Straight
        } else {
            Refraction::Bent
        }
    }

    /// Whether a ray leaves the body it is in.
    pub fn leaves(cos_theta: Scalar) -> (r: bool)
        ensures
            r == Self::leaves_spec(cos_theta),
    {
        Scalar::zero().lt(cos_theta)
    }

    /// What becomes of a ray at the boundary, where `cos_theta` is the cosine
    /// of the angle between the ray and the normal and `sin_phi` the sine of
    /// the angle after refraction. A ray that leaves the body with a sine
    /// above one is reflected wholly; a sine below the machine epsilon means
    /// straight passage; any other ray is bent.
    pub fn refraction_kind(cos_theta: Scalar, sin_phi: Scalar) -> (r: Refraction)
        ensures
            r == Self::refraction_kind_spec(cos_theta, sin_phi),
    {
        if Self::leaves(cos_theta) && Scalar::one().lt(sin_phi) {
            Refraction::TotalReflection
        } else if sin_phi.lt(Scalar::epsilon()) {
            Refraction::Straight
        } else {
            Refraction::Bent
        }
    }

    /// Plaster: a matt grey surface.
    pub fn plaster() -> (m: Material)
        ensures
            m == (Material {
                ambient: splat_spec(TENTH_BITS),
                diffuse: splat_spec(FOUR_FIFTHS_BITS),
                specular: splat_spec(FOUR_FIFTHS_BITS),
                emissive: splat_spec(0),
                transmission_filter: splat_spec(0),
                dissolve: Scalar { bits: 0 },
                specular_exponent: Scalar { bits: 0 },
                optical_density: Scalar { bits: ONE_BITS },
            }),
    {
        Material {
            ambient: splat(TENTH_BITS),
            diffuse: splat(FOUR_FIFTHS_BITS),
            specular: splat(FOUR_FIFTHS_BITS),
            emissive: splat(0),
            transmission_filter: splat(0),
            dissolve: Scalar { bits: 0 },
            specular_exponent: Scalar { bits: 0 },
            optical_density: Scalar { bits: ONE_BITS },
        }
    }

    /// A light: it emits and does nothing else.
    pub fn luminous() -> (m: Material)
        ensures
            m == (Material {
                ambient: splat_spec(0),
                diffuse: splat_spec(0),
                specular: splat_spec(0),
                emissive: splat_spec(ONE_BITS),
                transmission_filter: splat_spec(0),
                dissolve: Scalar { bits: 0 },
                specular_exponent: Scalar { bits: 0 },
                optical_density: Scalar { bits: ONE_BITS },
            }),
    {
        Material {
            ambient: splat(0),
            diffuse: splat(0),
            specular: splat(0),
            emissive: splat(ONE_BITS),
            transmission_filter: splat(0),
            dissolve: Scalar { bits: 0 },
            specular_exponent: Scalar { bits: 0 },
            optical_density: Scalar { bits: ONE_BITS },
        }
    }

    /// A mirror: a sharp specular highlight and nothing else.
    pub fn mirror() -> (m: Material)
        ensures
            m == (Material {
                ambient: splat_spec(0),
                diffuse: splat_spec(0),
                specular: splat_spec(TWO_BITS),
                emissive: splat_spec(0),
                transmission_filter: splat_spec(0),
                dissolve: Scalar { bits: 0 },
                specular_exponent: Scalar { bits: THOUSAND_BITS },
                optical_density: Scalar { bits: ONE_BITS },
            }),
    {
        Material {
            ambient: splat(0),
            diffuse: splat(0),
            specular: splat(TWO_BITS),
            emissive: splat(0),
            transmission_filter: splat(0),
            dissolve: Scalar { bits: 0 },
            specular_exponent: Scalar { bits: THOUSAND_BITS },
            optical_density: Scalar { bits: ONE_BITS },
        }
    }

    /// Glass: mostly transparent, with a sharp highlight.
    pub fn glass() -> (m: Material)
        ensures
            m == (Material {
                ambient: splat_spec(0),
                diffuse: splat_spec(0),
                specular: splat_spec(TWO_BITS),
                emissive: splat_spec(0),
                transmission_filter: splat_spec(ONE_BITS),
                dissolve: Scalar { bits: NINE_TENTHS_BITS },
                specular_exponent: Scalar { bits: THOUSAND_BITS },
                optical_density: Scalar { bits: THREE_HALVES_BITS },
            }),
    {
        Material {
            ambient: splat(0),
            diffuse: splat(0),
            specular: splat(TWO_BITS),
            emissive: splat(0),
            transmission_filter: splat(ONE_BITS),
            dissolve: Scalar { bits: NINE_TENTHS_BITS },
            specular_exponent: Scalar { bits: THOUSAND_BITS },
            optical_density: Scalar { bits: THREE_HALVES_BITS },
        }
    }
}

} // verus!
