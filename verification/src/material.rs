//! Surface materials.
//!
//! A material decides whether light scatters at a surface, whether the
//! continuation is specular, what it attenuates by, and what it emits.
//! The decisions and the emission rule are exact and verified here; drawing
//! scattered directions and evaluating sampling densities involve square
//! roots and pi, so they belong to the unverified shell.

use vstd::prelude::*;
use crate::num::Frac;
use crate::vec3::{Vec3, FVec3, COORD_MAX};

verus! {

/// Magnitude bound on color numerators and denominators, so that products
/// of a few colors and densities stay within fraction bounds.
pub const COLOR_BOUND: i128 = 1_000_000;

/// A color component within the bounds that the radiance algebra needs.
pub open spec fn color_frac_wf(f: Frac) -> bool {
    &&& 1 <= f.d <= COLOR_BOUND
    &&& -COLOR_BOUND <= f.n <= COLOR_BOUND
}

/// An RGB radiance or reflectance value with bounded exact components.
pub open spec fn color_wf(c: FVec3) -> bool {
    &&& color_frac_wf(c.x)
    &&& color_frac_wf(c.y)
    &&& color_frac_wf(c.z)
}

/// The zero radiance value.
pub fn black() -> (r: FVec3)
    ensures
        r.x.n == 0 && r.y.n == 0 && r.z.n == 0,
        r.x.d == 1 && r.y.d == 1 && r.z.d == 1,
        color_wf(r),
{
    FVec3 {
        x: Frac { n: 0, d: 1 },
        y: Frac { n: 0, d: 1 },
        z: Frac { n: 0, d: 1 },
    }
}

/// A constant-color texture: the one texture whose value is exact.
#[derive(Clone, Copy, Debug)]
pub struct SolidTexture {
    pub color: FVec3,
}

impl SolidTexture {
    pub fn new(color: FVec3) -> (r: SolidTexture)
        ensures
            r.color == color,
    {
        SolidTexture { color }
    }

    /// A solid texture has the same value everywhere.
    pub fn value(&self) -> (r: FVec3)
        ensures
            r == self.color,
    {
        self.color
    }
}

/// What a material's scatter decision yields: whether the continuation is
/// specular and what it attenuates by. The continuation direction itself
/// is drawn by the sampling code around the core.
#[derive(Clone, Copy, Debug)]
pub struct ScatterRecord {
    pub is_specular: bool,
    pub attenuation: FVec3,
}

#[derive(Clone, Copy, Debug)]
pub enum Material {
    /// Perfectly diffuse: always scatters, never specular.
    Lambertian { albedo: SolidTexture },
    /// Mirror-like: always scatters, always specular.
    Metal { albedo: SolidTexture, fuzz: Frac },
    /// Emits from its front face and never scatters.
    DiffuseLight { emit: SolidTexture },
    /// Volume phase function: scatters uniformly in all directions.
    Isotropic { albedo: SolidTexture },
    /// Glass: always specular, attenuating nothing; the choice between
    /// reflection and refraction is drawn by the sampling code from the
    /// refraction index.
    Dielectric { ref_idx: Frac },
}

impl Material {
    pub open spec fn wf(self) -> bool {
        match self {
            Material::Lambertian { albedo } => color_wf(albedo.color),
            Material::Metal { albedo, fuzz } => color_wf(albedo.color) && fuzz.wf() && fuzz.n >= 0,
            Material::DiffuseLight { emit } => color_wf(emit.color),
            Material::Isotropic { albedo } => color_wf(albedo.color),
            Material::Dielectric { ref_idx } => ref_idx.wf() && ref_idx.n >= 1
                && color_frac_wf(ref_idx),
        }
    }

    /// The radiance a material emits where a ray struck it. Only a light
    /// emits, and only from its front face: a back-facing hit sees black.
    pub open spec fn emitted_spec(self, front_face: bool) -> FVec3 {
        match self {
            Material::DiffuseLight { emit } => if front_face {
                emit.color
            } else {
                FVec3 {
                    x: Frac { n: 0, d: 1 },
                    y: Frac { n: 0, d: 1 },
                    z: Frac { n: 0, d: 1 },
                }
            },
            _ => FVec3 {
                x: Frac { n: 0, d: 1 },
                y: Frac { n: 0, d: 1 },
                z: Frac { n: 0, d: 1 },
            },
        }
    }

    pub fn emitted(&self, front_face: bool) -> (r: FVec3)
        ensures
            r == self.emitted_spec(front_face),
    {
        match self {
            Material::DiffuseLight { emit } => {
                if front_face {
                    emit.color
                } else {
                    black()
                }
            }
            _ => black(),
        }
    }

    /// Whether the material produces a scatter record at all: everything
    /// but a light does; a light only emits.
    pub fn scatters(&self) -> (r: bool)
        ensures
            r == !(self is DiffuseLight),
    {
        !matches!(self, Material::DiffuseLight { .. })
    }

    /// Whether the scatter record carries a specular continuation ray
    /// rather than an importance-sampling handle.
    pub fn is_specular(&self) -> (r: bool)
        ensures
            r == (self is Metal || self is Isotropic || self is Dielectric),
    {
        matches!(self, Material::Metal { .. } | Material::Isotropic { .. }
            | Material::Dielectric { .. })
    }

    /// The scatter decision: a light absorbs everything it does not emit
    /// and yields nothing; every other material scatters, with its albedo
    /// as attenuation and its specular flag set by its kind. A metal's
    /// record stands only if the fuzz-perturbed direction then drawn for
    /// it survives `metal_scatter_survives`.
    pub fn scatter(&self) -> (r: Option<ScatterRecord>)
        ensures
            r is Some <==> !(self is DiffuseLight),
            match r {
                Some(sr) => {
                    &&& sr.is_specular == (self is Metal || self is Isotropic
                        || self is Dielectric)
                    &&& sr.attenuation == match *self {
                        Material::Lambertian { albedo } => albedo.color,
                        Material::Metal { albedo, .. } => albedo.color,
                        Material::DiffuseLight { emit } => emit.color,
                        Material::Isotropic { albedo } => albedo.color,
                        Material::Dielectric { .. } => FVec3 {
                            x: Frac { n: 1, d: 1 },
                            y: Frac { n: 1, d: 1 },
                            z: Frac { n: 1, d: 1 },
                        },
                    }
                },
                None => true,
            },
    {
        if self.scatters() {
            Some(ScatterRecord { is_specular: self.is_specular(), attenuation: self.attenuation() })
        } else {
            None
        }
    }

    /// The reflectance the scatter record attenuates by.
    pub fn attenuation(&self) -> (r: FVec3)
        ensures
            r == match *self {
                Material::Lambertian { albedo } => albedo.color,
                Material::Metal { albedo, .. } => albedo.color,
                Material::DiffuseLight { emit } => emit.color,
                Material::Isotropic { albedo } => albedo.color,
                Material::Dielectric { .. } => FVec3 {
                    x: Frac { n: 1, d: 1 },
                    y: Frac { n: 1, d: 1 },
                    z: Frac { n: 1, d: 1 },
                },
            },
    {
        match self {
            Material::Lambertian { albedo } => albedo.color,
            Material::Metal { albedo, .. } => albedo.color,
            Material::DiffuseLight { emit } => emit.color,
            Material::Isotropic { albedo } => albedo.color,
            Material::Dielectric { .. } => FVec3 {
                x: Frac { n: 1, d: 1 },
                y: Frac { n: 1, d: 1 },
                z: Frac { n: 1, d: 1 },
            },
        }
    }
}

/// Whether a fuzz-perturbed specular direction still leaves the surface:
/// it must point to the same side as the stored normal, which faces
/// against the arriving ray. A metal rejects the scatter otherwise.
pub fn metal_scatter_survives(scattered: &Vec3, normal: &FVec3) -> (r: bool)
    requires
        normal.wide(),
        scattered.bounded(COORD_MAX as int),
    ensures
        r == (normal.sdot_num(*scattered) > 0),
{
    normal.dot_vec3_num(scattered) > 0
}

} // verus!
