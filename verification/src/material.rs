//! How a surface answers light.

use vstd::prelude::*;
use crate::scalar::Scalar;
use crate::vector::Vec3;
use crate::vector::Vec4;

verus! {

/// The response of a surface. `albedo` weighs, in order, the diffuse, the
/// specular, the reflected and the refracted share of the outgoing colour;
/// the weights need not sum to one.
#[derive(Clone, Copy, Debug, PartialEq, Eq, Structural)]
pub struct Material {
    pub diffuse_colour: Vec3,
    pub albedo: Vec4,
    /// Shininess of the highlight, not below zero.
    pub specular_exponent: Scalar,
    pub refractive_index: Scalar,
}

impl Material {
    /// Polished ivory: mostly diffuse, with a broad highlight and a faint reflection.
    pub open spec fn spec_ivory() -> Material {
        Material {
            diffuse_colour: Vec3 {
                x: Scalar { raw: 400_000_000 },
                y: Scalar { raw: 400_000_000 },
                z: Scalar { raw: 300_000_000 },
            },
            albedo: Vec4 {
                x: Scalar { raw: 600_000_000 },
                y: Scalar { raw: 300_000_000 },
                z: Scalar { raw: 300_000_000 },
                w: Scalar { raw: 0 },
            },
            specular_exponent: Scalar { raw: 50_000_000_000 },
            refractive_index: Scalar { raw: 1_000_000_000 },
        }
    }

    /// Red rubber: diffuse and dull.
    pub open spec fn spec_red_rubber() -> Material {
        Material {
            diffuse_colour: Vec3 {
                x: Scalar { raw: 300_000_000 },
                y: Scalar { raw: 100_000_000 },
                z: Scalar { raw: 100_000_000 },
            },
            albedo: Vec4 {
                x: Scalar { raw: 900_000_000 },
                y: Scalar { raw: 100_000_000 },
                z: Scalar { raw: 100_000_000 },
                w: Scalar { raw: 0 },
            },
            specular_exponent: Scalar { raw: 10_000_000_000 },
            refractive_index: Scalar { raw: 1_000_000_000 },
        }
    }

    /// A mirror: no diffuse response, a sharp highlight and a strong reflection.
    pub open spec fn spec_mirror() -> Material {
        Material {
            diffuse_colour: Vec3 {
                x: Scalar { raw: 1_000_000_000 },
                y: Scalar { raw: 1_000_000_000 },
                z: Scalar { raw: 1_000_000_000 },
            },
            albedo: Vec4 {
                x: Scalar { raw: 0 },
                y: Scalar { raw: 10_000_000_000 },
                z: Scalar { raw: 800_000_000 },
                w: Scalar { raw: 0 },
            },
            specular_exponent: Scalar { raw: 1_425_000_000_000 },
            refractive_index: Scalar { raw: 1_000_000_000 },
        }
    }

    /// Glass: mostly transmitted light, bent by an index of one and a half.
    pub open spec fn spec_glass() -> Material {
        Material {
            diffuse_colour: Vec3 {
                x: Scalar { raw: 600_000_000 },
                y: Scalar { raw: 700_000_000 },
                z: Scalar { raw: 800_000_000 },
            },
            albedo: Vec4 {
                x: Scalar { raw: 0 },
                y: Scalar { raw: 500_000_000 },
                z: Scalar { raw: 100_000_000 },
                w: Scalar { raw: 800_000_000 },
            },
            specular_exponent: Scalar { raw: 125_000_000_000 },
            refractive_index: Scalar { raw: 1_500_000_000 },
        }
    }

    /// The material of empty space and of the floor: its diffuse colour is the
    /// background colour, and it neither shines, reflects nor refracts. Its
    /// refractive index is one, that of empty space.
    pub open spec fn spec_default() -> Material {
        Material {
            diffuse_colour: Vec3 {
                x: Scalar { raw: 200_000_000 },
                y: Scalar { raw: 700_000_000 },
                z: Scalar { raw: 800_000_000 },
            },
            albedo: Vec4 {
                x: Scalar { raw: 1_000_000_000 },
                y: Scalar { raw: 0 },
                z: Scalar { raw: 0 },
                w: Scalar { raw: 0 },
            },
            specular_exponent: Scalar { raw: 0 },
            refractive_index: Scalar { raw: 1_000_000_000 },
        }
    }

    /// The material with the given parts.
    pub fn new(
        diffuse_colour: Vec3,
        albedo: Vec4,
        specular_exponent: Scalar,
        refractive_index: Scalar,
    ) -> (m: Material)
        ensures
            m == (Material { diffuse_colour, albedo, specular_exponent, refractive_index }),
    {
        Material { diffuse_colour, albedo, specular_exponent, refractive_index }
    }

    /// Polished ivory.
    #[verifier::when_used_as_spec(spec_ivory)]
    pub fn ivory() -> (m: Material)
        ensures
            m == Material::spec_ivory(),
    {
        Material {
            diffuse_colour: Vec3 {
                x: Scalar { raw: 400_000_000 },
                y: Scalar { raw: 400_000_000 },
                z: Scalar { raw: 300_000_000 },
            },
            albedo: Vec4 {
                x: Scalar { raw: 600_000_000 },
                y: Scalar { raw: 300_000_000 },
                z: Scalar { raw: 300_000_000 },
                w: Scalar { raw: 0 },
            },
            specular_exponent: Scalar { raw: 50_000_000_000 },
            refractive_index: Scalar { raw: 1_000_000_000 },
        }
    }

    /// Red rubber.
    #[verifier::when_used_as_spec(spec_red_rubber)]
    pub fn red_rubber() -> (m: Material)
        ensures
            m == Material::spec_red_rubber(),
    {
        Material {
            diffuse_colour: Vec3 {
                x: Scalar { raw: 300_000_000 },
                y: Scalar { raw: 100_000_000 },
                z: Scalar { raw: 100_000_000 },
            },
            albedo: Vec4 {
                x: Scalar { raw: 900_000_000 },
                y: Scalar { raw: 100_000_000 },
                z: Scalar { raw: 100_000_000 },
                w: Scalar { raw: 0 },
            },
            specular_exponent: Scalar { raw: 10_000_000_000 },
            refractive_index: Scalar { raw: 1_000_000_000 },
        }
    }

    /// A mirror.
    #[verifier::when_used_as_spec(spec_mirror)]
    pub fn mirror() -> (m: Material)
        ensures
            m == Material::spec_mirror(),
    {
        Material {
            diffuse_colour: Vec3 {
                x: Scalar { raw: 1_000_000_000 },
                y: Scalar { raw: 1_000_000_000 },
                z: Scalar { raw: 1_000_000_000 },
            },
            albedo: Vec4 {
                x: Scalar { raw: 0 },
                y: Scalar { raw: 10_000_000_000 },
                z: Scalar { raw: 800_000_000 },
                w: Scalar { raw: 0 },
            },
            specular_exponent: Scalar { raw: 1_425_000_000_000 },
            refractive_index: Scalar { raw: 1_000_000_000 },
        }
    }

    /// Glass.
    #[verifier::when_used_as_spec(spec_glass)]
    pub fn glass() -> (m: Material)
        ensures
            m == Material::spec_glass(),
    {
        Material {
            diffuse_colour: Vec3 {
                x: Scalar { raw: 600_000_000 },
                y: Scalar { raw: 700_000_000 },
                z: Scalar { raw: 800_000_000 },
            },
            albedo: Vec4 {
                x: Scalar { raw: 0 },
                y: Scalar { raw: 500_000_000 },
                z: Scalar { raw: 100_000_000 },
                w: Scalar { raw: 800_000_000 },
            },
            specular_exponent: Scalar { raw: 125_000_000_000 },
            refractive_index: Scalar { raw: 1_500_000_000 },
        }
    }

}

impl Default for Material {
    /// The material of empty space and of the floor.
    fn default() -> (m: Material)
        ensures
            m == Material::spec_default(),
    {
        Material {
            diffuse_colour: Vec3 {
                x: Scalar { raw: 200_000_000 },
                y: Scalar { raw: 700_000_000 },
                z: Scalar { raw: 800_000_000 },
            },
            albedo: Vec4 {
                x: Scalar { raw: 1_000_000_000 },
                y: Scalar { raw: 0 },
                z: Scalar { raw: 0 },
                w: Scalar { raw: 0 },
            },
            specular_exponent: Scalar { raw: 0 },
            refractive_index: Scalar { raw: 1_000_000_000 },
        }
    }
}

} // verus!
