//! The scene: spheres, point lights and a checkerboard floor, and the nearest
//! surface that a ray meets.

use vstd::prelude::*;
use crate::material::Material;
use crate::scalar::Scalar;
use crate::scalar::SCALE;
use crate::sphere::Sphere;
use crate::vector::Vec3;
use crate::vector::MAX_NORMALIZED;
use crate::vector::lemma_normalize_is_nearly_unit;

verus! {

/// Raw distance from which on a surface counts as out of sight: a thousand.
pub const HORIZON: i64 = 1_000 * SCALE;

/// Raw height of the floor plane: four below the origin.
pub const FLOOR_HEIGHT: i64 = -4 * SCALE;

/// A ray whose raw vertical component is at most this in size, a thousandth,
/// runs along the floor and never meets it.
pub const FLOOR_PARALLEL: i64 = 1_000_000;

/// The floor reaches this far to either side, raw.
pub const FLOOR_HALF_WIDTH: i64 = 10 * SCALE;

/// The floor starts behind this raw depth.
pub const FLOOR_NEAR: i64 = -10 * SCALE;

/// The floor ends before this raw depth.
pub const FLOOR_FAR: i64 = -30 * SCALE;

/// Raw factor that dims the colours of the floor: three tenths.
pub const FLOOR_DIM: i64 = 300_000_000;

/// A point light.
#[derive(Clone, Copy, Debug, PartialEq, Eq, Structural)]
pub struct Light {
    pub position: Vec3,
    pub intensity: Scalar,
}

impl Light {
    /// The light at `position` with the given intensity.
    pub fn new(position: Vec3, intensity: Scalar) -> (l: Light)
        ensures
            l == (Light { position, intensity }),
    {
        Light { position, intensity }
    }
}

/// The distance at which the ray meets `sphere`, or the largest number when
/// it does not.
pub open spec fn sphere_distance(origin: Vec3, direction: Vec3, sphere: Sphere) -> Scalar {
    match sphere.spec_ray_intersect(&origin, &direction) {
        Some(t) => t,
        None => Scalar { raw: i64::MAX },
    }
}

/// The index, among the first `n` spheres, of the one that the ray meets at
/// the least distance; of several at that distance, the first.
pub open spec fn nearest_sphere(origin: Vec3, direction: Vec3, spheres: Seq<Sphere>, n: nat)
    -> Option<int>
    decreases n,
{
    if n == 0 {
        None
    } else {
        let before = nearest_sphere(origin, direction, spheres, (n - 1) as nat);
        match spheres[n - 1].spec_ray_intersect(&origin, &direction) {
            None => before,
            Some(t) => match before {
                None => Some(n - 1),
                Some(b) => if t@ < sphere_distance(origin, direction, spheres[b])@ {
                    Some(n - 1)
                } else {
                    before
                },
            },
        }
    }
}

/// The distance to the nearest sphere, or the largest number when the ray
/// meets none.
pub open spec fn nearest_distance(origin: Vec3, direction: Vec3, spheres: Seq<Sphere>) -> Scalar {
    match nearest_sphere(origin, direction, spheres, spheres.len()) {
        Some(i) => sphere_distance(origin, direction, spheres[i]),
        None => Scalar { raw: i64::MAX },
    }
}

/// The distance along the ray to the plane of the floor.
pub open spec fn floor_distance(origin: Vec3, direction: Vec3) -> Scalar {
    origin.y.sub(Scalar { raw: FLOOR_HEIGHT }).neg().div(direction.y)
}

/// Where the ray meets the plane of the floor.
pub open spec fn floor_point(origin: Vec3, direction: Vec3) -> Vec3 {
    origin.add(direction.scale(floor_distance(origin, direction)))
}

/// Whether the ray meets the floor before `limit`: it must not run along the
/// plane, the plane must lie ahead, and the meeting point must fall on the
/// board.
pub open spec fn meets_floor(origin: Vec3, direction: Vec3, limit: Scalar) -> bool {
    let t = floor_distance(origin, direction);
    let p = floor_point(origin, direction);
    &&& direction.y.abs()@ > FLOOR_PARALLEL
    &&& t@ > 0
    &&& p.x.abs()@ < FLOOR_HALF_WIDTH
    &&& FLOOR_FAR < p.z@ < FLOOR_NEAR
    &&& t@ < limit@
}

/// The colour of the floor at a point: squares two wide alternate between
/// dimmed white, where the sum of the square's column and row is even, and
/// dimmed orange, where it is odd.
pub open spec fn spec_floor_colour(point: Vec3) -> Vec3 {
    let dim = Scalar { raw: FLOOR_DIM };
    if (point.x.spec_half_floor() + point.z.spec_half_floor()) % 2 == 0 {
        (Vec3 { x: Scalar { raw: SCALE }, y: Scalar { raw: SCALE }, z: Scalar { raw: SCALE } }).scale(dim)
    } else {
        (Vec3 { x: Scalar { raw: SCALE }, y: Scalar { raw: 700_000_000 }, z: Scalar { raw: 300_000_000 } }).scale(dim)
    }
}

/// The material of the floor at a point: the default material with the
/// colour of the square.
pub open spec fn floor_material(point: Vec3) -> Material {
    Material {
        diffuse_colour: spec_floor_colour(point),
        albedo: Material::spec_default().albedo,
        specular_exponent: Material::spec_default().specular_exponent,
        refractive_index: Material::spec_default().refractive_index,
    }
}

/// The nearest surface that the ray meets within the horizon: its material,
/// the point and the unit normal there. The floor wins where the ray meets it
/// before every sphere.
pub open spec fn spec_scene_intersect(origin: &Vec3, direction: &Vec3, spheres: &Vec<Sphere>)
    -> Option<(Material, Vec3, Vec3)> {
    let reach = nearest_distance(*origin, *direction, spheres@);
    if meets_floor(*origin, *direction, reach) {
        if floor_distance(*origin, *direction)@ < HORIZON {
            let point = floor_point(*origin, *direction);
            Some(
                (
                    floor_material(point),
                    point,
                    Vec3 { x: Scalar { raw: 0 }, y: Scalar { raw: SCALE }, z: Scalar { raw: 0 } },
                ),
            )
        } else {
            None
        }
    } else {
        match nearest_sphere(*origin, *direction, spheres@, spheres@.len()) {
            Some(i) => if reach@ < HORIZON {
                let point = origin.add(direction.scale(reach));
                Some((spheres@[i].material, point, point.sub(spheres@[i].center).normalize()))
            } else {
                None
            },
            None => None,
        }
    }
}

/// The colour of the floor square under `point`.
#[verifier::when_used_as_spec(spec_floor_colour)]
pub fn floor_colour(point: Vec3) -> (colour: Vec3)
    ensures
        colour == spec_floor_colour(point),
{
    let column: i64 = point.x.half_floor();
    let row: i64 = point.z.half_floor();
    let even: bool = (column % 2 != 0) == (row % 2 != 0);
    let dim: Scalar = Scalar { raw: FLOOR_DIM };
    if even {
        Vec3::splat(Scalar { raw: SCALE }).scale(dim)
    } else {
        Vec3::new(Scalar { raw: SCALE }, Scalar { raw: 700_000_000 }, Scalar { raw: 300_000_000 }).scale(dim)
    }
}

/// The nearest surface that the ray from `origin` along the unit vector
/// `direction` meets: its material, the point and the normal there.
#[verifier::when_used_as_spec(spec_scene_intersect)]
pub fn scene_intersect(origin: &Vec3, direction: &Vec3, spheres: &Vec<Sphere>) -> (hit: Option<
    (Material, Vec3, Vec3),
>)
    ensures
        hit == spec_scene_intersect(origin, direction, spheres),
        hit matches Some((_, _, normal)) ==> normal.in_unit_cube(),
{
    let mut best: Option<usize> = None;
    let mut reach: Scalar = Scalar { raw: i64::MAX };
    let mut i: usize = 0;
    while i < spheres.len()
        invariant
            i <= spheres@.len(),
            match best {
                Some(b) => nearest_sphere(*origin, *direction, spheres@, i as nat) == Some(b as int)
                    && b < i && reach == sphere_distance(*origin, *direction, spheres@[b as int]),
                None => nearest_sphere(*origin, *direction, spheres@, i as nat) is None
                    && reach.raw == i64::MAX,
            },
        decreases spheres@.len() - i,
    {
        match spheres[i].ray_intersect(origin, direction) {
            Some(t) => {
                if best.is_none() || t.raw < reach.raw {
                    best = Some(i);
                    reach = t;
                }
            },
            None => {},
        }
        i = i + 1;
    }
    let mut on_floor: bool = false;
    let mut floor_reach: Scalar = Scalar { raw: 0 };
    let mut point: Vec3 = Vec3::splat(Scalar { raw: 0 });
    if direction.y.abs().raw > FLOOR_PARALLEL {
        floor_reach = origin.y.sub(Scalar { raw: FLOOR_HEIGHT }).neg().div(direction.y);
        point = origin.add(direction.scale(floor_reach));
        on_floor = floor_reach.raw > 0 && point.x.abs().raw < FLOOR_HALF_WIDTH && point.z.raw
            < FLOOR_NEAR && point.z.raw > FLOOR_FAR && floor_reach.raw < reach.raw;
    }
    if on_floor {
        if floor_reach.raw < HORIZON {
            let base: Material = Material::default();
            let material: Material = Material::new(
                floor_colour(point),
                base.albedo,
                base.specular_exponent,
                base.refractive_index,
            );
            Some((material, point, Vec3::new(Scalar { raw: 0 }, Scalar { raw: SCALE }, Scalar { raw: 0 })))
        } else {
            None
        }
    } else {
        match best {
            Some(b) => {
                if reach.raw < HORIZON {
                    let hit_point: Vec3 = origin.add(direction.scale(reach));
                    let normal: Vec3 = hit_point.sub(spheres[b].center).normalize();
                    Some((spheres[b].material, hit_point, normal))
                } else {
                    None
                }
            },
            None => None,
        }
    }
}

/// Which sphere the ray meets first: none only if the ray misses all of the
/// first `n`; otherwise one that the ray meets, no other is met nearer, and
/// none before it in the list is met as near.
pub proof fn lemma_nearest_sphere_is_nearest(
    origin: Vec3,
    direction: Vec3,
    spheres: Seq<Sphere>,
    n: nat,
)
    requires
        n <= spheres.len(),
    ensures
        match nearest_sphere(origin, direction, spheres, n) {
            None => forall|j: int|
                0 <= j < n ==> (#[trigger] spheres[j]).spec_ray_intersect(&origin, &direction)
                    is None,
            Some(i) => {
                &&& 0 <= i < n
                &&& spheres[i].spec_ray_intersect(&origin, &direction) is Some
                &&& forall|j: int|
                    0 <= j < n && (#[trigger] spheres[j]).spec_ray_intersect(&origin, &direction)
                        is Some ==> sphere_distance(origin, direction, spheres[i])@
                        <= sphere_distance(origin, direction, spheres[j])@
                &&& forall|j: int|
                    0 <= j < i && (#[trigger] spheres[j]).spec_ray_intersect(&origin, &direction)
                        is Some ==> sphere_distance(origin, direction, spheres[i])@
                        < sphere_distance(origin, direction, spheres[j])@
            },
        },
    decreases n,
{
    if n > 0 {
        lemma_nearest_sphere_is_nearest(origin, direction, spheres, (n - 1) as nat);
    }
}

/// What the ray meets lies within the horizon, and a sphere is only met
/// where the ray does not reach the floor before it.
pub proof fn lemma_scene_hit_is_in_sight(origin: Vec3, direction: Vec3, spheres: &Vec<Sphere>)
    requires
        spec_scene_intersect(&origin, &direction, spheres) is Some,
    ensures
        meets_floor(origin, direction, nearest_distance(origin, direction, spheres@)) ==> {
            &&& floor_distance(origin, direction)@ < HORIZON
            &&& ({
                let (_, point, _) = spec_scene_intersect(&origin, &direction, spheres)->0;
                point == floor_point(origin, direction)
            })
        },
        !meets_floor(origin, direction, nearest_distance(origin, direction, spheres@)) ==> {
            &&& nearest_sphere(origin, direction, spheres@, spheres@.len()) is Some
            &&& 0 <= nearest_distance(origin, direction, spheres@)@ < HORIZON
        },
{
    lemma_nearest_sphere_is_nearest(origin, direction, spheres@, spheres@.len());
}

/// The normal of what the ray meets has length one to within rounding: the
/// floor's exactly, a sphere's where the met point lies at least one from the
/// centre.
pub proof fn lemma_scene_normal_is_nearly_unit(origin: Vec3, direction: Vec3, spheres: &Vec<Sphere>)
    requires
        spec_scene_intersect(&origin, &direction, spheres) is Some,
        meets_floor(origin, direction, nearest_distance(origin, direction, spheres@)) || ({
            let (_, point, _) = spec_scene_intersect(&origin, &direction, spheres)->0;
            let centre = spheres@[nearest_sphere(origin, direction, spheres@, spheres@.len())->0].center;
            point.sub(centre).within(MAX_NORMALIZED as int) && point.sub(centre).spec_length()@
                >= SCALE
        }),
    ensures
        ({
            let (_, _, normal) = spec_scene_intersect(&origin, &direction, spheres)->0;
            normal.is_nearly_unit()
        }),
{
    if meets_floor(origin, direction, nearest_distance(origin, direction, spheres@)) {
        assert(0int * 0int == 0 && SCALE * SCALE - 6 * SCALE <= SCALE * SCALE) by (nonlinear_arith);
    } else {
        let (_, point, _) = spec_scene_intersect(&origin, &direction, spheres)->0;
        let centre = spheres@[nearest_sphere(origin, direction, spheres@, spheres@.len())->0].center;
        lemma_normalize_is_nearly_unit(point.sub(centre));
    }
}

} // verus!
