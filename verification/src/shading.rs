//! The colour that arrives along a ray: local lighting with shadows, plus
//! what the surface reflects and refracts, followed to a fixed depth.

use vstd::prelude::*;
use crate::material::Material;
use crate::optics::reflect;
use crate::optics::reflected_ray;
use crate::optics::refracted_ray;
use crate::optics::lift;
use crate::optics::spec_lift;
use crate::optics::spec_reflect;
use crate::optics::spec_reflected_ray;
use crate::optics::spec_refracted_ray;
use crate::scalar::Scalar;
use crate::scalar::SCALE;
use crate::scene::Light;
use crate::scene::scene_intersect;
use crate::scene::spec_scene_intersect;
use crate::sphere::Sphere;
use crate::vector::Vec3;

verus! {

/// A ray deeper than this many bounces returns the background.
pub const RECURSION_DEPTH: usize = 4;

/// Raw distance by which a shadow ray starts off the surface: a ten
/// thousandth.
pub const SHADOW_OFFSET: i64 = 100_000;

/// The colour of empty space.
pub open spec fn background() -> Vec3 {
    Material::spec_default().diffuse_colour
}

/// Whether something stands between the point and the light: a ray from just
/// off the surface toward the light meets a surface nearer than the light.
pub open spec fn in_shadow(point: Vec3, normal: Vec3, spheres: &Vec<Sphere>, light: Light) -> bool {
    let to_light = light.position.sub(point);
    let toward = to_light.normalize();
    let start = spec_lift(point, normal, toward, Scalar { raw: SHADOW_OFFSET });
    match spec_scene_intersect(&start, &toward, spheres) {
        Some((_, blocker, _)) => blocker.sub(start).length()@ < to_light.length()@,
        None => false,
    }
}

/// The diffuse share of one unshadowed light: its intensity times the cosine
/// between the normal and the direction to the light, if positive.
pub open spec fn diffuse_term(point: Vec3, normal: Vec3, light: Light) -> Scalar {
    let toward = light.position.sub(point).normalize();
    light.intensity.mul((Scalar { raw: 0 }).max(toward.dot(normal)))
}

/// The specular share of one unshadowed light: its intensity times a power
/// of the cosine between the viewing ray and the mirrored light direction.
pub open spec fn specular_term(
    point: Vec3,
    normal: Vec3,
    direction: Vec3,
    exponent: Scalar,
    light: Light,
) -> Scalar {
    let toward = light.position.sub(point).normalize();
    (Scalar { raw: 0 }).max(spec_reflect(&toward, &normal).dot(direction)).spec_powf(exponent).mul(
        light.intensity,
    )
}

/// The diffuse and the specular intensity that the first `n` lights give at
/// a point. A shadowed light adds nothing.
pub open spec fn illumination(
    point: Vec3,
    normal: Vec3,
    direction: Vec3,
    exponent: Scalar,
    spheres: &Vec<Sphere>,
    lights: Seq<Light>,
    n: nat,
) -> (Scalar, Scalar)
    decreases n,
{
    if n == 0 {
        (Scalar { raw: 0 }, Scalar { raw: 0 })
    } else {
        let before = illumination(point, normal, direction, exponent, spheres, lights, (n - 1) as nat);
        let light = lights[n - 1];
        if in_shadow(point, normal, spheres, light) {
            before
        } else {
            (
                before.0.add(diffuse_term(point, normal, light)),
                before.1.add(specular_term(point, normal, direction, exponent, light)),
            )
        }
    }
}

/// The outgoing colour: the four shares weighted by the albedo of the
/// material. The highlight is white.
pub open spec fn spec_blend(
    material: Material,
    diffuse: Scalar,
    specular: Scalar,
    reflected: Vec3,
    refracted: Vec3,
) -> Vec3 {
    let white = Vec3 { x: Scalar { raw: SCALE }, y: Scalar { raw: SCALE }, z: Scalar { raw: SCALE } };
    material.diffuse_colour.scale(diffuse).scale(material.albedo.x).add(
        white.scale(specular).scale(material.albedo.y),
    ).add(reflected.scale(material.albedo.z)).add(refracted.scale(material.albedo.w))
}

/// The colour seen from `origin` along `direction`. Beyond the depth limit,
/// or where the ray meets nothing, it is the background. Otherwise it blends
/// the light at the surface with the colours seen along the reflected and the
/// refracted ray, each one level deeper.
pub open spec fn spec_cast_ray(
    origin: &Vec3,
    direction: &Vec3,
    spheres: &Vec<Sphere>,
    lights: &Vec<Light>,
    depth: usize,
) -> Vec3
    decreases RECURSION_DEPTH + 1 - depth,
{
    if depth > RECURSION_DEPTH {
        background()
    } else {
        match spec_scene_intersect(origin, direction, spheres) {
            None => background(),
            Some((material, point, normal)) => {
                let mirrored = spec_reflected_ray(*direction, point, normal);
                let bent = spec_refracted_ray(*direction, point, normal, material.refractive_index);
                let reflected = spec_cast_ray(
                    &mirrored.0,
                    &mirrored.1,
                    spheres,
                    lights,
                    (depth + 1) as usize,
                );
                let refracted = spec_cast_ray(&bent.0, &bent.1, spheres, lights, (depth + 1) as usize);
                let lit = illumination(
                    point,
                    normal,
                    *direction,
                    material.specular_exponent,
                    spheres,
                    lights@,
                    lights@.len(),
                );
                spec_blend(material, lit.0, lit.1, reflected, refracted)
            },
        }
    }
}

/// How many rays the ray from `origin` along `direction` gives rise to,
/// itself included: every ray that meets a surface within the depth limit
/// sends out a reflected and a refracted one.
pub open spec fn ray_count(origin: &Vec3, direction: &Vec3, spheres: &Vec<Sphere>, depth: usize) -> nat
    decreases RECURSION_DEPTH + 1 - depth,
{
    if depth > RECURSION_DEPTH {
        1
    } else {
        match spec_scene_intersect(origin, direction, spheres) {
            None => 1,
            Some((material, point, normal)) => {
                let mirrored = spec_reflected_ray(*direction, point, normal);
                let bent = spec_refracted_ray(*direction, point, normal, material.refractive_index);
                1 + ray_count(&mirrored.0, &mirrored.1, spheres, (depth + 1) as usize) + ray_count(
                    &bent.0,
                    &bent.1,
                    spheres,
                    (depth + 1) as usize,
                )
            },
        }
    }
}

/// How many bounces deep the rays that start with this one go.
pub open spec fn bounce_depth(origin: &Vec3, direction: &Vec3, spheres: &Vec<Sphere>, depth: usize)
    -> nat
    decreases RECURSION_DEPTH + 1 - depth,
{
    if depth > RECURSION_DEPTH {
        0
    } else {
        match spec_scene_intersect(origin, direction, spheres) {
            None => 0,
            Some((material, point, normal)) => {
                let mirrored = spec_reflected_ray(*direction, point, normal);
                let bent = spec_refracted_ray(*direction, point, normal, material.refractive_index);
                let up = bounce_depth(&mirrored.0, &mirrored.1, spheres, (depth + 1) as usize);
                let through = bounce_depth(&bent.0, &bent.1, spheres, (depth + 1) as usize);
                if up >= through {
                    1 + up
                } else {
                    1 + through
                }
            },
        }
    }
}

/// The number of nodes of a full binary tree with `levels` levels below its
/// root.
pub open spec fn full_tree(levels: nat) -> nat
    decreases levels,
{
    if levels == 0 {
        1
    } else {
        1 + 2 * full_tree((levels - 1) as nat)
    }
}

/// Blends the four shares of the outgoing colour by the weights of the
/// material.
#[verifier::when_used_as_spec(spec_blend)]
pub fn blend(
    material: Material,
    diffuse: Scalar,
    specular: Scalar,
    reflected: Vec3,
    refracted: Vec3,
) -> (colour: Vec3)
    ensures
        colour == spec_blend(material, diffuse, specular, reflected, refracted),
{
    let white: Vec3 = Vec3::splat(Scalar { raw: SCALE });
    material.diffuse_colour.scale(diffuse).scale(material.albedo.x).add(
        white.scale(specular).scale(material.albedo.y),
    ).add(reflected.scale(material.albedo.z)).add(refracted.scale(material.albedo.w))
}

/// The diffuse and the specular intensity that the lights give at `point`,
/// where the surface has the unit normal `normal` and is seen along
/// `direction`.
pub fn illuminate(
    point: Vec3,
    normal: Vec3,
    direction: Vec3,
    exponent: Scalar,
    spheres: &Vec<Sphere>,
    lights: &Vec<Light>,
) -> (lit: (Scalar, Scalar))
    ensures
        lit == illumination(point, normal, direction, exponent, spheres, lights@, lights@.len()),
        lights@.len() == 0 ==> lit.0@ == 0 && lit.1@ == 0,
{
    let mut diffuse: Scalar = Scalar { raw: 0 };
    let mut specular: Scalar = Scalar { raw: 0 };
    let mut i: usize = 0;
    while i < lights.len()
        invariant
            i <= lights@.len(),
            (diffuse, specular) == illumination(
                point,
                normal,
                direction,
                exponent,
                spheres,
                lights@,
                i as nat,
            ),
        decreases lights@.len() - i,
    {
        let light: Light = lights[i];
        let to_light: Vec3 = light.position.sub(point);
        let toward: Vec3 = to_light.normalize();
        let start: Vec3 = lift(point, normal, toward, Scalar { raw: SHADOW_OFFSET });
        let blocked: bool = match scene_intersect(&start, &toward, spheres) {
            Some((_, blocker, _)) => blocker.sub(start).length().raw < to_light.length().raw,
            None => false,
        };
        if !blocked {
            let facing: Scalar = Scalar { raw: 0 }.max(toward.dot(normal));
            diffuse = diffuse.add(light.intensity.mul(facing));
            let glint: Scalar = Scalar { raw: 0 }.max(reflect(&toward, &normal).dot(direction));
            specular = specular.add(glint.powf(exponent).mul(light.intensity));
        }
        i = i + 1;
    }
    (diffuse, specular)
}

/// The colour seen from `origin` along the unit vector `direction`. `depth`
/// counts the bounces so far; a first ray has depth zero.
#[verifier::when_used_as_spec(spec_cast_ray)]
pub fn cast_ray(
    origin: &Vec3,
    direction: &Vec3,
    spheres: &Vec<Sphere>,
    lights: &Vec<Light>,
    depth: usize,
) -> (colour: Vec3)
    ensures
        colour == spec_cast_ray(origin, direction, spheres, lights, depth),
        depth > RECURSION_DEPTH ==> colour == background(),
        spec_scene_intersect(origin, direction, spheres) is None ==> colour == background(),
    decreases RECURSION_DEPTH + 1 - depth,
{
    let bg_colour: Vec3 = Material::default().diffuse_colour;
    if depth > RECURSION_DEPTH {
        return bg_colour;
    }
    match scene_intersect(origin, direction, spheres) {
        Some((material, point, normal)) => {
            let mirrored: (Vec3, Vec3) = reflected_ray(*direction, point, normal);
            let bent: (Vec3, Vec3) = refracted_ray(*direction, point, normal, material.refractive_index);
            let reflected: Vec3 = cast_ray(&mirrored.0, &mirrored.1, spheres, lights, depth + 1);
            let refracted: Vec3 = cast_ray(&bent.0, &bent.1, spheres, lights, depth + 1);
            let lit: (Scalar, Scalar) = illuminate(
                point,
                normal,
                *direction,
                material.specular_exponent,
                spheres,
                lights,
            );
            blend(material, lit.0, lit.1, reflected, refracted)
        },
        None => bg_colour,
    }
}

/// The number of rays that following the ray from `origin` along `direction`
/// takes, itself included: never more than 63.
pub fn count_rays(origin: &Vec3, direction: &Vec3, spheres: &Vec<Sphere>, depth: usize) -> (count:
    u32)
    ensures
        count == ray_count(origin, direction, spheres, depth),
        1 <= count <= 63,
        depth <= RECURSION_DEPTH + 1 ==> count <= full_tree((RECURSION_DEPTH + 1 - depth) as nat),
    decreases RECURSION_DEPTH + 1 - depth,
{
    proof {
        reveal_with_fuel(full_tree, 6);
        if depth <= RECURSION_DEPTH + 1 {
            lemma_rays_are_bounded(*origin, *direction, spheres, depth);
        }
    }
    if depth > RECURSION_DEPTH {
        return 1;
    }
    match scene_intersect(origin, direction, spheres) {
        Some((material, point, normal)) => {
            let mirrored: (Vec3, Vec3) = reflected_ray(*direction, point, normal);
            let bent: (Vec3, Vec3) = refracted_ray(*direction, point, normal, material.refractive_index);
            let up: u32 = count_rays(&mirrored.0, &mirrored.1, spheres, depth + 1);
            let through: u32 = count_rays(&bent.0, &bent.1, spheres, depth + 1);
            1 + up + through
        },
        None => 1,
    }
}

/// A ray that meets nothing shows exactly the background.
pub proof fn lemma_miss_shows_background(
    origin: Vec3,
    direction: Vec3,
    spheres: &Vec<Sphere>,
    lights: &Vec<Light>,
    depth: usize,
)
    requires
        spec_scene_intersect(&origin, &direction, spheres) is None,
    ensures
        spec_cast_ray(&origin, &direction, spheres, lights, depth) == background(),
{
}

/// Without light a surface shows only what it reflects and refracts: with
/// no diffuse and no specular intensity the blend is the reflected colour by
/// its weight plus the refracted colour by its weight.
pub proof fn lemma_unlit_blend(material: Material, reflected: Vec3, refracted: Vec3)
    ensures
        spec_blend(material, Scalar { raw: 0 }, Scalar { raw: 0 }, reflected, refracted)
            == reflected.scale(material.albedo.z).add(refracted.scale(material.albedo.w)),
{
    let zero = Scalar { raw: 0 };
    let c = material.diffuse_colour;
    assert(c.x@ * 0 == 0 && c.y@ * 0 == 0 && c.z@ * 0 == 0) by (nonlinear_arith);
    assert(0 * material.albedo.x@ == 0 && 0 * material.albedo.y@ == 0) by (nonlinear_arith);
    assert(SCALE * 0 == 0) by (nonlinear_arith);
    let nothing = Vec3 { x: zero, y: zero, z: zero };
    assert(c.scale(zero) == nothing);
    assert(nothing.scale(material.albedo.x) == nothing);
    assert(nothing.scale(material.albedo.y) == nothing);
    assert(nothing.add(nothing) == nothing);
    let r = reflected.scale(material.albedo.z);
    assert(nothing.add(r) == r);
}

/// In a scene without lights, the colour of a ray that meets a surface is
/// the colour along the reflected ray by the reflective weight of the
/// material plus the colour along the refracted ray by its refractive weight.
pub proof fn lemma_unlit_scene_shows_only_bounces(
    origin: Vec3,
    direction: Vec3,
    spheres: &Vec<Sphere>,
    lights: &Vec<Light>,
    depth: usize,
)
    requires
        lights@.len() == 0,
        depth <= RECURSION_DEPTH,
        spec_scene_intersect(&origin, &direction, spheres) is Some,
    ensures
        ({
            let (material, point, normal) = spec_scene_intersect(&origin, &direction, spheres)->0;
            let mirrored = spec_reflected_ray(direction, point, normal);
            let bent = spec_refracted_ray(direction, point, normal, material.refractive_index);
            spec_cast_ray(&origin, &direction, spheres, lights, depth) == spec_cast_ray(
                &mirrored.0,
                &mirrored.1,
                spheres,
                lights,
                (depth + 1) as usize,
            ).scale(material.albedo.z).add(
                spec_cast_ray(&bent.0, &bent.1, spheres, lights, (depth + 1) as usize).scale(
                    material.albedo.w,
                ),
            )
        }),
{
    let (material, point, normal) = spec_scene_intersect(&origin, &direction, spheres)->0;
    let mirrored = spec_reflected_ray(direction, point, normal);
    let bent = spec_refracted_ray(direction, point, normal, material.refractive_index);
    lemma_unlit_blend(
        material,
        spec_cast_ray(&mirrored.0, &mirrored.1, spheres, lights, (depth + 1) as usize),
        spec_cast_ray(&bent.0, &bent.1, spheres, lights, (depth + 1) as usize),
    );
}

/// A light in shadow adds nothing, and a light in the open adds its diffuse
/// and its specular term.
pub proof fn lemma_shadowed_light_adds_nothing(
    point: Vec3,
    normal: Vec3,
    direction: Vec3,
    exponent: Scalar,
    spheres: &Vec<Sphere>,
    lights: Seq<Light>,
    n: nat,
)
    requires
        0 < n <= lights.len(),
    ensures
        ({
            let before = illumination(
                point,
                normal,
                direction,
                exponent,
                spheres,
                lights,
                (n - 1) as nat,
            );
            let after = illumination(point, normal, direction, exponent, spheres, lights, n);
            if in_shadow(point, normal, spheres, lights[n - 1]) {
                after == before
            } else {
                &&& after.0 == before.0.add(diffuse_term(point, normal, lights[n - 1]))
                &&& after.1 == before.1.add(
                    specular_term(point, normal, direction, exponent, lights[n - 1]),
                )
            }
        }),
{
}

/// Following a ray always ends, whatever the scene: the bounces go no deeper
/// than one past the depth limit, and the rays number no more than a full
/// binary tree of that depth holds, 63 for a first ray.
pub proof fn lemma_rays_are_bounded(origin: Vec3, direction: Vec3, spheres: &Vec<Sphere>, depth: usize)
    requires
        depth <= RECURSION_DEPTH + 1,
    ensures
        bounce_depth(&origin, &direction, spheres, depth) <= RECURSION_DEPTH + 1 - depth,
        ray_count(&origin, &direction, spheres, depth) <= full_tree(
            (RECURSION_DEPTH + 1 - depth) as nat,
        ),
        depth == 0 ==> ray_count(&origin, &direction, spheres, depth) <= 63,
    decreases RECURSION_DEPTH + 1 - depth,
{
    if depth <= RECURSION_DEPTH {
        match spec_scene_intersect(&origin, &direction, spheres) {
            None => {},
            Some((material, point, normal)) => {
                let mirrored = spec_reflected_ray(direction, point, normal);
                let bent = spec_refracted_ray(direction, point, normal, material.refractive_index);
                lemma_rays_are_bounded(mirrored.0, mirrored.1, spheres, (depth + 1) as usize);
                lemma_rays_are_bounded(bent.0, bent.1, spheres, (depth + 1) as usize);
            },
        }
    }
    if depth == 0 {
        assert(full_tree(5) == 63) by {
            reveal_with_fuel(full_tree, 6);
        }
    }
}

} // verus!
