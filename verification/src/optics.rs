//! Mirrors and lenses: how a direction changes where a ray meets a surface,
//! and where the ray that goes on from there starts.

use vstd::prelude::*;
use crate::scalar::Scalar;
use crate::scalar::SCALE;
use crate::scalar::lemma_quot_bounds;
use crate::scalar::lemma_quot_exact;
use crate::scalar::lemma_root_of_square;
use crate::scalar::ROOT_SLACK;
use crate::scalar::quot;
use crate::vector::Vec3;
use crate::vector::lemma_wide_dot_in_cube;
use crate::vector::size;
use crate::vector::taxicab;
use crate::vector::wide_dot;

verus! {

/// Raw distance by which a reflected or refracted ray starts off the
/// surface: a thousandth.
pub const SURFACE_OFFSET: i64 = 1_000_000;

/// Raw two.
pub const TWO: i64 = 2 * SCALE;

/// The mirror image of `incident` about `normal`: the incident vector less
/// twice its component along the normal.
pub open spec fn spec_reflect(incident: &Vec3, normal: &Vec3) -> Vec3 {
    incident.sub(normal.scale((Scalar { raw: TWO }).mul(incident.dot(*normal))))
}

/// Whether the ray leaves the material, that is, runs along the normal.
pub open spec fn leaves_surface(incident: Vec3, normal: Vec3) -> bool {
    incident.dot(normal).max((Scalar { raw: SCALE }).neg()).min(Scalar { raw: SCALE }).neg()@ < 0
}

/// The cosine of the angle of incidence, never negative.
pub open spec fn incidence_cosine(incident: Vec3, normal: Vec3) -> Scalar {
    incident.dot(normal).max((Scalar { raw: SCALE }).neg()).min(Scalar { raw: SCALE }).neg().abs()
}

/// The index of the medium the ray comes from over that of the medium it
/// enters; empty space has index one.
pub open spec fn index_ratio(incident: Vec3, normal: Vec3, refractive_index: Scalar) -> Scalar {
    if leaves_surface(incident, normal) {
        refractive_index.div(Scalar { raw: SCALE })
    } else {
        (Scalar { raw: SCALE }).div(refractive_index)
    }
}

/// One less the squared sine of the angle of the transmitted ray; negative
/// when all light is reflected back.
pub open spec fn transmission(incident: Vec3, normal: Vec3, refractive_index: Scalar) -> Scalar {
    let one = Scalar { raw: SCALE };
    let cos_i = incidence_cosine(incident, normal);
    let eta = index_ratio(incident, normal, refractive_index);
    one.sub(eta.mul(eta).mul(one.sub(cos_i.mul(cos_i))))
}

/// The direction of the ray bent by the surface, by Snell's law. Where all
/// light is reflected back the result is the fixed vector (1, 0, 0).
pub open spec fn spec_refract(incident: &Vec3, normal: &Vec3, refractive_index: &Scalar) -> Vec3 {
    let cos_i = incidence_cosine(*incident, *normal);
    let eta = index_ratio(*incident, *normal, *refractive_index);
    let k = transmission(*incident, *normal, *refractive_index);
    let facing = if leaves_surface(*incident, *normal) {
        normal.neg()
    } else {
        *normal
    };
    if k@ < 0 {
        Vec3 { x: Scalar { raw: SCALE }, y: Scalar { raw: 0 }, z: Scalar { raw: 0 } }
    } else {
        incident.scale(eta).add(facing.scale(eta.mul(cos_i).sub(k.sqrt())))
    }
}

/// The point moved off the surface by `offset` along the normal, to the side
/// that `direction` heads for.
pub open spec fn spec_lift(point: Vec3, normal: Vec3, direction: Vec3, offset: Scalar) -> Vec3 {
    if direction.dot(normal)@ < 0 {
        point.sub(normal.scale(offset))
    } else {
        point.add(normal.scale(offset))
    }
}

/// The reflected ray at a surface point, as origin and unit direction: the
/// mirrored direction, started just off the surface on its own side.
pub open spec fn spec_reflected_ray(direction: Vec3, point: Vec3, normal: Vec3) -> (Vec3, Vec3) {
    let onward = spec_reflect(&direction, &normal).normalize();
    (spec_lift(point, normal, onward, Scalar { raw: SURFACE_OFFSET }), onward)
}

/// The refracted ray at a surface point, as origin and unit direction: the
/// bent direction, started just off the surface on its own side.
pub open spec fn spec_refracted_ray(
    direction: Vec3,
    point: Vec3,
    normal: Vec3,
    refractive_index: Scalar,
) -> (Vec3, Vec3) {
    let onward = spec_refract(&direction, &normal, &refractive_index).normalize();
    (spec_lift(point, normal, onward, Scalar { raw: SURFACE_OFFSET }), onward)
}

/// The mirror image of `incident` about the unit vector `normal`.
#[verifier::when_used_as_spec(spec_reflect)]
pub fn reflect(incident: &Vec3, normal: &Vec3) -> (mirrored: Vec3)
    ensures
        mirrored == spec_reflect(incident, normal),
{
    let twice: Scalar = Scalar { raw: TWO }.mul(incident.dot(*normal));
    incident.sub(normal.scale(twice))
}

/// The direction of `incident` after it crosses the surface with unit
/// normal `normal` into or out of a material of the given index.
#[verifier::when_used_as_spec(spec_refract)]
pub fn refract(incident: &Vec3, normal: &Vec3, refractive_index: &Scalar) -> (bent: Vec3)
    ensures
        bent == spec_refract(incident, normal, refractive_index),
{
    let one: Scalar = Scalar { raw: SCALE };
    let mut cos_i: Scalar = incident.dot(*normal).max((Scalar { raw: SCALE }).neg()).min(one).neg();
    let mut eta_i: Scalar = one;
    let mut eta_t: Scalar = *refractive_index;
    let mut facing: Vec3 = *normal;
    if cos_i.raw < 0 {
        cos_i = cos_i.neg();
        eta_i = *refractive_index;
        eta_t = one;
        facing = normal.neg();
    }
    let eta: Scalar = eta_i.div(eta_t);
    let k: Scalar = one.sub(eta.mul(eta).mul(one.sub(cos_i.mul(cos_i))));
    if k.raw < 0 {
        Vec3::new(one, Scalar { raw: 0 }, Scalar { raw: 0 })
    } else {
        incident.scale(eta).add(facing.scale(eta.mul(cos_i).sub(k.sqrt())))
    }
}

/// Moves `point` off the surface by `offset`, to the side `direction`
/// heads for.
#[verifier::when_used_as_spec(spec_lift)]
pub fn lift(point: Vec3, normal: Vec3, direction: Vec3, offset: Scalar) -> (start: Vec3)
    ensures
        start == spec_lift(point, normal, direction, offset),
{
    if direction.dot(normal).raw < 0 {
        point.sub(normal.scale(offset))
    } else {
        point.add(normal.scale(offset))
    }
}

/// Origin and direction of the ray that the surface reflects.
#[verifier::when_used_as_spec(spec_reflected_ray)]
pub fn reflected_ray(direction: Vec3, point: Vec3, normal: Vec3) -> (ray: (Vec3, Vec3))
    ensures
        ray == spec_reflected_ray(direction, point, normal),
        ray.1.in_unit_cube(),
{
    let onward: Vec3 = reflect(&direction, &normal).normalize();
    (lift(point, normal, onward, Scalar { raw: SURFACE_OFFSET }), onward)
}

/// Origin and direction of the ray that the surface lets through.
#[verifier::when_used_as_spec(spec_refracted_ray)]
pub fn refracted_ray(direction: Vec3, point: Vec3, normal: Vec3, refractive_index: Scalar) -> (ray: (
    Vec3,
    Vec3,
))
    ensures
        ray == spec_refracted_ray(direction, point, normal, refractive_index),
        ray.1.in_unit_cube(),
{
    let onward: Vec3 = refract(&direction, &normal, &refractive_index).normalize();
    (lift(point, normal, onward, Scalar { raw: SURFACE_OFFSET }), onward)
}

/// Largest raw component of an incident vector of which the laws of
/// reflection below speak.
pub const MAX_INCIDENT: i64 = 100_000_000_000_000_000;

/// What rounding drops from the component of `incident` along `normal`, in
/// squared raw units.
pub open spec fn dropped_along(incident: Vec3, normal: Vec3) -> int {
    wide_dot(incident, normal) - incident.dot(normal)@ * SCALE
}

/// What rounding drops from the share of twice that component that lies
/// along an axis on which the normal has the raw component `n`.
pub open spec fn dropped_share(incident: Vec3, normal: Vec3, n: Scalar) -> int {
    2 * incident.dot(normal)@ * n@ - n.mul((Scalar { raw: TWO }).mul(incident.dot(normal)))@ * SCALE
}

/// Whether the mirror image of `incident` about `normal` can be held without
/// rounding: the component of the incident vector along the normal, and
/// twice that component along each axis, are whole numbers of billionths.
pub open spec fn reflects_exactly(incident: Vec3, normal: Vec3) -> bool {
    let along = incident.dot(normal)@;
    &&& wide_dot(incident, normal) % (SCALE as int) == 0
    &&& (2 * along * normal.x@) % (SCALE as int) == 0
    &&& (2 * along * normal.y@) % (SCALE as int) == 0
    &&& (2 * along * normal.z@) % (SCALE as int) == 0
}

/// One share of twice the component along the normal: it does not saturate,
/// and rounding drops less than a billionth of it.
proof fn lemma_share(d: int, l: int, n: Scalar)
    requires
        -l <= d <= l,
        0 <= l <= 3 * MAX_INCIDENT,
        -SCALE <= n@ <= SCALE,
    ensures
        n.mul(Scalar::of(2 * d))@ == quot(n@ * (2 * d), SCALE as int),
        -2 * l <= n.mul(Scalar::of(2 * d))@ <= 2 * l,
        -SCALE < 2 * d * n@ - n.mul(Scalar::of(2 * d))@ * SCALE < SCALE,
        (2 * d * n@) % (SCALE as int) == 0 ==> 2 * d * n@ == n.mul(Scalar::of(2 * d))@ * SCALE,
{
    let s = SCALE as int;
    let p = n@ * (2 * d);
    let q = quot(p, s);
    lemma_quot_bounds(p, s);
    assert(p == 2 * d * n@) by (nonlinear_arith)
        requires
            p == n@ * (2 * d),
    ;
    assert(-2 * l * s <= p <= 2 * l * s) by (nonlinear_arith)
        requires
            p == n@ * (2 * d),
            -s <= n@ <= s,
            -l <= d <= l,
    ;
    assert(-2 * l <= q <= 2 * l) by (nonlinear_arith)
        requires
            s > 0,
            -2 * l * s <= p <= 2 * l * s,
            (p >= 0 && 0 <= q * s <= p) || (p <= 0 && p <= q * s <= 0),
    ;
    if p % s == 0 {
        lemma_quot_exact(p / s, s);
    }
}

/// How the mirror image stands to the normal, with every rounding named:
/// the exact dot product of the mirror image and the normal, plus the
/// component of the incident vector along the normal, comes to what the
/// roundings dropped, less twice that component for every unit by which the
/// squared length of the normal exceeds one.
#[verifier::rlimit(40)]
proof fn lemma_reflect_along_normal(incident: Vec3, normal: Vec3)
    requires
        normal.in_unit_cube(),
        incident.within(MAX_INCIDENT as int),
    ensures
        -SCALE < dropped_along(incident, normal) < SCALE,
        wide_dot(incident, normal) % (SCALE as int) == 0 ==> dropped_along(incident, normal) == 0,
        -3 * MAX_INCIDENT <= incident.dot(normal)@ <= 3 * MAX_INCIDENT,
        -SCALE < dropped_share(incident, normal, normal.x) < SCALE,
        -SCALE < dropped_share(incident, normal, normal.y) < SCALE,
        -SCALE < dropped_share(incident, normal, normal.z) < SCALE,
        reflects_exactly(incident, normal) ==> dropped_share(incident, normal, normal.x) == 0
            && dropped_share(incident, normal, normal.y) == 0 && dropped_share(
            incident,
            normal,
            normal.z,
        ) == 0,
        spec_reflect(&incident, &normal).dot(normal)@ == quot(
            wide_dot(spec_reflect(&incident, &normal), normal),
            SCALE as int,
        ),
        SCALE * (wide_dot(spec_reflect(&incident, &normal), normal) + incident.dot(normal)@ * SCALE)
            == SCALE * dropped_along(incident, normal) - 2 * incident.dot(normal)@ * (wide_dot(
            normal,
            normal,
        ) - SCALE * SCALE) + (dropped_share(incident, normal, normal.x) * normal.x@ + dropped_share(
            incident,
            normal,
            normal.y,
        ) * normal.y@ + dropped_share(incident, normal, normal.z) * normal.z@),
{
    let s = SCALE as int;
    let nx = normal.x@;
    let ny = normal.y@;
    let nz = normal.z@;
    lemma_wide_dot_in_cube(incident, normal);
    let wide = wide_dot(incident, normal);
    let l = taxicab(incident);
    // the component along the normal
    let d = quot(wide, s);
    lemma_quot_bounds(wide, s);
    assert(-l <= d <= l) by (nonlinear_arith)
        requires
            s > 0,
            -l * s <= wide <= l * s,
            (wide >= 0 && 0 <= d * s <= wide) || (wide <= 0 && wide <= d * s <= 0),
    ;
    assert(incident.dot(normal)@ == d);
    if wide % s == 0 {
        lemma_quot_exact(wide / s, s);
    }
    // twice that
    assert(TWO * d == (2 * d) * s) by (nonlinear_arith)
        requires
            TWO == 2 * s,
    ;
    lemma_quot_exact(2 * d, s);
    let twice = (Scalar { raw: TWO }).mul(incident.dot(normal));
    assert(twice == Scalar::of(2 * d));
    // its shares along the axes
    lemma_share(d, l, normal.x);
    lemma_share(d, l, normal.y);
    lemma_share(d, l, normal.z);
    let qx = normal.x.mul(twice)@;
    let qy = normal.y.mul(twice)@;
    let qz = normal.z.mul(twice)@;
    let mirrored = spec_reflect(&incident, &normal);
    assert(mirrored.x@ == incident.x@ - qx);
    assert(mirrored.y@ == incident.y@ - qy);
    assert(mirrored.z@ == incident.z@ - qz);
    // the mirror image against the normal: no saturation
    let w = wide_dot(mirrored, normal);
    lemma_wide_dot_in_cube(mirrored, normal);
    lemma_quot_bounds(w, s);
    let t = taxicab(mirrored);
    assert(t <= 7 * l);
    let back = quot(w, s);
    assert(-t <= back <= t) by (nonlinear_arith)
        requires
            s > 0,
            -t * s <= w <= t * s,
            (w >= 0 && 0 <= back * s <= w) || (w <= 0 && w <= back * s <= 0),
    ;
    lemma_reflect_identity(
        s,
        d,
        wide,
        wide_dot(normal, normal),
        (incident.x@, incident.y@, incident.z@),
        (nx, ny, nz),
        (qx, qy, qz),
        w,
    );
}

/// The algebra behind [`lemma_reflect_along_normal`], over whole numbers:
/// `i` is the incident vector, `n` the normal, `q` the rounded shares, `d`
/// the rounded component along the normal.
proof fn lemma_reflect_identity(
    s: int,
    d: int,
    wide: int,
    nn: int,
    i: (int, int, int),
    n: (int, int, int),
    q: (int, int, int),
    w: int,
)
    requires
        wide == i.0 * n.0 + i.1 * n.1 + i.2 * n.2,
        nn == n.0 * n.0 + n.1 * n.1 + n.2 * n.2,
        w == (i.0 - q.0) * n.0 + (i.1 - q.1) * n.1 + (i.2 - q.2) * n.2,
    ensures
        s * (w + d * s) == s * (wide - d * s) - 2 * d * (nn - s * s) + ((2 * d * n.0 - q.0 * s)
            * n.0 + (2 * d * n.1 - q.1 * s) * n.1 + (2 * d * n.2 - q.2 * s) * n.2),
{
    let (nx, ny, nz) = n;
    let (qx, qy, qz) = q;
    let e = 2 * d;
    let ex = e * nx - qx * s;
    let ey = e * ny - qy * s;
    let ez = e * nz - qz * s;
    assert(s * (qx * nx) == e * (nx * nx) - ex * nx) by (nonlinear_arith)
        requires
            ex == e * nx - qx * s,
    ;
    assert(s * (qy * ny) == e * (ny * ny) - ey * ny) by (nonlinear_arith)
        requires
            ey == e * ny - qy * s,
    ;
    assert(s * (qz * nz) == e * (nz * nz) - ez * nz) by (nonlinear_arith)
        requires
            ez == e * nz - qz * s,
    ;
    let shares = qx * nx + qy * ny + qz * nz;
    assert(s * shares == e * nn - (ex * nx + ey * ny + ez * nz)) by (nonlinear_arith)
        requires
            shares == qx * nx + qy * ny + qz * nz,
            nn == nx * nx + ny * ny + nz * nz,
            s * (qx * nx) == e * (nx * nx) - ex * nx,
            s * (qy * ny) == e * (ny * ny) - ey * ny,
            s * (qz * nz) == e * (nz * nz) - ez * nz,
    ;
    assert(w == wide - shares) by (nonlinear_arith)
        requires
            w == (i.0 - qx) * nx + (i.1 - qy) * ny + (i.2 - qz) * nz,
            wide == i.0 * nx + i.1 * ny + i.2 * nz,
            shares == qx * nx + qy * ny + qz * nz,
    ;
    assert(s * (w + d * s) == s * (wide - d * s) - e * (nn - s * s) + (ex * nx + ey * ny + ez * nz))
        by (nonlinear_arith)
        requires
            w == wide - shares,
            s * shares == e * nn - (ex * nx + ey * ny + ez * nz),
            e == 2 * d,
    ;
}

/// Reflection flips the component along the normal and keeps its size: for
/// a normal of length exactly one, the mirror image has along the normal the
/// opposite of what the incident vector has, wherever the mirror image can be
/// held without rounding.
pub proof fn lemma_reflect_flips_normal_component(incident: Vec3, normal: Vec3)
    requires
        wide_dot(normal, normal) == SCALE * SCALE,
        incident.within(MAX_INCIDENT as int),
        reflects_exactly(incident, normal),
    ensures
        spec_reflect(&incident, &normal).dot(normal)@ == -incident.dot(normal)@,
{
    let s = SCALE as int;
    lemma_unit_normal_in_cube(normal);
    lemma_reflect_along_normal(incident, normal);
    let d = incident.dot(normal)@;
    let w = wide_dot(spec_reflect(&incident, &normal), normal);
    assert(w == (-d) * s) by (nonlinear_arith)
        requires
            s * (w + d * s) == 0,
            s > 0,
    ;
    lemma_quot_exact(-d, s);
}

/// Where rounding comes in, reflection still flips the component along the
/// normal to within a few billionths: the sum of what the mirror image and
/// what the incident vector have along the normal is less than five
/// billionths in size, plus twice the component for every unit by which the
/// squared length of the normal differs from one.
#[verifier::rlimit(40)]
pub proof fn lemma_reflect_nearly_flips_normal_component(incident: Vec3, normal: Vec3)
    requires
        normal.in_unit_cube(),
        incident.within(MAX_INCIDENT as int),
    ensures
        ({
            let along = incident.dot(normal)@;
            let back = spec_reflect(&incident, &normal).dot(normal)@;
            let excess = wide_dot(normal, normal) - SCALE * SCALE;
            size(back + along) * (SCALE * SCALE) < 5 * (SCALE * SCALE) + 2 * size(along) * size(excess)
        }),
        wide_dot(normal, normal) == SCALE * SCALE ==> -5 < spec_reflect(&incident, &normal).dot(
            normal,
        )@ + incident.dot(normal)@ < 5,
{
    let s = SCALE as int;
    lemma_reflect_along_normal(incident, normal);
    let d = incident.dot(normal)@;
    let w = wide_dot(spec_reflect(&incident, &normal), normal);
    let back = spec_reflect(&incident, &normal).dot(normal)@;
    let u = wide_dot(normal, normal) - s * s;
    let r = dropped_along(incident, normal);
    let ex = dropped_share(incident, normal, normal.x);
    let ey = dropped_share(incident, normal, normal.y);
    let ez = dropped_share(incident, normal, normal.z);
    lemma_quot_bounds(w, s);
    // each dropped share, weighed by the normal, stays below one unit squared
    assert(-s * s < ex * normal.x@ < s * s) by (nonlinear_arith)
        requires
            -s < ex < s,
            -s <= normal.x@ <= s,
    ;
    assert(-s * s < ey * normal.y@ < s * s) by (nonlinear_arith)
        requires
            -s < ey < s,
            -s <= normal.y@ <= s,
    ;
    assert(-s * s < ez * normal.z@ < s * s) by (nonlinear_arith)
        requires
            -s < ez < s,
            -s <= normal.z@ <= s,
    ;
    assert(-s * s < s * r < s * s) by (nonlinear_arith)
        requires
            -s < r < s,
            s > 0,
    ;
    let slack = 2 * size(d) * size(u);
    assert(-slack <= 2 * d * u <= slack) by (nonlinear_arith)
        requires
            slack == 2 * size(d) * size(u),
            size(d) == d || size(d) == -d,
            size(u) == u || size(u) == -u,
            size(d) >= 0,
            size(u) >= 0,
    ;
    let g = s * (w + d * s);
    assert(-(4 * (s * s) + slack) < g < 4 * (s * s) + slack);
    // the last rounding moves the result by less than one more
    let h = (back + d) * (s * s);
    assert(-(s * s) < h - g < s * s) by (nonlinear_arith)
        requires
            h == (back + d) * (s * s),
            g == s * (w + d * s),
            s > 0,
            (w >= 0 && 0 <= back * s <= w < back * s + s) || (w <= 0 && back * s - s < w <= back * s
                <= 0),
    ;
    assert(size(back + d) * (s * s) == size(h)) by (nonlinear_arith)
        requires
            h == (back + d) * (s * s),
            s > 0,
    ;
    if u == 0 {
        assert(slack == 0) by (nonlinear_arith)
            requires
                slack == 2 * size(d) * size(u),
                size(u) == 0,
        ;
        assert(-5 < back + d < 5) by (nonlinear_arith)
            requires
                -5 * (s * s) < (back + d) * (s * s) < 5 * (s * s),
                s > 0,
        ;
    }
}

/// Between media of equal index a ray is not bent: with index one the bent
/// direction is the incident one, but for what the rounding of the squared
/// cosine leaves along the normal, [`ROOT_SLACK`] billionths at most; and it
/// is the incident direction itself where the cosine of incidence is above
/// one half.
pub proof fn lemma_equal_indices_do_not_bend(incident: Vec3, normal: Vec3)
    ensures
        ({
            let cos_i = incidence_cosine(incident, normal);
            let left = cos_i.sub(cos_i.mul(cos_i).sqrt());
            let facing = if leaves_surface(incident, normal) {
                normal.neg()
            } else {
                normal
            };
            &&& 0 <= left@ <= ROOT_SLACK
            &&& spec_refract(&incident, &normal, &(Scalar { raw: SCALE })) == incident.add(
                facing.scale(left),
            )
            &&& 2 * cos_i@ > SCALE ==> spec_refract(&incident, &normal, &(Scalar { raw: SCALE }))
                == incident
        }),
{
    let s = SCALE as int;
    let one = Scalar { raw: SCALE };
    let cos_i = incidence_cosine(incident, normal);
    let c = cos_i@;
    assert(0 <= c <= s);
    lemma_root_of_square(cos_i);
    // the index ratio is one, and one times anything is the thing itself
    lemma_quot_exact(s, s);
    assert(index_ratio(incident, normal, one) == one);
    let cc = cos_i.mul(cos_i);
    assert(0 <= c * c <= s * s) by (nonlinear_arith)
        requires
            0 <= c <= s,
    ;
    lemma_quot_bounds(c * c, s);
    assert(0 <= cc@ <= s) by (nonlinear_arith)
        requires
            cc@ * s <= c * c,
            c * c <= s * s,
            cc@ >= 0,
            s > 0,
    ;
    lemma_quot_exact(s - cc@, s);
    lemma_quot_exact(c, s);
    assert(s * (s - cc@) == (s - cc@) * s && s * c == c * s) by (nonlinear_arith);
    assert(transmission(incident, normal, one) == cc);
    lemma_quot_exact(incident.x@, s);
    lemma_quot_exact(incident.y@, s);
    lemma_quot_exact(incident.z@, s);
    assert(incident.scale(one) == incident);
    let left = cos_i.sub(cc.sqrt());
    if 2 * c > s {
        assert(left@ == 0);
        let facing = if leaves_surface(incident, normal) {
            normal.neg()
        } else {
            normal
        };
        assert(facing.x@ * 0 == 0 && facing.y@ * 0 == 0 && facing.z@ * 0 == 0) by (nonlinear_arith);
        lemma_quot_exact(0, s);
        assert(facing.scale(left) == (Vec3 {
            x: Scalar { raw: 0 },
            y: Scalar { raw: 0 },
            z: Scalar { raw: 0 },
        }));
    }
}

/// Past the critical angle nothing is transmitted: exactly where the
/// squared sine of the bent ray would exceed one, the bent direction is the
/// fixed vector (1, 0, 0).
pub proof fn lemma_total_reflection(incident: Vec3, normal: Vec3, refractive_index: Scalar)
    ensures
        transmission(incident, normal, refractive_index)@ < 0 ==> spec_refract(
            &incident,
            &normal,
            &refractive_index,
        ) == (Vec3 { x: Scalar { raw: SCALE }, y: Scalar { raw: 0 }, z: Scalar { raw: 0 } }),
        transmission(incident, normal, refractive_index)@ >= 0 ==> spec_refract(
            &incident,
            &normal,
            &refractive_index,
        ) == incident.scale(index_ratio(incident, normal, refractive_index)).add(
            (if leaves_surface(incident, normal) {
                normal.neg()
            } else {
                normal
            }).scale(
                index_ratio(incident, normal, refractive_index).mul(
                    incidence_cosine(incident, normal),
                ).sub(transmission(incident, normal, refractive_index).sqrt()),
            ),
        ),
{
}

/// Snell's law across a surface that faces along the vertical axis: short
/// of total reflection, what the bent ray has along the surface is what the
/// incident ray has there, times the ratio of the indices.
pub proof fn lemma_snell_across_level_surface(
    incident: Vec3,
    normal: Vec3,
    refractive_index: Scalar,
)
    requires
        normal.x@ == 0 && normal.z@ == 0,
        transmission(incident, normal, refractive_index)@ >= 0,
    ensures
        spec_refract(&incident, &normal, &refractive_index).x == incident.x.mul(
            index_ratio(incident, normal, refractive_index),
        ),
        spec_refract(&incident, &normal, &refractive_index).z == incident.z.mul(
            index_ratio(incident, normal, refractive_index),
        ),
{
    let eta = index_ratio(incident, normal, refractive_index);
    let along = eta.mul(incidence_cosine(incident, normal)).sub(
        transmission(incident, normal, refractive_index).sqrt(),
    );
    assert(0 * along@ == 0) by (nonlinear_arith);
}

/// A vector of length exactly one lies in the unit cube.
pub proof fn lemma_unit_normal_in_cube(normal: Vec3)
    requires
        wide_dot(normal, normal) == SCALE * SCALE,
    ensures
        normal.in_unit_cube(),
{
    let s = SCALE as int;
    let nx = normal.x@;
    let ny = normal.y@;
    let nz = normal.z@;
    assert(nx * nx >= 0 && ny * ny >= 0 && nz * nz >= 0) by (nonlinear_arith);
    assert(-s <= nx <= s) by (nonlinear_arith)
        requires
            nx * nx <= s * s,
            s > 0,
    ;
    assert(-s <= ny <= s) by (nonlinear_arith)
        requires
            ny * ny <= s * s,
            s > 0,
    ;
    assert(-s <= nz <= s) by (nonlinear_arith)
        requires
            nz * nz <= s * s,
            s > 0,
    ;
}

} // verus!
