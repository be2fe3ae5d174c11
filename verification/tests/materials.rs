use raytracer::material::Material;
use raytracer::scalar::Scalar;
use raytracer::vector::Vec3;
use raytracer::vector::Vec4;

/// The number of so many thousandths.
fn m(thousandths: i64) -> Scalar {
    Scalar { raw: thousandths * 1_000_000 }
}

/// The vector of so many thousandths along each axis.
fn mv(x: i64, y: i64, z: i64) -> Vec3 {
    Vec3 { x: m(x), y: m(y), z: m(z) }
}

#[test]
fn material_keeps_its_parts() {
    let albedo = Vec4::new(m(1), m(2), m(3), m(4));
    let material = Material::new(mv(5, 6, 7), albedo, m(8), m(9));
    assert_eq!(material.diffuse_colour, mv(5, 6, 7));
    assert_eq!(material.albedo, albedo);
    assert_eq!(material.specular_exponent, m(8));
    assert_eq!(material.refractive_index, m(9));
}

#[test]
fn ivory_preset() {
    let material = Material::ivory();
    assert_eq!(material.diffuse_colour, mv(400, 400, 300));
    assert_eq!(material.albedo, Vec4::new(m(600), m(300), m(300), m(0)));
    assert_eq!(material.specular_exponent, m(50_000));
    assert_eq!(material.refractive_index, m(1_000));
}

#[test]
fn red_rubber_preset() {
    let material = Material::red_rubber();
    assert_eq!(material.diffuse_colour, mv(300, 100, 100));
    assert_eq!(material.albedo, Vec4::new(m(900), m(100), m(100), m(0)));
    assert_eq!(material.specular_exponent, m(10_000));
    assert_eq!(material.refractive_index, m(1_000));
}

#[test]
fn mirror_preset() {
    let material = Material::mirror();
    assert_eq!(material.diffuse_colour, mv(1_000, 1_000, 1_000));
    assert_eq!(material.albedo, Vec4::new(m(0), m(10_000), m(800), m(0)));
    assert_eq!(material.specular_exponent, m(1_425_000));
    assert_eq!(material.refractive_index, m(1_000));
}

#[test]
fn glass_preset() {
    let material = Material::glass();
    assert_eq!(material.diffuse_colour, mv(600, 700, 800));
    assert_eq!(material.albedo, Vec4::new(m(0), m(500), m(100), m(800)));
    assert_eq!(material.specular_exponent, m(125_000));
    assert_eq!(material.refractive_index, m(1_500));
}

#[test]
fn default_material_has_the_background_colour() {
    let material = Material::default();
    assert_eq!(material.diffuse_colour, mv(200, 700, 800));
    assert_eq!(material.albedo, Vec4::new(m(1_000), m(0), m(0), m(0)));
    assert_eq!(material.specular_exponent, m(0));
    // an opaque material has the index of empty space
    assert_eq!(material.refractive_index, m(1_000));
}

#[test]
fn every_ready_material_has_a_positive_index_and_no_negative_exponent() {
    let ready = [
        Material::ivory(),
        Material::red_rubber(),
        Material::mirror(),
        Material::glass(),
        Material::default(),
    ];
    for material in ready {
        assert!(material.refractive_index.raw > 0);
        assert!(material.specular_exponent.raw >= 0);
    }
}
