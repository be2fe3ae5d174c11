//! A ray tracer for spheres over a checkerboard floor, with diffuse and
//! specular lighting, shadows, reflection and refraction.
//!
//! All arithmetic is decimal fixed point: a number is a whole count of
//! billionths in 64 bits, every operation rounds in a stated direction and
//! saturates rather than overflows. So every function here is total, gives
//! the same bytes on every machine, and has a contract that says exactly
//! which value it returns.
//!
//! - [`scalar`]: the numbers and their arithmetic.
//! - [`vector`]: points, directions and colours.
//! - [`material`]: how a surface answers light, and four ready materials.
//! - [`sphere`]: where a ray meets a sphere.
//! - [`scene`]: lights, the floor, and the nearest surface along a ray.
//! - [`optics`]: reflection and refraction.
//! - [`shading`]: the colour that arrives along a ray.
//! - [`camera`]: one ray for each pixel, and the rendered frame.
//! - [`canvas`]: the raster that a frame is drawn on.

pub mod camera;
pub mod canvas;
pub mod material;
pub mod optics;
pub mod scalar;
pub mod scene;
pub mod shading;
pub mod sphere;
pub mod vector;
