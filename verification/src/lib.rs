//! The decisions of a small path tracer, over double-precision numbers held as bit
//! patterns.
//!
//! A path tracer casts rays from a camera into a scene of spheres, follows each ray from
//! surface to surface, and writes the colours that come back as a plain-text image. The
//! sums, products and square roots of that work are rounding arithmetic and stay with the
//! caller. Everything that is decided on the numbers is here: how two numbers compare,
//! what a range holds, which of the surfaces in a ray's way is the nearest, which side of
//! a surface was struck, when a path ends, which direction a material accepts, how many
//! rows an image has, which byte encodes a colour, and what the image file says.
//!
//! Numbers cross the boundary as [`scalar::Scalar`], the sixty-four bits of a double;
//! the contracts speak of the exact number that a pattern denotes.
pub mod camera;
pub mod color;
pub mod hit_record;
pub mod hittable;
pub mod interval;
pub mod material;
pub mod ray;
pub mod scalar;
pub mod sphere;
pub mod text;
pub mod vec3;
