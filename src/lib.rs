//! A stochastic ray tracer: spheres lit by a sky gradient, with Monte-Carlo
//! anti-aliasing and diffuse bounces, over fixed-point arithmetic whose every step is
//! stated and proved.
//!
//! A sample pass (`render_scene`) shades every pixel once; an `Accumulator` sums passes
//! and averages them into the final framebuffer, which `to_rgba8` quantises.
pub mod camera;
pub mod entropy;
pub mod framebuffer;
pub mod ray;
pub mod render;
pub mod rgb;
pub mod scalar;
pub mod scene;
pub mod shade;
pub mod sphere;
pub mod vector;

pub use camera::Camera;
pub use framebuffer::{quantize_channel, to_rgba8, Accumulator, MAX_FRAMES};
pub use ray::{IntersectionResult, Ray, RayIntersect, WORLD_RAW};
pub use render::{pixel_coord, render_scene};
pub use rgb::Rgb;
pub use scalar::{Scalar, ONE_RAW};
pub use scene::{Object, Scene};
pub use shade::{background, raycast, trace, MAX_DEPTH, MIN_T_RAW};
pub use sphere::{SceneError, Sphere, MIN_RADIUS_RAW};
pub use vector::Vector;
