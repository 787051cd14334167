//! The verified core of an offline ray tracer.
//!
//! A ray tracer is mostly real-number geometry, and that part is left to the
//! caller. What is here is the discrete skeleton around it, each piece with a
//! proved contract:
//!
//! * [`raster`]: the pixel buffer: supported layouts, row-major pixel
//!   coordinates, and the parallel driver that writes one shaded color per
//!   pixel.
//! * [`scene`]: the nearest-hit query over the distances at which a ray meets
//!   the elements of a scene.
//! * [`shading`]: the recursion that follows reflections up to a depth limit,
//!   and the shadow test.
//! * [`texture`]: wrap-around texture addressing and texel lookup in a decoded
//!   image.

pub mod raster;
pub mod scene;
pub mod shading;
pub mod texture;
