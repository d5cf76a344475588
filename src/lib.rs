//! Integer core of a Monte-Carlo path tracer: pixel scheduling and
//! framebuffer assembly, worker lifecycle, BVH construction over sort keys,
//! Perlin permutation tables and image texel lookup.

pub mod bvh;
pub mod framebuffer;
pub mod image;
pub mod perlin;
pub mod permutation;
mod rng;
pub mod scheduler;
