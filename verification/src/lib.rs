//! The verified core of an offline path tracer.
//!
//! The library holds the part of the renderer that decides: the order of
//! double-precision numbers, bounding boxes, the construction of the
//! bounding volume hierarchy and the search through it, the choice between
//! the outcomes of an intersection or a scattering, the bounce loop of one
//! path, the order of the pixels and the bookkeeping of the samples.
//!
//! Numbers are carried by their encoding (see [`scalar`]). The library
//! orders them, selects among them and flips their signs, all of which is
//! exact on the encoding. Sums, products, roots and the like are worked out
//! by the caller, who hands the results in.

pub mod scalar;
pub mod vec3;
pub mod ray;
pub mod bounding_box;
pub mod shape;
pub mod hittable;
pub mod bvh;
pub mod traversal;
pub mod moving;
pub mod material;
pub mod texture;
pub mod perlin;
pub mod renderable;
pub mod scene;
pub mod sample;
pub mod output;
