//! The kernel of a Monte Carlo path tracer: bounding boxes, the bounding
//! volume hierarchy, scene aggregates, the radiance estimator, and the
//! decisions that shapes, materials and samplers take.
//!
//! The kernel does no arithmetic on real numbers. It holds them as
//! [`scalar::Scalar`]s, compares them, and leaves the arithmetic to the types
//! that implement [`ray::Ray`], [`object::Object`], [`object::Light`],
//! [`material::Material`] and [`pdf::Pdf`]. It relies on nothing about what
//! their methods return: what the kernel itself returns is stated over the
//! answers that they gave.
pub mod aabb;
pub mod bvh;
pub mod hittable_list;
pub mod material;
pub mod nearest;
pub mod object;
pub mod pdf;
pub mod radiance;
pub mod ray;
mod rng;
pub mod scalar;
pub mod shape;
pub mod vec3;

pub use aabb::AABB;
pub use bvh::{BvhError, BvhNode, Node};
pub use hittable_list::HittableList;
pub use material::{
    Dielectric, DiffuseLight, Lambertian, Material, Metal, NoMaterial, ScaRet, ScaRet_,
};
pub use object::{FlipFace, HitRecord, Light, Object, UV};
pub use pdf::{HittablePdf, MixturePdf, Pdf};
pub use radiance::{ray_color, Path, Step, Weight};
pub use ray::{Ray, Slab, Span};
pub use scalar::{clamp, Scalar};
pub use vec3::Vec3;
