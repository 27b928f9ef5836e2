//! Backdrop blur - frosted glass - for GPU user interfaces: everything that is decided before a
//! GPU is touched, with contracts that say what is decided.
//!
//! A surface asks for a blur of what lies behind it, a tint and rounded corners ([`surface`],
//! [`material`], [`curve`], [`geometry`]). The backend resolves that into resources to create and
//! passes to record ([`algorithm`], [`plan`], [`wgpu_blur`], [`construct`]), keeps scratch textures
//! between frames ([`cache`]), and maps what an error scope captured to an error ([`scope`],
//! [`error`], [`fault`]). Two adapters order a frame: one for a host with its own render loop
//! ([`own_loop`], [`seam`]), one that rides a paint callback over GL ([`grab_pass`],
//! [`gl_composite`], [`profile`]).
//!
//! Single-precision numbers are held as their bits, and computed with by rounding exact integers
//! to the nearest representable one ([`single`], [`arith`]). What the resolved numbers mean, up to
//! that rounding, is stated over the request alone ([`resolved`], [`rounding`]).

pub mod algorithm;
pub mod arith;
pub mod blend;
pub mod cache;
pub mod construct;
pub mod curve;
pub mod error;
pub mod fault;
pub mod format;
pub mod geometry;
pub mod gl_composite;
pub mod gl_region;
pub mod grab_pass;
pub mod liveness;
pub mod material;
pub mod own_loop;
pub mod plan;
pub mod profile;
pub mod resolved;
pub mod rounding;
pub mod scope;
pub mod seam;
pub mod single;
pub mod surface;
pub mod text;
pub mod uniforms;
pub mod wgpu_blur;
