//! Synthesis of the three traversal procedures (entomb, exhume, extent) that a
//! zero-copy transcoder needs for a composite type, from a description of the
//! type's shape and of its recognized annotations.
//!
//! The library works on plain data: a [`shape::DeriveInput`] describes the
//! subject type, and [`emit::derive_abomonation`] returns an
//! [`emit::Implementation`]: a traversal plan that a code emitter turns into
//! source text. [`semantics`] states what the generated procedures then do
//! and proves that they round-trip.

pub mod attrs;
pub mod shape;
pub mod plan;
pub mod emit;
pub mod semantics;
