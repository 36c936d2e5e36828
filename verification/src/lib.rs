//! Conversion of layered sprite-animation containers into fixed-size texture
//! atlases.
//!
//! The crate decodes a packed binary animation container into per-layer
//! textures and frame descriptors, crops per-frame sub-images, packs selected
//! frames (with mirroring and per-preset pixel compositing) into atlas
//! images, and derives a half-resolution atlas set from a full-resolution
//! one.

pub mod anim;
pub mod codec;
pub mod img;
pub mod sprite_maker;
