//! Pixel-grid compositing core of a small 2D rendering engine.
//!
//! The crate provides an axis-aligned rectangle type with clipping
//! arithmetic ([`rectarea::RectArea`]), a polymorphic surface contract with a
//! generic, clipped blit algorithm ([`canvas::Canvas`]), and a concrete
//! tile-grid surface built on both ([`tilemap::Tilemap`]) that supports bulk
//! authoring from rows of hexadecimal text.

pub mod canvas;
pub mod rectarea;
pub mod resource;
pub mod tilemap;
pub mod utility;
