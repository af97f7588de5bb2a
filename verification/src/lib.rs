//! Reconstruction of images from tiled sources.
//!
//! A descriptor lists, for each output view, region-copy instructions written
//! in a small text language. This crate decodes those instructions and paints
//! the regions they name onto a fresh canvas, in order.

pub mod canvas;
pub mod descriptor;
pub mod encoder;
pub mod geometry;
pub mod laws;
pub mod parser;
pub mod raster;
pub mod sources;
pub mod syntax;
pub mod syntax_laws;

pub use canvas::{BoundsError, Canvas};
pub use descriptor::{Ptimg, RenderError, Resource, RestoreError, View};
pub use encoder::encode;
pub use geometry::{Replacer, Vec2};
pub use parser::parse;
pub use raster::Pixel;
pub use sources::Sources;
pub use syntax::{ParseError, ParseErrorKind};
