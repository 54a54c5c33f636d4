//! Texture atlas packing: arranges sprite rectangles on a power-of-two sheet,
//! composites their pixels onto it and records where every sprite landed.

pub mod atlas;
pub mod compositor;
pub mod config;
pub mod error;
pub mod geometry;
pub mod packer;
pub mod raster;

pub use atlas::{build_items, pack, AtlasView, Frame, PackerAtlas};
pub use compositor::{composite, rotate_90, ImageTexture};
pub use config::{OutputPlan, OutputType, PackerConfig, PackerConfigOptions};
pub use error::PackerError;
pub use geometry::Placement;
pub use packer::{arrange, pack_items, Layout, PackItem, PackedRect, Packing, SizedItem};
pub use raster::{Image, Rgba};
