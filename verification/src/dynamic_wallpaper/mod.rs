//! Dynamic wallpapers: the HEIC container, its schedule metadata, and playback.

pub mod clock;
pub mod container;
pub mod container_laws;
pub mod heic;
pub mod icc;
pub mod pixels;
pub mod playback;
pub mod plist_binary;
pub mod solar;
pub mod xml;
pub mod xmp;
pub mod document;
pub mod fraction;
pub mod model;
pub mod property_list;
