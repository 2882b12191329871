//! Usage keys for a stream-deck style key: a small verified raster (canvas,
//! bitmap font, progress bars), the image pipeline that turns a layout into a
//! PNG data URL, settings with their defaults and colour parsing, the usage
//! cache, and the decisions that drive the three key actions.

pub mod actions;
pub mod cli;
pub mod pixels;
pub mod render;
pub mod settings;
pub mod state;
pub mod text;
pub mod usage;
