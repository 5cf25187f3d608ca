//! QR code encoding library.

pub mod bits;
pub mod canvas;
pub mod cast;
pub mod ec;
pub mod error;
pub mod optimize;
pub mod render;
pub mod types;

pub use crate::error::{Error, QrResult};
pub use crate::types::{Color, EcLevel, MicroVersion, NormalVersion, RectMicroVersion, Version};
