//! QR code rendering: a module matrix turned into SVG markup, terminal
//! block text or a grayscale PNG, plus the decisions of the command-line
//! encoder, all with machine-checked contracts.

pub mod cli;
pub mod convert;
pub mod encode;
pub mod qr;
pub mod raster;
pub mod text;

pub use cli::{Version, ECL};
pub use qr::QRCode;
