//! Renderers that turn a QR module matrix into an output format.

use vstd::prelude::*;

pub mod plain_svg;
pub mod svg;
pub mod svg_laws;


verus! {

/// Shared builder controls for QR renderers.
pub trait Builder {
    /// Updates the quiet-zone margin in module units.
    fn margin(&mut self, margin: usize) -> &mut Self;
}

} // verus!
