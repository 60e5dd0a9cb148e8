//! The plain SVG renderer: a document sized by its view box alone, whose
//! module squares are open sub-paths (`M{x},{y}h1v1h-1`).

use vstd::prelude::*;

use super::svg::{
    background_markup,
    path_element,
    push_background,
    push_view_box,
    root_tag,
    svg_document,
    SvgOptions,
};
use super::Builder;
use crate::qr::QRCode;

pub use super::svg::SvgError;

verus! {

/// The end of an open unit-square command: right, down, left.
pub open spec fn open_square() -> Seq<char> {
    "h1v1h-1"@
}

/// The settings of a plain document: the margin, no explicit dimensions.
pub open spec fn plain_options(margin: usize) -> SvgOptions {
    SvgOptions { margin, width: None, height: None }
}

/// The document [`SvgBuilder::to_str`] writes.
pub open spec fn plain_svg_markup(margin: usize, qr: QRCode) -> Seq<char> {
    svg_document(plain_options(margin), qr, open_square())
}

/// Builder for plain SVG QR output.
pub struct SvgBuilder {
    margin: usize,
}

impl View for SvgBuilder {
    type V = usize;

    /// The quiet-zone margin, in modules.
    closed spec fn view(&self) -> usize {
        self.margin
    }
}

impl Default for SvgBuilder {
    fn default() -> (b: Self)
        ensures
            b@ == 4,
    {
        Self { margin: 4 }
    }
}

impl Builder for SvgBuilder {
    fn margin(&mut self, margin: usize) -> (ret: &mut Self)
        ensures
            ret@ == margin,
            *final(self) == *final(ret),
    {
        self.margin = margin;
        self
    }
}

impl SvgBuilder {
    /// Returns the quiet-zone margin, in modules.
    pub fn get_margin(&self) -> (margin: usize)
        ensures
            margin == self@,
    {
        self.margin
    }

    /// The `<path>` element drawing every dark module, each as a unit
    /// square outline moved in by the margin.
    pub fn path(&self, qr: &QRCode) -> (path: String)
        requires
            qr.wf(),
            qr.size + self@ <= usize::MAX,
        ensures
            path@ == super::svg::path_markup(*qr, self@ as nat, open_square()),
    {
        proof {
            reveal_strlit("h1v1h-1");
        }
        path_element(qr, self.margin, "h1v1h-1")
    }

    /// Returns a string containing the SVG for a QR code.
    pub fn to_str(&self, qr: &QRCode) -> (svg: String)
        requires
            qr.wf(),
            self@ * 2 + qr.size <= usize::MAX,
        ensures
            svg@ == plain_svg_markup(self@, *qr),
    {
        let size = self.margin * 2 + qr.size;
        let ghost opts = plain_options(self.margin);
        let mut out = String::new();
        out.append("<svg");
        push_view_box(&mut out, size);
        assert(out@ =~= root_tag(opts, *qr));
        push_background(&mut out, size);
        assert(out@ =~= root_tag(opts, *qr) + background_markup(opts, *qr));
        let path = self.path(qr);
        out.append(path.as_str());
        out.append("</svg>");
        assert(out@ =~= plain_svg_markup(self.margin, *qr));
        out
    }
}

} // verus!
