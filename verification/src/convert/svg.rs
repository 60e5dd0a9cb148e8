//! Converts a [`crate::qr::QRCode`] to a simple black-and-white SVG.

use vstd::prelude::*;

use super::Builder;
use crate::qr::QRCode;
use crate::text::{decimal, push_decimal};

verus! {

#[verifier::external_type_specification]
#[verifier::external_body]
pub struct ExIoError(std::io::Error);

/// Possible errors when writing SVG output.
#[derive(Debug)]
pub enum SvgError {
    /// Error while writing the SVG file.
    IoError(std::io::Error),
}

impl SvgError {
    /// Returns the message for this error: what failed, followed by the
    /// text that the I/O error displays.
    pub fn message(&self) -> (m: String)
        ensures
            match self {
                SvgError::IoError(e) => exists|t: String|
                    vstd::string::to_string_from_display_ensures::<std::io::Error>(e, t) && m@
                        == "failed to write SVG: "@ + t@,
            },
    {
        match self {
            SvgError::IoError(e) => {
                let cause = e.to_string();
                let mut m = String::from_str("failed to write SVG: ");
                m.append(cause.as_str());
                m
            },
        }
    }
}

/// The settings an [`SvgBuilder`] holds.
pub struct SvgOptions {
    /// Quiet-zone margin, in modules, on every side.
    pub margin: usize,
    /// Explicit `width` attribute of the root element, if any.
    pub width: Option<usize>,
    /// Explicit `height` attribute of the root element, if any.
    pub height: Option<usize>,
}

/// Builder for SVG QR output.
pub struct SvgBuilder {
    margin: usize,
    width: Option<usize>,
    height: Option<usize>,
}

impl View for SvgBuilder {
    type V = SvgOptions;

    closed spec fn view(&self) -> SvgOptions {
        SvgOptions { margin: self.margin, width: self.width, height: self.height }
    }
}

/// The end of a closed unit-square command: right, down, left, close.
pub open spec fn closed_square() -> Seq<char> {
    "h1v1h-1z"@
}

/// The path command drawing the dark module at column `x`, row `y`,
/// shifted by the margin: a move to its corner followed by `end`, the
/// strokes of a one-unit square.
pub open spec fn cell_markup(x: nat, y: nat, margin: nat, end: Seq<char>) -> Seq<char> {
    "M"@ + decimal(x + margin) + ","@ + decimal(y + margin) + end
}

/// The path commands for the dark modules among the first `n` columns of row `y`.
pub open spec fn row_markup(qr: QRCode, margin: nat, end: Seq<char>, y: nat, n: nat) -> Seq<char>
    decreases n,
{
    if n == 0 {
        Seq::empty()
    } else {
        row_markup(qr, margin, end, y, (n - 1) as nat) + if qr.is_dark(n - 1, y as int) {
            cell_markup((n - 1) as nat, y, margin, end)
        } else {
            Seq::empty()
        }
    }
}

/// The path commands for the dark modules of the first `k` rows, row by row.
pub open spec fn rows_markup(qr: QRCode, margin: nat, end: Seq<char>, k: nat) -> Seq<char>
    decreases k,
{
    if k == 0 {
        Seq::empty()
    } else {
        rows_markup(qr, margin, end, (k - 1) as nat) + row_markup(
            qr,
            margin,
            end,
            (k - 1) as nat,
            qr.size as nat,
        )
    }
}

/// The `<path>` element that draws every dark module.
pub open spec fn path_markup(qr: QRCode, margin: nat, end: Seq<char>) -> Seq<char> {
    "<path d=\""@ + rows_markup(qr, margin, end, qr.size as nat) + "\" fill=\"#000000\"/>"@
}

/// The explicit `width` attribute, or nothing.
pub open spec fn width_attr(width: Option<usize>) -> Seq<char> {
    match width {
        Some(w) => " width=\""@ + decimal(w as nat) + "\""@,
        None => Seq::empty(),
    }
}

/// The explicit `height` attribute, or nothing.
pub open spec fn height_attr(height: Option<usize>) -> Seq<char> {
    match height {
        Some(h) => " height=\""@ + decimal(h as nat) + "\""@,
        None => Seq::empty(),
    }
}

/// Side of the drawing in SVG user units: the symbol plus the margin on
/// both sides, one unit per module.
pub open spec fn canvas_side(opts: SvgOptions, qr: QRCode) -> nat {
    (opts.margin * 2 + qr.size) as nat
}

/// The view box and namespace attributes that close the root tag.
pub open spec fn view_box_attrs(side: nat) -> Seq<char> {
    " viewBox=\"0 0 "@ + decimal(side) + " "@ + decimal(side)
        + "\" xmlns=\"http://www.w3.org/2000/svg\">"@
}

/// The root `<svg ...>` tag.
pub open spec fn root_tag(opts: SvgOptions, qr: QRCode) -> Seq<char> {
    "<svg"@ + width_attr(opts.width) + height_attr(opts.height) + view_box_attrs(
        canvas_side(opts, qr),
    )
}

/// The white background rectangle covering the whole canvas.
pub open spec fn background_markup(opts: SvgOptions, qr: QRCode) -> Seq<char> {
    "<rect width=\""@ + decimal(canvas_side(opts, qr)) + "px\" height=\""@ + decimal(
        canvas_side(opts, qr),
    ) + "px\" fill=\"#ffffff\"/>"@
}

/// An SVG document for `qr` under the settings `opts`, each dark module
/// drawn with a move followed by `end`.
pub open spec fn svg_document(opts: SvgOptions, qr: QRCode, end: Seq<char>) -> Seq<char> {
    root_tag(opts, qr) + background_markup(opts, qr) + path_markup(qr, opts.margin as nat, end)
        + "</svg>"@
}

/// The SVG document [`SvgBuilder::to_str`] writes: closed unit squares.
pub open spec fn svg_markup(opts: SvgOptions, qr: QRCode) -> Seq<char> {
    svg_document(opts, qr, closed_square())
}

impl Default for SvgBuilder {
    fn default() -> (b: Self)
        ensures
            b@.margin == 4,
            b@.width is None,
            b@.height is None,
    {
        Self { margin: 4, width: None, height: None }
    }
}

impl Builder for SvgBuilder {
    fn margin(&mut self, margin: usize) -> (ret: &mut Self)
        ensures
            ret@.margin == margin,
            ret@.width == old(self)@.width,
            ret@.height == old(self)@.height,
            *final(self) == *final(ret),
    {
        self.margin = margin;
        self
    }
}

impl SvgBuilder {
    /// Returns the quiet-zone margin, in modules.
    pub fn get_margin(&self) -> (margin: usize)
        ensures
            margin == self@.margin,
    {
        self.margin
    }

    /// Sets an explicit `width` attribute on the root `<svg>` element.
    pub fn width(&mut self, width: usize) -> (ret: &mut Self)
        ensures
            ret@.width == Some(width),
            ret@.margin == old(self)@.margin,
            ret@.height == old(self)@.height,
            *final(self) == *final(ret),
    {
        self.width = Some(width);
        self
    }

    /// Sets an explicit `height` attribute on the root `<svg>` element.
    pub fn height(&mut self, height: usize) -> (ret: &mut Self)
        ensures
            ret@.height == Some(height),
            ret@.margin == old(self)@.margin,
            ret@.width == old(self)@.width,
            *final(self) == *final(ret),
    {
        self.height = Some(height);
        self
    }
}

impl SvgBuilder {
    /// The `<path>` element drawing every dark module, each as a closed
    /// unit square moved in by the margin.
    pub fn path(&self, qr: &QRCode) -> (path: String)
        requires
            qr.wf(),
            qr.size + self@.margin <= usize::MAX,
        ensures
            path@ == path_markup(*qr, self@.margin as nat, closed_square()),
    {
        proof {
            reveal_strlit("h1v1h-1z");
        }
        path_element(qr, self.margin, "h1v1h-1z")
    }

    fn push_dimension(out: &mut String, name: &str, value: Option<usize>)
        ensures
            final(out)@ == old(out)@ + match value {
                Some(v) => name@ + decimal(v as nat) + "\""@,
                None => Seq::empty(),
            },
    {
        if let Some(v) = value {
            out.append(name);
            push_decimal(out, v);
            out.append("\"");
            assert(final(out)@ =~= old(out)@ + (name@ + decimal(v as nat) + "\""@));
        } else {
            assert(final(out)@ =~= old(out)@ + Seq::<char>::empty());
        }
    }

    /// Returns a string containing the SVG for a QR code.
    pub fn to_str(&self, qr: &QRCode) -> (svg: String)
        requires
            qr.wf(),
            self@.margin * 2 + qr.size <= usize::MAX,
        ensures
            svg@ == svg_markup(self@, *qr),
    {
        let size = self.margin * 2 + qr.size;
        let mut out = String::new();
        out.append("<svg");
        Self::push_dimension(&mut out, " width=\"", self.width);
        Self::push_dimension(&mut out, " height=\"", self.height);
        push_view_box(&mut out, size);
        assert(out@ =~= root_tag(self@, *qr));
        push_background(&mut out, size);
        assert(out@ =~= root_tag(self@, *qr) + background_markup(self@, *qr));
        let path = self.path(qr);
        out.append(path.as_str());
        out.append("</svg>");
        assert(out@ =~= svg_markup(self@, *qr));
        out
    }
}

/// Writes the `<path>` element drawing every dark module of `qr`, each as a
/// move to its corner, shifted by `margin`, followed by `end`.
pub(crate) fn path_element(qr: &QRCode, margin: usize, end: &str) -> (path: String)
    requires
        qr.wf(),
        qr.size + margin <= usize::MAX,
    ensures
        path@ == path_markup(*qr, margin as nat, end@),
{
    let size = qr.size;
    let total = qr.data.len();
    let mut path = String::new();
    path.append("<path d=\"");
    let ghost head = path@;
    let mut y: usize = 0;
    while y < size
        invariant
            qr.wf(),
            size == qr.size,
            total == size * size,
            size + margin <= usize::MAX,
            y <= size,
            path@ == head + rows_markup(*qr, margin as nat, end@, y as nat),
        decreases size - y,
    {
        let mut x: usize = 0;
        while x < size
            invariant
                qr.wf(),
                size == qr.size,
                total == size * size,
                size + margin <= usize::MAX,
                y < size,
                x <= size,
                path@ == head + rows_markup(*qr, margin as nat, end@, y as nat) + row_markup(
                    *qr,
                    margin as nat,
                    end@,
                    y as nat,
                    x as nat,
                ),
            decreases size - x,
        {
            proof {
                assert(y * size + x < size * size) by (nonlinear_arith)
                    requires
                        y < size,
                        x < size,
                ;
            }
            let ghost before = path@;
            if qr.data[y * size + x] {
                path.append("M");
                push_decimal(&mut path, x + margin);
                path.append(",");
                push_decimal(&mut path, y + margin);
                path.append(end);
                assert(path@ =~= before + cell_markup(x as nat, y as nat, margin as nat, end@));
            }
            x = x + 1;
            assert(path@ =~= head + rows_markup(*qr, margin as nat, end@, y as nat) + row_markup(
                *qr,
                margin as nat,
                end@,
                y as nat,
                x as nat,
            ));
        }
        y = y + 1;
        assert(path@ =~= head + rows_markup(*qr, margin as nat, end@, y as nat));
    }
    path.append("\" fill=\"#000000\"/>");
    assert(path@ =~= path_markup(*qr, margin as nat, end@));
    path
}

/// Appends the view box and namespace attributes that close the root tag.
pub(crate) fn push_view_box(out: &mut String, side: usize)
    ensures
        final(out)@ == old(out)@ + view_box_attrs(side as nat),
{
    out.append(" viewBox=\"0 0 ");
    push_decimal(out, side);
    out.append(" ");
    push_decimal(out, side);
    out.append("\" xmlns=\"http://www.w3.org/2000/svg\">");
    assert(final(out)@ =~= old(out)@ + view_box_attrs(side as nat));
}

/// Appends the white background rectangle of a `side` x `side` canvas.
pub(crate) fn push_background(out: &mut String, side: usize)
    ensures
        final(out)@ == old(out)@ + "<rect width=\""@ + decimal(side as nat) + "px\" height=\""@
            + decimal(side as nat) + "px\" fill=\"#ffffff\"/>"@,
{
    out.append("<rect width=\"");
    push_decimal(out, side);
    out.append("px\" height=\"");
    push_decimal(out, side);
    out.append("px\" fill=\"#ffffff\"/>");
}

} // verus!
