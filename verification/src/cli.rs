//! The decisions of the command-line encoder: where its data comes from,
//! which QR options it asks for, which format it writes and the bytes it
//! writes. Reading files, parsing arguments, encoding the QR symbol and
//! writing the result stay with the program that drives these functions.

use vstd::prelude::*;

use crate::convert::svg::{svg_markup, SvgBuilder, SvgOptions};
use crate::convert::Builder;
use crate::qr::QRCode;
use crate::raster::{
    encode_grayscale_png,
    grayscale_pixels,
    image_side,
    png_grayscale8,
    raster,
    PngWriteError,
};

#[allow(unused_imports)]
use vstd::utf8::encode_utf8;

verus! {

/// Output formats of the command-line encoder.
#[derive(Clone, Copy, Debug, PartialEq, Eq, Structural)]
pub enum Format {
    /// SVG markup.
    Svg,
    /// A grayscale PNG image.
    Png,
    /// Block characters for a terminal.
    Terminal,
}

/// Error correction levels.
#[derive(Clone, Copy, Debug, PartialEq, Eq, Structural)]
pub enum ECL {
    /// Recovers about 7% of the codewords.
    L,
    /// Recovers about 15% of the codewords.
    M,
    /// Recovers about 25% of the codewords.
    Q,
    /// Recovers about 30% of the codewords.
    H,
}

/// A QR version, from 1 (21 x 21 modules) to 40 (177 x 177 modules).
#[derive(Clone, Copy, Debug)]
pub struct Version {
    number: u8,
}

impl Version {
    #[verifier::type_invariant]
    spec fn in_range(self) -> bool {
        1 <= self.number <= 40
    }

    /// The version number.
    pub closed spec fn spec_number(self) -> u8 {
        self.number
    }

    /// Returns the version number, from 1 to 40.
    pub fn number(&self) -> (n: u8)
        ensures
            n == self.spec_number(),
            1 <= n <= 40,
    {
        proof {
            use_type_invariant(self);
        }
        self.number
    }
}

/// Returns version `v`.
pub fn version_from_u8(v: u8) -> (version: Version)
    requires
        1 <= v <= 40,
    ensures
        version.spec_number() == v,
{
    Version { number: v }
}

/// The errors the command-line encoder reports before or while rendering.
#[derive(Debug)]
pub enum CliError {
    /// Data was given both as an argument and through `--input`.
    ConflictingInput,
    /// No data was given.
    MissingInput,
    /// `--qr-version` lies outside 1..=40.
    VersionOutOfRange,
    /// `--scale` is 0.
    ZeroScale,
    /// The PNG side or pixel count does not fit in `usize`.
    PngDimensionsOverflow,
    /// The PNG side does not fit in `u32`.
    PngSideTooLarge,
    /// The PNG encoder failed on the header.
    PngHeader(png::EncodingError),
    /// The PNG encoder failed on the pixel data.
    PngPixels(png::EncodingError),
}

/// The message the encoder prints for `e` (the `png` crate's own error, if
/// any, follows it).
pub open spec fn error_message(e: CliError) -> Seq<char> {
    match e {
        CliError::ConflictingInput => "provide data as a positional argument OR via --input, not both"@,
        CliError::MissingInput => "no data: pass data as a positional argument or use --input <PATH|->"@,
        CliError::VersionOutOfRange => "--qr-version must be in 1..=40"@,
        CliError::ZeroScale => "--scale must be greater than 0"@,
        CliError::PngDimensionsOverflow => "PNG dimensions overflow"@,
        CliError::PngSideTooLarge => "PNG side exceeds u32"@,
        CliError::PngHeader(_) => "PNG header write failed"@,
        CliError::PngPixels(_) => "PNG pixel write failed"@,
    }
}

impl CliError {
    /// Returns the message for this error.
    pub fn message(&self) -> (m: String)
        ensures
            m@ == error_message(*self),
    {
        match self {
            CliError::ConflictingInput => String::from_str(
                "provide data as a positional argument OR via --input, not both",
            ),
            CliError::MissingInput => String::from_str(
                "no data: pass data as a positional argument or use --input <PATH|->",
            ),
            CliError::VersionOutOfRange => String::from_str("--qr-version must be in 1..=40"),
            CliError::ZeroScale => String::from_str("--scale must be greater than 0"),
            CliError::PngDimensionsOverflow => String::from_str("PNG dimensions overflow"),
            CliError::PngSideTooLarge => String::from_str("PNG side exceeds u32"),
            CliError::PngHeader(_) => String::from_str("PNG header write failed"),
            CliError::PngPixels(_) => String::from_str("PNG pixel write failed"),
        }
    }
}

/// Where the data to encode comes from.
#[derive(Debug)]
pub enum LoadPlan {
    /// The bytes given on the command line.
    Inline(Vec<u8>),
    /// Everything read from standard input.
    Stdin,
    /// The contents of the file named by `--input`.
    File,
}

/// The `--input` path that stands for standard input: `-`.
pub open spec fn is_stdin_path(path: Seq<u8>) -> bool {
    path == seq![45u8]
}

/// Decides where the data comes from, given the positional data argument
/// and the raw bytes of the `--input` path.
pub fn load_plan(data: Option<String>, input: Option<&[u8]>) -> (plan: Result<LoadPlan, CliError>)
    ensures
        data is Some && input is Some ==> plan matches Err(CliError::ConflictingInput),
        data is None && input is None ==> plan matches Err(CliError::MissingInput),
        input is None ==> (data matches Some(s) ==> (plan matches Ok(LoadPlan::Inline(bytes))
            && bytes@ == encode_utf8(s@))),
        data is None ==> (input matches Some(path) ==> (if is_stdin_path(path@) {
            plan matches Ok(LoadPlan::Stdin)
        } else {
            plan matches Ok(LoadPlan::File)
        })),
{
    match (data, input) {
        (Some(_), Some(_)) => Err(CliError::ConflictingInput),
        (None, None) => Err(CliError::MissingInput),
        (Some(s), None) => Ok(LoadPlan::Inline(s.as_str().as_bytes_vec())),
        (None, Some(path)) => {
            if path.len() == 1 && path[0] == 45u8 {
                assert(path@ =~= seq![45u8]);
                Ok(LoadPlan::Stdin)
            } else {
                Ok(LoadPlan::File)
            }
        },
    }
}

/// Encoding modes of the QR data.
#[derive(Clone, Copy, Debug, PartialEq, Eq, Structural)]
pub enum Mode {
    /// The most compact segmentation for the data, chosen by the encoder.
    Auto,
    /// Digits only.
    Numeric,
    /// Digits, upper-case letters, space and `$%*+-./:`.
    Alphanumeric,
    /// Arbitrary bytes.
    Byte,
}

/// The mode asked for: Byte when forced by the flag, else the given mode.
pub open spec fn effective_mode(mode: Mode, byte_mode: bool) -> Mode {
    if byte_mode {
        Mode::Byte
    } else {
        mode
    }
}

/// The mode asked for is kept as given, unless the byte flag is set, which
/// pins Byte mode whatever the mode asked for.
pub proof fn lemma_requested_mode_is_kept(mode: Mode)
    ensures
        effective_mode(mode, false) == mode,
        effective_mode(mode, true) == Mode::Byte,
{
}

/// What the encoder asks of the QR builder.
#[derive(Debug)]
pub struct QrOptions {
    /// The bytes to encode.
    pub data: Vec<u8>,
    /// The error correction level.
    pub ecl: ECL,
    /// The encoding mode: chosen by the encoder, or pinned.
    pub mode: Mode,
    /// A forced version, or `None` for the smallest that fits.
    pub version: Option<Version>,
}

/// Checks the requested version and gathers the QR builder options; the
/// `byte_mode` flag pins Byte mode whatever `mode` says.
pub fn build_qr_options(
    data: Vec<u8>,
    ecl: ECL,
    mode: Mode,
    byte_mode: bool,
    qr_version: Option<u8>,
) -> (res: Result<QrOptions, CliError>)
    ensures
        qr_version matches Some(v) ==> (!(1 <= v <= 40) ==> res matches Err(
            CliError::VersionOutOfRange,
        )),
        qr_version matches Some(v) ==> (1 <= v <= 40 ==> (res matches Ok(opts)
            && opts.version matches Some(version) && version.spec_number() == v && opts.data@
            == data@ && opts.ecl == ecl && opts.mode == effective_mode(mode, byte_mode))),
        qr_version is None ==> (res matches Ok(opts) && opts.version is None && opts.data@ == data@
            && opts.ecl == ecl && opts.mode == effective_mode(mode, byte_mode)),
        !byte_mode ==> (res matches Ok(opts) ==> opts.mode == mode),
        byte_mode ==> (res matches Ok(opts) ==> opts.mode == Mode::Byte),
{
    let version = match qr_version {
        Some(v) => {
            if !(1 <= v && v <= 40) {
                return Err(CliError::VersionOutOfRange);
            }
            Some(version_from_u8(v))
        },
        None => None,
    };
    let mode = if byte_mode {
        Mode::Byte
    } else {
        mode
    };
    Ok(QrOptions { data, ecl, mode, version })
}

/// `c` with ASCII upper-case letters mapped to lower case.
pub open spec fn ascii_lower(c: char) -> char {
    if 'A' <= c <= 'Z' {
        ((c as u32) + 32) as char
    } else {
        c
    }
}

/// `s` with ASCII upper-case letters mapped to lower case.
pub open spec fn ascii_lowercase(s: Seq<char>) -> Seq<char> {
    s.map_values(|c: char| ascii_lower(c))
}

/// The format that a file extension names, ignoring ASCII case.
pub open spec fn format_for_extension(ext: Seq<char>) -> Option<Format> {
    if ascii_lowercase(ext) == "png"@ {
        Some(Format::Png)
    } else if ascii_lowercase(ext) == "svg"@ {
        Some(Format::Svg)
    } else {
        None
    }
}

/// The format written: the explicit one, else the one the output extension
/// names, else SVG.
pub open spec fn resolved_format(explicit: Option<Format>, extension: Option<&str>) -> Format {
    match explicit {
        Some(f) => f,
        None => match extension {
            Some(ext) => match format_for_extension(ext@) {
                Some(f) => f,
                None => Format::Svg,
            },
            None => Format::Svg,
        },
    }
}

/// Whether `ext` equals the lower-case ASCII word `word` once its ASCII
/// letters are lower-cased.
fn matches_ignoring_case(ext: &str, word: &str) -> (b: bool)
    requires
        forall|i: int| 0 <= i < word@.len() ==> 'a' <= #[trigger] word@[i] <= 'z',
    ensures
        b == (ascii_lowercase(ext@) == word@),
{
    let n = ext.unicode_len();
    if n != word.unicode_len() {
        assert(ascii_lowercase(ext@).len() != word@.len());
        return false;
    }
    let mut i: usize = 0;
    while i < n
        invariant
            n == ext@.len(),
            n == word@.len(),
            i <= n,
            forall|i: int| 0 <= i < word@.len() ==> 'a' <= #[trigger] word@[i] <= 'z',
            forall|j: int| 0 <= j < i ==> ascii_lower(#[trigger] ext@[j]) == word@[j],
        decreases n - i,
    {
        let c = ext.get_char(i);
        let w = word.get_char(i);
        let same = c == w || (c as u32) + 32 == (w as u32);
        assert(same == (ascii_lower(c) == w)) by {
            assert('a' <= w <= 'z');
        }
        if !same {
            assert(ascii_lowercase(ext@)[i as int] != word@[i as int]);
            return false;
        }
        i = i + 1;
    }
    assert(ascii_lowercase(ext@) =~= word@);
    true
}

/// Picks the output format: the explicit one, else the one the output
/// file's extension names (`png` or `svg`, in any ASCII case), else SVG.
pub fn resolve_format(explicit: Option<Format>, extension: Option<&str>) -> (format: Format)
    ensures
        format == resolved_format(explicit, extension),
{
    if let Some(f) = explicit {
        return f;
    }
    match extension {
        None => Format::Svg,
        Some(ext) => {
            proof {
                reveal_strlit("png");
                reveal_strlit("svg");
            }
            if matches_ignoring_case(ext, "png") {
                Format::Png
            } else if matches_ignoring_case(ext, "svg") {
                Format::Svg
            } else {
                Format::Svg
            }
        },
    }
}

/// The SVG settings the encoder renders with: the given margin, no explicit
/// width or height.
pub open spec fn cli_svg_options(margin: usize) -> SvgOptions {
    SvgOptions { margin, width: None, height: None }
}

/// The error-free outcome of a PNG encoding, or the encoder error it maps to.
pub open spec fn png_result_matches(
    encoded: Result<Vec<u8>, PngWriteError>,
    res: Result<Vec<u8>, CliError>,
) -> bool {
    match encoded {
        Ok(bytes) => res matches Ok(out) && out@ == bytes@,
        Err(PngWriteError::Header(_)) => res matches Err(CliError::PngHeader(_)),
        Err(PngWriteError::ImageData(_)) => res matches Err(CliError::PngPixels(_)),
    }
}

/// Turns the PNG encoder's outcome into the encoder's result: the bytes, or
/// the error of the step that failed.
pub fn png_result(encoded: Result<Vec<u8>, PngWriteError>) -> (res: Result<Vec<u8>, CliError>)
    ensures
        png_result_matches(encoded, res),
{
    match encoded {
        Ok(bytes) => Ok(bytes),
        Err(PngWriteError::Header(e)) => Err(CliError::PngHeader(e)),
        Err(PngWriteError::ImageData(e)) => Err(CliError::PngPixels(e)),
    }
}

/// What rendering `qr` as a PNG yields: an error for a zero scale or a side
/// that overflows, the header error of the encoder for an empty image, else
/// the PNG of the grayscale image.
pub open spec fn png_render_outcome(
    qr: QRCode,
    margin: nat,
    scale: nat,
    res: Result<Vec<u8>, CliError>,
) -> bool {
    let side = image_side(qr, margin, scale);
    if scale == 0 {
        res matches Err(CliError::ZeroScale)
    } else if side > usize::MAX || side * side > usize::MAX {
        res matches Err(CliError::PngDimensionsOverflow)
    } else if side > u32::MAX {
        res matches Err(CliError::PngSideTooLarge)
    } else if side == 0 {
        res matches Err(CliError::PngHeader(_))
    } else {
        res matches Ok(bytes) && bytes@ == png_grayscale8(side as u32, raster(qr, margin, scale, side))
    }
}

/// Two results that both are what rendering a PNG yields agree: the same
/// bytes, or errors with the same message.
pub proof fn lemma_png_outcome_determined(
    qr: QRCode,
    margin: nat,
    scale: nat,
    r1: Result<Vec<u8>, CliError>,
    r2: Result<Vec<u8>, CliError>,
)
    requires
        png_render_outcome(qr, margin, scale, r1),
        png_render_outcome(qr, margin, scale, r2),
    ensures
        r1 is Ok <==> r2 is Ok,
        r1 matches Ok(b1) ==> (r2 matches Ok(b2) && b1@ == b2@),
        r1 matches Err(e1) ==> (r2 matches Err(e2) && error_message(e1) == error_message(e2)),
{
}

/// Renders `qr` as an 8-bit grayscale PNG: `scale` pixels per module, a
/// quiet zone of `margin` modules, dark modules black and all else white.
pub fn render_png(qr: &QRCode, margin: usize, scale: usize) -> (res: Result<Vec<u8>, CliError>)
    requires
        qr.wf(),
        scale > 0 ==> qr.size + 2 * margin <= usize::MAX,
    ensures
        png_render_outcome(*qr, margin as nat, scale as nat, res),
{
    if scale == 0 {
        return Err(CliError::ZeroScale);
    }
    let full_modules = qr.size + 2 * margin;
    let side = match full_modules.checked_mul(scale) {
        Some(side) => side,
        None => return Err(CliError::PngDimensionsOverflow),
    };
    if side.checked_mul(side).is_none() {
        return Err(CliError::PngDimensionsOverflow);
    }
    let pixels = grayscale_pixels(qr, margin, scale, side);
    if side > u32::MAX as usize {
        return Err(CliError::PngSideTooLarge);
    }
    proof {
        assert((side + 1) * side <= usize::MAX) by (nonlinear_arith)
            requires
                side * side <= usize::MAX,
                side <= u32::MAX,
                usize::MAX >= u32::MAX,
        ;
    }
    let encoded = encode_grayscale_png(side as u32, pixels.as_slice());
    png_result(encoded)
}

/// Renders `qr` in `format`: SVG markup with the given margin, the terminal
/// block drawing, or a grayscale PNG with the given margin and scale.
pub fn render(qr: &QRCode, format: Format, margin: usize, scale: usize) -> (res: Result<
    Vec<u8>,
    CliError,
>)
    requires
        qr.wf(),
        format == Format::Svg ==> margin * 2 + qr.size <= usize::MAX,
        format == Format::Png && scale > 0 ==> margin * 2 + qr.size <= usize::MAX,
    ensures
        format == Format::Svg ==> (res matches Ok(bytes) && bytes@ == encode_utf8(
            svg_markup(cli_svg_options(margin), *qr),
        )),
        format == Format::Terminal ==> (res matches Ok(bytes) && bytes@ == encode_utf8(qr.text())),
        format == Format::Png ==> png_render_outcome(*qr, margin as nat, scale as nat, res),
{
    match format {
        Format::Svg => {
            let svg = SvgBuilder::default().margin(margin).to_str(qr);
            Ok(svg.as_str().as_bytes_vec())
        },
        Format::Terminal => Ok(qr.to_str().as_str().as_bytes_vec()),
        Format::Png => render_png(qr, margin, scale),
    }
}

} // verus!
