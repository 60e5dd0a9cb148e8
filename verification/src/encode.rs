//! Encoding data into a QR module matrix with the `qrcode` crate, and the
//! choice of its encoding call for the requested options.

use vstd::prelude::*;

use crate::cli::{Mode, QrOptions, ECL};
use crate::qr::QRCode;

verus! {

#[verifier::external_type_specification]
#[verifier::external_body]
pub struct ExQrError(qrcode::types::QrError);

/// Why the data could not be encoded.
#[derive(Debug)]
pub enum EncodeError {
    /// A byte of the data has no code in the pinned mode.
    UnsupportedCharacter,
    /// The `qrcode` crate refused, mostly because the data does not fit.
    Qr(qrcode::types::QrError),
}

impl EncodeError {
    /// Returns the message for this error: what failed and, for a refusal of
    /// the `qrcode` crate, the text that its error displays.
    pub fn message(&self) -> (m: String)
        ensures
            match self {
                EncodeError::UnsupportedCharacter => m@
                    == "QR encoding failed: the data has a character outside the chosen mode"@,
                EncodeError::Qr(e) => exists|t: String|
                    vstd::string::to_string_from_display_ensures::<qrcode::types::QrError>(e, t)
                        && m@ == "QR encoding failed: "@ + t@,
            },
    {
        match self {
            EncodeError::UnsupportedCharacter => String::from_str(
                "QR encoding failed: the data has a character outside the chosen mode",
            ),
            EncodeError::Qr(e) => {
                let cause = e.to_string();
                let mut m = String::from_str("QR encoding failed: ");
                m.append(cause.as_str());
                m
            },
        }
    }
}

/// The number of modules on a side of a symbol of (normal) version `version`.
pub open spec fn symbol_side(version: nat) -> nat {
    17 + 4 * version
}

/// `side` is the side of a symbol of one of the versions 1 to 40.
pub open spec fn is_symbol_side(side: nat) -> bool {
    exists|v: nat| 1 <= v <= 40 && side == symbol_side(v)
}

/// Data short enough that the `qrcode` crate's bit-length arithmetic on it
/// (at most a few dozen bits per byte, plus segment headers) stays within
/// `usize`.
pub open spec fn within_encoder_limits(len: nat) -> bool {
    32 * len + 64 <= usize::MAX
}

/// The side and row-major module values of the symbol that the `qrcode`
/// crate builds for `data` at level `ecl`, choosing the smallest version and
/// the segment modes itself, or `None` if it refuses.
pub uninterp spec fn qrcode_auto(data: Seq<u8>, ecl: ECL) -> Option<(nat, Seq<bool>)>;

/// The same for a given version, the crate choosing the segment modes.
pub uninterp spec fn qrcode_versioned(data: Seq<u8>, ecl: ECL, version: u8) -> Option<(nat, Seq<bool>)>;

/// The matrix `q` is the symbol `symbol`.
pub open spec fn is_symbol(q: QRCode, symbol: Option<(nat, Seq<bool>)>) -> bool {
    symbol == Some((q.size as nat, q.data@))
}

/// `b` has a code in Alphanumeric mode.
pub open spec fn is_alphanumeric(b: u8) -> bool {
    (48 <= b <= 57) || (65 <= b <= 90) || b == 32 || b == 36 || b == 37 || b == 42 || b == 43
        || b == 45 || b == 46 || b == 47 || b == 58
}

/// Every byte of `data` has a code in `mode`.
pub open spec fn fits_mode(data: Seq<u8>, mode: Mode) -> bool {
    match mode {
        Mode::Numeric => forall|i: int| 0 <= i < data.len() ==> 48 <= #[trigger] data[i] <= 57,
        Mode::Alphanumeric => forall|i: int| 0 <= i < data.len() ==> is_alphanumeric(#[trigger] data[i]),
        _ => true,
    }
}

/// Calls `qrcode::QrCode::with_error_correction_level` and takes the
/// resulting matrix. Claimed: the result is what the crate builds for these
/// arguments ([`qrcode_auto`]); a built matrix holds `width * width`
/// modules (the crate's canvas is square), and its width is `4 v + 17` for
/// the normal version `v` from 1 to 40 that the crate picked
/// (`find_min_version`, `Version::width`). The `requires` keeps the crate's
/// bit-length arithmetic within `usize`.
#[verifier::external_body]
#[allow(deprecated)]
fn encode_auto(data: &[u8], ecl: ECL) -> (res: Result<QRCode, qrcode::types::QrError>)
    requires
        within_encoder_limits(data@.len()),
    ensures
        res is Ok <==> qrcode_auto(data@, ecl) is Some,
        res matches Ok(q) ==> q.wf() && is_symbol(q, qrcode_auto(data@, ecl)) && is_symbol_side(
            q.size as nat,
        ),
{
    let level = match ecl {
        ECL::L => qrcode::EcLevel::L,
        ECL::M => qrcode::EcLevel::M,
        ECL::Q => qrcode::EcLevel::Q,
        ECL::H => qrcode::EcLevel::H,
    };
    let code = qrcode::QrCode::with_error_correction_level(data, level)?;
    Ok(QRCode { size: code.width(), data: code.into_vec() })
}

/// Calls `qrcode::QrCode::with_version` with `Version::Normal(version)` and
/// takes the resulting matrix. Claimed: the result is what the crate builds
/// for these arguments ([`qrcode_versioned`]); a built matrix holds
/// `width * width` modules, and its width is `4 * version + 17`
/// (`Version::width`). The `requires` keeps the crate's bit-length
/// arithmetic within `usize`.
#[verifier::external_body]
#[allow(deprecated)]
fn encode_versioned(data: &[u8], ecl: ECL, version: u8) -> (res: Result<QRCode, qrcode::types::QrError>)
    requires
        1 <= version <= 40,
        within_encoder_limits(data@.len()),
    ensures
        res is Ok <==> qrcode_versioned(data@, ecl, version) is Some,
        res matches Ok(q) ==> q.wf() && is_symbol(q, qrcode_versioned(data@, ecl, version))
            && q.size == symbol_side(version as nat),
{
    let level = match ecl {
        ECL::L => qrcode::EcLevel::L,
        ECL::M => qrcode::EcLevel::M,
        ECL::Q => qrcode::EcLevel::Q,
        ECL::H => qrcode::EcLevel::H,
    };
    let code = qrcode::QrCode::with_version(data, qrcode::Version::Normal(version.into()), level)?;
    Ok(QRCode { size: code.width(), data: code.into_vec() })
}

#[verifier::external_type_specification]
#[verifier::external_body]
pub struct ExBits(qrcode::bits::Bits);

/// The bits written so far into `bits`, in order.
pub uninterp spec fn qrcode_bits(bits: qrcode::bits::Bits) -> Seq<bool>;

/// The number of the normal version that `bits` was made for.
pub uninterp spec fn qrcode_bits_version(bits: qrcode::bits::Bits) -> u8;

/// The bits after `Bits::push_numeric_data` of `data` onto `bits` for a
/// symbol of version `version`, or `None` if the crate refuses.
pub uninterp spec fn qrcode_push_numeric(bits: Seq<bool>, version: u8, data: Seq<u8>) -> Option<
    Seq<bool>,
>;

/// The same for `Bits::push_alphanumeric_data`.
pub uninterp spec fn qrcode_push_alphanumeric(bits: Seq<bool>, version: u8, data: Seq<u8>) -> Option<
    Seq<bool>,
>;

/// The same for `Bits::push_byte_data`.
pub uninterp spec fn qrcode_push_byte(bits: Seq<bool>, version: u8, data: Seq<u8>) -> Option<
    Seq<bool>,
>;

/// The bits after `Bits::push_terminator` at level `ecl`, or `None` if the
/// crate refuses.
pub uninterp spec fn qrcode_push_terminator(bits: Seq<bool>, version: u8, ecl: ECL) -> Option<
    Seq<bool>,
>;

/// The data capacity in bits, `Bits::max_len`, of a symbol of version
/// `version` at level `ecl`.
pub uninterp spec fn qrcode_max_len(version: u8, ecl: ECL) -> nat;

/// The row-major module values of the symbol that `QrCode::with_bits` builds
/// from `bits`.
pub uninterp spec fn qrcode_with_bits(bits: Seq<bool>, version: u8, ecl: ECL) -> Seq<bool>;

/// Calls `qrcode::bits::Bits::new` with `Version::Normal(version)`.
/// Claimed: the new bits are empty and made for `version`.
#[verifier::external_body]
fn new_bits(version: u8) -> (bits: qrcode::bits::Bits)
    requires
        1 <= version <= 40,
    ensures
        qrcode_bits(bits) == Seq::<bool>::empty(),
        qrcode_bits_version(bits) == version,
{
    qrcode::bits::Bits::new(qrcode::Version::Normal(version.into()))
}

/// Calls `Bits::push_numeric_data`. Claimed: the outcome is what the crate
/// gives for the bits so far, their version and `data`
/// ([`qrcode_push_numeric`]); the version is kept. The `requires` keeps out
/// non-digits (the coder subtracts `b'0'` from each byte) and lengths whose
/// bit count would overflow.
#[verifier::external_body]
fn push_numeric_data(bits: &mut qrcode::bits::Bits, data: &[u8]) -> (res: Result<(), qrcode::types::QrError>)
    requires
        1 <= qrcode_bits_version(*old(bits)) <= 40,
        fits_mode(data@, Mode::Numeric),
        within_encoder_limits(data@.len()),
    ensures
        res is Ok <==> qrcode_push_numeric(qrcode_bits(*old(bits)), qrcode_bits_version(*old(bits)), data@) is Some,
        res is Ok ==> Some(qrcode_bits(*final(bits))) == qrcode_push_numeric(
            qrcode_bits(*old(bits)),
            qrcode_bits_version(*old(bits)),
            data@,
        ),
        qrcode_bits_version(*final(bits)) == qrcode_bits_version(*old(bits)),
{
    bits.push_numeric_data(data)
}

/// Calls `Bits::push_alphanumeric_data`. Claimed as for
/// [`push_numeric_data`], over [`qrcode_push_alphanumeric`]; the `requires`
/// keeps out bytes without an alphanumeric code.
#[verifier::external_body]
fn push_alphanumeric_data(bits: &mut qrcode::bits::Bits, data: &[u8]) -> (res: Result<(), qrcode::types::QrError>)
    requires
        1 <= qrcode_bits_version(*old(bits)) <= 40,
        fits_mode(data@, Mode::Alphanumeric),
        within_encoder_limits(data@.len()),
    ensures
        res is Ok <==> qrcode_push_alphanumeric(qrcode_bits(*old(bits)), qrcode_bits_version(*old(bits)), data@) is Some,
        res is Ok ==> Some(qrcode_bits(*final(bits))) == qrcode_push_alphanumeric(
            qrcode_bits(*old(bits)),
            qrcode_bits_version(*old(bits)),
            data@,
        ),
        qrcode_bits_version(*final(bits)) == qrcode_bits_version(*old(bits)),
{
    bits.push_alphanumeric_data(data)
}

/// Calls `Bits::push_byte_data`. Claimed as for [`push_numeric_data`], over
/// [`qrcode_push_byte`].
#[verifier::external_body]
fn push_byte_data(bits: &mut qrcode::bits::Bits, data: &[u8]) -> (res: Result<(), qrcode::types::QrError>)
    requires
        1 <= qrcode_bits_version(*old(bits)) <= 40,
        within_encoder_limits(data@.len()),
    ensures
        res is Ok <==> qrcode_push_byte(qrcode_bits(*old(bits)), qrcode_bits_version(*old(bits)), data@) is Some,
        res is Ok ==> Some(qrcode_bits(*final(bits))) == qrcode_push_byte(
            qrcode_bits(*old(bits)),
            qrcode_bits_version(*old(bits)),
            data@,
        ),
        qrcode_bits_version(*final(bits)) == qrcode_bits_version(*old(bits)),
{
    bits.push_byte_data(data)
}

/// Calls `Bits::push_terminator` at the level matching `ecl`. Claimed: the
/// outcome is what the crate gives for the bits so far, their version and
/// the level ([`qrcode_push_terminator`]); the version is kept; on success
/// the bits fill the data capacity exactly ([`qrcode_max_len`]: the
/// terminator and padding bytes are added up to `max_len`, a whole number
/// of bytes for normal versions).
#[verifier::external_body]
fn push_terminator(bits: &mut qrcode::bits::Bits, ecl: ECL) -> (res: Result<(), qrcode::types::QrError>)
    requires
        1 <= qrcode_bits_version(*old(bits)) <= 40,
    ensures
        res is Ok <==> qrcode_push_terminator(qrcode_bits(*old(bits)), qrcode_bits_version(*old(bits)), ecl) is Some,
        res is Ok ==> Some(qrcode_bits(*final(bits))) == qrcode_push_terminator(
            qrcode_bits(*old(bits)),
            qrcode_bits_version(*old(bits)),
            ecl,
        ),
        res is Ok ==> qrcode_bits(*final(bits)).len() == qrcode_max_len(qrcode_bits_version(*old(bits)), ecl),
        qrcode_bits_version(*final(bits)) == qrcode_bits_version(*old(bits)),
{
    let level = match ecl {
        ECL::L => qrcode::EcLevel::L,
        ECL::M => qrcode::EcLevel::M,
        ECL::Q => qrcode::EcLevel::Q,
        ECL::H => qrcode::EcLevel::H,
    };
    bits.push_terminator(level)
}

/// Calls `qrcode::QrCode::with_bits` at the level matching `ecl` and takes
/// the resulting matrix. Claimed: the modules are what the crate builds from
/// these bits ([`qrcode_with_bits`]); for a normal version from 1 to 40 the
/// crate never refuses (it only looks up the version's block tables); the
/// matrix holds `width * width` modules with width `4 * version + 17`. The
/// `requires` asks for bits that fill the data capacity exactly, as the
/// crate's block split expects.
#[verifier::external_body]
#[allow(deprecated)]
fn symbol_from_bits(bits: qrcode::bits::Bits, ecl: ECL) -> (res: Result<QRCode, qrcode::types::QrError>)
    requires
        1 <= qrcode_bits_version(bits) <= 40,
        qrcode_bits(bits).len() == qrcode_max_len(qrcode_bits_version(bits), ecl),
    ensures
        res is Ok,
        res matches Ok(q) ==> q.wf() && q.size == symbol_side(qrcode_bits_version(bits) as nat)
            && q.data@ == qrcode_with_bits(qrcode_bits(bits), qrcode_bits_version(bits), ecl),
{
    let level = match ecl {
        ECL::L => qrcode::EcLevel::L,
        ECL::M => qrcode::EcLevel::M,
        ECL::Q => qrcode::EcLevel::Q,
        ECL::H => qrcode::EcLevel::H,
    };
    let code = qrcode::QrCode::with_bits(bits, level)?;
    Ok(QRCode { size: code.width(), data: code.into_vec() })
}

/// The bits holding `data` as one segment of `mode` for version `version`,
/// or `None` if the crate refuses.
pub open spec fn segment_bits(data: Seq<u8>, version: u8, mode: Mode) -> Option<Seq<bool>> {
    match mode {
        Mode::Numeric => qrcode_push_numeric(Seq::empty(), version, data),
        Mode::Alphanumeric => qrcode_push_alphanumeric(Seq::empty(), version, data),
        _ => qrcode_push_byte(Seq::empty(), version, data),
    }
}

/// The symbol of version `version` at level `ecl` holding all of `data` in
/// one segment of `mode`: the segment, the terminator and padding, then the
/// matrix; `None` if the crate refuses a step.
pub open spec fn qrcode_segment(data: Seq<u8>, ecl: ECL, version: u8, mode: Mode) -> Option<
    (nat, Seq<bool>),
> {
    match segment_bits(data, version, mode) {
        None => None,
        Some(b) => match qrcode_push_terminator(b, version, ecl) {
            None => None,
            Some(t) => Some((symbol_side(version as nat), qrcode_with_bits(t, version, ecl))),
        },
    }
}

/// Builds a version `version` symbol holding `data` as one segment of
/// `mode`: the segment, then the terminator, then the matrix.
fn encode_segment(data: &[u8], ecl: ECL, version: u8, mode: Mode) -> (res: Result<QRCode, qrcode::types::QrError>)
    requires
        1 <= version <= 40,
        mode != Mode::Auto,
        fits_mode(data@, mode),
        within_encoder_limits(data@.len()),
    ensures
        res is Ok <==> qrcode_segment(data@, ecl, version, mode) is Some,
        res matches Ok(q) ==> q.wf() && is_symbol(q, qrcode_segment(data@, ecl, version, mode)),
{
    let mut bits = new_bits(version);
    let pushed = match mode {
        Mode::Numeric => push_numeric_data(&mut bits, data),
        Mode::Alphanumeric => push_alphanumeric_data(&mut bits, data),
        _ => push_byte_data(&mut bits, data),
    };
    if let Err(e) = pushed {
        return Err(e);
    }
    assert(segment_bits(data@, version, mode) == Some(qrcode_bits(bits)));
    if let Err(e) = push_terminator(&mut bits, ecl) {
        return Err(e);
    }
    symbol_from_bits(bits, ecl)
}

/// The single-segment symbol of the smallest version from `from` to 40 that
/// holds `data`, if any.
pub open spec fn first_segment_symbol(data: Seq<u8>, ecl: ECL, mode: Mode, from: nat) -> Option<
    (nat, Seq<bool>),
>
    decreases 41 - from,
{
    if from > 40 || from < 1 {
        None
    } else if qrcode_segment(data, ecl, from as u8, mode) is Some {
        qrcode_segment(data, ecl, from as u8, mode)
    } else {
        first_segment_symbol(data, ecl, mode, from + 1)
    }
}

/// Numeric mode takes exactly the ASCII digits `0` to `9` (bytes 48 to 57).
pub proof fn lemma_numeric_mode_is_digits(data: Seq<u8>)
    ensures
        fits_mode(data, Mode::Numeric) <==> (forall|i: int|
            0 <= i < data.len() ==> 48 <= #[trigger] data[i] && data[i] <= 57),
{
}

/// Alphanumeric mode takes exactly the digits, the upper-case letters `A`
/// to `Z`, space and `$ % * + - . / :`.
pub proof fn lemma_alphanumeric_mode_charset(data: Seq<u8>)
    ensures
        fits_mode(data, Mode::Alphanumeric) <==> (forall|i: int|
            0 <= i < data.len() ==> {
                let b = #[trigger] data[i];
                ||| 48 <= b <= 57
                ||| 65 <= b <= 90
                ||| b == 32
                ||| b == 36
                ||| b == 37
                ||| b == 42
                ||| b == 43
                ||| b == 45
                ||| b == 46
                ||| b == 47
                ||| b == 58
            }),
{
}

/// Byte mode, and the automatic choice, take any data.
pub proof fn lemma_byte_and_auto_take_anything(data: Seq<u8>)
    ensures
        fits_mode(data, Mode::Byte),
        fits_mode(data, Mode::Auto),
{
}

proof fn lemma_first_segment_from(data: Seq<u8>, ecl: ECL, mode: Mode, from: nat)
    requires
        1 <= from <= 41,
    ensures
        (exists|v: u8| from <= v <= 40 && (#[trigger] qrcode_segment(data, ecl, v, mode)) is Some)
            ==> first_segment_symbol(data, ecl, mode, from) is Some,
        first_segment_symbol(data, ecl, mode, from) matches Some(s) ==> exists|v: u8|
            from <= v <= 40 && #[trigger] qrcode_segment(data, ecl, v, mode) == Some(s) && (forall|
                w: u8,
            | from <= w < v ==> (#[trigger] qrcode_segment(data, ecl, w, mode)) is None),
    decreases 41 - from,
{
    if from <= 40 {
        let f = from as u8;
        assert(f as nat == from);
        if qrcode_segment(data, ecl, f, mode) is Some {
            assert(first_segment_symbol(data, ecl, mode, from) == qrcode_segment(data, ecl, f, mode));
        } else {
            lemma_first_segment_from(data, ecl, mode, from + 1);
            assert(first_segment_symbol(data, ecl, mode, from) == first_segment_symbol(
                data,
                ecl,
                mode,
                from + 1,
            ));
            if exists|v: u8| from <= v <= 40 && (#[trigger] qrcode_segment(data, ecl, v, mode)) is Some {
                let v = choose|v: u8|
                    from <= v <= 40 && (#[trigger] qrcode_segment(data, ecl, v, mode)) is Some;
                assert(v != f);
                assert(from + 1 <= v <= 40 && qrcode_segment(data, ecl, v, mode) is Some);
            }
            if first_segment_symbol(data, ecl, mode, from) is Some {
                let s = first_segment_symbol(data, ecl, mode, from).unwrap();
                let v = choose|v: u8|
                    from + 1 <= v <= 40 && #[trigger] qrcode_segment(data, ecl, v, mode) == Some(s)
                        && (forall|w: u8|
                        from + 1 <= w < v ==> (#[trigger] qrcode_segment(data, ecl, w, mode)) is None);
                assert forall|w: u8| from <= w < v implies (#[trigger] qrcode_segment(
                    data,
                    ecl,
                    w,
                    mode,
                )) is None by {
                    if w == f {
                    } else {
                        assert(from + 1 <= w < v);
                    }
                }
                assert(from <= v <= 40 && qrcode_segment(data, ecl, v, mode) == Some(s));
            }
        }
    }
}

/// With a pinned mode and no version, the symbol is that of the smallest
/// version from 1 to 40 that holds the data in one segment of that mode:
/// there is one whenever some version holds the data, and every smaller
/// version refuses it.
pub proof fn lemma_pinned_mode_takes_smallest_version(data: Seq<u8>, ecl: ECL, mode: Mode)
    ensures
        (exists|v: u8| 1 <= v <= 40 && (#[trigger] qrcode_segment(data, ecl, v, mode)) is Some)
            ==> first_segment_symbol(data, ecl, mode, 1) is Some,
        first_segment_symbol(data, ecl, mode, 1) matches Some(s) ==> exists|v: u8|
            1 <= v <= 40 && #[trigger] qrcode_segment(data, ecl, v, mode) == Some(s) && (forall|
                w: u8,
            | 1 <= w < v ==> (#[trigger] qrcode_segment(data, ecl, w, mode)) is None),
{
    lemma_first_segment_from(data, ecl, mode, 1);
}

/// The symbol requested by `opts`: the given version or the smallest that
/// holds the data, with the crate's own choice of segment modes or, when a
/// mode is pinned, all data in one segment of that mode.
pub open spec fn requested_symbol(opts: QrOptions) -> Option<(nat, Seq<bool>)> {
    match (opts.version, opts.mode) {
        (Some(v), Mode::Auto) => qrcode_versioned(opts.data@, opts.ecl, v.spec_number()),
        (None, Mode::Auto) => qrcode_auto(opts.data@, opts.ecl),
        (Some(v), m) => qrcode_segment(opts.data@, opts.ecl, v.spec_number(), m),
        (None, m) => first_segment_symbol(opts.data@, opts.ecl, m, 1),
    }
}

/// Whether every byte of `data` has a code in `mode`.
pub fn data_fits_mode(data: &[u8], mode: Mode) -> (b: bool)
    ensures
        b == fits_mode(data@, mode),
{
    match mode {
        Mode::Numeric => {
            let mut i: usize = 0;
            while i < data.len()
                invariant
                    mode == Mode::Numeric,
                    i <= data.len(),
                    forall|j: int| 0 <= j < i ==> 48 <= #[trigger] data@[j] <= 57,
                decreases data.len() - i,
            {
                let b = data[i];
                if !(48 <= b && b <= 57) {
                    assert(data@[i as int] == b);
                    return false;
                }
                i = i + 1;
            }
            true
        },
        Mode::Alphanumeric => {
            let mut i: usize = 0;
            while i < data.len()
                invariant
                    mode == Mode::Alphanumeric,
                    i <= data.len(),
                    forall|j: int| 0 <= j < i ==> is_alphanumeric(#[trigger] data@[j]),
                decreases data.len() - i,
            {
                let b = data[i];
                let ok = (48 <= b && b <= 57) || (65 <= b && b <= 90) || b == 32 || b == 36 || b
                    == 37 || b == 42 || b == 43 || b == 45 || b == 46 || b == 47 || b == 58;
                if !ok {
                    assert(data@[i as int] == b);
                    assert(!is_alphanumeric(data@[i as int]));
                    assert(!fits_mode(data@, mode));
                    return false;
                }
                i = i + 1;
            }
            true
        },
        _ => true,
    }
}

/// Tries versions 1 to 40 in turn for a single segment of `mode` and keeps
/// the first that holds the data, or the refusal for version 40.
fn encode_smallest_segment(data: &[u8], ecl: ECL, mode: Mode) -> (res: Result<QRCode, qrcode::types::QrError>)
    requires
        mode != Mode::Auto,
        fits_mode(data@, mode),
        within_encoder_limits(data@.len()),
    ensures
        res is Ok <==> first_segment_symbol(data@, ecl, mode, 1) is Some,
        res matches Ok(q) ==> q.wf() && is_symbol(q, first_segment_symbol(data@, ecl, mode, 1)),
{
    let mut version: u8 = 1;
    loop
        invariant
            1 <= version <= 40,
            mode != Mode::Auto,
            fits_mode(data@, mode),
            within_encoder_limits(data@.len()),
            first_segment_symbol(data@, ecl, mode, 1) == first_segment_symbol(
                data@,
                ecl,
                mode,
                version as nat,
            ),
        decreases 40 - version,
    {
        let attempt = encode_segment(data, ecl, version, mode);
        if attempt.is_ok() || version == 40 {
            proof {
                assert(version == 40 ==> first_segment_symbol(data@, ecl, mode, 41) is None);
            }
            return attempt;
        }
        version = version + 1;
    }
}

/// A single-segment symbol found from version `from` on has the side of
/// one of the versions 1 to 40.
proof fn lemma_first_segment_side(data: Seq<u8>, ecl: ECL, mode: Mode, from: nat)
    requires
        1 <= from,
    ensures
        first_segment_symbol(data, ecl, mode, from) matches Some(s) ==> is_symbol_side(s.0),
    decreases 41 - from,
{
    if from <= 40 {
        if qrcode_segment(data, ecl, from as u8, mode) is Some {
            assert((from as u8) as nat == from);
            assert(symbol_side(from) == 17 + 4 * from);
        } else {
            lemma_first_segment_side(data, ecl, mode, from + 1);
        }
    }
}

/// Encodes the data of `opts` into a module matrix as they request. A pinned
/// mode that some byte has no code in is refused; with a mode pinned and no
/// version given, versions 1 to 40 are tried in turn and the first that
/// holds the data is kept. A refusal of the `qrcode` crate is passed on as
/// its own error. The `requires` is a machine limit: no symbol holds data of
/// that length anyway.
pub fn encode_symbol(opts: &QrOptions) -> (res: Result<QRCode, EncodeError>)
    requires
        within_encoder_limits(opts.data@.len()),
    ensures
        !fits_mode(opts.data@, opts.mode) ==> res matches Err(EncodeError::UnsupportedCharacter),
        fits_mode(opts.data@, opts.mode) ==> (res is Ok <==> requested_symbol(*opts) is Some),
        fits_mode(opts.data@, opts.mode) && res is Err ==> res matches Err(EncodeError::Qr(_)),
        res matches Ok(q) ==> q.wf() && is_symbol(q, requested_symbol(*opts)),
        res matches Ok(q) ==> is_symbol_side(q.size as nat),
        res matches Ok(q) ==> (opts.version matches Some(v) ==> q.size == symbol_side(
            v.spec_number() as nat,
        )),
        opts.mode == Mode::Numeric && (forall|i: int|
            0 <= i < opts.data@.len() ==> 48 <= #[trigger] opts.data@[i] && opts.data@[i] <= 57)
            ==> !(res matches Err(EncodeError::UnsupportedCharacter)),
        opts.mode == Mode::Byte || opts.mode == Mode::Auto ==> !(res matches Err(
            EncodeError::UnsupportedCharacter,
        )),
        opts.version is None && opts.mode != Mode::Auto && fits_mode(opts.data@, opts.mode) && (
        exists|v: u8|
            1 <= v <= 40 && (#[trigger] qrcode_segment(opts.data@, opts.ecl, v, opts.mode)) is Some)
            ==> res is Ok,
        opts.version is None && opts.mode != Mode::Auto ==> (res matches Ok(q) ==> exists|v: u8|
            1 <= v <= 40 && is_symbol(q, #[trigger] qrcode_segment(opts.data@, opts.ecl, v, opts.mode))
                && (forall|w: u8|
                1 <= w < v ==> (#[trigger] qrcode_segment(opts.data@, opts.ecl, w, opts.mode)) is None)),
{
    proof {
        lemma_first_segment_side(opts.data@, opts.ecl, opts.mode, 1);
        lemma_pinned_mode_takes_smallest_version(opts.data@, opts.ecl, opts.mode);
        lemma_numeric_mode_is_digits(opts.data@);
    }
    let data = opts.data.as_slice();
    if !data_fits_mode(data, opts.mode) {
        return Err(EncodeError::UnsupportedCharacter);
    }
    let outcome = match (opts.version, opts.mode) {
        (Some(v), Mode::Auto) => encode_versioned(data, opts.ecl, v.number()),
        (None, Mode::Auto) => encode_auto(data, opts.ecl),
        (Some(v), mode) => encode_segment(data, opts.ecl, v.number(), mode),
        (None, mode) => encode_smallest_segment(data, opts.ecl, mode),
    };
    match outcome {
        Ok(q) => Ok(q),
        Err(e) => Err(EncodeError::Qr(e)),
    }
}

} // verus!
