use fast_qr_reworked::cli::{build_qr_options, Mode, ECL};
use fast_qr_reworked::convert::plain_svg::SvgBuilder as PlainSvgBuilder;
use fast_qr_reworked::convert::svg::{SvgBuilder, SvgError};
use fast_qr_reworked::convert::Builder;
use fast_qr_reworked::encode::encode_symbol;
use fast_qr_reworked::qr::QRCode;

/// Encodes `text` as a version 1 symbol with error correction level M.
fn qr_v1_m(text: &str) -> QRCode {
    let opts = build_qr_options(text.as_bytes().to_vec(), ECL::M, Mode::Auto, false, Some(1)).unwrap();
    encode_symbol(&opts).unwrap()
}

fn assert_dark_modules_drawn(qrcode: &QRCode, svg: &str, margin: usize) {
    let size = qrcode.size;
    for y in 0..size {
        for x in 0..size {
            let index = y * size + x;
            let expected = qrcode.data[index];
            if expected {
                let expected = format!(r#"M{x},{y}"#, x = x + margin, y = y + margin);
                assert!(svg.contains(&expected));
            }
        }
    }
}

#[test]
fn check_svg_is_not_inverted() {
    let qrcode = qr_v1_m("Test");

    const MARGIN: usize = 4;
    let svg = SvgBuilder::default().margin(MARGIN).to_str(&qrcode);

    assert_dark_modules_drawn(&qrcode, &svg, MARGIN);
}

#[test]
fn svg_check_svg_is_not_inverted() {
    let qrcode = qr_v1_m("Test");

    const MARGIN: usize = 4;
    let svg = PlainSvgBuilder::default().margin(MARGIN).to_str(&qrcode);

    assert_dark_modules_drawn(&qrcode, &svg, MARGIN);
}

fn root_tag(svg: &str) -> &str {
    let end = svg.find('>').expect("SVG should have a root tag");
    &svg[..=end]
}

fn sample_qrcode() -> QRCode {
    qr_v1_m("dim-test")
}

#[test]
fn svg_default_omits_width_and_height() {
    let svg = SvgBuilder::default().to_str(&sample_qrcode());
    let tag = root_tag(&svg);
    assert!(
        !tag.contains(r#"width=""#),
        "root <svg> tag should not contain width by default: {tag}"
    );
    assert!(
        !tag.contains(r#"height=""#),
        "root <svg> tag should not contain height by default: {tag}"
    );
}

#[test]
fn svg_sets_explicit_width() {
    let svg = SvgBuilder::default().width(200).to_str(&sample_qrcode());
    let tag = root_tag(&svg);
    assert!(
        tag.contains(r#"width="200""#),
        "root <svg> tag should contain width: {tag}"
    );
    assert!(
        !tag.contains(r#"height=""#),
        "root <svg> tag should not contain height: {tag}"
    );
}

#[test]
fn svg_sets_explicit_height() {
    let svg = SvgBuilder::default().height(300).to_str(&sample_qrcode());
    let tag = root_tag(&svg);
    assert!(
        tag.contains(r#"height="300""#),
        "root <svg> tag should contain height: {tag}"
    );
    assert!(
        !tag.contains(r#"width=""#),
        "root <svg> tag should not contain width: {tag}"
    );
}

#[test]
fn svg_sets_both_width_and_height() {
    let svg = SvgBuilder::default()
        .width(200)
        .height(300)
        .to_str(&sample_qrcode());
    let tag = root_tag(&svg);
    assert!(
        tag.contains(r#"width="200""#),
        "root <svg> tag should contain width: {tag}"
    );
    assert!(
        tag.contains(r#"height="300""#),
        "root <svg> tag should contain height: {tag}"
    );
}

/// A 2 x 2 matrix with its two diagonal modules dark.
fn diagonal() -> QRCode {
    QRCode {
        size: 2,
        data: vec![true, false, false, true],
    }
}

#[test]
fn svg_exact_document_for_small_matrix() {
    let svg = SvgBuilder::default().margin(1).to_str(&diagonal());
    assert_eq!(
        svg,
        r##"<svg viewBox="0 0 4 4" xmlns="http://www.w3.org/2000/svg"><rect width="4px" height="4px" fill="#ffffff"/><path d="M1,1h1v1h-1zM2,2h1v1h-1z" fill="#000000"/></svg>"##
    );
}

#[test]
fn svg_default_margin_is_four() {
    let svg = SvgBuilder::default().to_str(&diagonal());
    assert!(svg.starts_with(r#"<svg viewBox="0 0 10 10" "#));
    assert!(svg.contains("M4,4h1v1h-1zM5,5h1v1h-1z"));
}

#[test]
fn svg_width_and_height_attributes_exact() {
    let mut builder = SvgBuilder::default();
    builder.margin(0).height(7).width(12);
    let svg = builder.to_str(&diagonal());
    assert!(svg.starts_with(
        r#"<svg width="12" height="7" viewBox="0 0 2 2" xmlns="http://www.w3.org/2000/svg">"#
    ));
    assert!(svg.contains(r#"d="M0,0h1v1h-1zM1,1h1v1h-1z""#));
}

#[test]
fn svg_light_matrix_has_empty_path() {
    let blank = QRCode {
        size: 3,
        data: vec![false; 9],
    };
    let svg = SvgBuilder::default().margin(0).to_str(&blank);
    assert!(svg.contains(r##"<path d="" fill="#000000"/>"##));
}

#[test]
fn svg_multi_digit_coordinates() {
    let mut data = vec![false; 12 * 12];
    data[11 * 12 + 10] = true;
    let qr = QRCode { size: 12, data };
    let svg = SvgBuilder::default().margin(95).to_str(&qr);
    assert!(svg.contains(r#"viewBox="0 0 202 202""#));
    assert!(svg.contains(r#"d="M105,106h1v1h-1z""#));
}

#[test]
fn plain_svg_exact_document_for_small_matrix() {
    let svg = PlainSvgBuilder::default().margin(1).to_str(&diagonal());
    assert_eq!(
        svg,
        r##"<svg viewBox="0 0 4 4" xmlns="http://www.w3.org/2000/svg"><rect width="4px" height="4px" fill="#ffffff"/><path d="M1,1h1v1h-1M2,2h1v1h-1" fill="#000000"/></svg>"##
    );
    assert_eq!(PlainSvgBuilder::default().get_margin(), 4);
}

#[test]
fn margin_shift_moves_every_command() {
    let mut data = vec![false; 9];
    data[1] = true;
    data[5] = true;
    data[6] = true;
    let qr = QRCode { size: 3, data };
    let svg0 = SvgBuilder::default().margin(0).to_str(&qr);
    let svg7 = SvgBuilder::default().margin(7).to_str(&qr);
    assert!(svg0.contains(r#"d="M1,0h1v1h-1zM2,1h1v1h-1zM0,2h1v1h-1z""#));
    assert!(svg7.contains(r#"d="M8,7h1v1h-1zM9,8h1v1h-1zM7,9h1v1h-1z""#));
}

#[test]
fn svg_error_message() {
    let err = SvgError::IoError(std::io::Error::new(std::io::ErrorKind::Other, "disk full"));
    assert_eq!(err.message(), "failed to write SVG: disk full");
}

#[test]
fn path_shifts_with_margin() {
    let mut data = vec![false; 9];
    data[1] = true;
    data[5] = true;
    data[6] = true;
    let qr = QRCode { size: 3, data };
    let mut b1 = SvgBuilder::default();
    b1.margin(2);
    let mut b2 = SvgBuilder::default();
    b2.margin(5);
    assert_eq!(
        b1.path(&qr),
        r##"<path d="M3,2h1v1h-1zM4,3h1v1h-1zM2,4h1v1h-1z" fill="#000000"/>"##
    );
    assert_eq!(
        b2.path(&qr),
        r##"<path d="M6,5h1v1h-1zM7,6h1v1h-1zM5,7h1v1h-1z" fill="#000000"/>"##
    );
    let mut p = PlainSvgBuilder::default();
    p.margin(1);
    assert_eq!(
        p.path(&qr),
        r##"<path d="M2,1h1v1h-1M3,2h1v1h-1M1,3h1v1h-1" fill="#000000"/>"##
    );
}
