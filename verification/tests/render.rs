use fast_qr_reworked::cli::{
    build_qr_options, load_plan, render, render_png, resolve_format, version_from_u8, CliError,
    Format, LoadPlan, Mode, ECL,
};
use fast_qr_reworked::convert::svg::SvgBuilder;
use fast_qr_reworked::convert::Builder;
use fast_qr_reworked::qr::QRCode;
use fast_qr_reworked::encode::{encode_symbol, EncodeError};
use fast_qr_reworked::raster::grayscale_pixels;
use fast_qr_reworked::text::push_decimal;

fn decimal(n: usize) -> String {
    let mut s = String::from("x");
    push_decimal(&mut s, n);
    s
}

#[test]
fn decimal_notation() {
    assert_eq!(decimal(0), "x0");
    assert_eq!(decimal(7), "x7");
    assert_eq!(decimal(10), "x10");
    assert_eq!(decimal(12345), "x12345");
    assert_eq!(decimal(usize::MAX), format!("x{}", usize::MAX));
}

fn diagonal() -> QRCode {
    QRCode {
        size: 2,
        data: vec![true, false, false, true],
    }
}

#[test]
fn terminal_drawing_of_odd_matrix() {
    // rows: X.X / .X. / X..
    let qr = QRCode {
        size: 3,
        data: vec![true, false, true, false, true, false, true, false, false],
    };
    assert_eq!(qr.to_str(), "▀▄▀\n▀  \n");
}

#[test]
fn terminal_drawing_of_even_matrix() {
    assert_eq!(diagonal().to_str(), "▀▄\n");
    let full = QRCode {
        size: 2,
        data: vec![true; 4],
    };
    assert_eq!(full.to_str(), "██\n");
    let empty = QRCode {
        size: 0,
        data: vec![],
    };
    assert_eq!(empty.to_str(), "");
}

#[test]
fn format_explicit_wins() {
    assert_eq!(resolve_format(Some(Format::Terminal), Some("png")), Format::Terminal);
    assert_eq!(resolve_format(Some(Format::Png), None), Format::Png);
}

#[test]
fn format_from_extension_ignores_case() {
    assert_eq!(resolve_format(None, Some("png")), Format::Png);
    assert_eq!(resolve_format(None, Some("PNG")), Format::Png);
    assert_eq!(resolve_format(None, Some("pNg")), Format::Png);
    assert_eq!(resolve_format(None, Some("SVG")), Format::Svg);
    assert_eq!(resolve_format(None, Some("svg")), Format::Svg);
}

#[test]
fn format_defaults_to_svg() {
    assert_eq!(resolve_format(None, None), Format::Svg);
    assert_eq!(resolve_format(None, Some("txt")), Format::Svg);
    assert_eq!(resolve_format(None, Some("pngg")), Format::Svg);
    assert_eq!(resolve_format(None, Some("")), Format::Svg);
    assert_eq!(resolve_format(None, Some("pńg")), Format::Svg);
}

#[test]
fn load_plan_branches() {
    assert!(matches!(
        load_plan(Some("a".to_string()), Some(b"f".as_slice())),
        Err(CliError::ConflictingInput)
    ));
    assert!(matches!(load_plan(None, None), Err(CliError::MissingInput)));
    match load_plan(Some("héllo".to_string()), None) {
        Ok(LoadPlan::Inline(bytes)) => assert_eq!(bytes, "héllo".as_bytes()),
        other => panic!("unexpected {other:?}"),
    }
    assert!(matches!(load_plan(None, Some(b"-".as_slice())), Ok(LoadPlan::Stdin)));
    assert!(matches!(load_plan(None, Some(b"--".as_slice())), Ok(LoadPlan::File)));
    assert!(matches!(load_plan(None, Some(b"data.bin".as_slice())), Ok(LoadPlan::File)));
}

#[test]
fn qr_version_must_be_in_range() {
    assert!(matches!(
        build_qr_options(vec![1], ECL::M, Mode::Auto, false, Some(0)),
        Err(CliError::VersionOutOfRange)
    ));
    assert!(matches!(
        build_qr_options(vec![1], ECL::M, Mode::Auto, false, Some(41)),
        Err(CliError::VersionOutOfRange)
    ));
    let opts = build_qr_options(vec![1, 2], ECL::H, Mode::Auto, true, Some(40)).unwrap();
    assert_eq!(opts.data, vec![1, 2]);
    assert_eq!(opts.ecl, ECL::H);
    assert_eq!(opts.mode, Mode::Byte);
    assert_eq!(opts.version.unwrap().number(), 40);
    let opts = build_qr_options(vec![], ECL::L, Mode::Auto, false, None).unwrap();
    assert!(opts.version.is_none());
    assert_eq!(opts.ecl, ECL::L);
    assert_eq!(opts.mode, Mode::Auto);
}

#[test]
fn version_numbers() {
    assert_eq!(version_from_u8(1).number(), 1);
    assert_eq!(version_from_u8(5).number(), 5);
    assert_eq!(version_from_u8(40).number(), 40);
}

#[test]
fn error_messages() {
    assert_eq!(
        CliError::ConflictingInput.message(),
        "provide data as a positional argument OR via --input, not both"
    );
    assert_eq!(
        CliError::MissingInput.message(),
        "no data: pass data as a positional argument or use --input <PATH|->"
    );
    assert_eq!(
        CliError::VersionOutOfRange.message(),
        "--qr-version must be in 1..=40"
    );
    assert_eq!(CliError::ZeroScale.message(), "--scale must be greater than 0");
    assert_eq!(CliError::PngDimensionsOverflow.message(), "PNG dimensions overflow");
    assert_eq!(CliError::PngSideTooLarge.message(), "PNG side exceeds u32");
}

#[test]
fn render_svg_and_terminal_bytes() {
    let qr = diagonal();
    let svg = render(&qr, Format::Svg, 3, 8).unwrap();
    assert_eq!(svg, SvgBuilder::default().margin(3).to_str(&qr).into_bytes());
    let text = render(&qr, Format::Terminal, usize::MAX, 0).unwrap();
    assert_eq!(text, "▀▄\n".as_bytes());
}

#[test]
fn pixels_of_one_dark_module() {
    let qr = QRCode {
        size: 1,
        data: vec![true],
    };
    let pixels = grayscale_pixels(&qr, 1, 2, 6);
    let mut expected = vec![0xFFu8; 36];
    for (r, c) in [(2, 2), (2, 3), (3, 2), (3, 3)] {
        expected[r * 6 + c] = 0;
    }
    assert_eq!(pixels, expected);
}

#[test]
fn png_scale_zero_is_refused() {
    assert!(matches!(
        render_png(&diagonal(), 4, 0),
        Err(CliError::ZeroScale)
    ));
    assert!(matches!(
        render(&diagonal(), Format::Png, 4, 0),
        Err(CliError::ZeroScale)
    ));
}

#[test]
fn png_dimension_overflow_is_refused() {
    let margin = usize::MAX / 4;
    assert!(matches!(
        render_png(&diagonal(), margin, 8),
        Err(CliError::PngDimensionsOverflow)
    ));
    let margin = (1usize << 31) / 2;
    assert!(matches!(
        render_png(&diagonal(), margin, 2),
        Err(CliError::PngDimensionsOverflow)
    ));
}

fn decode_gray_png(bytes: &[u8]) -> (u32, u32, Vec<u8>) {
    let decoder = png::Decoder::new(std::io::Cursor::new(bytes));
    let mut reader = decoder.read_info().unwrap();
    let mut buf = vec![0; reader.output_buffer_size().unwrap()];
    let info = reader.next_frame(&mut buf).unwrap();
    assert_eq!(info.color_type, png::ColorType::Grayscale);
    assert_eq!(info.bit_depth, png::BitDepth::Eight);
    buf.truncate(info.buffer_size());
    (info.width, info.height, buf)
}

#[test]
fn png_holds_the_scaled_modules() {
    let qr = diagonal();
    let bytes = render_png(&qr, 1, 3).unwrap();
    assert_eq!(&bytes[..8], &[137, 80, 78, 71, 13, 10, 26, 10]);
    let (w, h, pixels) = decode_gray_png(&bytes);
    assert_eq!((w, h), (12, 12));
    assert_eq!(pixels, grayscale_pixels(&qr, 1, 3, 12));
    for r in 0..12 {
        for c in 0..12 {
            let (my, mx) = (r / 3, c / 3);
            let dark = (1..3).contains(&my) && (1..3).contains(&mx) && qr.data[(my - 1) * 2 + (mx - 1)];
            assert_eq!(pixels[r * 12 + c], if dark { 0 } else { 0xFF });
        }
    }
    let via_render = render(&qr, Format::Png, 1, 3).unwrap();
    assert_eq!(via_render, bytes);
}

#[test]
fn png_of_empty_image_fails_at_header() {
    let empty = QRCode {
        size: 0,
        data: vec![],
    };
    assert!(matches!(
        render_png(&empty, 0, 4),
        Err(CliError::PngHeader(_))
    ));
    match render_png(&empty, 0, 4) {
        Err(e) => assert_eq!(e.message(), "PNG header write failed"),
        Ok(_) => panic!("an empty image cannot be encoded"),
    }
}

#[test]
fn png_zero_scale_with_huge_margin() {
    assert!(matches!(
        render_png(&diagonal(), usize::MAX, 0),
        Err(CliError::ZeroScale)
    ));
    assert!(matches!(
        render(&diagonal(), Format::Png, usize::MAX, 0),
        Err(CliError::ZeroScale)
    ));
}

#[test]
fn render_png_agrees_with_png_renderer() {
    let qr = diagonal();
    for (margin, scale) in [(0, 1), (2, 5), (4, 8)] {
        assert_eq!(
            render(&qr, Format::Png, margin, scale).unwrap(),
            render_png(&qr, margin, scale).unwrap()
        );
    }
}

#[test]
fn scaling_blows_pixels_up_to_blocks() {
    let qr = QRCode {
        size: 3,
        data: vec![true, false, true, false, true, true, false, false, true],
    };
    let small = grayscale_pixels(&qr, 1, 2, 10);
    let large = grayscale_pixels(&qr, 1, 6, 30);
    for row in 0..30 {
        for col in 0..30 {
            assert_eq!(large[row * 30 + col], small[(row / 3) * 10 + col / 3]);
        }
    }
}

#[test]
fn encode_forced_version() {
    let opts = build_qr_options(b"HELLO".to_vec(), ECL::M, Mode::Auto, false, Some(3)).unwrap();
    let qr = encode_symbol(&opts).unwrap();
    assert_eq!(qr.size, 29);
    assert_eq!(qr.data.len(), 29 * 29);
}

#[test]
fn encode_auto_picks_small_version() {
    let opts = build_qr_options(b"HELLO".to_vec(), ECL::L, Mode::Auto, false, None).unwrap();
    let qr = encode_symbol(&opts).unwrap();
    assert_eq!(qr.size, 21);
}

#[test]
fn encode_byte_mode_searches_versions() {
    // 20 bytes in Byte mode need version 2 at level M (version 1 holds 14).
    let opts = build_qr_options(b"01234567890123456789".to_vec(), ECL::M, Mode::Auto, true, None).unwrap();
    let qr = encode_symbol(&opts).unwrap();
    assert_eq!(qr.size, 25);
    let opts = build_qr_options(vec![0u8; 8], ECL::Q, Mode::Auto, true, Some(1)).unwrap();
    assert_eq!(encode_symbol(&opts).unwrap().size, 21);
}

#[test]
fn encode_refuses_data_too_long() {
    let opts = build_qr_options(vec![7u8; 3000], ECL::H, Mode::Auto, true, None).unwrap();
    assert!(encode_symbol(&opts).is_err());
    let opts = build_qr_options(vec![7u8; 100], ECL::H, Mode::Auto, false, Some(1)).unwrap();
    assert!(encode_symbol(&opts).is_err());
}

#[test]
fn mode_option_and_byte_flag() {
    let opts = build_qr_options(b"123".to_vec(), ECL::M, Mode::Numeric, false, None).unwrap();
    assert_eq!(opts.mode, Mode::Numeric);
    let opts = build_qr_options(b"123".to_vec(), ECL::M, Mode::Numeric, true, None).unwrap();
    assert_eq!(opts.mode, Mode::Byte);
    let opts = build_qr_options(b"AB".to_vec(), ECL::L, Mode::Alphanumeric, false, Some(2)).unwrap();
    assert_eq!(opts.mode, Mode::Alphanumeric);
    assert_eq!(opts.version.unwrap().number(), 2);
}

#[test]
fn encode_numeric_mode_searches_versions() {
    // 41 digits fit version 1 at level L in Numeric mode; 42 need version 2.
    let digits = vec![b'7'; 41];
    let opts = build_qr_options(digits, ECL::L, Mode::Numeric, false, None).unwrap();
    assert_eq!(encode_symbol(&opts).unwrap().size, 21);
    let digits = vec![b'7'; 42];
    let opts = build_qr_options(digits, ECL::L, Mode::Numeric, false, None).unwrap();
    assert_eq!(encode_symbol(&opts).unwrap().size, 25);
}

#[test]
fn encode_alphanumeric_mode() {
    // 25 characters fit version 1 at level L in Alphanumeric mode; 26 need version 2.
    let opts = build_qr_options(vec![b'A'; 25], ECL::L, Mode::Alphanumeric, false, None).unwrap();
    assert_eq!(encode_symbol(&opts).unwrap().size, 21);
    let opts = build_qr_options(vec![b'A'; 26], ECL::L, Mode::Alphanumeric, false, None).unwrap();
    assert_eq!(encode_symbol(&opts).unwrap().size, 25);
    let opts =
        build_qr_options(b"HTTP://X.COM/$%*+-".to_vec(), ECL::M, Mode::Alphanumeric, false, Some(1))
            .unwrap();
    assert_eq!(encode_symbol(&opts).unwrap().size, 21);
}

#[test]
fn encode_refuses_characters_outside_mode() {
    let opts = build_qr_options(b"12a".to_vec(), ECL::M, Mode::Numeric, false, None).unwrap();
    let err = match encode_symbol(&opts) {
        Err(e) => e,
        Ok(_) => panic!("the data should be refused"),
    };
    assert!(matches!(err, EncodeError::UnsupportedCharacter));
    assert_eq!(
        err.message(),
        "QR encoding failed: the data has a character outside the chosen mode"
    );
    let opts = build_qr_options(b"hello".to_vec(), ECL::M, Mode::Alphanumeric, false, Some(1)).unwrap();
    assert!(matches!(encode_symbol(&opts), Err(EncodeError::UnsupportedCharacter)));
    // The byte flag lifts the restriction.
    let opts = build_qr_options(b"hello".to_vec(), ECL::M, Mode::Alphanumeric, true, Some(1)).unwrap();
    assert_eq!(encode_symbol(&opts).unwrap().size, 21);
}

#[test]
fn encode_refusal_message() {
    let opts = build_qr_options(vec![7u8; 100], ECL::H, Mode::Auto, false, Some(1)).unwrap();
    let err = match encode_symbol(&opts) {
        Err(e) => e,
        Ok(_) => panic!("the data should be refused"),
    };
    assert!(matches!(err, EncodeError::Qr(_)));
    assert!(err.message().starts_with("QR encoding failed: "));
    assert!(err.message().len() > "QR encoding failed: ".len());
}

#[test]
fn encode_symbol_side_follows_version() {
    for v in [1u8, 5, 10, 27, 40] {
        let opts = build_qr_options(b"HI".to_vec(), ECL::L, Mode::Auto, false, Some(v)).unwrap();
        assert_eq!(encode_symbol(&opts).unwrap().size, 17 + 4 * v as usize);
        let opts = build_qr_options(b"HI".to_vec(), ECL::L, Mode::Byte, false, Some(v)).unwrap();
        let qr = encode_symbol(&opts).unwrap();
        assert_eq!(qr.size, 17 + 4 * v as usize);
        assert_eq!(qr.data.len(), qr.size * qr.size);
    }
    let opts = build_qr_options(vec![b'x'; 500], ECL::M, Mode::Auto, false, None).unwrap();
    let side = encode_symbol(&opts).unwrap().size;
    assert!(side >= 21 && side <= 177 && (side - 17) % 4 == 0);
}
