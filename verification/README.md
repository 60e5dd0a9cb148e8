# fast_qr_reworked

Encoding and rendering of QR codes, verified with Verus. A QR symbol is
held as its module matrix (`qr::QRCode`: a side length and the dark/light
value of each module, row by row). The library

- encodes data into such a matrix (`encode::encode_symbol`): it picks the
  call of the `qrcode` crate that the options ask for (error correction
  level, a forced version or the smallest that fits, an automatic or a
  pinned mode among numeric, alphanumeric and byte), refuses data that has
  a character outside a pinned mode, and searches the versions for a pinned
  mode;
- renders a matrix as SVG markup (`convert::svg::SvgBuilder`, with a
  quiet-zone margin and optional `width`/`height` attributes, and
  `convert::plain_svg::SvgBuilder`, the plain variant with a margin only),
- as block-character text for a terminal (`QRCode::to_str`),
- as a grayscale pixel buffer and its PNG encoding (`raster`,
  `cli::render_png`, through the `png` crate);

and holds the decisions of the command-line encoder (`cli`): where the data
comes from, which QR options are requested, which output format is written,
and which error is reported.

Layout:

- `src/` — the verified library. The contracts state results over spec
  functions (`svg_markup`, `QRCode::text`, `raster`, ...). What the `png`
  and `qrcode` crates compute is named (`png_grayscale8`, `qrcode_auto`,
  ...) by the trusted wrappers that call them, and the library's contracts
  are exact over those names. `convert/svg_laws.rs`, `raster.rs`, `qr.rs`
  and `cli.rs` prove the properties that hold across all inputs (exactly
  the dark modules are drawn, the root tag carries `width`/`height` exactly
  when set, a larger margin shifts every module command, each module is a
  solid square of pixels and scaling enlarges each pixel into a block, the
  PNG branch of `render` answers as `render_png` does, the terminal layout).
- `tests/` — tests of the library on concrete values.
- `app/` — the command-line program: argument parsing, and file and stream
  I/O.
