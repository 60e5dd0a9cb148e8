//! Properties of the SVG document that hold for every matrix and setting.

use vstd::prelude::*;

use super::svg::{
    background_markup,
    canvas_side,
    cell_markup,
    height_attr,
    path_markup,
    root_tag,
    row_markup,
    rows_markup,
    svg_document,
    view_box_attrs,
    width_attr,
    SvgOptions,
};
use crate::qr::QRCode;
use crate::text::{
    contains,
    decimal,
    is_digit,
    lemma_contains_extend,
    lemma_contains_self,
    lemma_contains_trans,
    lemma_decimal_digits,
    lemma_decimal_injective,
    occurs_at,
};

verus! {

proof fn lemma_row_draws_dark_module(qr: QRCode, margin: nat, y: nat, n: nat, x: nat, end: Seq<char>)
    requires
        x < n,
        qr.is_dark(x as int, y as int),
    ensures
        contains(row_markup(qr, margin, end, y, n), cell_markup(x, y, margin, end)),
    decreases n,
{
    let cell = cell_markup(x, y, margin, end);
    let prev = row_markup(qr, margin, end, y, (n - 1) as nat);
    if x == n - 1 {
        lemma_contains_self(cell);
        lemma_contains_extend(prev, cell, Seq::empty(), cell);
        assert(prev + cell + Seq::<char>::empty() =~= row_markup(qr, margin, end, y, n));
    } else {
        lemma_row_draws_dark_module(qr, margin, y, (n - 1) as nat, x, end);
        let extra = if qr.is_dark(n - 1, y as int) {
            cell_markup((n - 1) as nat, y, margin, end)
        } else {
            Seq::empty()
        };
        lemma_contains_extend(Seq::empty(), prev, extra, cell);
        assert(Seq::<char>::empty() + prev + extra =~= row_markup(qr, margin, end, y, n));
    }
}

proof fn lemma_rows_draw_dark_module(qr: QRCode, margin: nat, k: nat, x: nat, y: nat, end: Seq<char>)
    requires
        x < qr.size,
        y < k,
        qr.is_dark(x as int, y as int),
    ensures
        contains(rows_markup(qr, margin, end, k), cell_markup(x, y, margin, end)),
    decreases k,
{
    let prev = rows_markup(qr, margin, end, (k - 1) as nat);
    let row = row_markup(qr, margin, end, (k - 1) as nat, qr.size as nat);
    if y == k - 1 {
        lemma_row_draws_dark_module(qr, margin, y, qr.size as nat, x, end);
        lemma_contains_extend(prev, row, Seq::empty(), cell_markup(x, y, margin, end));
        assert(prev + row + Seq::<char>::empty() =~= rows_markup(qr, margin, end, k));
    } else {
        lemma_rows_draw_dark_module(qr, margin, (k - 1) as nat, x, y, end);
        lemma_contains_extend(Seq::empty(), prev, row, cell_markup(x, y, margin, end));
        assert(Seq::<char>::empty() + prev + row =~= rows_markup(qr, margin, end, k));
    }
}

/// Dark modules are drawn: for every dark module at column `x`, row `y`, the
/// SVG holds the unit square `M{x + margin},{y + margin}h1v1h-1z`.
pub proof fn lemma_svg_draws_dark_module(opts: SvgOptions, qr: QRCode, x: nat, y: nat, end: Seq<char>)
    requires
        qr.wf(),
        x < qr.size,
        y < qr.size,
        qr.is_dark(x as int, y as int),
    ensures
        contains(svg_document(opts, qr, end), cell_markup(x, y, opts.margin as nat, end)),
{
    let m = opts.margin as nat;
    let cell = cell_markup(x, y, m, end);
    let rows = rows_markup(qr, m, end, qr.size as nat);
    lemma_rows_draw_dark_module(qr, m, qr.size as nat, x, y, end);
    let pre = root_tag(opts, qr) + background_markup(opts, qr) + "<path d=\""@;
    let post = "\" fill=\"#000000\"/>"@ + "</svg>"@;
    lemma_contains_extend(pre, rows, post, cell);
    assert(pre + rows + post =~= svg_document(opts, qr, end));
}

/// The character `ch` does not occur in `s`.
pub open spec fn lacks(s: Seq<char>, ch: char) -> bool {
    forall|i: int| 0 <= i < s.len() ==> #[trigger] s[i] != ch
}

proof fn lemma_lacks_concat(a: Seq<char>, b: Seq<char>, ch: char)
    requires
        lacks(a, ch),
        lacks(b, ch),
    ensures
        lacks(a + b, ch),
{
    assert forall|i: int| 0 <= i < (a + b).len() implies #[trigger] (a + b)[i] != ch by {
        if i >= a.len() {
            assert((a + b)[i] == b[i - a.len()]);
        }
    }
}

proof fn lemma_decimal_lacks(n: nat, ch: char)
    requires
        !is_digit(ch),
    ensures
        lacks(decimal(n), ch),
{
    lemma_decimal_digits(n);
    assert forall|i: int| 0 <= i < decimal(n).len() implies #[trigger] decimal(n)[i] != ch by {
        assert(is_digit(decimal(n)[i]));
    }
}

proof fn lemma_attr_lacks(name: Seq<char>, n: nat, ch: char)
    requires
        lacks(name, ch),
        !is_digit(ch),
        ch != '"',
    ensures
        lacks(name + decimal(n) + "\""@, ch),
{
    reveal_strlit("\"");
    lemma_decimal_lacks(n, ch);
    lemma_lacks_concat(name, decimal(n), ch);
    lemma_lacks_concat(name + decimal(n), "\""@, ch);
}

/// The root tag up to its closing quote and `>`.
pub open spec fn root_tag_open(opts: SvgOptions, qr: QRCode) -> Seq<char> {
    "<svg"@ + width_attr(opts.width) + height_attr(opts.height) + " viewBox=\"0 0 "@ + decimal(
        canvas_side(opts, qr),
    ) + " "@ + decimal(canvas_side(opts, qr))
}

/// The literal that closes the root tag.
pub open spec fn root_tag_close() -> Seq<char> {
    "\" xmlns=\"http://www.w3.org/2000/svg\">"@
}

/// Neither `>` nor `M` occurs in the root tag before its closing literal.
proof fn lemma_root_tag_open_lacks(opts: SvgOptions, qr: QRCode, ch: char)
    requires
        ch == '>' || ch == 'M',
    ensures
        lacks(root_tag_open(opts, qr), ch),
        root_tag(opts, qr) =~= root_tag_open(opts, qr) + root_tag_close(),
{
    let side = canvas_side(opts, qr);
    reveal_strlit("<svg");
    reveal_strlit(" width=\"");
    reveal_strlit(" height=\"");
    reveal_strlit(" viewBox=\"0 0 ");
    reveal_strlit(" ");
    lemma_decimal_lacks(side, ch);
    if let Some(w) = opts.width {
        lemma_attr_lacks(" width=\""@, w as nat, ch);
    }
    if let Some(h) = opts.height {
        lemma_attr_lacks(" height=\""@, h as nat, ch);
    }
    assert(lacks(width_attr(opts.width), ch));
    assert(lacks(height_attr(opts.height), ch));
    let a = "<svg"@ + width_attr(opts.width);
    lemma_lacks_concat("<svg"@, width_attr(opts.width), ch);
    let b = a + height_attr(opts.height);
    lemma_lacks_concat(a, height_attr(opts.height), ch);
    let c = b + " viewBox=\"0 0 "@;
    lemma_lacks_concat(b, " viewBox=\"0 0 "@, ch);
    let d = c + decimal(side);
    lemma_lacks_concat(c, decimal(side), ch);
    let e = d + " "@;
    lemma_lacks_concat(d, " "@, ch);
    lemma_lacks_concat(e, decimal(side), ch);
}

/// The root tag is the document's first tag: the SVG starts with it, and
/// its closing `>` is the first `>` of the document. So the attributes
/// found before the first `>` are exactly those of [`root_tag`]: `width`
/// and `height` when set, and the view box of the canvas.
pub proof fn lemma_root_tag_comes_first(opts: SvgOptions, qr: QRCode, end: Seq<char>)
    ensures
        svg_document(opts, qr, end).take(root_tag(opts, qr).len() as int) == root_tag(opts, qr),
        root_tag(opts, qr).len() >= 1,
        root_tag(opts, qr).last() == '>',
        lacks(root_tag(opts, qr).drop_last(), '>'),
{
    reveal_strlit("\" xmlns=\"http://www.w3.org/2000/svg\">");
    let open = root_tag_open(opts, qr);
    let close = root_tag_close();
    lemma_root_tag_open_lacks(opts, qr, '>');
    assert(lacks(close.drop_last(), '>'));
    lemma_lacks_concat(open, close.drop_last(), '>');
    assert(root_tag(opts, qr).drop_last() =~= open + close.drop_last());
    let doc = svg_document(opts, qr, end);
    let rt = root_tag(opts, qr);
    assert(doc =~= rt + (background_markup(opts, qr) + path_markup(qr, opts.margin as nat, end)
        + "</svg>"@));
    assert(doc.take(rt.len() as int) =~= rt);
}

/// No character `a` in `s` is directly followed by a character `b`.
pub open spec fn pair_free(s: Seq<char>, a: char, b: char) -> bool {
    forall|i: int| 0 <= i < s.len() - 1 ==> !(#[trigger] s[i] == a && s[i + 1] == b)
}

proof fn lemma_pair_free_concat(x: Seq<char>, y: Seq<char>, a: char, b: char)
    requires
        pair_free(x, a, b),
        pair_free(y, a, b),
        x.len() == 0 || y.len() == 0 || !(x.last() == a && y[0] == b),
    ensures
        pair_free(x + y, a, b),
{
    let z = x + y;
    assert forall|i: int| 0 <= i < z.len() - 1 implies !(#[trigger] z[i] == a && z[i + 1] == b) by {
        if i + 1 < x.len() {
            assert(z[i] == x[i] && z[i + 1] == x[i + 1]);
        } else if i >= x.len() {
            assert(z[i] == y[i - x.len()] && z[i + 1] == y[i + 1 - x.len()]);
        } else {
            assert(z[i] == x.last() && z[i + 1] == y[0]);
        }
    }
}

proof fn lemma_decimal_pair_free(n: nat, a: char, b: char)
    requires
        !is_digit(a),
    ensures
        pair_free(decimal(n), a, b),
        is_digit(decimal(n)[0]),
        is_digit(decimal(n).last()),
{
    lemma_decimal_digits(n);
    assert(is_digit(decimal(n)[decimal(n).len() - 1]));
    assert forall|i: int| 0 <= i < decimal(n).len() - 1 implies !(#[trigger] decimal(n)[i] == a
        && decimal(n)[i + 1] == b) by {
        assert(is_digit(decimal(n)[i]));
    }
}

/// A sequence in which `a` is never followed by `b` holds no piece that has
/// `a` followed by `b`.
proof fn lemma_pair_free_excludes(s: Seq<char>, t: Seq<char>, a: char, b: char, j: int)
    requires
        pair_free(s, a, b),
        0 <= j < t.len() - 1,
        t[j] == a,
        t[j + 1] == b,
    ensures
        !contains(s, t),
{
    if contains(s, t) {
        let i = choose|i: int| occurs_at(s, t, i);
        assert(s.subrange(i, i + t.len())[j] == s[i + j]);
        assert(s.subrange(i, i + t.len())[j + 1] == s[i + j + 1]);
        assert(s[i + j] == a && s[i + j + 1] == b);
    }
}

proof fn lemma_view_box_pair_free(side: nat)
    ensures
        pair_free(view_box_attrs(side), 'w', 'i'),
        pair_free(view_box_attrs(side), 'g', 'h'),
        view_box_attrs(side)[0] == ' ',
{
    reveal_strlit(" viewBox=\"0 0 ");
    reveal_strlit(" ");
    reveal_strlit("\" xmlns=\"http://www.w3.org/2000/svg\">");
    let close = "\" xmlns=\"http://www.w3.org/2000/svg\">"@;
    lemma_decimal_pair_free(side, 'w', 'i');
    lemma_decimal_pair_free(side, 'g', 'h');
    let t1 = " viewBox=\"0 0 "@ + decimal(side);
    lemma_pair_free_concat(" viewBox=\"0 0 "@, decimal(side), 'w', 'i');
    lemma_pair_free_concat(" viewBox=\"0 0 "@, decimal(side), 'g', 'h');
    let t2 = t1 + " "@;
    lemma_pair_free_concat(t1, " "@, 'w', 'i');
    lemma_pair_free_concat(t1, " "@, 'g', 'h');
    let t3 = t2 + decimal(side);
    lemma_pair_free_concat(t2, decimal(side), 'w', 'i');
    lemma_pair_free_concat(t2, decimal(side), 'g', 'h');
    assert(pair_free(close, 'w', 'i'));
    assert(pair_free(close, 'g', 'h'));
    lemma_pair_free_concat(t3, close, 'w', 'i');
    lemma_pair_free_concat(t3, close, 'g', 'h');
    assert(view_box_attrs(side) =~= t3 + close);
}

proof fn lemma_attr_pair_free(name: Seq<char>, n: nat, a: char, b: char)
    requires
        name.len() >= 1,
        name[0] == ' ',
        name.last() == '"',
        pair_free(name, a, b),
        !is_digit(a),
        a != '"',
    ensures
        pair_free(name + decimal(n) + "\""@, a, b),
        (name + decimal(n) + "\""@)[0] == ' ',
        (name + decimal(n) + "\""@).last() == '"',
{
    reveal_strlit("\"");
    lemma_decimal_pair_free(n, a, b);
    lemma_pair_free_concat(name, decimal(n), a, b);
    lemma_pair_free_concat(name + decimal(n), "\""@, a, b);
}

proof fn lemma_width_attr_pair_free(width: Option<usize>)
    ensures
        pair_free(width_attr(width), 'g', 'h'),
        width_attr(width).len() == 0 || (width_attr(width)[0] == ' ' && width_attr(width).last()
            == '"'),
{
    reveal_strlit(" width=\"");
    if let Some(w) = width {
        lemma_attr_pair_free(" width=\""@, w as nat, 'g', 'h');
    }
}

proof fn lemma_height_attr_pair_free(height: Option<usize>)
    ensures
        pair_free(height_attr(height), 'w', 'i'),
        height_attr(height).len() == 0 || (height_attr(height)[0] == ' ' && height_attr(
            height,
        ).last() == '"'),
{
    reveal_strlit(" height=\"");
    if let Some(h) = height {
        lemma_attr_pair_free(" height=\""@, h as nat, 'w', 'i');
    }
}

proof fn lemma_attr_names_itself(name: Seq<char>, n: nat)
    requires
        name.len() >= 1,
    ensures
        contains(name + decimal(n) + "\""@, name.drop_first()),
{
    let piece = name + decimal(n) + "\""@;
    assert(piece.subrange(1, name.len() as int) =~= name.drop_first());
    assert(occurs_at(piece, name.drop_first(), 1));
}

proof fn lemma_width_attr_present(opts: SvgOptions, qr: QRCode, w: usize)
    requires
        opts.width == Some(w),
    ensures
        contains(root_tag(opts, qr), "width=\""@),
        contains(root_tag(opts, qr), " width=\""@ + decimal(w as nat) + "\""@),
{
    reveal_strlit(" width=\"");
    reveal_strlit("width=\"");
    let rt = root_tag(opts, qr);
    let piece = " width=\""@ + decimal(w as nat) + "\""@;
    let rest = height_attr(opts.height) + view_box_attrs(canvas_side(opts, qr));
    lemma_contains_self(piece);
    lemma_contains_extend("<svg"@, piece, rest, piece);
    assert("<svg"@ + piece + rest =~= rt);
    assert((" width=\""@).drop_first() =~= "width=\""@);
    lemma_attr_names_itself(" width=\""@, w as nat);
    lemma_contains_trans(rt, piece, "width=\""@);
}

proof fn lemma_height_attr_present(opts: SvgOptions, qr: QRCode, h: usize)
    requires
        opts.height == Some(h),
    ensures
        contains(root_tag(opts, qr), "height=\""@),
        contains(root_tag(opts, qr), " height=\""@ + decimal(h as nat) + "\""@),
{
    reveal_strlit(" height=\"");
    reveal_strlit("height=\"");
    let rt = root_tag(opts, qr);
    let head = "<svg"@ + width_attr(opts.width);
    let piece = " height=\""@ + decimal(h as nat) + "\""@;
    let rest = view_box_attrs(canvas_side(opts, qr));
    lemma_contains_self(piece);
    lemma_contains_extend(head, piece, rest, piece);
    assert(head + piece + rest =~= rt);
    assert((" height=\""@).drop_first() =~= "height=\""@);
    lemma_attr_names_itself(" height=\""@, h as nat);
    lemma_contains_trans(rt, piece, "height=\""@);
}

/// The root tag, and so the text before the document's first `>`, carries
/// a `width="..."` attribute exactly when a width is set, and then with the
/// set value; likewise for `height`.
pub proof fn lemma_root_tag_dimensions(opts: SvgOptions, qr: QRCode)
    ensures
        contains(root_tag(opts, qr), "width=\""@) <==> opts.width is Some,
        contains(root_tag(opts, qr), "height=\""@) <==> opts.height is Some,
        opts.width matches Some(w) ==> contains(
            root_tag(opts, qr),
            " width=\""@ + decimal(w as nat) + "\""@,
        ),
        opts.height matches Some(h) ==> contains(
            root_tag(opts, qr),
            " height=\""@ + decimal(h as nat) + "\""@,
        ),
{
    reveal_strlit("<svg");
    reveal_strlit("width=\"");
    reveal_strlit("height=\"");
    let side = canvas_side(opts, qr);
    let wa = width_attr(opts.width);
    let ha = height_attr(opts.height);
    let tail = view_box_attrs(side);
    let rt = root_tag(opts, qr);
    lemma_view_box_pair_free(side);
    lemma_width_attr_pair_free(opts.width);
    lemma_height_attr_pair_free(opts.height);
    if let Some(w) = opts.width {
        lemma_width_attr_present(opts, qr, w);
    } else {
        // "wi" occurs nowhere: not in "<svg", the height attribute or the tail.
        assert(pair_free("<svg"@, 'w', 'i'));
        lemma_pair_free_concat("<svg"@, ha, 'w', 'i');
        lemma_pair_free_concat("<svg"@ + ha, tail, 'w', 'i');
        assert(rt =~= "<svg"@ + ha + tail);
        lemma_pair_free_excludes(rt, "width=\""@, 'w', 'i', 0);
    }
    if let Some(h) = opts.height {
        lemma_height_attr_present(opts, qr, h);
    } else {
        // "gh" occurs nowhere: not in "<svg", the width attribute or the tail.
        assert(pair_free("<svg"@, 'g', 'h'));
        lemma_pair_free_concat("<svg"@, wa, 'g', 'h');
        lemma_pair_free_concat("<svg"@ + wa, tail, 'g', 'h');
        assert(rt =~= "<svg"@ + wa + tail);
        lemma_pair_free_excludes(rt, "height=\""@, 'g', 'h', 3);
    }
}

/// The drawing spans the symbol plus the margin on both sides, one SVG unit
/// per module: the view box and the background are `size + 2 * margin`
/// units wide and high.
pub proof fn lemma_canvas_covers_margin(opts: SvgOptions, qr: QRCode, end: Seq<char>)
    ensures
        canvas_side(opts, qr) == qr.size + 2 * opts.margin,
        contains(
            svg_document(opts, qr, end),
            " viewBox=\"0 0 "@ + decimal(canvas_side(opts, qr)) + " "@ + decimal(
                canvas_side(opts, qr),
            ),
        ),
        contains(svg_document(opts, qr, end), background_markup(opts, qr)),
{
    let side = canvas_side(opts, qr);
    let vb = " viewBox=\"0 0 "@ + decimal(side) + " "@ + decimal(side);
    let close = "\" xmlns=\"http://www.w3.org/2000/svg\">"@;
    let head = "<svg"@ + width_attr(opts.width) + height_attr(opts.height);
    let bg = background_markup(opts, qr);
    let after = bg + path_markup(qr, opts.margin as nat, end) + "</svg>"@;
    lemma_contains_self(vb);
    lemma_contains_extend(head, vb, close + after, vb);
    assert(head + vb + (close + after) =~= svg_document(opts, qr, end));
    lemma_contains_self(bg);
    lemma_contains_extend(root_tag(opts, qr), bg, path_markup(qr, opts.margin as nat, end) + "</svg>"@, bg);
    assert(root_tag(opts, qr) + bg + (path_markup(qr, opts.margin as nat, end) + "</svg>"@) =~= svg_document(
        opts,
        qr,
        end,
    ));
}

/// `end` can close a cell command: it starts with the `h` of the first
/// stroke and holds no `M`, which only starts commands.
pub open spec fn square_end(end: Seq<char>) -> bool {
    end.len() >= 1 && end[0] == 'h' && lacks(end, 'M')
}

/// Two cell commands that agree wherever both have a character are the same
/// command, for the same module.
proof fn lemma_cell_markup_unique(x1: nat, y1: nat, x2: nat, y2: nat, m: nat, end: Seq<char>)
    requires
        square_end(end),
        forall|i: int|
            0 <= i < cell_markup(x1, y1, m, end).len() && i < cell_markup(x2, y2, m, end).len()
                ==> #[trigger] cell_markup(x1, y1, m, end)[i] == cell_markup(x2, y2, m, end)[i],
    ensures
        x1 == x2,
        y1 == y2,
{
    reveal_strlit("M");
    reveal_strlit(",");
    let a = decimal(x1 + m);
    let b = decimal(x2 + m);
    let c = decimal(y1 + m);
    let d = decimal(y2 + m);
    let u = cell_markup(x1, y1, m, end);
    let v = cell_markup(x2, y2, m, end);
    lemma_decimal_digits(x1 + m);
    lemma_decimal_digits(x2 + m);
    lemma_decimal_digits(y1 + m);
    lemma_decimal_digits(y2 + m);
    let tail = end;
    assert(u =~= seq!['M'] + a + seq![','] + c + tail);
    assert(v =~= seq!['M'] + b + seq![','] + d + tail);
    // The column numbers end at the first comma.
    if a.len() < b.len() {
        let i = 1 + a.len() as int;
        assert(u[i] == ',');
        assert(v[i] == b[a.len() as int]);
        assert(is_digit(b[a.len() as int]));
    }
    if b.len() < a.len() {
        let i = 1 + b.len() as int;
        assert(v[i] == ',');
        assert(u[i] == a[b.len() as int]);
        assert(is_digit(a[b.len() as int]));
    }
    assert(a.len() == b.len());
    assert forall|i: int| 0 <= i < a.len() implies a[i] == b[i] by {
        assert(u[1 + i] == a[i]);
        assert(v[1 + i] == b[i]);
    }
    assert(a =~= b);
    lemma_decimal_injective(x1 + m, x2 + m);
    // The row numbers end at the `h` that follows them.
    let o = 2 + a.len() as int;
    if c.len() < d.len() {
        let i = o + c.len() as int;
        assert(u[i] == 'h');
        assert(v[i] == d[c.len() as int]);
        assert(is_digit(d[c.len() as int]));
    }
    if d.len() < c.len() {
        let i = o + d.len() as int;
        assert(v[i] == 'h');
        assert(u[i] == c[d.len() as int]);
        assert(is_digit(c[d.len() as int]));
    }
    assert(c.len() == d.len());
    assert forall|i: int| 0 <= i < c.len() implies c[i] == d[i] by {
        assert(u[o + i] == c[i]);
        assert(v[o + i] == d[i]);
    }
    assert(c =~= d);
    lemma_decimal_injective(y1 + m, y2 + m);
}

/// Every `M` in `s` starts the command of a dark module of `qr`.
pub open spec fn marks_dark_cells(s: Seq<char>, qr: QRCode, margin: nat, end: Seq<char>) -> bool {
    forall|p: int|
        0 <= p < s.len() && #[trigger] s[p] == 'M' ==> exists|x: nat, y: nat|
            #![trigger cell_markup(x, y, margin, end)]
            x < qr.size && y < qr.size && qr.is_dark(x as int, y as int) && occurs_at(
                s,
                cell_markup(x, y, margin, end),
                p,
            )
}

proof fn lemma_marks_without_m(s: Seq<char>, qr: QRCode, margin: nat, end: Seq<char>)
    requires
        lacks(s, 'M'),
    ensures
        marks_dark_cells(s, qr, margin, end),
{
}

proof fn lemma_marks_concat(a: Seq<char>, b: Seq<char>, qr: QRCode, margin: nat, end: Seq<char>)
    requires
        marks_dark_cells(a, qr, margin, end),
        marks_dark_cells(b, qr, margin, end),
    ensures
        marks_dark_cells(a + b, qr, margin, end),
{
    let s = a + b;
    assert forall|p: int| 0 <= p < s.len() && #[trigger] s[p] == 'M' implies exists|x: nat, y: nat|
        #![trigger cell_markup(x, y, margin, end)]
        x < qr.size && y < qr.size && qr.is_dark(x as int, y as int) && occurs_at(
            s,
            cell_markup(x, y, margin, end),
            p,
        ) by {
        if p < a.len() {
            assert(a[p] == 'M');
            let (x, y) = choose|x: nat, y: nat|
                #![trigger cell_markup(x, y, margin, end)]
                x < qr.size && y < qr.size && qr.is_dark(x as int, y as int) && occurs_at(
                    a,
                    cell_markup(x, y, margin, end),
                    p,
                );
            let cell = cell_markup(x, y, margin, end);
            assert(s.subrange(p, p + cell.len()) =~= a.subrange(p, p + cell.len()));
            assert(occurs_at(s, cell, p));
        } else {
            let q = p - a.len();
            assert(b[q] == 'M');
            let (x, y) = choose|x: nat, y: nat|
                #![trigger cell_markup(x, y, margin, end)]
                x < qr.size && y < qr.size && qr.is_dark(x as int, y as int) && occurs_at(
                    b,
                    cell_markup(x, y, margin, end),
                    q,
                );
            let cell = cell_markup(x, y, margin, end);
            assert(s.subrange(p, p + cell.len()) =~= b.subrange(q, q + cell.len()));
            assert(occurs_at(s, cell, p));
        }
    }
}

/// A cell command is an `M` followed by text without `M`.
proof fn lemma_cell_markup_shape(x: nat, y: nat, margin: nat, end: Seq<char>)
    requires
        square_end(end),
    ensures
        cell_markup(x, y, margin, end)[0] == 'M',
        cell_markup(x, y, margin, end).len() >= 1,
        lacks(cell_markup(x, y, margin, end).drop_first(), 'M'),
{
    reveal_strlit("M");
    reveal_strlit(",");
    let rest = decimal(x + margin) + ","@ + decimal(y + margin) + end;
    lemma_decimal_lacks(x + margin, 'M');
    lemma_decimal_lacks(y + margin, 'M');
    lemma_lacks_concat(decimal(x + margin), ","@, 'M');
    lemma_lacks_concat(decimal(x + margin) + ","@, decimal(y + margin), 'M');
    lemma_lacks_concat(decimal(x + margin) + ","@ + decimal(y + margin), end, 'M');
    assert(cell_markup(x, y, margin, end) =~= seq!['M'] + rest);
    assert(cell_markup(x, y, margin, end).drop_first() =~= rest);
}

proof fn lemma_cell_marks(qr: QRCode, margin: nat, x: nat, y: nat, end: Seq<char>)
    requires
        square_end(end),
        x < qr.size,
        y < qr.size,
        qr.is_dark(x as int, y as int),
    ensures
        marks_dark_cells(cell_markup(x, y, margin, end), qr, margin, end),
{
    let cell = cell_markup(x, y, margin, end);
    lemma_cell_markup_shape(x, y, margin, end);
    assert(cell.subrange(0, cell.len() as int) =~= cell);
    assert(occurs_at(cell, cell_markup(x, y, margin, end), 0));
    assert forall|p: int| 0 <= p < cell.len() && #[trigger] cell[p] == 'M' implies p == 0 by {
        if p > 0 {
            assert(cell[p] == cell.drop_first()[p - 1]);
        }
    }
}

proof fn lemma_row_marks(qr: QRCode, margin: nat, y: nat, n: nat, end: Seq<char>)
    requires
        square_end(end),
        y < qr.size,
        n <= qr.size,
    ensures
        marks_dark_cells(row_markup(qr, margin, end, y, n), qr, margin, end),
    decreases n,
{
    if n == 0 {
        lemma_marks_without_m(Seq::empty(), qr, margin, end);
    } else {
        let x = (n - 1) as nat;
        lemma_row_marks(qr, margin, y, x, end);
        let extra = if qr.is_dark(x as int, y as int) {
            cell_markup(x, y, margin, end)
        } else {
            Seq::empty()
        };
        if qr.is_dark(x as int, y as int) {
            lemma_cell_marks(qr, margin, x, y, end);
        } else {
            lemma_marks_without_m(Seq::empty(), qr, margin, end);
        }
        lemma_marks_concat(row_markup(qr, margin, end, y, x), extra, qr, margin, end);
    }
}

proof fn lemma_rows_marks(qr: QRCode, margin: nat, k: nat, end: Seq<char>)
    requires
        square_end(end),
        k <= qr.size,
    ensures
        marks_dark_cells(rows_markup(qr, margin, end, k), qr, margin, end),
    decreases k,
{
    if k == 0 {
        lemma_marks_without_m(Seq::empty(), qr, margin, end);
    } else {
        lemma_rows_marks(qr, margin, (k - 1) as nat, end);
        lemma_row_marks(qr, margin, (k - 1) as nat, qr.size as nat, end);
        lemma_marks_concat(
            rows_markup(qr, margin, end, (k - 1) as nat),
            row_markup(qr, margin, end, (k - 1) as nat, qr.size as nat),
            qr,
            margin, end);
    }
}

proof fn lemma_svg_marks(opts: SvgOptions, qr: QRCode, end: Seq<char>)
    requires
        square_end(end),
    ensures
        marks_dark_cells(svg_document(opts, qr, end), qr, opts.margin as nat, end),
{
    let m = opts.margin as nat;
    let side = canvas_side(opts, qr);
    reveal_strlit("\" xmlns=\"http://www.w3.org/2000/svg\">");
    reveal_strlit("<rect width=\"");
    reveal_strlit("px\" height=\"");
    reveal_strlit("px\" fill=\"#ffffff\"/>");
    reveal_strlit("<path d=\"");
    reveal_strlit("\" fill=\"#000000\"/>");
    reveal_strlit("</svg>");
    lemma_root_tag_open_lacks(opts, qr, 'M');
    assert(lacks(root_tag_close(), 'M'));
    lemma_lacks_concat(root_tag_open(opts, qr), root_tag_close(), 'M');
    lemma_decimal_lacks(side, 'M');
    let bg1 = "<rect width=\""@ + decimal(side);
    lemma_lacks_concat("<rect width=\""@, decimal(side), 'M');
    let bg2 = bg1 + "px\" height=\""@;
    lemma_lacks_concat(bg1, "px\" height=\""@, 'M');
    let bg3 = bg2 + decimal(side);
    lemma_lacks_concat(bg2, decimal(side), 'M');
    lemma_lacks_concat(bg3, "px\" fill=\"#ffffff\"/>"@, 'M');
    assert(background_markup(opts, qr) =~= bg3 + "px\" fill=\"#ffffff\"/>"@);
    let head = root_tag(opts, qr) + background_markup(opts, qr) + "<path d=\""@;
    lemma_lacks_concat(root_tag(opts, qr), background_markup(opts, qr), 'M');
    lemma_lacks_concat(root_tag(opts, qr) + background_markup(opts, qr), "<path d=\""@, 'M');
    let foot = "\" fill=\"#000000\"/>"@ + "</svg>"@;
    lemma_lacks_concat("\" fill=\"#000000\"/>"@, "</svg>"@, 'M');
    let rows = rows_markup(qr, m, end, qr.size as nat);
    lemma_rows_marks(qr, m, qr.size as nat, end);
    lemma_marks_without_m(head, qr, m, end);
    lemma_marks_without_m(foot, qr, m, end);
    lemma_marks_concat(head, rows, qr, m, end);
    lemma_marks_concat(head + rows, foot, qr, m, end);
    assert(head + rows + foot =~= svg_document(opts, qr, end));
}

/// Exactly the dark modules are drawn: the SVG holds the unit square
/// `M{x + margin},{y + margin}h1v1h-1z` of the module at column `x`, row
/// `y` if and only if that module is dark.
pub proof fn lemma_svg_draws_exactly_dark_modules(opts: SvgOptions, qr: QRCode, x: nat, y: nat, end: Seq<char>)
    requires
        square_end(end),
        qr.wf(),
        x < qr.size,
        y < qr.size,
    ensures
        contains(svg_document(opts, qr, end), cell_markup(x, y, opts.margin as nat, end)) <==> qr.is_dark(
            x as int,
            y as int,
        ),
{
    let m = opts.margin as nat;
    let s = svg_document(opts, qr, end);
    let cell = cell_markup(x, y, m, end);
    if qr.is_dark(x as int, y as int) {
        lemma_svg_draws_dark_module(opts, qr, x, y, end);
    }
    if contains(s, cell) {
        reveal_strlit("M");
        let p = choose|p: int| occurs_at(s, cell, p);
        assert(cell[0] == 'M');
        assert(s.subrange(p, p + cell.len())[0] == s[p]);
        lemma_svg_marks(opts, qr, end);
        assert(s[p] == 'M');
        let (x2, y2) = choose|x2: nat, y2: nat|
            #![trigger cell_markup(x2, y2, m, end)]
            x2 < qr.size && y2 < qr.size && qr.is_dark(x2 as int, y2 as int) && occurs_at(
                s,
                cell_markup(x2, y2, m, end),
                p,
            );
        let other = cell_markup(x2, y2, m, end);
        assert forall|i: int| 0 <= i < cell.len() && i < other.len() implies #[trigger] cell[i]
            == other[i] by {
            assert(s.subrange(p, p + cell.len())[i] == s[p + i]);
            assert(s.subrange(p, p + other.len())[i] == s[p + i]);
        }
        lemma_cell_markup_unique(x, y, x2, y2, m, end);
    }
}

/// The dark modules among the first `n` columns of row `y`, left to right,
/// as (column, row) pairs.
pub open spec fn row_cells(qr: QRCode, y: nat, n: nat) -> Seq<(nat, nat)>
    decreases n,
{
    if n == 0 {
        Seq::empty()
    } else {
        row_cells(qr, y, (n - 1) as nat) + if qr.is_dark(n - 1, y as int) {
            seq![((n - 1) as nat, y)]
        } else {
            Seq::empty()
        }
    }
}

/// The dark modules of the first `k` rows, row by row, left to right.
pub open spec fn dark_cells(qr: QRCode, k: nat) -> Seq<(nat, nat)>
    decreases k,
{
    if k == 0 {
        Seq::empty()
    } else {
        dark_cells(qr, (k - 1) as nat) + row_cells(qr, (k - 1) as nat, qr.size as nat)
    }
}

/// The commands drawing `cells` in order, with the given margin.
pub open spec fn commands(cells: Seq<(nat, nat)>, margin: nat, end: Seq<char>) -> Seq<char>
    decreases cells.len(),
{
    if cells.len() == 0 {
        Seq::empty()
    } else {
        commands(cells.drop_last(), margin, end) + cell_markup(
            cells.last().0,
            cells.last().1,
            margin,
            end,
        )
    }
}

/// `cells` moved `k` modules right and `k` modules down.
pub open spec fn shifted(cells: Seq<(nat, nat)>, k: nat) -> Seq<(nat, nat)> {
    cells.map_values(|c: (nat, nat)| ((c.0 + k) as nat, (c.1 + k) as nat))
}

proof fn lemma_commands_concat(a: Seq<(nat, nat)>, b: Seq<(nat, nat)>, margin: nat, end: Seq<char>)
    ensures
        commands(a + b, margin, end) == commands(a, margin, end) + commands(b, margin, end),
    decreases b.len(),
{
    if b.len() == 0 {
        assert(a + b =~= a);
        assert(commands(a, margin, end) + commands(b, margin, end) =~= commands(a, margin, end));
    } else {
        lemma_commands_concat(a, b.drop_last(), margin, end);
        assert((a + b).drop_last() =~= a + b.drop_last());
        assert((a + b).last() == b.last());
        assert(commands(a + b, margin, end) =~= commands(a, margin, end) + commands(
            b,
            margin,
            end,
        ));
    }
}

proof fn lemma_row_markup_commands(qr: QRCode, margin: nat, end: Seq<char>, y: nat, n: nat)
    ensures
        row_markup(qr, margin, end, y, n) == commands(row_cells(qr, y, n), margin, end),
    decreases n,
{
    if n > 0 {
        lemma_row_markup_commands(qr, margin, end, y, (n - 1) as nat);
        let prev = row_cells(qr, y, (n - 1) as nat);
        if qr.is_dark(n - 1, y as int) {
            let one = seq![((n - 1) as nat, y)];
            lemma_commands_concat(prev, one, margin, end);
            assert(one.drop_last() =~= Seq::<(nat, nat)>::empty());
            assert(commands(Seq::<(nat, nat)>::empty(), margin, end) =~= Seq::<char>::empty());
            assert(one.last() == ((n - 1) as nat, y));
            assert(commands(one, margin, end) =~= cell_markup((n - 1) as nat, y, margin, end));
        } else {
            lemma_commands_concat(prev, Seq::empty(), margin, end);
            assert(prev + Seq::<(nat, nat)>::empty() =~= prev);
        }
        assert(row_markup(qr, margin, end, y, n) =~= commands(row_cells(qr, y, n), margin, end));
    }
}

proof fn lemma_rows_markup_commands(qr: QRCode, margin: nat, end: Seq<char>, k: nat)
    ensures
        rows_markup(qr, margin, end, k) == commands(dark_cells(qr, k), margin, end),
    decreases k,
{
    if k > 0 {
        lemma_rows_markup_commands(qr, margin, end, (k - 1) as nat);
        lemma_row_markup_commands(qr, margin, end, (k - 1) as nat, qr.size as nat);
        lemma_commands_concat(
            dark_cells(qr, (k - 1) as nat),
            row_cells(qr, (k - 1) as nat, qr.size as nat),
            margin,
            end,
        );
    }
}

proof fn lemma_commands_shift(cells: Seq<(nat, nat)>, margin: nat, k: nat, end: Seq<char>)
    ensures
        commands(cells, margin + k, end) == commands(shifted(cells, k), margin, end),
    decreases cells.len(),
{
    if cells.len() > 0 {
        lemma_commands_shift(cells.drop_last(), margin, k, end);
        assert(shifted(cells, k).drop_last() =~= shifted(cells.drop_last(), k));
        let c = cells.last();
        assert(shifted(cells, k).last() == ((c.0 + k) as nat, (c.1 + k) as nat));
        assert(c.0 + (margin + k) == (c.0 + k) + margin);
        assert(c.1 + (margin + k) == (c.1 + k) + margin);
        assert(cell_markup(c.0, c.1, margin + k, end) =~= cell_markup(
            (c.0 + k) as nat,
            (c.1 + k) as nat,
            margin,
            end,
        ));
    }
}

/// The path draws the dark modules one command each, row by row and left
/// to right; the margin only moves the commands: with margin `margin + k`
/// the path holds the same commands, in the same order, each for the
/// module `k` columns right and `k` rows down at margin `margin`.
pub proof fn lemma_margin_shifts_commands(qr: QRCode, margin: nat, k: nat, end: Seq<char>)
    ensures
        path_markup(qr, margin, end) == "<path d=\""@ + commands(
            dark_cells(qr, qr.size as nat),
            margin,
            end,
        ) + "\" fill=\"#000000\"/>"@,
        path_markup(qr, margin + k, end) == "<path d=\""@ + commands(
            shifted(dark_cells(qr, qr.size as nat), k),
            margin,
            end,
        ) + "\" fill=\"#000000\"/>"@,
{
    lemma_rows_markup_commands(qr, margin, end, qr.size as nat);
    lemma_rows_markup_commands(qr, margin + k, end, qr.size as nat);
    lemma_commands_shift(dark_cells(qr, qr.size as nat), margin, k, end);
}

} // verus!
