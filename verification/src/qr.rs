//! The module matrix of a QR code and its terminal rendering.

use vstd::prelude::*;

verus! {

/// A square QR symbol: `size` rows of `size` modules, stored row by row;
/// `true` marks a dark module.
pub struct QRCode {
    /// Number of modules on one side.
    pub size: usize,
    /// Module values, row-major: the module at column `x`, row `y` is
    /// `data[y * size + x]`.
    pub data: Vec<bool>,
}

impl QRCode {
    /// The matrix holds exactly `size * size` modules.
    pub open spec fn wf(&self) -> bool {
        self.data@.len() == self.size * self.size
    }

    /// Whether the module at column `x`, row `y` is dark.
    pub open spec fn is_dark(&self, x: int, y: int) -> bool {
        self.data@[y * self.size + x]
    }

    /// Whether row `y` exists and its module at column `x` is dark
    /// (rows past the symbol read as light).
    pub open spec fn dark_or_outside(&self, x: int, y: int) -> bool {
        y < self.size && self.is_dark(x, y)
    }

    /// The block character standing for two vertically adjacent modules.
    pub open spec fn block(top: bool, bottom: bool) -> Seq<char> {
        if top && bottom {
            "█"@
        } else if top {
            "▀"@
        } else if bottom {
            "▄"@
        } else {
            " "@
        }
    }

    /// The first `n` characters of the text line drawing rows `y` and `y + 1`.
    pub open spec fn text_line(&self, y: int, n: nat) -> Seq<char>
        decreases n,
    {
        if n == 0 {
            Seq::empty()
        } else {
            self.text_line(y, (n - 1) as nat) + Self::block(
                self.is_dark(n - 1, y),
                self.dark_or_outside(n - 1, y + 1),
            )
        }
    }

    /// The first `k` text lines, each ended by a newline; line `i` draws rows
    /// `2 * i` and `2 * i + 1`.
    pub open spec fn text_lines(&self, k: nat) -> Seq<char>
        decreases k,
    {
        if k == 0 {
            Seq::empty()
        } else {
            self.text_lines((k - 1) as nat) + self.text_line(2 * (k - 1), self.size as nat) + "\n"@
        }
    }

    /// The whole terminal drawing: one text line per pair of module rows.
    pub open spec fn text(&self) -> Seq<char> {
        self.text_lines(((self.size + 1) / 2) as nat)
    }

    /// Returns the QR code drawn with block characters, two module rows per
    /// text line, for printing to a terminal.
    pub fn to_str(&self) -> (out: String)
        requires
            self.wf(),
        ensures
            out@ == self.text(),
    {
        let size = self.size;
        let total = self.data.len();
        proof {
            assert(size < usize::MAX) by (nonlinear_arith)
                requires
                    total == size * size,
                    total <= usize::MAX,
            ;
        }
        let mut out = String::new();
        let mut y: usize = 0;
        let mut k: usize = 0;
        while y < size
            invariant
                self.wf(),
                size == self.size,
                total == size * size,
                size < usize::MAX,
                y == 2 * k,
                y <= size + 1,
                out@ == self.text_lines(k as nat),
            decreases size + 1 - y,
        {
            let mut x: usize = 0;
            while x < size
                invariant
                    self.wf(),
                    size == self.size,
                    total == size * size,
                    y == 2 * k,
                    y < size,
                    x <= size,
                    out@ == self.text_lines(k as nat) + self.text_line(y as int, x as nat),
                decreases size - x,
            {
                proof {
                    assert(y * size + x < size * size) by (nonlinear_arith)
                        requires
                            y < size,
                            x < size,
                    ;
                }
                let top = self.data[y * size + x];
                let bottom = if y + 1 < size {
                    proof {
                        assert((y + 1) * size + x < size * size) by (nonlinear_arith)
                            requires
                                y + 1 < size,
                                x < size,
                        ;
                    }
                    self.data[(y + 1) * size + x]
                } else {
                    false
                };
                if top && bottom {
                    out.append("█");
                } else if top {
                    out.append("▀");
                } else if bottom {
                    out.append("▄");
                } else {
                    out.append(" ");
                }
                assert(top == self.is_dark(x as int, y as int));
                assert(bottom == self.dark_or_outside(x as int, y + 1));
                x = x + 1;
                assert(out@ =~= self.text_lines(k as nat) + self.text_line(y as int, x as nat));
            }
            out.append("\n");
            assert(out@ =~= self.text_lines((k + 1) as nat));
            y = y + 2;
            k = k + 1;
        }
        assert(k == (size + 1) / 2);
        out
    }
}

impl QRCode {
    proof fn lemma_block_is_one_char(top: bool, bottom: bool)
        ensures
            Self::block(top, bottom).len() == 1,
    {
        reveal_strlit("█");
        reveal_strlit("▀");
        reveal_strlit("▄");
        reveal_strlit(" ");
    }

    proof fn lemma_text_line(&self, y: int, n: nat)
        ensures
            self.text_line(y, n).len() == n,
            forall|x: int|
                0 <= x < n ==> #[trigger] self.text_line(y, n)[x] == Self::block(
                    self.is_dark(x, y),
                    self.dark_or_outside(x, y + 1),
                )[0],
        decreases n,
    {
        if n > 0 {
            self.lemma_text_line(y, (n - 1) as nat);
            Self::lemma_block_is_one_char(
                self.is_dark(n - 1, y),
                self.dark_or_outside(n - 1, y + 1),
            );
        }
    }

    proof fn lemma_text_lines(&self, k: nat)
        ensures
            self.text_lines(k).len() == k * (self.size + 1),
            forall|i: int, x: int|
                0 <= i < k && 0 <= x < self.size ==> #[trigger] self.text_lines(k)[i * (self.size + 1)
                    + x] == Self::block(
                    self.is_dark(x, 2 * i),
                    self.dark_or_outside(x, 2 * i + 1),
                )[0],
            forall|i: int|
                0 <= i < k ==> #[trigger] self.text_lines(k)[i * (self.size + 1) + self.size]
                    == '\n',
        decreases k,
    {
        reveal_strlit("\n");
        if k > 0 {
            let w = self.size + 1;
            let prev = self.text_lines((k - 1) as nat);
            let line = self.text_line(2 * (k - 1), self.size as nat);
            self.lemma_text_lines((k - 1) as nat);
            self.lemma_text_line(2 * (k - 1), self.size as nat);
            assert(k * w == (k - 1) * w + w) by (nonlinear_arith);
            assert forall|i: int, x: int|
                0 <= i < k && 0 <= x < self.size implies #[trigger] self.text_lines(k)[i * w + x]
                == Self::block(self.is_dark(x, 2 * i), self.dark_or_outside(x, 2 * i + 1))[0] by {
                if i < k - 1 {
                    assert(i * w + x < (k - 1) * w) by (nonlinear_arith)
                        requires
                            i < k - 1,
                            x < w - 1,
                            0 <= x,
                    ;
                    assert(self.text_lines(k)[i * w + x] == prev[i * w + x]);
                } else {
                    assert(i * w == (k - 1) * w);
                    assert(self.text_lines(k)[i * w + x] == line[x]);
                }
            }
            assert forall|i: int| 0 <= i < k implies #[trigger] self.text_lines(k)[i * w
                + self.size] == '\n' by {
                if i < k - 1 {
                    assert(i * w + self.size < (k - 1) * w) by (nonlinear_arith)
                        requires
                            i < k - 1,
                            w == self.size + 1,
                    ;
                    assert(self.text_lines(k)[i * w + self.size] == prev[i * w + self.size]);
                } else {
                    assert(i * w == (k - 1) * w);
                }
            }
        }
    }

    /// The terminal drawing has one line per pair of module rows, each made
    /// of `size` block characters and a newline; the character at line `i`,
    /// column `x` shows module `(x, 2 * i)` in its upper half and module
    /// `(x, 2 * i + 1)` (light past the last row) in its lower half, dark
    /// modules filled.
    pub proof fn lemma_text_layout(&self, i: int, x: int)
        requires
            0 <= i < (self.size + 1) / 2,
            0 <= x < self.size,
        ensures
            self.text().len() == ((self.size + 1) / 2) * (self.size + 1),
            self.text()[i * (self.size + 1) + x] == Self::block(
                self.is_dark(x, 2 * i),
                self.dark_or_outside(x, 2 * i + 1),
            )[0],
            self.text()[i * (self.size + 1) + self.size] == '\n',
    {
        self.lemma_text_lines(((self.size + 1) / 2) as nat);
        assert(self.text_lines(((self.size + 1) / 2) as nat)[i * (self.size + 1) + x]
            == Self::block(self.is_dark(x, 2 * i), self.dark_or_outside(x, 2 * i + 1))[0]);
        assert(self.text_lines(((self.size + 1) / 2) as nat)[i * (self.size + 1) + self.size] == '\n');
    }
}

} // verus!
