//! Text metrics: how wide a line of text is and how high, and how a text is broken into lines.
//!
//! A font is described by the numbers that measuring needs, all in font units: the size of the
//! em square, ascent and descent, and the advance width of each character it has a glyph for.
//! Measuring adds up advance widths; there is no kerning and there are no ligatures. Results
//! are whole numbers, rounded up.

use crate::text::to_chars;
use vstd::prelude::*;

verus! {

/// A length in layout units.
pub type Length = i128;

/// The advance width of the glyph of one character, in font units.
#[derive(PartialEq, Eq, Structural, Debug, Clone, Copy)]
pub struct GlyphAdvance {
    pub ch: char,
    pub advance: u16,
}

/// The metrics of a font, in font units.
#[derive(PartialEq, Debug)]
pub struct FontMetrics {
    pub units_per_em: u16,
    pub ascent: i16,
    pub descent: i16,
    /// The advance widths known; where a character occurs twice, the first entry counts.
    pub advances: Vec<GlyphAdvance>,
    /// The advance width of a character that has no entry.
    pub fallback_advance: u16,
}

pub struct FontMetricsView {
    pub units_per_em: u16,
    pub ascent: i16,
    pub descent: i16,
    pub advances: Seq<GlyphAdvance>,
    pub fallback_advance: u16,
}

impl View for FontMetrics {
    type V = FontMetricsView;

    open spec fn view(&self) -> FontMetricsView {
        FontMetricsView {
            units_per_em: self.units_per_em,
            ascent: self.ascent,
            descent: self.descent,
            advances: self.advances@,
            fallback_advance: self.fallback_advance,
        }
    }
}

/// No text measures more than this: a text has at most 2^64 characters, a character at most
/// 65535 font units, and a pixel size is at most 65535.
pub const MAX_TEXT_WIDTH: Length = 0x1_0000_0000_0000_0000 * 65535 * 65535;

/// `a / b`, rounded up.
pub open spec fn ceil_div(a: int, b: int) -> int {
    (a + b - 1) / b
}

impl FontMetricsView {
    /// The em square is not empty, and the ascent is not below the descent.
    pub open spec fn wf(self) -> bool {
        self.units_per_em > 0 && self.descent <= self.ascent
    }

    /// The advance width of `c`, looked up from entry `at` on.
    pub open spec fn advance_from(self, c: char, at: int) -> u16
        decreases self.advances.len() - at,
    {
        if 0 <= at < self.advances.len() {
            if self.advances[at].ch == c {
                self.advances[at].advance
            } else {
                self.advance_from(c, at + 1)
            }
        } else {
            self.fallback_advance
        }
    }

    /// The advance width of `c`: that of its first entry, or the fallback.
    pub open spec fn advance(self, c: char) -> u16 {
        self.advance_from(c, 0)
    }

    /// The sum of the advance widths of the characters of `text`, in font units.
    pub open spec fn units(self, text: Seq<char>) -> int
        decreases text.len(),
    {
        if text.len() == 0 {
            0
        } else {
            self.units(text.drop_last()) + self.advance(text.last())
        }
    }

    /// The width of `text` at `pixel_size`, rounded up to a whole unit.
    pub open spec fn text_width(self, text: Seq<char>, pixel_size: u16) -> int {
        ceil_div(self.units(text) * pixel_size, self.units_per_em as int)
    }

    /// The height of a line at `pixel_size`: ascent minus descent, rounded up to a whole unit.
    pub open spec fn line_height(self, pixel_size: u16) -> int {
        ceil_div((self.ascent - self.descent) * pixel_size, self.units_per_em as int)
    }

    /// The width of the widest of `lines`; 0 if there is none.
    pub open spec fn widest(self, lines: Seq<Seq<char>>, pixel_size: u16) -> int
        decreases lines.len(),
    {
        if lines.len() == 0 {
            0
        } else {
            let before = self.widest(lines.drop_last(), pixel_size);
            let width = self.text_width(lines.last(), pixel_size);
            if width > before {
                width
            } else {
                before
            }
        }
    }
}

proof fn lemma_ceil_div_bounds(a: int, b: int)
    requires
        0 <= a,
        0 < b,
    ensures
        0 <= ceil_div(a, b) <= a,
{
    vstd::arithmetic::div_mod::lemma_fundamental_div_mod(a + b - 1, b);
    vstd::arithmetic::div_mod::lemma_mod_bound(a + b - 1, b);
    let q = (a + b - 1) / b;
    assert(b * q <= a + b - 1);
    assert(b * q > a - 1);
    assert(q >= 0) by (nonlinear_arith)
        requires
            b * q > a - 1,
            a >= 0,
            b > 0,
    ;
    assert(q <= a) by (nonlinear_arith)
        requires
            b * q <= a + b - 1,
            a >= 0,
            b > 0,
            q >= 0,
    ;
}

/// The height of a line is a number of 32 bits.
pub proof fn lemma_line_height_bound(font: FontMetricsView, pixel_size: u16)
    requires
        font.wf(),
    ensures
        0 <= font.line_height(pixel_size) <= u32::MAX,
{
    let rise = font.ascent - font.descent;
    assert(0 <= rise * pixel_size <= 65535 * 65535) by (nonlinear_arith)
        requires
            0 <= rise <= 65535,
            0 <= pixel_size <= 65535,
    ;
    lemma_ceil_div_bounds(rise * pixel_size, font.units_per_em as int);
}

impl FontMetrics {
    /// Tells whether the metrics can be measured with.
    pub fn is_valid(&self) -> (valid: bool)
        ensures
            valid == self@.wf(),
    {
        self.units_per_em > 0 && self.descent <= self.ascent
    }

    /// The advance width of `c`.
    pub fn advance_of(&self, c: char) -> (advance: u16)
        ensures
            advance == self@.advance(c),
    {
        let mut at: usize = 0;
        while at < self.advances.len()
            invariant
                at <= self.advances.len(),
                self@.advance(c) == self@.advance_from(c, at as int),
            decreases self.advances.len() - at,
        {
            if self.advances[at].ch == c {
                return self.advances[at].advance;
            }
            at += 1;
        }
        self.fallback_advance
    }

    /// The height of a line at `pixel_size`.
    pub fn line_height_at(&self, pixel_size: u16) -> (height: u32)
        requires
            self@.wf(),
        ensures
            height == self@.line_height(pixel_size),
    {
        let rise: u64 = (self.ascent as i32 - self.descent as i32) as u64;
        let em: u64 = self.units_per_em as u64;
        proof {
            assert(rise * pixel_size <= 65535 * 65535) by (nonlinear_arith)
                requires
                    0 <= rise <= 65535,
                    0 <= pixel_size <= 65535,
            ;
            lemma_ceil_div_bounds(rise * pixel_size, em as int);
        }
        let span: u64 = rise * (pixel_size as u64);
        ((span + em - 1) / em) as u32
    }

    /// The width of `text` at `pixel_size`.
    pub fn text_width_at(&self, text: &str, pixel_size: u16) -> (width: Length)
        requires
            self@.wf(),
        ensures
            width == self@.text_width(text@, pixel_size),
            0 <= width <= MAX_TEXT_WIDTH,
    {
        let chars = to_chars(text);
        let mut units: u128 = 0;
        let mut i: usize = 0;
        while i < chars.len()
            invariant
                i <= chars.len(),
                units == self@.units(chars@.take(i as int)),
                units <= i * 65535,
            decreases chars.len() - i,
        {
            assert(chars@.take(i + 1).drop_last() == chars@.take(i as int));
            units = units + self.advance_of(chars[i]) as u128;
            i += 1;
        }
        assert(chars@.take(chars@.len() as int) == chars@);
        let em: u128 = self.units_per_em as u128;
        proof {
            assert(units * pixel_size <= 0x1_0000_0000_0000_0000 * 65535 * 65535)
                by (nonlinear_arith)
                requires
                    0 <= units <= 0x1_0000_0000_0000_0000 * 65535,
                    0 <= pixel_size <= 65535,
            ;
            lemma_ceil_div_bounds(units * pixel_size, em as int);
        }
        let span: u128 = units * (pixel_size as u128);
        ((span + em - 1) / em) as i128
    }

    /// What `text` measures at `pixel_size`: its width and the height of a line.
    pub fn measure(&self, text: &str, pixel_size: u16) -> (size: (Length, u32))
        requires
            self@.wf(),
        ensures
            size.0 == self@.text_width(text@, pixel_size),
            size.1 == self@.line_height(pixel_size),
            0 <= size.0 <= MAX_TEXT_WIDTH,
    {
        (self.text_width_at(text, pixel_size), self.line_height_at(pixel_size))
    }
}

/// The lines into which `textwrap::wrap` breaks `text` when asked for lines of at most `width`
/// columns.
pub uninterp spec fn wrapped(text: Seq<char>, width: usize) -> Seq<Seq<char>>;

/// The texts of `lines`, one by one.
pub open spec fn lines_text(lines: Seq<String>) -> Seq<Seq<char>> {
    Seq::new(lines.len(), |i: int| lines[i]@)
}

/// Breaks `text` into lines of at most `width` columns with `textwrap::wrap`, called with the
/// width alone, so with the crate's default options. The lines are a function of the text and
/// the width; the contract gives them their name and claims nothing else of them.
#[verifier::external_body]
pub(crate) fn wrap(text: &str, width: usize) -> (lines: Vec<String>)
    ensures
        lines_text(lines@) == wrapped(text@, width),
{
    textwrap::wrap(text, width).into_iter().map(|line| line.into_owned()).collect()
}

} // verus!
