//! Value types of the layout pipeline: rectangles, font styles, raw
//! characters, text chunks, lines, blocks, and character patterns.
//!
//! All geometry is fixed point: coordinate fields hold multiples of
//! `1/POINT_UNITS` of a typographic point.  Styles carry the font size
//! scaled to tenths of a point, so that style equality is exact.

use crate::chars::char_lowercase;
use crate::chars::char_math_symbol;
use crate::chars::char_numeric;
use crate::chars::char_titlecase;
use crate::chars::char_uppercase;
use crate::chars::is_control_char;
use crate::chars::is_whitespace;
use crate::chars::is_ws_char;
use crate::chars::lowercase_letter;
use crate::chars::math_symbol_char;
use crate::chars::numeric_char;
use crate::chars::titlecase_letter;
use crate::chars::uppercase_letter;
use crate::text::chars_of;
use vstd::prelude::*;

verus! {

/// Coordinate units per typographic point.
pub const POINT_UNITS: i64 = 10000;

/// Largest coordinate magnitude the pipeline accepts, one billion points.
pub const COORD_BOUND: i64 = 10_000_000_000_000;

// ---------------------------------------------------------------------------
// Rectangle
// ---------------------------------------------------------------------------

/// An axis-aligned rectangle in page coordinates.
#[derive(Clone, Copy, Debug)]
pub struct PdfRectValue {
    pub left: i64,
    pub top: i64,
    pub right: i64,
    pub bottom: i64,
}

/// Mathematical model of a rectangle.
pub ghost struct RectModel {
    pub left: int,
    pub top: int,
    pub right: int,
    pub bottom: int,
}

impl View for PdfRectValue {
    type V = RectModel;

    open spec fn view(&self) -> RectModel {
        RectModel {
            left: self.left as int,
            top: self.top as int,
            right: self.right as int,
            bottom: self.bottom as int,
        }
    }
}

/// All fields of `r` lie within the coordinate bound.
pub open spec fn wf_rect(r: RectModel) -> bool {
    &&& -COORD_BOUND <= r.left <= COORD_BOUND
    &&& -COORD_BOUND <= r.top <= COORD_BOUND
    &&& -COORD_BOUND <= r.right <= COORD_BOUND
    &&& -COORD_BOUND <= r.bottom <= COORD_BOUND
}

/// Absolute value.
pub open spec fn abs_of(x: int) -> int {
    if x >= 0 {
        x
    } else {
        -x
    }
}

impl PdfRectValue {
    /// The absolute horizontal extent of the rectangle.
    pub fn width(&self) -> (r: i64)
        requires
            wf_rect(self@),
        ensures
            r == abs_of(self@.right - self@.left),
    {
        if self.right >= self.left {
            self.right - self.left
        } else {
            self.left - self.right
        }
    }

    /// The absolute vertical extent of the rectangle.
    pub fn height(&self) -> (r: i64)
        requires
            wf_rect(self@),
        ensures
            r == abs_of(self@.top - self@.bottom),
    {
        if self.top >= self.bottom {
            self.top - self.bottom
        } else {
            self.bottom - self.top
        }
    }
}

// ---------------------------------------------------------------------------
// Style
// ---------------------------------------------------------------------------

/// A font-style identity: font name plus the size scaled to tenths of a
/// point.
#[derive(Debug)]
pub struct PdfStyle {
    pub font_name: String,
    pub font_size_scaled: i64,
}

/// Mathematical model of a style.
pub ghost struct StyleModel {
    pub name: Seq<char>,
    pub size_scaled: int,
}

impl View for PdfStyle {
    type V = StyleModel;

    open spec fn view(&self) -> StyleModel {
        StyleModel { name: self.font_name@, size_scaled: self.font_size_scaled as int }
    }
}

/// Rounds a size in coordinate units to tenths of a point, half away from
/// zero.
pub open spec fn scale_font_size(fs: int) -> int {
    if fs >= 0 {
        (fs + 500) / 1000
    } else {
        -((-fs + 500) / 1000)
    }
}

/// The scaled size stays within the coordinate bound.
pub open spec fn wf_style(s: StyleModel) -> bool {
    -COORD_BOUND <= s.size_scaled <= COORD_BOUND
}

impl Clone for PdfStyle {
    /// Copies the style; the copy has the same model.
    fn clone(&self) -> (r: Self)
        ensures
            r@ == self@,
    {
        PdfStyle { font_name: self.font_name.clone(), font_size_scaled: self.font_size_scaled }
    }
}

impl PdfStyle {
    /// Builds a style from a font name and a size in coordinate units.
    pub fn new(name: String, font_size: i64) -> (r: Self)
        ensures
            r@.name == name@,
            r@.size_scaled == scale_font_size(font_size as int),
    {
        let scaled: i64 = if font_size >= 0 {
            (((font_size as u128) + 500) / 1000) as i64
        } else {
            let m = (((-(font_size as i128)) as u128) + 500) / 1000;
            proof {
                assert((-(font_size as i128)) as u128 + 500 < u64::MAX as u128);
            }
            -(m as i64)
        };
        PdfStyle { font_name: name, font_size_scaled: scaled }
    }

    /// The font size in tenths of a point.
    pub fn get_size(&self) -> (r: i64)
        ensures
            r == self@.size_scaled,
    {
        self.font_size_scaled
    }

    /// Whether two styles are identical: same font name, same scaled size.
    pub fn same_style(&self, other: &PdfStyle) -> (r: bool)
        ensures
            r == (self@ == other@),
    {
        let names_eq = self.font_name == other.font_name;
        let r = names_eq && self.font_size_scaled == other.font_size_scaled;
        proof {
            if r {
                assert(self@ =~= other@);
            }
        }
        r
    }
}

// ---------------------------------------------------------------------------
// Raw characters and text chunks
// ---------------------------------------------------------------------------

/// One positioned glyph, as handed in by the page content provider.  `x`
/// and `y` are the baseline origin; `skew` is a unitless deviation measure
/// from an axis-aligned glyph transform, in the same fixed-point scale.
#[derive(Debug)]
pub struct AnalyzableChar {
    pub text: String,
    pub x: i64,
    pub y: i64,
    pub width: i64,
    pub height: i64,
    pub left: i64,
    pub right: i64,
    pub top: i64,
    pub bottom: i64,
    pub font_name: String,
    pub font_size: i64,
    pub skew: i64,
}

/// Mathematical model of a raw character.
pub ghost struct CharModel {
    pub text: Seq<char>,
    pub x: int,
    pub y: int,
    pub width: int,
    pub height: int,
    pub left: int,
    pub right: int,
    pub top: int,
    pub bottom: int,
    pub font_name: Seq<char>,
    pub font_size: int,
    pub skew: int,
}

impl View for AnalyzableChar {
    type V = CharModel;

    open spec fn view(&self) -> CharModel {
        CharModel {
            text: self.text@,
            x: self.x as int,
            y: self.y as int,
            width: self.width as int,
            height: self.height as int,
            left: self.left as int,
            right: self.right as int,
            top: self.top as int,
            bottom: self.bottom as int,
            font_name: self.font_name@,
            font_size: self.font_size as int,
            skew: self.skew as int,
        }
    }
}

/// The coordinate fields of `c` lie within the coordinate bound and its
/// extents are not negative.
pub open spec fn wf_char(c: CharModel) -> bool {
    &&& -COORD_BOUND <= c.x <= COORD_BOUND
    &&& -COORD_BOUND <= c.y <= COORD_BOUND
    &&& 0 <= c.width <= COORD_BOUND
    &&& 0 <= c.height <= COORD_BOUND
    &&& -COORD_BOUND <= c.left <= COORD_BOUND
    &&& -COORD_BOUND <= c.right <= COORD_BOUND
    &&& -COORD_BOUND <= c.top <= COORD_BOUND
    &&& -COORD_BOUND <= c.bottom <= COORD_BOUND
    &&& 0 <= c.font_size <= COORD_BOUND
    &&& -COORD_BOUND <= c.skew <= COORD_BOUND
}

/// The bounding rectangle of a raw character.
pub open spec fn rect_of_char(c: CharModel) -> RectModel {
    RectModel { left: c.left, top: c.top, right: c.right, bottom: c.bottom }
}

impl Clone for AnalyzableChar {
    /// Copies the character; the copy has the same model.
    fn clone(&self) -> (r: Self)
        ensures
            r@ == self@,
    {
        AnalyzableChar {
            text: self.text.clone(),
            x: self.x,
            y: self.y,
            width: self.width,
            height: self.height,
            left: self.left,
            right: self.right,
            top: self.top,
            bottom: self.bottom,
            font_name: self.font_name.clone(),
            font_size: self.font_size,
            skew: self.skew,
        }
    }
}

impl AnalyzableChar {
    /// Checks the coordinate bounds of `wf_char` at run time.
    pub fn is_well_formed(&self) -> (r: bool)
        ensures
            r == wf_char(self@),
    {
        -COORD_BOUND <= self.x && self.x <= COORD_BOUND && -COORD_BOUND <= self.y && self.y
            <= COORD_BOUND && 0 <= self.width && self.width <= COORD_BOUND && 0 <= self.height
            && self.height <= COORD_BOUND && -COORD_BOUND <= self.left && self.left <= COORD_BOUND
            && -COORD_BOUND <= self.right && self.right <= COORD_BOUND && -COORD_BOUND <= self.top
            && self.top <= COORD_BOUND && -COORD_BOUND <= self.bottom && self.bottom <= COORD_BOUND
            && 0 <= self.font_size && self.font_size <= COORD_BOUND && -COORD_BOUND <= self.skew
            && self.skew <= COORD_BOUND
    }
}

/// One character's contribution to a line: its sanitized text, baseline
/// position, inferred advance width, style data, the page's space width,
/// and skew.
#[derive(Debug)]
pub struct TextChunk {
    pub text: String,
    pub x: i64,
    pub y: i64,
    pub width: i64,
    pub font_name: String,
    pub font_size: i64,
    pub single_space_width: i64,
    pub skew: i64,
}

/// Mathematical model of a text chunk.
pub ghost struct ChunkModel {
    pub text: Seq<char>,
    pub x: int,
    pub y: int,
    pub width: int,
    pub font_name: Seq<char>,
    pub font_size: int,
    pub single_space_width: int,
    pub skew: int,
}

impl View for TextChunk {
    type V = ChunkModel;

    open spec fn view(&self) -> ChunkModel {
        ChunkModel {
            text: self.text@,
            x: self.x as int,
            y: self.y as int,
            width: self.width as int,
            font_name: self.font_name@,
            font_size: self.font_size as int,
            single_space_width: self.single_space_width as int,
            skew: self.skew as int,
        }
    }
}

/// The numeric fields of a chunk lie within twice the coordinate bound.
pub open spec fn wf_chunk(c: ChunkModel) -> bool {
    &&& -COORD_BOUND <= c.x <= COORD_BOUND
    &&& -COORD_BOUND <= c.y <= COORD_BOUND
    &&& 0 <= c.width <= 2 * COORD_BOUND
    &&& 0 <= c.font_size <= COORD_BOUND
    &&& 0 <= c.single_space_width <= 2 * COORD_BOUND
    &&& -COORD_BOUND <= c.skew <= COORD_BOUND
}

impl Clone for TextChunk {
    /// Copies the chunk; the copy has the same model.
    fn clone(&self) -> (r: Self)
        ensures
            r@ == self@,
    {
        TextChunk {
            text: self.text.clone(),
            x: self.x,
            y: self.y,
            width: self.width,
            font_name: self.font_name.clone(),
            font_size: self.font_size,
            single_space_width: self.single_space_width,
            skew: self.skew,
        }
    }
}

// ---------------------------------------------------------------------------
// Character pattern
// ---------------------------------------------------------------------------

/// Per-class character counts over a text, plus the total count.  Class
/// codes run from 0 to 11; see `char_class`.
#[derive(Debug)]
pub struct CharacterPattern {
    pub counts: [usize; 12],
    pub total: usize,
}

/// Mathematical model of a character pattern.
pub ghost struct PatternModel {
    pub counts: Seq<int>,
    pub total: int,
}

impl View for CharacterPattern {
    type V = PatternModel;

    open spec fn view(&self) -> PatternModel {
        PatternModel {
            counts: Seq::new(12, |k: int| self.counts@[k] as int),
            total: self.total as int,
        }
    }
}

/// The semantic class of one character, decided in priority order:
/// lowercase letter 3; uppercase or titlecase letter 2; numeric 1;
/// whitespace 10; sentence punctuation 6; dash 7; bracket 8; math symbol 9;
/// control 0; anything else 8.
pub open spec fn char_class(c: char) -> int {
    if lowercase_letter(c) {
        3
    } else if uppercase_letter(c) || titlecase_letter(c) {
        2
    } else if numeric_char(c) {
        1
    } else if is_ws_char(c) {
        10
    } else if c == '.' || c == '?' || c == '!' {
        6
    } else if c == '-' || c == '_' || c == '\u{2013}' || c == '\u{2014}' {
        7
    } else if c == '(' || c == '[' || c == '{' || c == ')' || c == ']' || c == '}' {
        8
    } else if math_symbol_char(c) {
        9
    } else if is_control_char(c) {
        0
    } else {
        8
    }
}

/// How many characters of `s` fall in class `k`.
pub open spec fn count_class(s: Seq<char>, k: int) -> int
    decreases s.len(),
{
    if s.len() == 0 {
        0
    } else {
        count_class(s.drop_last(), k) + if char_class(s.last()) == k {
            1int
        } else {
            0int
        }
    }
}

/// The pattern of a text: all twelve class counts and the total length.
pub open spec fn pattern_of(s: Seq<char>) -> PatternModel {
    PatternModel { counts: Seq::new(12, |k: int| count_class(s, k)), total: s.len() as int }
}

/// A class count never exceeds the text length.
pub proof fn lemma_count_class_le(s: Seq<char>, k: int)
    ensures
        0 <= count_class(s, k) <= s.len(),
    decreases s.len(),
{
    if s.len() > 0 {
        lemma_count_class_le(s.drop_last(), k);
    }
}

/// Sum of the class counts of `s` for classes below `k`.
pub open spec fn count_class_sum(s: Seq<char>, k: int) -> int
    decreases k,
{
    if k <= 0 {
        0
    } else {
        count_class_sum(s, k - 1) + count_class(s, k - 1)
    }
}

proof fn lemma_count_class_sum_step(s: Seq<char>, k: int)
    requires
        s.len() > 0,
    ensures
        count_class_sum(s, k) == count_class_sum(s.drop_last(), k) + if 0 <= char_class(s.last())
            < k {
            1int
        } else {
            0int
        },
    decreases k,
{
    if k > 0 {
        lemma_count_class_sum_step(s, k - 1);
    }
}

proof fn lemma_count_class_sum_empty(s: Seq<char>, k: int)
    requires
        s.len() == 0,
    ensures
        count_class_sum(s, k) == 0,
    decreases k,
{
    if k > 0 {
        lemma_count_class_sum_empty(s, k - 1);
    }
}

/// Every character falls in exactly one class, so the class counts sum to
/// the length of the text.
pub proof fn lemma_pattern_counts_total(s: Seq<char>)
    ensures
        count_class_sum(s, 12) == s.len(),
    decreases s.len(),
{
    if s.len() > 0 {
        lemma_pattern_counts_total(s.drop_last());
        lemma_count_class_sum_step(s, 12);
        assert(0 <= char_class(s.last()) < 12);
    } else {
        lemma_count_class_sum_empty(s, 12);
    }
}

/// The weighted score of class `i` in pattern `p`: capital letters weigh
/// ten-fold, lowercase letters are penalized by punctuation and symbols,
/// digits score nothing on their own, and the remaining classes score
/// their own count.
pub open spec fn class_score(p: PatternModel, i: int) -> int {
    if i == 1 {
        0
    } else if i == 2 {
        p.counts[2] * 10
    } else if i == 0 {
        p.counts[0] + p.counts[2]
    } else if i == 3 {
        p.counts[3] - 3 * (p.counts[4] + p.counts[5] + p.counts[6] + p.counts[7] + p.counts[8])
            - 10 * p.counts[9]
    } else if i == 5 {
        p.counts[5] - 10 * (p.counts[6] + p.counts[7])
    } else {
        p.counts[i]
    }
}

/// The best-scoring class among 0..=i, earliest index winning ties.
pub open spec fn best_class_upto(p: PatternModel, i: int) -> int
    decreases i,
{
    if i <= 0 {
        0
    } else {
        let b = best_class_upto(p, i - 1);
        if class_score(p, i) > class_score(p, b) {
            i
        } else {
            b
        }
    }
}

/// The dominant pattern type of `p`: 0 for an empty pattern, otherwise the
/// best-scoring class among 0..=10.
pub open spec fn pattern_type_of(p: PatternModel) -> int {
    if p.total == 0 {
        0
    } else {
        best_class_upto(p, 10)
    }
}

impl Clone for CharacterPattern {
    /// Copies the pattern; the copy has the same model.
    fn clone(&self) -> (r: Self)
        ensures
            r@ == self@,
    {
        let r = CharacterPattern { counts: self.counts, total: self.total };
        proof {
            assert(r@.counts =~= self@.counts);
        }
        r
    }
}

impl CharacterPattern {
    /// The class code of one character; see `char_class`.
    pub fn get_char_type(c: char) -> (r: i32)
        ensures
            r == char_class(c),
            0 <= r <= 10,
    {
        if char_lowercase(c) {
            3
        } else if char_uppercase(c) || char_titlecase(c) {
            2
        } else if char_numeric(c) {
            1
        } else if is_whitespace(c) {
            10
        } else if c == '.' || c == '?' || c == '!' {
            6
        } else if c == '-' || c == '_' || c == '\u{2013}' || c == '\u{2014}' {
            7
        } else if c == '(' || c == '[' || c == '{' || c == ')' || c == ']' || c == '}' {
            8
        } else if char_math_symbol(c) {
            9
        } else if (c as u32) < 0x20 || (0x7F <= (c as u32) && (c as u32) <= 0x9F) {
            0
        } else {
            8
        }
    }

    /// Counts the characters of `text` into the twelve classes.
    pub fn new(text: &str) -> (r: Self)
        ensures
            r@ == pattern_of(text@),
    {
        let cs = chars_of(text);
        let mut counts: [usize; 12] = [0, 0, 0, 0, 0, 0, 0, 0, 0, 0, 0, 0];
        let mut total: usize = 0;
        let mut i: usize = 0;
        while i < cs.len()
            invariant
                cs@ == text@,
                i <= cs@.len(),
                total == i,
                forall|k: int| 0 <= k < 12 ==> counts@[k] == count_class(cs@.take(i as int), k),
            decreases cs@.len() - i,
        {
            let t = Self::get_char_type(cs[i]);
            proof {
                lemma_count_class_le(cs@.take(i as int), char_class(cs@[i as int]));
            }
            counts[t as usize] = counts[t as usize] + 1;
            total = total + 1;
            i = i + 1;
            proof {
                assert(cs@.take(i as int).drop_last() =~= cs@.take(i - 1));
                assert(forall|k: int|
                    0 <= k < 12 ==> counts@[k] == count_class(cs@.take(i as int), k));
            }
        }
        let r = CharacterPattern { counts, total };
        proof {
            assert(cs@.take(cs@.len() as int) =~= text@);
            assert(r@.counts =~= pattern_of(text@).counts);
        }
        r
    }

    /// The dominant pattern type; see `pattern_type_of`.
    pub fn get_pattern_type(&self) -> (r: i32)
        ensures
            r == pattern_type_of(self@),
            0 <= r <= 10,
    {
        if self.total == 0 {
            return 0;
        }
        let c2 = self.counts[2] as i128;
        let c0 = self.counts[0] as i128;
        let c3 = self.counts[3] as i128;
        let c4 = self.counts[4] as i128;
        let c5 = self.counts[5] as i128;
        let c6 = self.counts[6] as i128;
        let c7 = self.counts[7] as i128;
        let c8 = self.counts[8] as i128;
        let c9 = self.counts[9] as i128;
        let scores: [i128; 11] = [
            c0 + c2,
            0,
            c2 * 10,
            c3 - 3 * (c4 + c5 + c6 + c7 + c8) - 10 * c9,
            c4,
            c5 - 10 * (c6 + c7),
            c6,
            c7,
            c8,
            c9,
            self.counts[10] as i128,
        ];
        proof {
            assert(forall|i: int| 0 <= i < 11 ==> scores@[i] == class_score(self@, i));
        }
        let mut best: i32 = 0;
        let mut i: usize = 1;
        while i < 11
            invariant
                1 <= i <= 11,
                0 <= best < i,
                forall|j: int| 0 <= j < 11 ==> scores@[j] == class_score(self@, j),
                best == best_class_upto(self@, i - 1),
            decreases 11 - i,
        {
            if scores[i] > scores[best as usize] {
                best = i as i32;
            }
            i = i + 1;
        }
        best
    }
}

// ---------------------------------------------------------------------------
// Lines
// ---------------------------------------------------------------------------

/// One baseline-aligned run of characters: the replica text, the running
/// bounding box, the running sum and count of character heights (their
/// quotient is the average font size), the page number, the style and skew
/// of the first character, the ordered chunk list, and the baseline.
#[derive(Debug)]
pub struct PdfLine {
    pub text: String,
    pub bounds: PdfRectValue,
    pub font_size_sum: u128,
    pub font_size_count: usize,
    pub page_num: i32,
    pub style: PdfStyle,
    pub skew: i64,
    pub chunks: Vec<TextChunk>,
    pub y: i64,
}

/// Mathematical model of a line.
pub ghost struct LineModel {
    pub text: Seq<char>,
    pub bounds: RectModel,
    pub fs_sum: int,
    pub fs_count: int,
    pub page_num: int,
    pub style: StyleModel,
    pub skew: int,
    pub chunks: Seq<ChunkModel>,
    pub y: int,
}

impl View for PdfLine {
    type V = LineModel;

    open spec fn view(&self) -> LineModel {
        LineModel {
            text: self.text@,
            bounds: self.bounds@,
            fs_sum: self.font_size_sum as int,
            fs_count: self.font_size_count as int,
            page_num: self.page_num as int,
            style: self.style@,
            skew: self.skew as int,
            chunks: Seq::new(self.chunks@.len(), |i: int| self.chunks@[i]@),
            y: self.y as int,
        }
    }
}

/// The numeric fields of `l` lie within the coordinate bounds, and the
/// height sum is bounded by the height count.
pub open spec fn wf_line(l: LineModel) -> bool {
    &&& wf_rect(l.bounds)
    &&& -COORD_BOUND <= l.y <= COORD_BOUND
    &&& wf_style(l.style)
    &&& -COORD_BOUND <= l.skew <= COORD_BOUND
    &&& 0 <= l.fs_count <= usize::MAX
    &&& 0 <= l.fs_sum <= 2 * COORD_BOUND * l.fs_count
    &&& forall|i: int| 0 <= i < l.chunks.len() ==> wf_chunk(#[trigger] l.chunks[i])
}

/// A fresh line: empty text, the given bounds, no height samples yet.
pub open spec fn new_line_model(
    bounds: RectModel,
    page_num: int,
    style: StyleModel,
    skew: int,
    y: int,
) -> LineModel {
    LineModel {
        text: Seq::empty(),
        bounds,
        fs_sum: 0,
        fs_count: 0,
        page_num,
        style,
        skew,
        chunks: Seq::empty(),
        y,
    }
}

/// The smallest rectangle containing both `a` and `b`.
pub open spec fn rect_union(a: RectModel, b: RectModel) -> RectModel {
    RectModel {
        left: if b.left < a.left {
            b.left
        } else {
            a.left
        },
        top: if b.top > a.top {
            b.top
        } else {
            a.top
        },
        right: if b.right > a.right {
            b.right
        } else {
            a.right
        },
        bottom: if b.bottom < a.bottom {
            b.bottom
        } else {
            a.bottom
        },
    }
}

/// A run of five literal spaces, standing in for a large horizontal jump.
pub open spec fn five_spaces() -> Seq<char> {
    seq![' ', ' ', ' ', ' ', ' ']
}

/// The replica-building rule of the line assembler: a blank character is
/// ignored; otherwise a horizontal gap beyond five space widths inserts a
/// run of five spaces, a gap beyond three tenths of a space width inserts
/// one space, and the character's text, height and rectangle are folded
/// into the line.
pub open spec fn append_replica_model(
    l: LineModel,
    text: Seq<char>,
    rect: RectModel,
    space_width: int,
    last_right: int,
) -> LineModel {
    if crate::text::trim_of(text).len() == 0 {
        l
    } else {
        let gap = rect.left - last_right;
        let t1 = if gap > 5 * space_width {
            l.text + five_spaces()
        } else if 10 * gap > 3 * space_width && l.text.len() > 0 {
            l.text.push(' ')
        } else {
            l.text
        };
        let h = abs_of(rect.top - rect.bottom);
        LineModel {
            text: t1 + text,
            bounds: rect_union(l.bounds, rect),
            fs_sum: l.fs_sum + h,
            fs_count: l.fs_count + 1,
            page_num: l.page_num,
            style: l.style,
            skew: l.skew,
            chunks: l.chunks,
            y: l.y,
        }
    }
}

impl Clone for PdfLine {
    /// Copies the line; the copy has the same model.
    fn clone(&self) -> (r: Self)
        ensures
            r@ == self@,
    {
        let mut chunks: Vec<TextChunk> = Vec::new();
        let mut i: usize = 0;
        while i < self.chunks.len()
            invariant
                i <= self.chunks@.len(),
                chunks@.len() == i,
                forall|j: int| 0 <= j < i ==> chunks@[j]@ == #[trigger] self.chunks@[j]@,
            decreases self.chunks@.len() - i,
        {
            chunks.push(self.chunks[i].clone());
            i = i + 1;
        }
        let r = PdfLine {
            text: self.text.clone(),
            bounds: self.bounds,
            font_size_sum: self.font_size_sum,
            font_size_count: self.font_size_count,
            page_num: self.page_num,
            style: self.style.clone(),
            skew: self.skew,
            chunks,
            y: self.y,
        };
        proof {
            assert(r@.chunks =~= self@.chunks);
            assert(r@ =~= self@);
        }
        r
    }
}

impl PdfLine {
    /// Opens a line at baseline `y` with the given first-character data.
    pub fn new(bounds: PdfRectValue, page_num: i32, style: PdfStyle, skew: i64, y: i64) -> (r:
        Self)
        ensures
            r@ == new_line_model(bounds@, page_num as int, style@, skew as int, y as int),
    {
        let r = PdfLine {
            text: String::new(),
            bounds,
            font_size_sum: 0,
            font_size_count: 0,
            page_num,
            style,
            skew,
            chunks: Vec::new(),
            y,
        };
        proof {
            assert(r@.chunks =~= Seq::<ChunkModel>::empty());
            assert(r@ =~= new_line_model(bounds@, page_num as int, style@, skew as int, y as int));
        }
        r
    }

    /// Appends one character to the replica text, following
    /// `append_replica_model`.
    pub fn append_char_replica(
        &mut self,
        text: &str,
        bounds: PdfRectValue,
        space_width: i64,
        last_right: i64,
    )
        requires
            wf_line(old(self)@),
            old(self)@.fs_count < usize::MAX,
            wf_rect(bounds@),
            0 <= space_width <= 2 * COORD_BOUND,
            -COORD_BOUND <= last_right <= COORD_BOUND,
        ensures
            final (self)@ == append_replica_model(
                old(self)@,
                text@,
                bounds@,
                space_width as int,
                last_right as int,
            ),
            wf_line(final (self)@),
    {
        let t = chars_of(text);
        let trimmed = crate::text::trimmed_chars(&t);
        if trimmed.len() == 0 {
            return ;
        }
        let gap = bounds.left - last_right;
        if gap > 5 * space_width {
            self.text.append("     ");
            proof {
                reveal_strlit("     ");
                assert("     "@ =~= five_spaces());
            }
        } else if 10 * gap > 3 * space_width && self.text.unicode_len() > 0 {
            self.text.append(" ");
            proof {
                reveal_strlit(" ");
                assert(" "@ =~= seq![' ']);
                assert(old(self)@.text.push(' ') =~= old(self)@.text + seq![' ']);
            }
        }
        let h = if bounds.top >= bounds.bottom {
            bounds.top - bounds.bottom
        } else {
            bounds.bottom - bounds.top
        };
        proof {
            let cb = COORD_BOUND as int;
            let cnt = old(self)@.fs_count;
            assert(2 * cb * cnt <= 2 * cb * (usize::MAX as int)) by (nonlinear_arith)
                requires
                    0 <= cnt <= usize::MAX as int,
                    cb > 0,
            ;
            assert(2 * cb * (cnt + 1) == 2 * cb * cnt + 2 * cb) by (nonlinear_arith);
        }
        self.font_size_sum = self.font_size_sum + (h as u128);
        self.font_size_count = self.font_size_count + 1;
        let new_left = if bounds.left < self.bounds.left {
            bounds.left
        } else {
            self.bounds.left
        };
        let new_top = if bounds.top > self.bounds.top {
            bounds.top
        } else {
            self.bounds.top
        };
        let new_right = if bounds.right > self.bounds.right {
            bounds.right
        } else {
            self.bounds.right
        };
        let new_bottom = if bounds.bottom < self.bounds.bottom {
            bounds.bottom
        } else {
            self.bounds.bottom
        };
        self.bounds = PdfRectValue {
            left: new_left,
            top: new_top,
            right: new_right,
            bottom: new_bottom,
        };
        self.text.append(text);
        proof {
            assert(final (self)@.chunks =~= old(self)@.chunks);
            assert(final (self)@ =~= append_replica_model(
                old(self)@,
                text@,
                bounds@,
                space_width as int,
                last_right as int,
            ));
        }
    }

    /// Appends one chunk to the line's chunk list.
    pub fn add_chunk(&mut self, chunk: TextChunk)
        ensures
            final (self)@ == (LineModel { chunks: old(self)@.chunks.push(chunk@), ..old(self)@ }),
    {
        self.chunks.push(chunk);
        proof {
            assert(final (self)@.chunks =~= old(self)@.chunks.push(chunk@));
            assert(final (self)@ =~= LineModel {
                chunks: old(self)@.chunks.push(chunk@),
                ..old(self)@
            });
        }
    }

    /// Grows the line's bounding box to cover `other`.
    pub fn extend_bounds(&mut self, other: PdfRectValue)
        ensures
            final (self)@ == (LineModel {
                bounds: rect_union(old(self)@.bounds, other@),
                ..old(self)@
            }),
    {
        if other.left < self.bounds.left {
            self.bounds.left = other.left;
        }
        if other.top > self.bounds.top {
            self.bounds.top = other.top;
        }
        if other.right > self.bounds.right {
            self.bounds.right = other.right;
        }
        if other.bottom < self.bounds.bottom {
            self.bounds.bottom = other.bottom;
        }
        proof {
            assert(final (self)@.chunks =~= old(self)@.chunks);
            assert(final (self)@ =~= LineModel {
                bounds: rect_union(old(self)@.bounds, other@),
                ..old(self)@
            });
        }
    }
}

// ---------------------------------------------------------------------------
// Blocks
// ---------------------------------------------------------------------------

/// The plain text of a block: the texts of its lines, joined by single
/// spaces.
pub open spec fn plain_text_of(lines: Seq<LineModel>) -> Seq<char>
    decreases lines.len(),
{
    if lines.len() == 0 {
        Seq::empty()
    } else if lines.len() == 1 {
        lines[0].text
    } else {
        plain_text_of(lines.drop_last()) + seq![' '] + lines.last().text
    }
}

/// The separator the reconstruction inserts between two adjacent chunks: a
/// run of five spaces for a gap beyond six space widths, one space for a
/// gap beyond half a space width, nothing otherwise.  A nonpositive space
/// width falls back to a quarter of the previous chunk's font size.
pub open spec fn chunk_sep(prev: ChunkModel, cur: ChunkModel) -> Seq<char> {
    let sw = if prev.single_space_width <= 0 {
        prev.font_size / 4
    } else {
        prev.single_space_width
    };
    let gap = cur.x - (prev.x + prev.width);
    if gap > 6 * sw {
        five_spaces()
    } else if 2 * gap > sw {
        seq![' ']
    } else {
        Seq::empty()
    }
}

/// The spacing-aware text of a chunk list: each chunk's text, with the
/// separator of `chunk_sep` between neighbours.
pub open spec fn chunks_text(cs: Seq<ChunkModel>) -> Seq<char>
    decreases cs.len(),
{
    if cs.len() == 0 {
        Seq::empty()
    } else if cs.len() == 1 {
        cs[0].text
    } else {
        chunks_text(cs.drop_last()) + chunk_sep(cs[cs.len() - 2], cs.last()) + cs.last().text
    }
}

/// The reconstructed text of one line: its chunk list's spacing-aware
/// text, or the replica text where no chunks were recorded.
pub open spec fn line_reconstruct(l: LineModel) -> Seq<char> {
    if l.chunks.len() == 0 {
        l.text
    } else {
        chunks_text(l.chunks)
    }
}

/// The reconstructed text of a block: its lines' reconstructed texts,
/// joined by line feeds.
pub open spec fn reconstruct_of(lines: Seq<LineModel>) -> Seq<char>
    decreases lines.len(),
{
    if lines.len() == 0 {
        Seq::empty()
    } else if lines.len() == 1 {
        line_reconstruct(lines[0])
    } else {
        reconstruct_of(lines.drop_last()) + seq!['\n'] + line_reconstruct(lines.last())
    }
}

/// The views of a block vector.
pub open spec fn views_of_blocks(s: Seq<PdfBlock>) -> Seq<BlockModel> {
    Seq::new(s.len(), |i: int| s[i]@)
}

/// The horizontal extent of the widest line, at least zero.
pub open spec fn max_line_width(lines: Seq<LineModel>) -> int
    decreases lines.len(),
{
    if lines.len() == 0 {
        0
    } else {
        let w = lines.last().bounds.right - lines.last().bounds.left;
        let m = max_line_width(lines.drop_last());
        if w > m {
            w
        } else {
            m
        }
    }
}

/// The sum of the lines' skews.
pub open spec fn skew_sum_of(lines: Seq<LineModel>) -> int
    decreases lines.len(),
{
    if lines.len() == 0 {
        0
    } else {
        skew_sum_of(lines.drop_last()) + lines.last().skew
    }
}

/// The quotient of `sum` by `n`, rounded toward zero.
pub open spec fn mean_toward_zero(sum: int, n: int) -> int {
    if sum >= 0 {
        sum / n
    } else {
        -((-sum) / n)
    }
}

/// The skew sum of well-formed lines is bounded by the coordinate
/// bound times the line count.
pub proof fn lemma_skew_sum_bounds(lines: Seq<LineModel>)
    requires
        forall|i: int| 0 <= i < lines.len() ==> wf_line(#[trigger] lines[i]),
    ensures
        -(COORD_BOUND as int) * (lines.len() as int) <= skew_sum_of(lines) <= (COORD_BOUND as int)
            * (lines.len() as int),
    decreases lines.len(),
{
    if lines.len() > 0 {
        assert(forall|i: int|
            0 <= i < lines.drop_last().len() ==> wf_line(#[trigger] lines.drop_last()[i]));
        lemma_skew_sum_bounds(lines.drop_last());
        let cb = COORD_BOUND as int;
        let m = lines.len() - 1;
        assert(cb * m + cb == cb * (m + 1)) by (nonlinear_arith);
    }
}

/// The placeholder style used where a document has no blocks at all.
pub open spec fn default_style_model() -> StyleModel {
    StyleModel { name: "Default"@, size_scaled: 100 }
}

/// The style of a block: the style of its first line.
pub open spec fn primary_style_of(b: BlockModel) -> StyleModel {
    if b.lines.len() > 0 {
        b.lines[0].style
    } else {
        default_style_model()
    }
}

/// The page number of a block: the page of its first line.
pub open spec fn page_num_of(b: BlockModel) -> int {
    if b.lines.len() > 0 {
        b.lines[0].page_num
    } else {
        0
    }
}

/// One or more lines judged to form a continuous paragraph or entry.  The
/// two optional fields memoize the plain text and the character pattern;
/// they are cleared whenever a line is appended.
#[derive(Debug)]
pub struct PdfBlock {
    pub lines: Vec<PdfLine>,
    pub cached_text: Option<String>,
    pub char_pattern: Option<CharacterPattern>,
}

/// Mathematical model of a block: its lines.  The caches are not part of
/// the model; `PdfBlock::inv` ties them to it.
pub ghost struct BlockModel {
    pub lines: Seq<LineModel>,
}

impl View for PdfBlock {
    type V = BlockModel;

    open spec fn view(&self) -> BlockModel {
        BlockModel { lines: Seq::new(self.lines@.len(), |i: int| self.lines@[i]@) }
    }
}

impl Clone for PdfBlock {
    /// Copies the block; the copy has the same model, and a well-formed
    /// block's copy is well formed.
    fn clone(&self) -> (r: Self)
        ensures
            r@ == self@,
            self.inv() ==> r.inv(),
    {
        let mut lines: Vec<PdfLine> = Vec::new();
        let mut i: usize = 0;
        while i < self.lines.len()
            invariant
                i <= self.lines@.len(),
                lines@.len() == i,
                forall|j: int| 0 <= j < i ==> lines@[j]@ == #[trigger] self.lines@[j]@,
            decreases self.lines@.len() - i,
        {
            lines.push(self.lines[i].clone());
            i = i + 1;
        }
        let cached_text = match &self.cached_text {
            Some(s) => Some(s.clone()),
            None => None,
        };
        let char_pattern = match &self.char_pattern {
            Some(p) => Some(p.clone()),
            None => None,
        };
        let r = PdfBlock { lines, cached_text, char_pattern };
        proof {
            assert(r@.lines =~= self@.lines);
            assert(r@ =~= self@);
        }
        r
    }
}

impl PdfBlock {
    /// Well-formedness: at least one line, every line well formed, and any
    /// memoized text or pattern agreeing with the lines.
    pub open spec fn inv(&self) -> bool {
        &&& self@.lines.len() >= 1
        &&& forall|i: int| 0 <= i < self@.lines.len() ==> wf_line(#[trigger] self@.lines[i])
        &&& match self.cached_text {
            Some(s) => s@ == plain_text_of(self@.lines),
            None => true,
        }
        &&& match self.char_pattern {
            Some(p) => p@ == pattern_of(plain_text_of(self@.lines)),
            None => true,
        }
    }

    /// Starts a block holding the one given line.
    pub fn from_line(line: PdfLine) -> (r: Self)
        requires
            wf_line(line@),
        ensures
            r@.lines == seq![line@],
            r.inv(),
    {
        let mut lines: Vec<PdfLine> = Vec::new();
        lines.push(line);
        let r = PdfBlock { lines, cached_text: None, char_pattern: None };
        proof {
            assert(r@.lines =~= seq![line@]);
        }
        r
    }

    /// Appends a line and clears both memoized fields.
    pub fn merge_line(&mut self, line: PdfLine)
        requires
            old(self).inv(),
            wf_line(line@),
        ensures
            final (self)@.lines == old(self)@.lines.push(line@),
            final (self).inv(),
    {
        self.lines.push(line);
        self.cached_text = None;
        self.char_pattern = None;
        proof {
            assert(final (self)@.lines =~= old(self)@.lines.push(line@));
        }
    }

    /// The plain text of the block, memoizing it on first use.
    pub fn get_text_plain(&mut self) -> (t: String)
        requires
            old(self).inv(),
        ensures
            final (self)@ == old(self)@,
            final (self).inv(),
            t@ == plain_text_of(old(self)@.lines),
    {
        if self.cached_text.is_none() {
            let mut out = String::new();
            let mut i: usize = 0;
            while i < self.lines.len()
                invariant
                    i <= self.lines@.len(),
                    out@ == plain_text_of(self@.lines.take(i as int)),
                decreases self.lines@.len() - i,
            {
                if i > 0 {
                    out.append(" ");
                    proof {
                        reveal_strlit(" ");
                        assert(" "@ =~= seq![' ']);
                    }
                }
                out.append(self.lines[i].text.as_str());
                i = i + 1;
                proof {
                    assert(self@.lines.take(i as int).drop_last() =~= self@.lines.take(i - 1));
                    assert(self@.lines.take(i as int).last() == self@.lines[i - 1]);
                }
            }
            proof {
                assert(self@.lines.take(self.lines@.len() as int) =~= self@.lines);
            }
            self.cached_text = Some(out);
        }
        let t = match &self.cached_text {
            Some(s) => s.clone(),
            None => String::new(),
        };
        proof {
            assert(final (self)@ =~= old(self)@);
        }
        t
    }

    /// The character pattern of the block's plain text, memoizing it on
    /// first use.
    pub fn get_char_pattern(&mut self) -> (p: CharacterPattern)
        requires
            old(self).inv(),
        ensures
            final (self)@ == old(self)@,
            final (self).inv(),
            p@ == pattern_of(plain_text_of(old(self)@.lines)),
    {
        let t = self.get_text_plain();
        if self.char_pattern.is_none() {
            self.char_pattern = Some(CharacterPattern::new(t.as_str()));
        }
        match &self.char_pattern {
            Some(p) => p.clone(),
            None => CharacterPattern::new(""),
        }
    }

    /// The style of the block's first line.
    pub fn get_primary_style(&self) -> (r: &PdfStyle)
        requires
            self.inv(),
        ensures
            r@ == primary_style_of(self@),
    {
        &self.lines[0].style
    }

    /// The page number of the block's first line.
    pub fn get_page_num(&self) -> (r: i32)
        requires
            self.inv(),
        ensures
            r == page_num_of(self@),
    {
        self.lines[0].page_num
    }

    /// The left edge of the block's first line.
    pub fn get_x(&self) -> (r: i64)
        requires
            self.inv(),
        ensures
            r == self@.lines[0].bounds.left,
    {
        self.lines[0].bounds.left
    }

    /// The baseline of the block's first line.
    pub fn get_y(&self) -> (r: i64)
        requires
            self.inv(),
        ensures
            r == self@.lines[0].y,
    {
        self.lines[0].y
    }

    /// The widest line's horizontal extent.
    pub fn get_width(&self) -> (r: i64)
        requires
            self.inv(),
        ensures
            r == max_line_width(self@.lines),
    {
        let mut m: i64 = 0;
        let mut i: usize = 0;
        while i < self.lines.len()
            invariant
                self.inv(),
                i <= self.lines@.len(),
                m == max_line_width(self@.lines.take(i as int)),
            decreases self.lines@.len() - i,
        {
            proof {
                assert(wf_line(self@.lines[i as int]));
            }
            let w = self.lines[i].bounds.right - self.lines[i].bounds.left;
            if w > m {
                m = w;
            }
            i = i + 1;
            proof {
                assert(self@.lines.take(i as int).drop_last() =~= self@.lines.take(i - 1));
                assert(self@.lines.take(i as int).last() == self@.lines[i - 1]);
            }
        }
        proof {
            assert(self@.lines.take(self.lines@.len() as int) =~= self@.lines);
        }
        m
    }

    /// The vertical extent from the first line's baseline down to the
    /// last line's baseline less its style's size.
    pub fn get_height(&self) -> (r: i64)
        requires
            self.inv(),
        ensures
            r == self@.lines[0].y - (self@.lines.last().y - self@.lines.last().style.size_scaled
                * 1000),
    {
        let top = self.lines[0].y;
        let k = self.lines.len() - 1;
        let last = &self.lines[k];
        proof {
            assert(wf_line(self@.lines[0]));
            assert(wf_line(self@.lines[k as int]));
            assert(last@ == self@.lines[k as int]);
            assert(self@.lines[k as int] == self@.lines.last());
        }
        let bottom = last.y - last.style.font_size_scaled * 1000;
        top - bottom
    }

    /// The mean skew of the block's lines, rounded toward zero.
    pub fn get_skew(&self) -> (r: i64)
        requires
            self.inv(),
        ensures
            r == mean_toward_zero(skew_sum_of(self@.lines), self@.lines.len() as int),
    {
        let mut sum: i128 = 0;
        let mut i: usize = 0;
        while i < self.lines.len()
            invariant
                self.inv(),
                i <= self.lines@.len(),
                sum == skew_sum_of(self@.lines.take(i as int)),
            decreases self.lines@.len() - i,
        {
            proof {
                let cb = COORD_BOUND as int;
                assert(forall|j: int|
                    0 <= j < i ==> wf_line(#[trigger] self@.lines.take(i as int)[j]));
                lemma_skew_sum_bounds(self@.lines.take(i as int));
                assert(wf_line(self@.lines[i as int]));
                assert(cb * (i as int) <= cb * (usize::MAX as int)) by (nonlinear_arith)
                    requires
                        0 <= i as int <= usize::MAX as int,
                        cb > 0,
                ;
            }
            sum = sum + (self.lines[i].skew as i128);
            i = i + 1;
            proof {
                assert(self@.lines.take(i as int).drop_last() =~= self@.lines.take(i - 1));
                assert(self@.lines.take(i as int).last() == self@.lines[i - 1]);
            }
        }
        proof {
            assert(self@.lines.take(self.lines@.len() as int) =~= self@.lines);
        }
        let n = self.lines.len();
        proof {
            let cb = COORD_BOUND as int;
            assert(forall|j: int| 0 <= j < self@.lines.len() ==> wf_line(#[trigger] self@.lines[j]));
            lemma_skew_sum_bounds(self@.lines);
            vstd::arithmetic::div_mod::lemma_div_is_ordered(
                if sum >= 0 {
                    sum as int
                } else {
                    -(sum as int)
                },
                cb * (n as int),
                n as int,
            );
            vstd::arithmetic::div_mod::lemma_div_multiples_vanish(cb, n as int);
            vstd::arithmetic::div_mod::lemma_div_is_ordered(
                0,
                if sum >= 0 {
                    sum as int
                } else {
                    -(sum as int)
                },
                n as int,
            );
        }
        if sum >= 0 {
            ((sum as u128) / (n as u128)) as i64
        } else {
            -((((-sum) as u128) / (n as u128)) as i64)
        }
    }

    /// Whether the block's font name contains the word "bold", compared
    /// with ASCII capitals lowered.
    pub fn is_bold(&self) -> (r: bool)
        requires
            self.inv(),
        ensures
            r == crate::text::contains_seq(
                crate::text::ascii_lower_seq(primary_style_of(self@).name),
                "bold"@,
            ),
    {
        let lowered = crate::text::ascii_lowercase(self.lines[0].style.font_name.as_str());
        let hay = chars_of(lowered.as_str());
        let needle = chars_of("bold");
        crate::text::contains_chars(&hay, &needle)
    }

    /// The spacing-aware reconstructed text of the block, per
    /// `reconstruct_of`.
    pub fn get_text_reconstructed(&self) -> (r: String)
        requires
            self.inv(),
        ensures
            r@ == reconstruct_of(self@.lines),
    {
        let mut out = String::new();
        let mut i: usize = 0;
        while i < self.lines.len()
            invariant
                self.inv(),
                i <= self.lines@.len(),
                out@ == reconstruct_of(self@.lines.take(i as int)),
            decreases self.lines@.len() - i,
        {
            let line = &self.lines[i];
            let mut ls = String::new();
            if line.chunks.len() == 0 {
                ls.append(line.text.as_str());
                proof {
                    assert(ls@ =~= line_reconstruct(self@.lines[i as int]));
                }
            } else {
                ls.append(line.chunks[0].text.as_str());
                proof {
                    assert(ls@ =~= chunks_text(self@.lines[i as int].chunks.take(1)));
                }
                let mut j: usize = 1;
                while j < line.chunks.len()
                    invariant
                        self.inv(),
                        i < self.lines@.len(),
                        line == &self.lines[i as int],
                        1 <= j <= line.chunks@.len(),
                        ls@ == chunks_text(self@.lines[i as int].chunks.take(j as int)),
                    decreases line.chunks@.len() - j,
                {
                    let prev = &line.chunks[j - 1];
                    let cur = &line.chunks[j];
                    proof {
                        assert(wf_line(self@.lines[i as int]));
                        assert(wf_chunk(self@.lines[i as int].chunks[j - 1]));
                        assert(wf_chunk(self@.lines[i as int].chunks[j as int]));
                    }
                    let sw: i64 = if prev.single_space_width <= 0 {
                        ((prev.font_size as u64) / 4) as i64
                    } else {
                        prev.single_space_width
                    };
                    let gap: i64 = cur.x - (prev.x + prev.width);
                    if gap > 6 * sw {
                        ls.append("     ");
                        proof {
                            reveal_strlit("     ");
                            assert("     "@ =~= five_spaces());
                        }
                    } else if 2 * gap > sw {
                        ls.append(" ");
                        proof {
                            reveal_strlit(" ");
                            assert(" "@ =~= seq![' ']);
                        }
                    }
                    ls.append(cur.text.as_str());
                    j = j + 1;
                    proof {
                        let cs = self@.lines[i as int].chunks;
                        assert(cs.take(j as int).drop_last() =~= cs.take(j - 1));
                        assert(cs.take(j as int).last() == cs[j - 1]);
                        assert(cs.take(j as int)[j - 2] == cs[j - 2]);
                    }
                }
                proof {
                    let cs = self@.lines[i as int].chunks;
                    assert(cs.take(cs.len() as int) =~= cs);
                    assert(ls@ =~= line_reconstruct(self@.lines[i as int]));
                }
            }
            if i > 0 {
                out.append("\n");
                proof {
                    reveal_strlit("\n");
                    assert("\n"@ =~= seq!['\n']);
                }
            }
            out.append(ls.as_str());
            i = i + 1;
            proof {
                assert(self@.lines.take(i as int).drop_last() =~= self@.lines.take(i - 1));
                assert(self@.lines.take(i as int).last() == self@.lines[i - 1]);
            }
        }
        proof {
            assert(self@.lines.take(self.lines@.len() as int) =~= self@.lines);
        }
        out
    }
}

} // verus!
