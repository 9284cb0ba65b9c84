//! Page metrics: per-character advance-width inference and the page-global
//! space width.
//!
//! For each character the inferred advance width defaults to its own glyph
//! width; where the next character shares the baseline (within one point)
//! and the horizontal delta is positive and below one and a half times the
//! font size, that delta is taken instead.  The page's space width is the
//! glyph width of the last character whose text is exactly one space, or,
//! where none occurs, the mean inferred advance width.

use crate::models::abs_of;
use crate::models::AnalyzableChar;
use crate::models::CharModel;
use crate::models::COORD_BOUND;
use crate::models::POINT_UNITS;
use crate::models::wf_char;
use vstd::arithmetic::div_mod::lemma_div_is_ordered;
use vstd::arithmetic::div_mod::lemma_div_multiples_vanish;
use vstd::prelude::*;

verus! {

/// The views of a character vector.
pub open spec fn views_of_chars(s: Seq<AnalyzableChar>) -> Seq<CharModel> {
    Seq::new(s.len(), |i: int| s[i]@)
}

/// The inferred advance width of character `i`: the delta to the next
/// character where that neighbour shares the baseline and the delta is
/// positive and below one and a half font sizes; the glyph width
/// otherwise.
pub open spec fn advance_width_at(chars: Seq<CharModel>, i: int) -> int {
    if 0 <= i && i + 1 < chars.len() {
        let dx = chars[i + 1].x - chars[i].x;
        if abs_of(chars[i].y - chars[i + 1].y) < POINT_UNITS && 0 < dx && 2 * dx < 3 * chars[i].font_size {
            dx
        } else {
            chars[i].width
        }
    } else if 0 <= i < chars.len() {
        chars[i].width
    } else {
        0
    }
}

/// Whether the character's text is exactly one space.
pub open spec fn is_space_char(c: CharModel) -> bool {
    c.text.len() == 1 && c.text[0] == ' '
}

/// The glyph width of the last space character among the first `i`, if
/// any.
pub open spec fn observed_space_width(chars: Seq<CharModel>, i: int) -> Option<int>
    decreases i,
{
    if i <= 0 || i > chars.len() {
        None
    } else if is_space_char(chars[i - 1]) {
        Some(chars[i - 1].width)
    } else {
        observed_space_width(chars, i - 1)
    }
}

/// The sum of the inferred advance widths of the first `i` characters.
pub open spec fn advance_sum(chars: Seq<CharModel>, i: int) -> int
    decreases i,
{
    if i <= 0 {
        0
    } else {
        advance_sum(chars, i - 1) + advance_width_at(chars, i - 1)
    }
}

/// The page's space width: the width of the last observed space
/// character, else the mean inferred advance width, else zero on an empty
/// page.
pub open spec fn page_space_width(chars: Seq<CharModel>) -> int {
    match observed_space_width(chars, chars.len() as int) {
        Some(w) => w,
        None => if chars.len() > 0 {
            advance_sum(chars, chars.len() as int) / (chars.len() as int)
        } else {
            0
        },
    }
}

/// An advance width is between zero and twice the coordinate bound.
proof fn lemma_advance_width_bounds(chars: Seq<CharModel>, i: int)
    requires
        forall|j: int| 0 <= j < chars.len() ==> wf_char(#[trigger] chars[j]),
    ensures
        0 <= advance_width_at(chars, i) <= 2 * COORD_BOUND,
{
}

proof fn lemma_advance_sum_bounds(chars: Seq<CharModel>, i: int)
    requires
        forall|j: int| 0 <= j < chars.len() ==> wf_char(#[trigger] chars[j]),
        0 <= i <= chars.len(),
    ensures
        0 <= advance_sum(chars, i) <= 2 * COORD_BOUND * i,
    decreases i,
{
    if i > 0 {
        lemma_advance_sum_bounds(chars, i - 1);
        lemma_advance_width_bounds(chars, i - 1);
        assert(2 * COORD_BOUND * i == 2 * COORD_BOUND * (i - 1) + 2 * COORD_BOUND) by (nonlinear_arith);
    }
}

/// Page metrics calculator.
pub struct TextMetrics;

impl TextMetrics {
    /// Computes the page's space width and the inferred advance width of
    /// every character, per `page_space_width` and `advance_width_at`.
    pub fn compute_page_metrics(chars: &Vec<AnalyzableChar>) -> (r: (i64, Vec<i64>))
        requires
            forall|j: int|
                0 <= j < chars@.len() ==> wf_char(#[trigger] views_of_chars(chars@)[j]),
        ensures
            r.1@.len() == chars@.len(),
            forall|j: int|
                0 <= j < chars@.len() ==> r.1@[j] == advance_width_at(
                    views_of_chars(chars@),
                    j,
                ),
            r.0 == page_space_width(views_of_chars(chars@)),
            0 <= r.0 <= 2 * COORD_BOUND,
    {
        let ghost cm = views_of_chars(chars@);
        let n = chars.len();
        let mut widths: Vec<i64> = Vec::new();
        let mut sum: u128 = 0;
        let mut space: i64 = 0;
        let mut seen_space = false;
        let mut i: usize = 0;
        while i < n
            invariant
                cm == views_of_chars(chars@),
                n == chars@.len(),
                forall|j: int| 0 <= j < n ==> wf_char(#[trigger] cm[j]),
                i <= n,
                widths@.len() == i,
                forall|j: int| 0 <= j < i ==> widths@[j] == advance_width_at(cm, j),
                sum == advance_sum(cm, i as int),
                sum <= 2 * (COORD_BOUND as u128) * (i as u128),
                0 <= space <= 2 * COORD_BOUND,
                if seen_space {
                    observed_space_width(cm, i as int) == Some(space as int)
                } else {
                    observed_space_width(cm, i as int) is None && space == 0
                },
            decreases n - i,
        {
            let c = &chars[i];
            proof {
                assert(cm[i as int] == chars@[i as int]@);
            }
            let adv: i64 = if i + 1 < n {
                let next = &chars[i + 1];
                proof {
                    assert(cm[i + 1] == chars@[i + 1]@);
                }
                let dy = if c.y >= next.y {
                    c.y - next.y
                } else {
                    next.y - c.y
                };
                let dx = next.x - c.x;
                if dy < POINT_UNITS && 0 < dx && 2 * dx < 3 * c.font_size {
                    dx
                } else {
                    c.width
                }
            } else {
                c.width
            };
            proof {
                assert(adv == advance_width_at(cm, i as int));
                lemma_advance_width_bounds(cm, i as int);
                let cb = COORD_BOUND as int;
                assert(2 * cb * (i as int) + 2 * cb == 2 * cb * (i + 1)) by (nonlinear_arith);
                assert(2 * (cb as int) * ((n as int)) >= 2 * (cb as int) * (i + 1)) by (nonlinear_arith)
                    requires
                        i + 1 <= n,
                        cb > 0,
                ;
                assert(2 * cb * (i as int) <= 2 * cb * (usize::MAX as int)) by (nonlinear_arith)
                    requires
                        0 <= i as int <= usize::MAX as int,
                        cb > 0,
                ;
            }
            sum = sum + (adv as u128);
            widths.push(adv);
            if c.text.unicode_len() == 1 {
                if c.text.get_char(0) == ' ' {
                    space = c.width;
                    seen_space = true;
                }
            }
            i = i + 1;
        }
        if !seen_space {
            if n > 0 {
                let mean = sum / (n as u128);
                proof {
                    let cb = COORD_BOUND as int;
                    lemma_div_is_ordered(sum as int, 2 * cb * (n as int), n as int);
                    lemma_div_multiples_vanish(2 * cb, n as int);
                    assert((2 * cb * (n as int)) / (n as int) == 2 * cb);
                    lemma_div_is_ordered(0, sum as int, n as int);
                }
                space = mean as i64;
            }
        }
        (space, widths)
    }
}

} // verus!
