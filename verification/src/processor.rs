//! The line assembler and block merger: turns one page's characters, in
//! reading order, into blocks of baseline-aligned lines.
//!
//! A new line starts when the baseline moves by more than one point.  A
//! finished, non-blank line either continues the most recent block or
//! starts a new one, judged by page, vertical gap, style identity,
//! left-edge alignment, and punctuation and numbering heuristics.

use crate::chars::char_lowercase;
use crate::chars::lowercase_letter;
use crate::models::abs_of;
use crate::models::append_replica_model;
use crate::models::new_line_model;
use crate::models::pattern_of;
use crate::models::plain_text_of;
use crate::models::rect_of_char;
use crate::models::scale_font_size;
use crate::models::views_of_blocks;
use crate::models::wf_char;
use crate::models::wf_line;
use crate::models::AnalyzableChar;
use crate::models::BlockModel;
use crate::models::CharModel;
use crate::models::ChunkModel;
use crate::models::LineModel;
use crate::models::PdfBlock;
use crate::models::PdfLine;
use crate::models::PdfRectValue;
use crate::models::PdfStyle;
use crate::models::StyleModel;
use crate::models::TextChunk;
use crate::models::COORD_BOUND;
use crate::models::POINT_UNITS;
use crate::patterns::ends_with_sentence_punct;
use crate::patterns::has_numbering_prefix;
use crate::patterns::has_sentence_punct_end;
use crate::patterns::numbering_prefix_match;
use crate::text::chars_of;
use crate::text::sanitize_of;
use crate::text::sanitized_chars;
use crate::text::string_of;
use crate::text::trim_of;
use crate::text::trimmed_chars;
use crate::text_metrics::advance_width_at;
use crate::text_metrics::page_space_width;
use crate::text_metrics::views_of_chars;
use crate::text_metrics::TextMetrics;
use vstd::prelude::*;

verus! {

// ---------------------------------------------------------------------------
// Reading order
// ---------------------------------------------------------------------------

/// Whether `a` strictly precedes `b` in reading order: higher baseline
/// first, then smaller horizontal position.
pub open spec fn reading_before(a: CharModel, b: CharModel) -> bool {
    a.y > b.y || (a.y == b.y && a.x < b.x)
}

/// Whether `s` is in reading order: no character strictly precedes its
/// predecessor.
pub open spec fn sorted_reading(s: Seq<CharModel>) -> bool {
    forall|i: int| 0 <= i && i + 1 < s.len() ==> !reading_before(#[trigger] s[i + 1], s[i])
}

/// Inserts `c` into the sorted sequence `s`, after every element it does
/// not strictly precede.
pub open spec fn insert_reading(c: CharModel, s: Seq<CharModel>) -> Seq<CharModel>
    decreases s.len(),
{
    if s.len() == 0 {
        seq![c]
    } else if reading_before(c, s.last()) {
        insert_reading(c, s.drop_last()).push(s.last())
    } else {
        s.push(c)
    }
}

/// Stable insertion sort of `s` into reading order.
pub open spec fn sort_reading(s: Seq<CharModel>) -> Seq<CharModel>
    decreases s.len(),
{
    if s.len() == 0 {
        Seq::empty()
    } else {
        insert_reading(s.last(), sort_reading(s.drop_last()))
    }
}

/// Inserting at the position the insertion scan finds equals the
/// recursive insertion, and keeps the sequence sorted.
proof fn lemma_insert_reading_at(s: Seq<CharModel>, c: CharModel, j: int)
    requires
        sorted_reading(s),
        0 <= j <= s.len(),
        forall|k: int| j <= k < s.len() ==> reading_before(c, #[trigger] s[k]),
        j > 0 ==> !reading_before(c, s[j - 1]),
    ensures
        insert_reading(c, s) == s.insert(j, c),
        sorted_reading(s.insert(j, c)),
    decreases s.len(),
{
    s.insert_ensures(j, c);
    let t = s.insert(j, c);
    assert forall|i: int| 0 <= i && i + 1 < t.len() implies !reading_before(
        #[trigger] t[i + 1],
        t[i],
    ) by {
        if i + 1 < j {
            assert(t[i] == s[i] && t[i + 1] == s[i + 1]);
        } else if i + 1 == j {
            assert(t[i] == s[i] && t[i + 1] == c);
        } else if i == j {
            assert(t[i] == c && t[i + 1] == s[i]);
        } else {
            assert(t[i] == s[i - 1] && t[i + 1] == s[i]);
        }
    }
    if s.len() == 0 {
        assert(insert_reading(c, s) =~= s.insert(j, c));
    } else if j == s.len() {
        assert(!reading_before(c, s.last()));
        assert(insert_reading(c, s) == s.push(c));
        assert(s.push(c) =~= s.insert(j, c));
    } else {
        assert(reading_before(c, s.last()));
        assert(forall|i: int|
            0 <= i && i + 1 < s.drop_last().len() ==> !reading_before(
                #[trigger] s.drop_last()[i + 1],
                s.drop_last()[i],
            ));
        lemma_insert_reading_at(s.drop_last(), c, j);
        s.drop_last().insert_ensures(j, c);
        assert(s.drop_last().insert(j, c).push(s.last()) =~= s.insert(j, c));
    }
}

/// Every element of the insertion result is well formed if the inputs
/// are.
proof fn lemma_insert_reading_wf(c: CharModel, s: Seq<CharModel>)
    requires
        wf_char(c),
        forall|i: int| 0 <= i < s.len() ==> wf_char(#[trigger] s[i]),
    ensures
        insert_reading(c, s).len() == s.len() + 1,
        forall|i: int|
            0 <= i < insert_reading(c, s).len() ==> wf_char(#[trigger] insert_reading(c, s)[i]),
    decreases s.len(),
{
    if s.len() == 0 {
    } else if reading_before(c, s.last()) {
        assert(forall|i: int|
            0 <= i < s.drop_last().len() ==> wf_char(#[trigger] s.drop_last()[i]));
        lemma_insert_reading_wf(c, s.drop_last());
    }
}

/// Sorting preserves length and well-formedness of every element.
pub proof fn lemma_sort_reading_wf(s: Seq<CharModel>)
    requires
        forall|i: int| 0 <= i < s.len() ==> wf_char(#[trigger] s[i]),
    ensures
        sort_reading(s).len() == s.len(),
        forall|i: int| 0 <= i < sort_reading(s).len() ==> wf_char(#[trigger] sort_reading(s)[i]),
    decreases s.len(),
{
    if s.len() > 0 {
        assert(forall|i: int|
            0 <= i < s.drop_last().len() ==> wf_char(#[trigger] s.drop_last()[i]));
        lemma_sort_reading_wf(s.drop_last());
        lemma_insert_reading_wf(s.last(), sort_reading(s.drop_last()));
    }
}

/// Sorting a sequence already in reading order returns it unchanged.
/// This is why re-sorting a sorted input cannot change the pipeline's
/// output.
pub proof fn lemma_sort_reading_of_sorted(s: Seq<CharModel>)
    requires
        sorted_reading(s),
    ensures
        sort_reading(s) == s,
    decreases s.len(),
{
    if s.len() > 0 {
        assert(forall|i: int|
            0 <= i && i + 1 < s.drop_last().len() ==> !reading_before(
                #[trigger] s.drop_last()[i + 1],
                s.drop_last()[i],
            ));
        lemma_sort_reading_of_sorted(s.drop_last());
        if s.len() >= 2 {
            assert(!reading_before(s[s.len() - 1], s[s.len() - 2]));
            assert(s.drop_last().push(s.last()) =~= s);
        } else {
            assert(Seq::<CharModel>::empty().push(s.last()) =~= s);
        }
    }
}

/// Whether `a` strictly precedes `b` in reading order.
fn before_exec(a: &AnalyzableChar, b: &AnalyzableChar) -> (r: bool)
    ensures
        r == reading_before(a@, b@),
{
    a.y > b.y || (a.y == b.y && a.x < b.x)
}

/// Sorts characters into reading order, stably.
pub fn sort_reading_order(chars: &Vec<AnalyzableChar>) -> (r: Vec<AnalyzableChar>)
    ensures
        views_of_chars(r@) == sort_reading(views_of_chars(chars@)),
        sorted_reading(views_of_chars(r@)),
{
    let ghost cm = views_of_chars(chars@);
    let mut out: Vec<AnalyzableChar> = Vec::new();
    let mut i: usize = 0;
    while i < chars.len()
        invariant
            cm == views_of_chars(chars@),
            i <= chars@.len(),
            views_of_chars(out@) == sort_reading(cm.take(i as int)),
            sorted_reading(views_of_chars(out@)),
            out@.len() == i,
        decreases chars@.len() - i,
    {
        let c = chars[i].clone();
        let ghost old_out = views_of_chars(out@);
        let mut j: usize = out.len();
        while j > 0 && before_exec(&c, &out[j - 1])
            invariant
                old_out == views_of_chars(out@),
                j <= out@.len(),
                forall|k: int|
                    j <= k < out@.len() ==> reading_before(c@, #[trigger] views_of_chars(out@)[k]),
            decreases j,
        {
            j = j - 1;
        }
        proof {
            lemma_insert_reading_at(old_out, c@, j as int);
        }
        out.insert(j, c);
        i = i + 1;
        proof {
            old_out.insert_ensures(j as int, c@);
            assert(views_of_chars(out@) =~= old_out.insert(j as int, c@));
            assert(cm.take(i as int).drop_last() =~= cm.take(i - 1));
            assert(cm.take(i as int).last() == cm[i - 1]);
            assert(cm[i - 1] == chars@[i - 1]@);
        }
    }
    proof {
        assert(cm.take(cm.len() as int) =~= cm);
    }
    out
}

// ---------------------------------------------------------------------------
// Merge decision
// ---------------------------------------------------------------------------

/// Whether the vertical gap between the last line and the next one is at
/// most 1.8 times the last line's average font size.  With no height
/// samples yet, the style's size stands in for the average.
pub open spec fn merge_gap_ok(last: LineModel, next: LineModel) -> bool {
    let v_gap = abs_of(last.y - next.y);
    if last.fs_count > 0 {
        10 * v_gap * last.fs_count <= 18 * last.fs_sum
    } else {
        10 * v_gap <= 18 * last.style.size_scaled * 1000
    }
}

/// The merge decision: the next line continues the block only if it is on
/// the same page, within the vertical gap bound, of identical style,
/// left-aligned within five points, and the punctuation and numbering
/// heuristics allow it: a blank previous line always merges; sentence-
/// ending punctuation or a numbering prefix on the next line reject; a
/// lowercase continuation merges; otherwise only a short previous line
/// (at most sixty characters) merges.
pub open spec fn should_merge_model(b: BlockModel, next: LineModel) -> bool {
    if b.lines.len() == 0 {
        true
    } else {
        let last = b.lines.last();
        if last.page_num != next.page_num {
            false
        } else if !merge_gap_ok(last, next) {
            false
        } else if last.style != next.style {
            false
        } else if abs_of(last.bounds.left - next.bounds.left) > 5 * POINT_UNITS {
            false
        } else {
            let prev_text = trim_of(last.text);
            if prev_text.len() == 0 {
                true
            } else if ends_with_sentence_punct(prev_text) {
                false
            } else {
                let next_text = trim_of(next.text);
                if numbering_prefix_match(next_text) {
                    false
                } else if next_text.len() > 0 && lowercase_letter(next_text[0]) {
                    true
                } else {
                    prev_text.len() <= 60
                }
            }
        }
    }
}

/// The block merger.
pub struct PdfProcessor;

impl PdfProcessor {
    /// Decides whether `next_line` continues `block`, per
    /// `should_merge_model`.
    pub fn should_merge_lines(block: &PdfBlock, next_line: &PdfLine) -> (r: bool)
        requires
            block.inv(),
            wf_line(next_line@),
        ensures
            r == should_merge_model(block@, next_line@),
    {
        let nlines = block.lines.len();
        if nlines == 0 {
            return true;
        }
        let last = &block.lines[nlines - 1];
        proof {
            assert(last@ == block@.lines.last());
            assert(wf_line(last@));
        }
        if last.page_num != next_line.page_num {
            return false;
        }
        let v_gap: i64 = if last.y >= next_line.y {
            last.y - next_line.y
        } else {
            next_line.y - last.y
        };
        let gap_ok: bool = if last.font_size_count > 0 {
            proof {
                let cb = COORD_BOUND as int;
                let vg = v_gap as int;
                let cnt = last@.fs_count;
                assert(10 * vg * cnt <= 10 * (2 * cb) * (usize::MAX as int)) by (nonlinear_arith)
                    requires
                        0 <= vg <= 2 * cb,
                        0 <= cnt <= usize::MAX as int,
                        cb > 0,
                ;
                assert(last@.fs_sum <= 2 * cb * (usize::MAX as int)) by (nonlinear_arith)
                    requires
                        last@.fs_sum <= 2 * cb * cnt,
                        0 <= cnt <= usize::MAX as int,
                        cb > 0,
                ;
            }
            let lhs: u128 = 10u128 * (v_gap as u128) * (last.font_size_count as u128);
            let rhs: u128 = 18u128 * last.font_size_sum;
            lhs <= rhs
        } else {
            let lhs: i128 = 10i128 * (v_gap as i128);
            let rhs: i128 = 18i128 * (last.style.font_size_scaled as i128) * 1000i128;
            lhs <= rhs
        };
        if !gap_ok {
            return false;
        }
        if !last.style.same_style(&next_line.style) {
            return false;
        }
        let dx: i64 = if last.bounds.left >= next_line.bounds.left {
            last.bounds.left - next_line.bounds.left
        } else {
            next_line.bounds.left - last.bounds.left
        };
        if dx > 5 * POINT_UNITS {
            return false;
        }
        let prev_chars = chars_of(last.text.as_str());
        let prev_trim = trimmed_chars(&prev_chars);
        if prev_trim.len() == 0 {
            return true;
        }
        if has_sentence_punct_end(&prev_trim) {
            return false;
        }
        let next_chars = chars_of(next_line.text.as_str());
        let next_trim = trimmed_chars(&next_chars);
        if has_numbering_prefix(&next_trim) {
            return false;
        }
        if next_trim.len() > 0 && char_lowercase(next_trim[0]) {
            return true;
        }
        prev_trim.len() <= 60
    }

    /// Folds a finished line into the block list: a blank line is
    /// dropped; a line that the merge decision accepts joins the last
    /// block; any other line starts a new block.
    pub open spec fn add_line_model(blocks: Seq<BlockModel>, l: LineModel) -> Seq<BlockModel> {
        if trim_of(l.text).len() == 0 {
            blocks
        } else if blocks.len() > 0 && should_merge_model(blocks.last(), l) {
            blocks.update(blocks.len() - 1, BlockModel { lines: blocks.last().lines.push(l) })
        } else {
            blocks.push(BlockModel { lines: seq![l] })
        }
    }

    /// Adds a finished line to the block list, per `add_line_model`.
    pub fn add_line_to_blocks(blocks: &mut Vec<PdfBlock>, line: PdfLine)
        requires
            forall|i: int| 0 <= i < old(blocks)@.len() ==> #[trigger] old(blocks)@[i].inv(),
            wf_line(line@),
        ensures
            views_of_blocks(final (blocks)@) == Self::add_line_model(
                views_of_blocks(old(blocks)@),
                line@,
            ),
            forall|i: int| 0 <= i < final (blocks)@.len() ==> #[trigger] final (blocks)@[i].inv(),
    {
        let tc = chars_of(line.text.as_str());
        let tt = trimmed_chars(&tc);
        if tt.len() == 0 {
            proof {
                assert(views_of_blocks(blocks@) =~= Self::add_line_model(
                    views_of_blocks(blocks@),
                    line@,
                ));
            }
            return ;
        }
        let n = blocks.len();
        if n > 0 {
            let merge = Self::should_merge_lines(&blocks[n - 1], &line);
            proof {
                assert(blocks@[n - 1]@ == views_of_blocks(blocks@).last());
            }
            if merge {
                let mut b = match blocks.pop() {
                    Some(b) => b,
                    None => PdfBlock::from_line(line.clone()),
                };
                b.merge_line(line);
                blocks.push(b);
                proof {
                    assert(views_of_blocks(final (blocks)@) =~= Self::add_line_model(
                        views_of_blocks(old(blocks)@),
                        line@,
                    ));
                }
                return ;
            }
        }
        blocks.push(PdfBlock::from_line(line));
        proof {
            assert(views_of_blocks(final (blocks)@) =~= Self::add_line_model(
                views_of_blocks(old(blocks)@),
                line@,
            ));
        }
    }
}

// ---------------------------------------------------------------------------
// Line assembly
// ---------------------------------------------------------------------------

/// The assembler's running state: finished blocks, the open line, and the
/// previous character's baseline and right edge.
pub ghost struct AsmState {
    pub blocks: Seq<BlockModel>,
    pub cur: Option<LineModel>,
    pub last_y: int,
    pub last_right: int,
}

/// The assembler's starting state.
pub open spec fn asm_init() -> AsmState {
    AsmState { blocks: Seq::empty(), cur: None, last_y: 0, last_right: 0 }
}

/// The style a character carries: its font name and scaled font size.
pub open spec fn style_of_char(c: CharModel) -> StyleModel {
    StyleModel { name: c.font_name, size_scaled: scale_font_size(c.font_size) }
}

/// The chunk recorded for a character: its sanitized text, left edge,
/// baseline, inferred advance width, font data, the page's space width,
/// and skew.
pub open spec fn chunk_of_char(c: CharModel, adv: int, spw: int) -> ChunkModel {
    ChunkModel {
        text: sanitize_of(c.text),
        x: c.left,
        y: c.y,
        width: adv,
        font_name: c.font_name,
        font_size: c.font_size,
        single_space_width: spw,
        skew: c.skew,
    }
}

/// Whether a character at baseline `y` starts a new line after one at
/// baseline `last_y`: the baselines differ by strictly more than one
/// point.  A difference of exactly one point does not break the line.
pub open spec fn breaks_line(y: int, last_y: int) -> bool {
    abs_of(y - last_y) > POINT_UNITS
}

/// One assembler step: a baseline moving by more than one point finishes
/// the open line and opens a new one from the character; the character is
/// then appended to the open line's replica and recorded as a chunk.
pub open spec fn asm_step(st: AsmState, c: CharModel, adv: int, spw: int, page: int) -> AsmState {
    let text = sanitize_of(c.text);
    let is_new = st.cur is None || breaks_line(c.y, st.last_y);
    let blocks1 = if is_new {
        match st.cur {
            Some(l) => PdfProcessor::add_line_model(st.blocks, l),
            None => st.blocks,
        }
    } else {
        st.blocks
    };
    let fresh = new_line_model(rect_of_char(c), page, style_of_char(c), c.skew, c.y);
    let cur1 = if is_new {
        fresh
    } else {
        match st.cur {
            Some(l) => l,
            None => fresh,
        }
    };
    let cur2 = append_replica_model(cur1, text, rect_of_char(c), spw, st.last_right);
    let cur3 = LineModel { chunks: cur2.chunks.push(chunk_of_char(c, adv, spw)), ..cur2 };
    AsmState { blocks: blocks1, cur: Some(cur3), last_y: c.y, last_right: c.right }
}

/// The assembler's state after the first `i` characters.
pub open spec fn asm_upto(chars: Seq<CharModel>, spw: int, page: int, i: int) -> AsmState
    decreases i,
{
    if i <= 0 {
        asm_init()
    } else {
        asm_step(
            asm_upto(chars, spw, page, i - 1),
            chars[i - 1],
            advance_width_at(chars, i - 1),
            spw,
            page,
        )
    }
}

/// Flushes the open line, if any, into the block list.
pub open spec fn asm_flush(st: AsmState) -> Seq<BlockModel> {
    match st.cur {
        Some(l) => PdfProcessor::add_line_model(st.blocks, l),
        None => st.blocks,
    }
}

/// The blocks of one page: the characters sorted into reading order, the
/// page metrics computed over them, and the assembler folded across them.
pub open spec fn page_blocks_of(chars: Seq<CharModel>, page: int) -> Seq<BlockModel> {
    let sorted = sort_reading(chars);
    asm_flush(asm_upto(sorted, page_space_width(sorted), page, sorted.len() as int))
}

/// Line-break threshold, kept side: a baseline moving by at most one
/// point (the threshold itself included) continues the open line, so the
/// assembler step leaves the finished blocks untouched.
pub proof fn lemma_within_threshold_keeps_line(
    st: AsmState,
    c: CharModel,
    adv: int,
    spw: int,
    page: int,
)
    requires
        st.cur is Some,
        abs_of(c.y - st.last_y) <= POINT_UNITS,
    ensures
        asm_step(st, c, adv, spw, page).blocks == st.blocks,
{
}

/// Line-break threshold, broken side: a baseline moving by more than one
/// point finishes the open line, which the assembler step folds into the
/// block list.
pub proof fn lemma_beyond_threshold_breaks_line(
    st: AsmState,
    l: LineModel,
    c: CharModel,
    adv: int,
    spw: int,
    page: int,
)
    requires
        st.cur == Some(l),
        abs_of(c.y - st.last_y) > POINT_UNITS,
    ensures
        asm_step(st, c, adv, spw, page).blocks == PdfProcessor::add_line_model(st.blocks, l),
{
}

/// Block-merge boundary: with height samples on the last line, the gap
/// test is the exact rational comparison of the vertical gap against 1.8
/// times the average font size, so a gap of exactly that bound merges
/// and anything beyond it does not.
pub proof fn lemma_merge_gap_boundary(last: LineModel, next: LineModel)
    requires
        last.fs_count > 0,
    ensures
        merge_gap_ok(last, next) == (10 * abs_of(last.y - next.y) * last.fs_count <= 18
            * last.fs_sum),
{
}

/// A vertical gap beyond the bound rejects the merge whatever the other
/// conditions say.
pub proof fn lemma_gap_beyond_bound_rejects_merge(b: BlockModel, next: LineModel)
    requires
        b.lines.len() > 0,
        !merge_gap_ok(b.lines.last(), next),
    ensures
        !should_merge_model(b, next),
{
}

impl PdfProcessor {
    /// Clusters one page's characters into blocks, per `page_blocks_of`.
    pub fn extract_blocks_from_page(chars: &Vec<AnalyzableChar>, page_num: i32) -> (r: Vec<
        PdfBlock,
    >)
        requires
            forall|i: int|
                0 <= i < chars@.len() ==> wf_char(#[trigger] views_of_chars(chars@)[i]),
        ensures
            views_of_blocks(r@) == page_blocks_of(views_of_chars(chars@), page_num as int),
            forall|i: int| 0 <= i < r@.len() ==> #[trigger] r@[i].inv(),
    {
        let sorted = sort_reading_order(chars);
        proof {
            lemma_sort_reading_wf(views_of_chars(chars@));
        }
        let ghost sm = views_of_chars(sorted@);
        let ghost pg = page_num as int;
        let metrics = TextMetrics::compute_page_metrics(&sorted);
        let space_w = metrics.0;
        let widths = metrics.1;
        let ghost spw = space_w as int;
        let mut blocks: Vec<PdfBlock> = Vec::new();
        let mut cur: Option<PdfLine> = None;
        let mut last_y: i64 = 0;
        let mut last_right: i64 = 0;
        let n = sorted.len();
        let mut i: usize = 0;
        while i < n
            invariant
                sm == views_of_chars(sorted@),
                n == sorted@.len(),
                pg == page_num as int,
                forall|j: int| 0 <= j < n ==> wf_char(#[trigger] sm[j]),
                widths@.len() == n,
                forall|j: int| 0 <= j < n ==> widths@[j] == advance_width_at(sm, j),
                0 <= space_w <= 2 * COORD_BOUND,
                spw == space_w as int,
                i <= n,
                views_of_blocks(blocks@) == asm_upto(sm, spw, pg, i as int).blocks,
                forall|j: int| 0 <= j < blocks@.len() ==> #[trigger] blocks@[j].inv(),
                match cur {
                    Some(l) => asm_upto(sm, spw, pg, i as int).cur == Some(l@) && wf_line(l@)
                        && l@.fs_count <= i,
                    None => asm_upto(sm, spw, pg, i as int).cur is None,
                },
                last_y as int == asm_upto(sm, spw, pg, i as int).last_y,
                last_right as int == asm_upto(sm, spw, pg, i as int).last_right,
                -COORD_BOUND <= last_y <= COORD_BOUND,
                -COORD_BOUND <= last_right <= COORD_BOUND,
            decreases n - i,
        {
            let ghost st0 = asm_upto(sm, spw, pg, i as int);
            let ghost stepped = asm_step(st0, sm[i as int], advance_width_at(sm, i as int), spw, pg);
            let c = &sorted[i];
            proof {
                assert(sm[i as int] == sorted@[i as int]@);
            }
            let tvec = chars_of(c.text.as_str());
            let san = sanitized_chars(&tvec);
            let text_str = string_of(&san);
            let is_new = match &cur {
                Some(_) => {
                    let dy = if c.y >= last_y {
                        c.y - last_y
                    } else {
                        last_y - c.y
                    };
                    dy > POINT_UNITS
                },
                None => true,
            };
            let rect = PdfRectValue { left: c.left, top: c.top, right: c.right, bottom: c.bottom };
            if is_new {
                let prev = cur;
                cur = None;
                match prev {
                    Some(l) => PdfProcessor::add_line_to_blocks(&mut blocks, l),
                    None => (),
                }
                let style = PdfStyle::new(c.font_name.clone(), c.font_size);
                let fresh = PdfLine::new(rect, page_num, style, c.skew, c.y);
                proof {
                    assert(fresh@ =~= new_line_model(
                        rect_of_char(sm[i as int]),
                        pg,
                        style_of_char(sm[i as int]),
                        sm[i as int].skew,
                        sm[i as int].y,
                    ));
                }
                cur = Some(fresh);
            }
            match &mut cur {
                Some(line) => {
                    line.append_char_replica(text_str.as_str(), rect, space_w, last_right);
                    let chunk = TextChunk {
                        text: text_str,
                        x: c.left,
                        y: c.y,
                        width: widths[i],
                        font_name: c.font_name.clone(),
                        font_size: c.font_size,
                        single_space_width: space_w,
                        skew: c.skew,
                    };
                    proof {
                        assert(chunk@ =~= chunk_of_char(
                            sm[i as int],
                            advance_width_at(sm, i as int),
                            spw,
                        ));
                    }
                    line.add_chunk(chunk);
                },
                None => (),
            }
            last_y = c.y;
            last_right = c.right;
            i = i + 1;
            proof {
                assert(asm_upto(sm, spw, pg, i as int) == stepped);
                match &cur {
                    Some(l) => {
                        assert(stepped.cur == Some(l@));
                    },
                    None => {
                        assert(false);
                    },
                }
            }
        }
        match cur {
            Some(l) => PdfProcessor::add_line_to_blocks(&mut blocks, l),
            None => (),
        }
        proof {
            assert(sm == sort_reading(views_of_chars(chars@)));
            assert(views_of_blocks(blocks@) == page_blocks_of(views_of_chars(chars@), pg));
        }
        blocks
    }
}

} // verus!
