//! Document style analysis and TOC-candidate detection.
//!
//! The dominant style is the most frequent (font, size) pair across all
//! blocks, ties broken by first occurrence.  A block is TOC-like when its
//! trimmed plain text is 3 to 150 characters long and either carries a
//! dot leader ending in a number, or ends in a number and stands in a
//! style more than half a point larger than the dominant one.  A page's
//! candidates count only when at least three of its blocks qualify.

use crate::models::default_style_model;
use crate::models::plain_text_of;
use crate::models::primary_style_of;
use crate::models::views_of_blocks;
use crate::models::BlockModel;
use crate::models::PdfBlock;
use crate::models::PdfStyle;
use crate::models::StyleModel;
use crate::patterns::dot_leader_match;
use crate::patterns::has_dot_leader;
use crate::patterns::has_numeric_end;
use crate::patterns::numeric_end_match;
use crate::text::chars_of;
use crate::text::trim_of;
use crate::text::trimmed_chars;
use vstd::prelude::*;
use vstd::string::StringExecFns;

verus! {

/// How many blocks have primary style `st`.
pub open spec fn style_count(blocks: Seq<BlockModel>, st: StyleModel) -> int
    decreases blocks.len(),
{
    if blocks.len() == 0 {
        0
    } else {
        style_count(blocks.drop_last(), st) + if primary_style_of(blocks.last()) == st {
            1int
        } else {
            0int
        }
    }
}

/// Scans blocks from index `i`, keeping the first-seen style whose count
/// is strictly larger than the best so far.
pub open spec fn dominant_from(
    blocks: Seq<BlockModel>,
    i: int,
    best: StyleModel,
    best_count: int,
) -> StyleModel
    decreases blocks.len() - i,
{
    if i < 0 || i >= blocks.len() {
        best
    } else {
        let s = primary_style_of(blocks[i]);
        let c = style_count(blocks, s);
        if c > best_count {
            dominant_from(blocks, i + 1, s, c)
        } else {
            dominant_from(blocks, i + 1, best, best_count)
        }
    }
}

/// The dominant style of a document: the style with the highest block
/// count, the earliest-seen winning ties; a placeholder where there are
/// no blocks.
pub open spec fn dominant_style_of(blocks: Seq<BlockModel>) -> StyleModel {
    dominant_from(blocks, 0, default_style_model(), 0)
}

/// Whether a block looks like a TOC entry against the dominant style.
pub open spec fn is_toc_like_model(b: BlockModel, dom: StyleModel) -> bool {
    let text = trim_of(plain_text_of(b.lines));
    let n = text.len();
    if n > 150 || n < 3 {
        false
    } else if dot_leader_match(text) {
        true
    } else if numeric_end_match(text) {
        &&& primary_style_of(b).size_scaled > dom.size_scaled + 5
        &&& n < 80
        &&& text.last() != '.'
        &&& text.last() != '\u{3002}'
    } else {
        false
    }
}

/// The TOC-like blocks of a page, in order.
pub open spec fn toc_filter(blocks: Seq<BlockModel>, dom: StyleModel) -> Seq<BlockModel>
    decreases blocks.len(),
{
    if blocks.len() == 0 {
        Seq::empty()
    } else {
        let rest = toc_filter(blocks.drop_last(), dom);
        if is_toc_like_model(blocks.last(), dom) {
            rest.push(blocks.last())
        } else {
            rest
        }
    }
}

/// A page's TOC candidates: its TOC-like blocks, or none at all where
/// fewer than three qualify.
pub open spec fn toc_page_result(blocks: Seq<BlockModel>, dom: StyleModel) -> Seq<BlockModel> {
    let f = toc_filter(blocks, dom);
    if f.len() >= 3 {
        f
    } else {
        Seq::empty()
    }
}

/// The TOC analyser.
pub struct TocAnalyser;

impl TocAnalyser {
    /// Counts the blocks whose primary style equals `st`.
    fn count_style(blocks: &Vec<PdfBlock>, st: &PdfStyle) -> (r: usize)
        requires
            forall|i: int| 0 <= i < blocks@.len() ==> #[trigger] blocks@[i].inv(),
        ensures
            r == style_count(views_of_blocks(blocks@), st@),
    {
        let ghost bm = views_of_blocks(blocks@);
        let mut count: usize = 0;
        let mut j: usize = 0;
        while j < blocks.len()
            invariant
                bm == views_of_blocks(blocks@),
                forall|i: int| 0 <= i < blocks@.len() ==> #[trigger] blocks@[i].inv(),
                j <= blocks@.len(),
                count <= j,
                count == style_count(bm.take(j as int), st@),
            decreases blocks@.len() - j,
        {
            let same = blocks[j].get_primary_style().same_style(st);
            if same {
                count = count + 1;
            }
            j = j + 1;
            proof {
                assert(bm.take(j as int).drop_last() =~= bm.take(j - 1));
                assert(bm.take(j as int).last() == bm[j - 1]);
            }
        }
        proof {
            assert(bm.take(bm.len() as int) =~= bm);
        }
        count
    }

    /// The most frequent primary style across `all_blocks`, per
    /// `dominant_style_of`; ties go to the style seen first.
    pub fn find_dominant_style(all_blocks: &Vec<PdfBlock>) -> (r: PdfStyle)
        requires
            forall|i: int| 0 <= i < all_blocks@.len() ==> #[trigger] all_blocks@[i].inv(),
        ensures
            r@ == dominant_style_of(views_of_blocks(all_blocks@)),
    {
        let ghost bm = views_of_blocks(all_blocks@);
        let mut best = PdfStyle { font_name: String::from_str("Default"), font_size_scaled: 100 };
        let mut best_count: usize = 0;
        proof {
            reveal_strlit("Default");
            assert(best@ =~= default_style_model());
        }
        let mut i: usize = 0;
        while i < all_blocks.len()
            invariant
                bm == views_of_blocks(all_blocks@),
                forall|k: int| 0 <= k < all_blocks@.len() ==> #[trigger] all_blocks@[k].inv(),
                i <= all_blocks@.len(),
                dominant_from(bm, i as int, best@, best_count as int) == dominant_style_of(bm),
            decreases all_blocks@.len() - i,
        {
            let s = blocks_style_clone(all_blocks, i);
            let c = Self::count_style(all_blocks, &s);
            if c > best_count {
                best = s;
                best_count = c;
            }
            i = i + 1;
        }
        best
    }

    /// Whether `block` looks like a TOC entry, per `is_toc_like_model`.
    /// Memoizes the block's plain text along the way.
    pub fn is_toc_like_block(block: &mut PdfBlock, dominant_style: &PdfStyle) -> (r: bool)
        requires
            old(block).inv(),
        ensures
            final (block)@ == old(block)@,
            final (block).inv(),
            r == is_toc_like_model(old(block)@, dominant_style@),
    {
        let text = block.get_text_plain();
        let tc = chars_of(text.as_str());
        let tt = trimmed_chars(&tc);
        let n = tt.len();
        if n > 150 || n < 3 {
            return false;
        }
        if has_dot_leader(&tt) {
            return true;
        }
        if has_numeric_end(&tt) {
            let sz = block.get_primary_style().get_size() as i128;
            let dom_sz = dominant_style.get_size() as i128;
            let last_c = tt[n - 1];
            return sz > dom_sz + 5 && n < 80 && last_c != '.' && last_c != '\u{3002}';
        }
        false
    }

    /// The TOC candidates of one page, per `toc_page_result`: the
    /// qualifying blocks, unless fewer than three qualify.  The page's
    /// block list keeps its model (its memoized texts may be filled in).
    pub fn find_toc_blocks_in_page(page_blocks: &mut Vec<PdfBlock>, dominant_style: &PdfStyle) -> (r:
        Vec<PdfBlock>)
        requires
            forall|i: int| 0 <= i < old(page_blocks)@.len() ==> #[trigger] old(
                page_blocks,
            )@[i].inv(),
        ensures
            views_of_blocks(final (page_blocks)@) == views_of_blocks(old(page_blocks)@),
            forall|i: int|
                0 <= i < final (page_blocks)@.len() ==> #[trigger] final (page_blocks)@[i].inv(),
            views_of_blocks(r@) == toc_page_result(
                views_of_blocks(old(page_blocks)@),
                dominant_style@,
            ),
            forall|i: int| 0 <= i < r@.len() ==> #[trigger] r@[i].inv(),
    {
        let ghost bm = views_of_blocks(old(page_blocks)@);
        let n = page_blocks.len();
        let mut out: Vec<PdfBlock> = Vec::new();
        let mut candidates: Vec<PdfBlock> = Vec::new();
        let mut i: usize = 0;
        while i < n
            invariant
                bm == views_of_blocks(old(page_blocks)@),
                n == bm.len(),
                i <= n,
                page_blocks@.len() == n - i,
                forall|k: int|
                    0 <= k < page_blocks@.len() ==> #[trigger] page_blocks@[k]@ == bm[i + k],
                forall|k: int| 0 <= k < page_blocks@.len() ==> #[trigger] page_blocks@[k].inv(),
                out@.len() == i,
                forall|k: int| 0 <= k < i ==> #[trigger] out@[k]@ == bm[k],
                forall|k: int| 0 <= k < out@.len() ==> #[trigger] out@[k].inv(),
                views_of_blocks(candidates@) == toc_filter(bm.take(i as int), dominant_style@),
                forall|k: int| 0 <= k < candidates@.len() ==> #[trigger] candidates@[k].inv(),
            decreases n - i,
        {
            let mut b = page_blocks.remove(0);
            let like = Self::is_toc_like_block(&mut b, dominant_style);
            if like {
                candidates.push(b.clone());
            }
            out.push(b);
            i = i + 1;
            proof {
                assert(bm.take(i as int).drop_last() =~= bm.take(i - 1));
                assert(bm.take(i as int).last() == bm[i - 1]);
                if like {
                    assert(views_of_blocks(candidates@) =~= toc_filter(
                        bm.take(i as int),
                        dominant_style@,
                    ));
                }
            }
        }
        *page_blocks = out;
        proof {
            assert(bm.take(bm.len() as int) =~= bm);
            assert(views_of_blocks(page_blocks@) =~= bm);
        }
        if candidates.len() >= 3 {
            proof {
                assert(views_of_blocks(candidates@) == toc_page_result(bm, dominant_style@));
            }
            candidates
        } else {
            let empty: Vec<PdfBlock> = Vec::new();
            proof {
                assert(views_of_blocks(empty@) =~= toc_page_result(bm, dominant_style@));
            }
            empty
        }
    }
}

/// Clones the primary style of block `i`.
fn blocks_style_clone(blocks: &Vec<PdfBlock>, i: usize) -> (r: PdfStyle)
    requires
        i < blocks@.len(),
        blocks@[i as int].inv(),
    ensures
        r@ == primary_style_of(views_of_blocks(blocks@)[i as int]),
{
    blocks[i].get_primary_style().clone()
}

} // verus!
