//! The extraction orchestrator: page by page, characters become blocks;
//! one global style analysis fixes the dominant style; each page's blocks
//! are then screened for TOC candidates, whose reconstructed texts form
//! the result, in page and within-page order.
//!
//! Characters come from a page content provider, an in-process
//! collaborator outside this library.  Nothing is assumed about what it
//! returns: a page that fails, or whose characters fall outside the
//! coordinate bounds, counts as empty and does not disturb the rest.  The
//! deterministic core, `extract_toc_from_pages`, carries the full
//! functional contract.

use crate::models::views_of_blocks;
use crate::models::wf_char;
use crate::models::AnalyzableChar;
use crate::models::BlockModel;
use crate::models::CharModel;
use crate::models::PdfBlock;
use crate::models::PdfStyle;
use crate::models::StyleModel;
use crate::processor::page_blocks_of;
use crate::processor::sorted_reading;
use crate::processor::sort_reading;
use crate::processor::lemma_sort_reading_of_sorted;
use crate::processor::PdfProcessor;
use crate::text_metrics::views_of_chars;
use crate::toc_analyser::dominant_style_of;
use crate::toc_analyser::toc_page_result;
use crate::toc_analyser::TocAnalyser;
use crate::models::reconstruct_of;
use vstd::prelude::*;

verus! {

/// The views of a page list: per page, the views of its characters.
pub open spec fn views_of_pages(s: Seq<Vec<AnalyzableChar>>) -> Seq<Seq<CharModel>> {
    Seq::new(s.len(), |p: int| views_of_chars(s[p]@))
}

/// The views of a string list.
pub open spec fn views_of_strings(s: Seq<String>) -> Seq<Seq<char>> {
    Seq::new(s.len(), |i: int| s[i]@)
}

/// The block lists of all pages; page `p` carries page number `p + 1`.
pub open spec fn page_blocks_seq(pages: Seq<Seq<CharModel>>) -> Seq<Seq<BlockModel>> {
    Seq::new(pages.len(), |p: int| page_blocks_of(pages[p], p + 1))
}

/// All blocks of the document, in page order.
pub open spec fn flatten_blocks(pbs: Seq<Seq<BlockModel>>) -> Seq<BlockModel>
    decreases pbs.len(),
{
    if pbs.len() == 0 {
        Seq::empty()
    } else {
        flatten_blocks(pbs.drop_last()) + pbs.last()
    }
}

/// The reconstructed texts of one page's TOC candidates.
pub open spec fn page_toc_texts(blocks: Seq<BlockModel>, dom: StyleModel) -> Seq<Seq<char>> {
    let cands = toc_page_result(blocks, dom);
    Seq::new(cands.len(), |i: int| reconstruct_of(cands[i].lines))
}

/// The TOC texts of the first `p` pages, concatenated.
pub open spec fn pages_toc_texts(pbs: Seq<Seq<BlockModel>>, dom: StyleModel) -> Seq<Seq<char>>
    decreases pbs.len(),
{
    if pbs.len() == 0 {
        Seq::empty()
    } else {
        pages_toc_texts(pbs.drop_last(), dom) + page_toc_texts(pbs.last(), dom)
    }
}

/// The detected TOC lines of a document given per page its characters:
/// blocks per page, the dominant style over all of them, then each page's
/// candidates' reconstructed texts, in order.
pub open spec fn toc_lines_of_pages(pages: Seq<Seq<CharModel>>) -> Seq<Seq<char>> {
    let pbs = page_blocks_seq(pages);
    let dom = dominant_style_of(flatten_blocks(pbs));
    pages_toc_texts(pbs, dom)
}

/// The page content provider: the orchestrator's one collaborator.  A
/// page whose characters cannot be delivered answers `None`.  No contract
/// binds implementations; the pipeline treats every answer as untrusted
/// input.
pub trait PageContentProvider {
    /// How many pages the document has.
    fn page_count(&self) -> usize;

    /// The characters of page `page_index`, or `None` where extraction
    /// fails.
    fn get_characters(&self, page_index: usize) -> Option<Vec<AnalyzableChar>>;
}

/// Whether every character of `v` satisfies the coordinate bounds.
pub fn all_chars_well_formed(v: &Vec<AnalyzableChar>) -> (r: bool)
    ensures
        r == forall|j: int| 0 <= j < v@.len() ==> wf_char(#[trigger] views_of_chars(v@)[j]),
{
    let mut j: usize = 0;
    while j < v.len()
        invariant
            j <= v@.len(),
            forall|k: int| 0 <= k < j ==> wf_char(#[trigger] views_of_chars(v@)[k]),
        decreases v@.len() - j,
    {
        let ok = v[j].is_well_formed();
        if !ok {
            proof {
                assert(views_of_chars(v@)[j as int] == v@[j as int]@);
            }
            return false;
        }
        proof {
            assert(views_of_chars(v@)[j as int] == v@[j as int]@);
        }
        j = j + 1;
    }
    true
}

/// The extraction orchestrator.
pub struct TocExtractor;

impl TocExtractor {
    /// The deterministic extraction pipeline over in-memory pages, per
    /// `toc_lines_of_pages`.
    pub fn extract_toc_from_pages(pages: &Vec<Vec<AnalyzableChar>>) -> (r: Vec<String>)
        requires
            pages@.len() <= 0x7fff_ffff,
            forall|p: int, j: int|
                0 <= p < pages@.len() && 0 <= j < pages@[p]@.len() ==> wf_char(
                    #[trigger] views_of_pages(pages@)[p][j],
                ),
        ensures
            views_of_strings(r@) == toc_lines_of_pages(views_of_pages(pages@)),
    {
        let ghost pm = views_of_pages(pages@);
        let ghost pbs = page_blocks_seq(pm);
        let n = pages.len();
        let mut per_page: Vec<Vec<PdfBlock>> = Vec::new();
        let mut p: usize = 0;
        while p < n
            invariant
                pm == views_of_pages(pages@),
                pbs == page_blocks_seq(pm),
                n == pages@.len(),
                n <= 0x7fff_ffff,
                forall|q: int, j: int|
                    0 <= q < pages@.len() && 0 <= j < pages@[q]@.len() ==> wf_char(
                        #[trigger] views_of_pages(pages@)[q][j],
                    ),
                p <= n,
                per_page@.len() == p,
                forall|q: int|
                    0 <= q < p ==> views_of_blocks(#[trigger] per_page@[q]@) == pbs[q],
                forall|q: int, b: int|
                    0 <= q < p && 0 <= b < per_page@[q]@.len() ==> (
                    #[trigger] per_page@[q]@[b]).inv(),
            decreases n - p,
        {
            proof {
                assert forall|j: int| 0 <= j < pages@[p as int]@.len() implies wf_char(
                    #[trigger] views_of_chars(pages@[p as int]@)[j],
                ) by {
                    assert(views_of_pages(pages@)[p as int] == views_of_chars(pages@[p as int]@));
                    assert(wf_char(views_of_pages(pages@)[p as int][j]));
                }
            }
            let blocks = PdfProcessor::extract_blocks_from_page(&pages[p], (p as i32) + 1);
            per_page.push(blocks);
            p = p + 1;
        }
        let mut all_blocks: Vec<PdfBlock> = Vec::new();
        let mut q: usize = 0;
        while q < n
            invariant
                pbs == page_blocks_seq(pm),
                pbs.len() == n,
                n == pages@.len(),
                per_page@.len() == n,
                forall|t: int|
                    0 <= t < n ==> views_of_blocks(#[trigger] per_page@[t]@) == pbs[t],
                forall|t: int, b: int|
                    0 <= t < n && 0 <= b < per_page@[t]@.len() ==> (
                    #[trigger] per_page@[t]@[b]).inv(),
                q <= n,
                views_of_blocks(all_blocks@) == flatten_blocks(pbs.take(q as int)),
                forall|b: int| 0 <= b < all_blocks@.len() ==> (#[trigger] all_blocks@[b]).inv(),
            decreases n - q,
        {
            let page_blocks = &per_page[q];
            let mut b: usize = 0;
            while b < page_blocks.len()
                invariant
                    pbs == page_blocks_seq(pm),
                    per_page@.len() == n,
                    q < n,
                    page_blocks == &per_page[q as int],
                    views_of_blocks(page_blocks@) == pbs[q as int],
                    forall|t: int, bb: int|
                        0 <= t < n && 0 <= bb < per_page@[t]@.len() ==> (
                        #[trigger] per_page@[t]@[bb]).inv(),
                    b <= page_blocks@.len(),
                    views_of_blocks(all_blocks@) == flatten_blocks(pbs.take(q as int)) + pbs[q as int].take(b as int),
                    forall|bb: int|
                        0 <= bb < all_blocks@.len() ==> (#[trigger] all_blocks@[bb]).inv(),
                decreases page_blocks@.len() - b,
            {
                let cloned = page_blocks[b].clone();
                let ghost prev_seq = all_blocks@;
                all_blocks.push(cloned);
                proof {
                    assert(views_of_blocks(page_blocks@)[b as int] == page_blocks@[b as int]@);
                    assert(pbs[q as int][b as int] == page_blocks@[b as int]@);
                    assert(views_of_blocks(all_blocks@) =~= views_of_blocks(prev_seq).push(
                        pbs[q as int][b as int],
                    ));
                }
                b = b + 1;
                proof {
                    assert(pbs[q as int].take(b as int).drop_last() =~= pbs[q as int].take(b - 1));
                    assert(pbs[q as int].take(b as int).last() == pbs[q as int][b - 1]);
                    assert((flatten_blocks(pbs.take(q as int)) + pbs[q as int].take(b as int)) =~= (
                    flatten_blocks(pbs.take(q as int)) + pbs[q as int].take(b - 1)).push(
                        pbs[q as int][b - 1],
                    ));
                    assert(views_of_blocks(all_blocks@) =~= flatten_blocks(pbs.take(q as int))
                        + pbs[q as int].take(b as int));
                }
            }
            q = q + 1;
            proof {
                assert(pbs[q - 1].take(pbs[q - 1].len() as int) =~= pbs[q - 1]);
                assert(pbs.take(q as int).drop_last() =~= pbs.take(q - 1));
                assert(pbs.take(q as int).last() == pbs[q - 1]);
                assert(views_of_blocks(all_blocks@) =~= flatten_blocks(pbs.take(q as int)));
            }
        }
        proof {
            assert(pbs.take(pbs.len() as int) =~= pbs);
        }
        let dominant = TocAnalyser::find_dominant_style(&all_blocks);
        let ghost dom = dominant@;
        let mut results: Vec<String> = Vec::new();
        let mut t: usize = 0;
        while t < n
            invariant
                pbs == page_blocks_seq(pm),
                pbs.len() == n,
                dom == dominant@,
                n == pages@.len(),
                t <= n,
                per_page@.len() == n - t,
                forall|u: int|
                    0 <= u < per_page@.len() ==> views_of_blocks(#[trigger] per_page@[u]@) == pbs[
                        t + u
                    ],
                forall|u: int, b: int|
                    0 <= u < per_page@.len() && 0 <= b < per_page@[u]@.len() ==> (
                    #[trigger] per_page@[u]@[b]).inv(),
                views_of_strings(results@) == pages_toc_texts(pbs.take(t as int), dom),
            decreases n - t,
        {
            let mut blocks = per_page.remove(0);
            let cands = TocAnalyser::find_toc_blocks_in_page(&mut blocks, &dominant);
            let ghost page_texts = page_toc_texts(pbs[t as int], dom);
            let mut k: usize = 0;
            while k < cands.len()
                invariant
                    page_texts == page_toc_texts(pbs[t as int], dom),
                    views_of_blocks(cands@) == toc_page_result(pbs[t as int], dom),
                    forall|c: int| 0 <= c < cands@.len() ==> (#[trigger] cands@[c]).inv(),
                    k <= cands@.len(),
                    views_of_strings(results@) == pages_toc_texts(pbs.take(t as int), dom)
                        + page_texts.take(k as int),
                decreases cands@.len() - k,
            {
                let text = cands[k].get_text_reconstructed();
                let ghost prev_res = results@;
                proof {
                    assert(views_of_blocks(cands@)[k as int] == cands@[k as int]@);
                    assert(text@ == page_texts[k as int]);
                }
                results.push(text);
                proof {
                    assert(views_of_strings(results@) =~= views_of_strings(prev_res).push(
                        page_texts[k as int],
                    ));
                }
                k = k + 1;
                proof {
                    assert((pages_toc_texts(pbs.take(t as int), dom) + page_texts.take(k as int))
                        =~= (pages_toc_texts(pbs.take(t as int), dom) + page_texts.take(k - 1)).push(
                        page_texts[k - 1],
                    ));
                    assert(views_of_strings(results@) =~= pages_toc_texts(pbs.take(t as int), dom)
                        + page_texts.take(k as int));
                }
            }
            t = t + 1;
            proof {
                assert(page_texts.take(page_texts.len() as int) =~= page_texts);
                assert(pbs.take(t as int).drop_last() =~= pbs.take(t - 1));
                assert(pbs.take(t as int).last() == pbs[t - 1]);
                assert(views_of_strings(results@) =~= pages_toc_texts(pbs.take(t as int), dom));
            }
        }
        proof {
            assert(pbs.take(pbs.len() as int) =~= pbs);
        }
        results
    }

    /// Asks the provider for every page's characters and runs the
    /// pipeline over them.  A page the provider cannot deliver, or whose
    /// characters exceed the coordinate bounds, is treated as empty.  The
    /// result is whatever `extract_toc_from_pages` returns for the pages
    /// so gathered; nothing can be promised about the provider's answers
    /// themselves.
    pub fn extract_toc<P: PageContentProvider>(provider: &P) -> Vec<String> {
        let count = provider.page_count();
        let n = if count > 0x7fff_ffff {
            0x7fff_ffff
        } else {
            count
        };
        let mut pages: Vec<Vec<AnalyzableChar>> = Vec::new();
        let mut p: usize = 0;
        while p < n
            invariant
                n <= 0x7fff_ffff,
                p <= n,
                pages@.len() == p,
                forall|q: int, j: int|
                    0 <= q < pages@.len() && 0 <= j < pages@[q]@.len() ==> wf_char(
                        #[trigger] views_of_pages(pages@)[q][j],
                    ),
            decreases n - p,
        {
            let page_chars = match provider.get_characters(p) {
                Some(v) => {
                    if all_chars_well_formed(&v) {
                        v
                    } else {
                        Vec::new()
                    }
                },
                None => Vec::new(),
            };
            let ghost prev_pages = pages@;
            pages.push(page_chars);
            p = p + 1;
            proof {
                assert forall|q: int, j: int|
                    0 <= q < pages@.len() && 0 <= j < pages@[q]@.len() implies wf_char(
                    #[trigger] views_of_pages(pages@)[q][j],
                ) by {
                    assert(views_of_pages(pages@)[q] == views_of_chars(pages@[q]@));
                    if q < pages@.len() - 1 {
                        assert(pages@[q] == prev_pages[q]);
                        assert(views_of_pages(prev_pages)[q] == views_of_chars(prev_pages[q]@));
                        assert(wf_char(views_of_pages(prev_pages)[q][j]));
                    } else {
                        assert(pages@[q] == page_chars);
                        assert(wf_char(views_of_chars(page_chars@)[j]));
                    }
                }
            }
        }
        Self::extract_toc_from_pages(&pages)
    }
}

// ---------------------------------------------------------------------------
// Laws
// ---------------------------------------------------------------------------

/// Idempotence: the pipeline is a function of the page contents alone,
/// so two runs over the same characters yield identical output lists.
pub proof fn lemma_extract_idempotent(
    pages: Seq<Seq<CharModel>>,
    r1: Seq<Seq<char>>,
    r2: Seq<Seq<char>>,
)
    requires
        r1 == toc_lines_of_pages(pages),
        r2 == toc_lines_of_pages(pages),
    ensures
        r1 == r2,
{
}

/// Reordering invariance: a page whose characters already stand in
/// reading order yields the same blocks whether or not it is sorted
/// again first.
pub proof fn lemma_presorted_page_unchanged(chars: Seq<CharModel>, page: int)
    requires
        sorted_reading(chars),
    ensures
        page_blocks_of(sort_reading(chars), page) == page_blocks_of(chars, page),
{
    lemma_sort_reading_of_sorted(chars);
}

/// Reordering invariance over a whole document: sorting pages whose
/// characters already stand in reading order is a no-op, so the detected
/// TOC lines do not change.
pub proof fn lemma_presorted_pages_unchanged(
    pages: Seq<Seq<CharModel>>,
    sorted_pages: Seq<Seq<CharModel>>,
)
    requires
        pages.len() == sorted_pages.len(),
        forall|p: int| 0 <= p < pages.len() ==> sorted_reading(#[trigger] pages[p]),
        forall|p: int| 0 <= p < pages.len() ==> #[trigger] sorted_pages[p] == sort_reading(
            pages[p],
        ),
    ensures
        toc_lines_of_pages(sorted_pages) == toc_lines_of_pages(pages),
{
    assert forall|p: int| 0 <= p < pages.len() implies #[trigger] sorted_pages[p] == pages[p] by {
        lemma_sort_reading_of_sorted(pages[p]);
    }
    assert(sorted_pages =~= pages);
}

} // verus!
