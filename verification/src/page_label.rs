//! Page-label rules and their simulation: given a list of labelling
//! rules, the label text of every page of a document.
//!
//! Rules are sorted by starting page, stably.  For each page the
//! applicable rule is the last one, in sorted order, whose starting page
//! is not beyond it; a page with no applicable rule is labelled with its
//! own decimal number.

use crate::numbering::decimal_of;
use crate::numbering::page_label_text;
use crate::numbering::Numbering;
use crate::text::string_of;
use vstd::prelude::*;

verus! {

/// The numbering style of a page-label rule.
#[derive(Debug, Clone, Copy, PartialEq, Eq, Structural)]
pub enum PageLabelNumberingStyle {
    DecimalArabicNumerals,
    UppercaseRomanNumerals,
    LowercaseRomanNumerals,
    UppercaseLetters,
    LowercaseLetters,
    NoNumbering,
}

/// One page-label rule: from which page it applies (1-based), in which
/// style, with which prefix, and at which number the count starts
/// (1 where absent).
#[derive(Debug)]
pub struct PageLabel {
    pub page_num: i32,
    pub numbering_style: PageLabelNumberingStyle,
    pub label_prefix: Option<String>,
    pub first_page: Option<i32>,
}

/// Mathematical model of a page-label rule.
pub ghost struct LabelModel {
    pub page_num: int,
    pub style: PageLabelNumberingStyle,
    pub prefix: Option<Seq<char>>,
    pub first_page: Option<int>,
}

impl View for PageLabel {
    type V = LabelModel;

    open spec fn view(&self) -> LabelModel {
        LabelModel {
            page_num: self.page_num as int,
            style: self.numbering_style,
            prefix: match self.label_prefix {
                Some(ref p) => Some(p@),
                None => None,
            },
            first_page: match self.first_page {
                Some(f) => Some(f as int),
                None => None,
            },
        }
    }
}

impl Clone for PageLabel {
    /// Copies the rule; the copy has the same model.
    fn clone(&self) -> (r: Self)
        ensures
            r@ == self@,
    {
        PageLabel {
            page_num: self.page_num,
            numbering_style: self.numbering_style,
            label_prefix: match &self.label_prefix {
                Some(p) => Some(p.clone()),
                None => None,
            },
            first_page: self.first_page,
        }
    }
}

/// The views of a rule vector.
pub open spec fn views_of_labels(s: Seq<PageLabel>) -> Seq<LabelModel> {
    Seq::new(s.len(), |i: int| s[i]@)
}

/// Inserts a rule into a sequence sorted by starting page, after every
/// rule that does not start later.
pub open spec fn insert_label(l: LabelModel, s: Seq<LabelModel>) -> Seq<LabelModel>
    decreases s.len(),
{
    if s.len() == 0 {
        seq![l]
    } else if l.page_num < s.last().page_num {
        insert_label(l, s.drop_last()).push(s.last())
    } else {
        s.push(l)
    }
}

/// Stable insertion sort of rules by starting page.
pub open spec fn sort_labels(s: Seq<LabelModel>) -> Seq<LabelModel>
    decreases s.len(),
{
    if s.len() == 0 {
        Seq::empty()
    } else {
        insert_label(s.last(), sort_labels(s.drop_last()))
    }
}

/// Whether the rules are sorted by starting page.
pub open spec fn labels_sorted(s: Seq<LabelModel>) -> bool {
    forall|i: int| 0 <= i && i + 1 < s.len() ==> (#[trigger] s[i + 1]).page_num >= s[i].page_num
}

/// The applicable rule for page `page`: the last rule whose starting
/// page is not beyond it.
pub open spec fn active_rule(rules: Seq<LabelModel>, page: int) -> Option<LabelModel>
    decreases rules.len(),
{
    if rules.len() == 0 {
        None
    } else if rules.last().page_num <= page {
        Some(rules.last())
    } else {
        active_rule(rules.drop_last(), page)
    }
}

/// The label text of page `page` under the sorted rules: the applicable
/// rule's prefix and numbering, counted from its first page; the page's
/// own decimal number where no rule applies.
pub open spec fn label_for_page(sorted_rules: Seq<LabelModel>, page: int) -> Seq<char> {
    match active_rule(sorted_rules, page) {
        Some(r) => {
            let start = match r.first_page {
                Some(f) => f,
                None => 1,
            };
            let n = start + (page - r.page_num);
            match r.prefix {
                Some(p) => p + page_label_text(r.style, n),
                None => page_label_text(r.style, n),
            }
        },
        None => decimal_of(page),
    }
}

/// The simulated labels of a whole document: one text per page, pages
/// counted from 1.
pub open spec fn simulated_labels_of(rules: Seq<LabelModel>, total_pages: int) -> Seq<Seq<char>> {
    Seq::new(
        if total_pages >= 0 {
            total_pages as nat
        } else {
            0nat
        },
        |k: int| label_for_page(sort_labels(rules), k + 1),
    )
}

#[verifier::rlimit(60)]
proof fn lemma_insert_label_at(s: Seq<LabelModel>, l: LabelModel, j: int)
    requires
        labels_sorted(s),
        0 <= j <= s.len(),
        forall|k: int| j <= k < s.len() ==> l.page_num < (#[trigger] s[k]).page_num,
        j > 0 ==> !(l.page_num < s[j - 1].page_num),
    ensures
        insert_label(l, s) == s.insert(j, l),
        labels_sorted(s.insert(j, l)),
    decreases s.len(),
{
    s.insert_ensures(j, l);
    let t = s.insert(j, l);
    assert forall|i: int| 0 <= i && i + 1 < t.len() implies (#[trigger] t[i + 1]).page_num
        >= t[i].page_num by {
        if i + 1 < j {
            assert(t[i] == s[i] && t[i + 1] == s[i + 1]);
        } else if i + 1 == j {
            assert(t[i] == s[i] && t[i + 1] == l);
        } else if i == j {
            assert(t[i] == l && t[i + 1] == s[i]);
        } else {
            assert(t[i] == s[i - 1] && t[i + 1] == s[i]);
        }
    }
    if s.len() == 0 {
        assert(insert_label(l, s) =~= s.insert(j, l));
    } else if j == s.len() {
        assert(insert_label(l, s) == s.push(l));
        assert(s.push(l) =~= s.insert(j, l));
    } else {
        assert(l.page_num < s.last().page_num);
        assert(forall|i: int|
            0 <= i && i + 1 < s.drop_last().len() ==> (#[trigger] s.drop_last()[i + 1]).page_num
                >= s.drop_last()[i].page_num);
        lemma_insert_label_at(s.drop_last(), l, j);
        s.drop_last().insert_ensures(j, l);
        assert(s.drop_last().insert(j, l).push(s.last()) =~= s.insert(j, l));
    }
}

/// Sorts rules by starting page, stably.
#[verifier::rlimit(60)]
fn sort_rules(rules: Vec<PageLabel>) -> (r: Vec<PageLabel>)
    ensures
        views_of_labels(r@) == sort_labels(views_of_labels(rules@)),
        labels_sorted(views_of_labels(r@)),
{
    let ghost lm = views_of_labels(rules@);
    let mut out: Vec<PageLabel> = Vec::new();
    let mut i: usize = 0;
    while i < rules.len()
        invariant
            lm == views_of_labels(rules@),
            i <= rules@.len(),
            views_of_labels(out@) == sort_labels(lm.take(i as int)),
            labels_sorted(views_of_labels(out@)),
            out@.len() == i,
        decreases rules@.len() - i,
    {
        let c = rules[i].clone();
        let ghost old_out = views_of_labels(out@);
        let mut j: usize = out.len();
        while j > 0 && c.page_num < out[j - 1].page_num
            invariant
                old_out == views_of_labels(out@),
                j <= out@.len(),
                forall|k: int|
                    j <= k < out@.len() ==> c@.page_num < (#[trigger] views_of_labels(
                        out@,
                    )[k]).page_num,
            decreases j,
        {
            j = j - 1;
        }
        proof {
            lemma_insert_label_at(old_out, c@, j as int);
        }
        out.insert(j, c);
        i = i + 1;
        proof {
            old_out.insert_ensures(j as int, c@);
            assert(views_of_labels(out@) =~= old_out.insert(j as int, c@));
            assert(lm.take(i as int).drop_last() =~= lm.take(i - 1));
            assert(lm.take(i as int).last() == lm[i - 1]);
            assert(lm[i - 1] == rules@[i - 1]@);
        }
    }
    proof {
        assert(lm.take(lm.len() as int) =~= lm);
    }
    out
}

/// The name a label dictionary uses for each numbering style, if any.
pub open spec fn style_name_of(style: PageLabelNumberingStyle) -> Option<Seq<char>> {
    match style {
        PageLabelNumberingStyle::DecimalArabicNumerals => Some(seq!['D']),
        PageLabelNumberingStyle::UppercaseRomanNumerals => Some(seq!['R']),
        PageLabelNumberingStyle::LowercaseRomanNumerals => Some(seq!['r']),
        PageLabelNumberingStyle::UppercaseLetters => Some(seq!['A']),
        PageLabelNumberingStyle::LowercaseLetters => Some(seq!['a']),
        PageLabelNumberingStyle::NoNumbering => None,
    }
}

/// The numbering style a label-dictionary name stands for; an unknown
/// name means no numbering.
pub open spec fn name_style_of(name: Seq<char>) -> PageLabelNumberingStyle {
    if name == seq!['D'] {
        PageLabelNumberingStyle::DecimalArabicNumerals
    } else if name == seq!['R'] {
        PageLabelNumberingStyle::UppercaseRomanNumerals
    } else if name == seq!['r'] {
        PageLabelNumberingStyle::LowercaseRomanNumerals
    } else if name == seq!['A'] {
        PageLabelNumberingStyle::UppercaseLetters
    } else if name == seq!['a'] {
        PageLabelNumberingStyle::LowercaseLetters
    } else {
        PageLabelNumberingStyle::NoNumbering
    }
}

/// Page-label processing.
pub struct PageLabelProcessor;

impl PageLabelProcessor {
    /// The label-dictionary name of a numbering style, per
    /// `style_name_of`.
    pub fn map_style_to_name(style: &PageLabelNumberingStyle) -> (r: Option<String>)
        ensures
            match r {
                Some(s) => style_name_of(*style) == Some(s@),
                None => style_name_of(*style) is None,
            },
    {
        let c: char = match style {
            PageLabelNumberingStyle::DecimalArabicNumerals => 'D',
            PageLabelNumberingStyle::UppercaseRomanNumerals => 'R',
            PageLabelNumberingStyle::LowercaseRomanNumerals => 'r',
            PageLabelNumberingStyle::UppercaseLetters => 'A',
            PageLabelNumberingStyle::LowercaseLetters => 'a',
            PageLabelNumberingStyle::NoNumbering => {
                return None;
            },
        };
        let mut s = String::new();
        crate::text::push_char(&mut s, c);
        proof {
            assert(s@ =~= seq![c]);
        }
        Some(s)
    }

    /// The numbering style behind a label-dictionary name, per
    /// `name_style_of`.
    pub fn map_name_to_style(name: &str) -> (r: PageLabelNumberingStyle)
        ensures
            r == name_style_of(name@),
    {
        let cs = crate::text::chars_of(name);
        if cs.len() != 1 {
            proof {
                assert(name@ != seq!['D'] && name@ != seq!['R'] && name@ != seq!['r'] && name@
                    != seq!['A'] && name@ != seq!['a']);
            }
            return PageLabelNumberingStyle::NoNumbering;
        }
        let c = cs[0];
        proof {
            assert(name@ =~= seq![c]);
        }
        if c == 'D' {
            PageLabelNumberingStyle::DecimalArabicNumerals
        } else if c == 'R' {
            PageLabelNumberingStyle::UppercaseRomanNumerals
        } else if c == 'r' {
            PageLabelNumberingStyle::LowercaseRomanNumerals
        } else if c == 'A' {
            PageLabelNumberingStyle::UppercaseLetters
        } else if c == 'a' {
            PageLabelNumberingStyle::LowercaseLetters
        } else {
            PageLabelNumberingStyle::NoNumbering
        }
    }

    /// The simulated label of every page, per `simulated_labels_of`.
    pub fn simulate_page_labels(rules: Vec<PageLabel>, total_pages: u32) -> (r: Vec<String>)
        ensures
            r@.len() == total_pages,
            forall|k: int|
                0 <= k < total_pages ==> #[trigger] r@[k]@ == simulated_labels_of(
                    views_of_labels(rules@),
                    total_pages as int,
                )[k],
    {
        let ghost lm = views_of_labels(rules@);
        let sorted = sort_rules(rules);
        let ghost sm = views_of_labels(sorted@);
        let mut labels: Vec<String> = Vec::new();
        let mut page: u32 = 0;
        while page < total_pages
            invariant
                sm == sort_labels(lm),
                sm == views_of_labels(sorted@),
                page <= total_pages,
                labels@.len() == page,
                forall|k: int|
                    0 <= k < page ==> #[trigger] labels@[k]@ == label_for_page(sm, k + 1),
            decreases total_pages - page,
        {
            let p = page + 1;
            let mut j: usize = sorted.len();
            let mut found: bool = false;
            proof {
                assert(sm.take(sorted@.len() as int) =~= sm);
            }
            while j > 0 && !found
                invariant_except_break
                    sm == views_of_labels(sorted@),
                    j <= sorted@.len(),
                    !found,
                    active_rule(sm, p as int) == active_rule(sm.take(j as int), p as int),
                ensures
                    sm == views_of_labels(sorted@),
                    j <= sorted@.len(),
                    found ==> j >= 1 && active_rule(sm, p as int) == Some(sm[j - 1]),
                    !found ==> active_rule(sm, p as int) is None,
                decreases j,
            {
                proof {
                    assert(sm[j - 1] == sorted@[j - 1]@);
                }
                if (sorted[j - 1].page_num as i64) <= (p as i64) {
                    found = true;
                    proof {
                        assert(sm.take(j as int).last() == sm[j - 1]);
                        assert(active_rule(sm.take(j as int), p as int) == Some(sm[j - 1]));
                    }
                    break ;
                }
                proof {
                    assert(sm.take(j as int).last() == sm[j - 1]);
                    assert(sm.take(j as int).drop_last() =~= sm.take(j - 1));
                }
                j = j - 1;
            }
            let label: String = if found {
                let rule = &sorted[j - 1];
                proof {
                    assert(rule@ == sm[j - 1]);
                }
                let start: i64 = match rule.first_page {
                    Some(f) => f as i64,
                    None => 1,
                };
                let n: i64 = start + (p as i64) - (rule.page_num as i64);
                match &rule.label_prefix {
                    Some(pref) => Numbering::format_page_number(
                        &rule.numbering_style,
                        n,
                        Some(pref.as_str()),
                    ),
                    None => Numbering::format_page_number(&rule.numbering_style, n, None),
                }
            } else {
                crate::numbering::decimal_string(p as i64)
            };
            proof {
                assert(label@ == label_for_page(sm, p as int));
            }
            labels.push(label);
            page = page + 1;
        }
        labels
    }
}

} // verus!
