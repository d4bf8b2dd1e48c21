//! Properties of the sorting as a whole.
use vstd::prelude::*;

use crate::extract::{comment_at, lemma_comment_at, lemma_span_at, outside, rewrite, rewrite_from, span_at, spans, spans_from};
use crate::sort::{
    dedup, has_rank, lemma_dedup, lemma_rank_sort_idempotent, lemma_rank_sort_keeps_ties,
    lemma_rank_sort_members, lemma_rank_sort_multiset, rank_sort, sort_class_list, sort_tokens,
};
use crate::rescan::lemma_rescan;
use crate::tokens::{all_tokens, is_token, lemma_split_join, lemma_split_ws_tokens, split_ws};

verus! {

/// The tokens of a rewritten class list are the input tokens, sorted.
pub proof fn lemma_sorted_list_tokens(inner: Seq<char>, remove_dups: bool)
    ensures
        all_tokens(sort_tokens(split_ws(inner), remove_dups)),
        split_ws(sort_class_list(inner, remove_dups)) == sort_tokens(split_ws(inner), remove_dups),
{
    let ts = split_ws(inner);
    lemma_split_ws_tokens(inner);
    lemma_dedup(ts);
    let u = if remove_dups {
        dedup(ts)
    } else {
        ts
    };
    lemma_rank_sort_members(u);
    let o = rank_sort(u);
    assert forall|i: int| 0 <= i < o.len() implies is_token(#[trigger] o[i]) by {
        assert(o.contains(o[i]));
        assert(ts.contains(o[i]));
        let j = choose|j: int| 0 <= j < ts.len() && ts[j] == o[i];
        assert(is_token(ts[j]));
    }
    lemma_split_join(o);
}

/// Rewriting a rewritten class list changes nothing.
pub proof fn sort_class_list_idempotent(inner: Seq<char>, remove_dups: bool)
    ensures
        sort_class_list(sort_class_list(inner, remove_dups), remove_dups) == sort_class_list(
            inner,
            remove_dups,
        ),
{
    lemma_sorted_list_tokens(inner, remove_dups);
    let ts = split_ws(inner);
    let u = if remove_dups {
        dedup(ts)
    } else {
        ts
    };
    let o = rank_sort(u);
    lemma_dedup(ts);
    lemma_rank_sort_members(u);
    lemma_dedup(o);
    lemma_rank_sort_idempotent(u);
}

/// Tokens of equal rank (unknown classes among them) keep their relative
/// order when duplicates are kept.
pub proof fn equal_ranks_keep_order(inner: Seq<char>, r: nat)
    ensures
        split_ws(sort_class_list(inner, false)).filter(has_rank(r)) == split_ws(inner).filter(
            has_rank(r),
        ),
{
    lemma_sorted_list_tokens(inner, false);
    lemma_rank_sort_keeps_ties(split_ws(inner), r);
}

/// With duplicate removal, no token occurs twice in a rewritten class list.
pub proof fn removal_leaves_no_repeats(inner: Seq<char>)
    ensures
        split_ws(sort_class_list(inner, true)).no_duplicates(),
{
    lemma_sorted_list_tokens(inner, true);
    lemma_dedup(split_ws(inner));
    lemma_rank_sort_members(dedup(split_ws(inner)));
}

/// Without duplicate removal, a rewritten class list holds the same tokens,
/// each as often as before.
pub proof fn keeping_duplicates_only_reorders(inner: Seq<char>)
    ensures
        split_ws(sort_class_list(inner, false)).to_multiset() == split_ws(inner).to_multiset(),
{
    lemma_sorted_list_tokens(inner, false);
    lemma_rank_sort_multiset(split_ws(inner));
}

proof fn lemma_no_spans_from(s: Seq<char>, p: int, remove_dups: bool)
    requires
        0 <= p <= s.len(),
        spans_from(s, p).len() == 0,
    ensures
        rewrite_from(s, p, remove_dups) == s.skip(p),
    decreases s.len() - p,
{
    if p < s.len() {
        lemma_span_at(s, p);
        lemma_comment_at(s, p);
        if let Some(k) = comment_at(s, p) {
            lemma_no_spans_from(s, k, remove_dups);
            assert(s.skip(p) =~= s.subrange(p, k) + s.skip(k));
        } else if span_at(s, p) is None {
            lemma_no_spans_from(s, p + 1, remove_dups);
            assert(s.skip(p) =~= seq![s[p]] + s.skip(p + 1));
        }
    } else {
        assert(s.skip(p) =~= Seq::<char>::empty());
    }
}

/// Content without class lists comes back unchanged.
pub proof fn no_class_lists_unchanged(s: Seq<char>, remove_dups: bool)
    requires
        spans(s).len() == 0,
    ensures
        rewrite(s, remove_dups) == s,
{
    lemma_no_spans_from(s, 0, remove_dups);
    assert(s.skip(0) =~= s);
}

/// `s` from `p` with the text of each range in `sp` (ranges in order, all at
/// or after `p`) replaced by its sorted class list, and every other
/// character copied.
pub open spec fn splice(s: Seq<char>, p: int, sp: Seq<(int, int)>, remove_dups: bool) -> Seq<char>
    decreases sp.len(),
{
    if sp.len() == 0 {
        s.subrange(p, s.len() as int)
    } else {
        s.subrange(p, sp[0].0) + sort_class_list(s.subrange(sp[0].0, sp[0].1), remove_dups)
            + splice(s, sp[0].1, sp.drop_first(), remove_dups)
    }
}

proof fn lemma_spans_after(s: Seq<char>, p: int)
    requires
        0 <= p <= s.len(),
    ensures
        spans_from(s, p).len() > 0 ==> p <= spans_from(s, p)[0].0 < spans_from(s, p)[0].1
            < s.len(),
    decreases s.len() - p,
{
    if p < s.len() {
        lemma_span_at(s, p);
        lemma_comment_at(s, p);
        if let Some(k) = comment_at(s, p) {
            lemma_spans_after(s, k);
        } else if span_at(s, p) is None {
            lemma_spans_after(s, p + 1);
        }
    }
}

proof fn lemma_rewrite_splice(s: Seq<char>, p: int, remove_dups: bool)
    requires
        0 <= p <= s.len(),
    ensures
        rewrite_from(s, p, remove_dups) == splice(s, p, spans_from(s, p), remove_dups),
    decreases s.len() - p,
{
    if p == s.len() {
        assert(s.subrange(p, s.len() as int) =~= Seq::<char>::empty());
    } else if let Some(k) = comment_at(s, p) {
        lemma_comment_at(s, p);
        lemma_rewrite_splice(s, k, remove_dups);
        lemma_spans_after(s, k);
        let sp = spans_from(s, k);
        if sp.len() == 0 {
            assert(s.subrange(p, s.len() as int) =~= s.subrange(p, k) + s.subrange(
                k,
                s.len() as int,
            ));
        } else {
            assert(s.subrange(p, sp[0].0) =~= s.subrange(p, k) + s.subrange(k, sp[0].0));
            assert(splice(s, p, sp, remove_dups) =~= s.subrange(p, k) + splice(
                s,
                k,
                sp,
                remove_dups,
            ));
        }
    } else {
        lemma_span_at(s, p);
        match span_at(s, p) {
            Some((st, e)) => {
                lemma_rewrite_splice(s, e, remove_dups);
                let sp = spans_from(s, p);
                assert(sp[0] == (st, e));
                assert(sp.drop_first() =~= spans_from(s, e));
            },
            None => {
                lemma_rewrite_splice(s, p + 1, remove_dups);
                lemma_spans_after(s, p + 1);
                let sp = spans_from(s, p + 1);
                if sp.len() == 0 {
                    assert(s.subrange(p, s.len() as int) =~= seq![s[p]] + s.subrange(
                        p + 1,
                        s.len() as int,
                    ));
                } else {
                    assert(s.subrange(p, sp[0].0) =~= seq![s[p]] + s.subrange(p + 1, sp[0].0));
                    assert(splice(s, p, sp, remove_dups) =~= seq![s[p]] + splice(
                        s,
                        p + 1,
                        sp,
                        remove_dups,
                    ));
                }
            },
        }
    }
}

/// Rewriting changes only the text of the class lists found in the content:
/// every character outside them is copied, in order, unchanged.
pub proof fn only_class_lists_change(s: Seq<char>, remove_dups: bool)
    ensures
        rewrite(s, remove_dups) == splice(s, 0, spans(s), remove_dups),
{
    lemma_rewrite_splice(s, 0, remove_dups);
}

/// The characters outside the class lists are the same, in the same order,
/// before and after sorting.
pub proof fn outside_unchanged(s: Seq<char>, remove_dups: bool)
    ensures
        outside(rewrite(s, remove_dups)) == outside(s),
{
    let o = rewrite(s, remove_dups);
    assert(o.skip(0) =~= o);
    lemma_rescan(s, 0, o, 0, remove_dups);
}

/// Sorting sorted content changes nothing.
pub proof fn sort_idempotent(s: Seq<char>, remove_dups: bool)
    ensures
        rewrite(rewrite(s, remove_dups), remove_dups) == rewrite(s, remove_dups),
{
    let o = rewrite(s, remove_dups);
    assert(o.skip(0) =~= o);
    lemma_rescan(s, 0, o, 0, remove_dups);
}

/// The comments met scanning from `p`, as ranges from their `<!--` to just
/// past their `-->` (or the end).
pub open spec fn comments_from(s: Seq<char>, p: int) -> Seq<(int, int)>
    decreases s.len() - p,
    via comments_from_decreases
{
    if !(0 <= p < s.len()) {
        Seq::empty()
    } else if let Some(k) = comment_at(s, p) {
        seq![(p, k)] + comments_from(s, k)
    } else {
        match span_at(s, p) {
            Some((st, e)) => comments_from(s, e),
            None => comments_from(s, p + 1),
        }
    }
}

#[via_fn]
proof fn comments_from_decreases(s: Seq<char>, p: int) {
    lemma_span_at(s, p);
    lemma_comment_at(s, p);
}

/// The comments of `s`, left to right.
pub open spec fn comments(s: Seq<char>) -> Seq<(int, int)> {
    comments_from(s, 0)
}

proof fn lemma_scan_bounds(s: Seq<char>, p: int)
    requires
        0 <= p <= s.len(),
    ensures
        forall|i: int| 0 <= i < spans_from(s, p).len() ==> p <= (#[trigger] spans_from(s, p)[i]).0,
        forall|j: int|
            0 <= j < comments_from(s, p).len() ==> p <= (#[trigger] comments_from(s, p)[j]).0,
        forall|i: int, j: int|
            0 <= i < spans_from(s, p).len() && 0 <= j < comments_from(s, p).len() ==> (
            #[trigger] spans_from(s, p)[i]).1 <= (#[trigger] comments_from(s, p)[j]).0 || (
            comments_from(s, p)[j]).1 <= (spans_from(s, p)[i]).0,
    decreases s.len() - p,
{
    if p < s.len() {
        lemma_span_at(s, p);
        lemma_comment_at(s, p);
        if let Some(k) = comment_at(s, p) {
            lemma_scan_bounds(s, k);
            assert(spans_from(s, p) == spans_from(s, k));
            let cs = comments_from(s, p);
            assert(cs == seq![(p, k)] + comments_from(s, k));
            assert forall|j: int| 0 <= j < cs.len() && j > 0 implies cs[j] == comments_from(
                s,
                k,
            )[j - 1] by {}
        } else {
            match span_at(s, p) {
                Some((st, e)) => {
                    lemma_scan_bounds(s, e);
                    assert(comments_from(s, p) == comments_from(s, e));
                    let ss = spans_from(s, p);
                    assert(ss == seq![(st, e)] + spans_from(s, e));
                    assert forall|i: int| 0 <= i < ss.len() && i > 0 implies ss[i] == spans_from(
                        s,
                        e,
                    )[i - 1] by {}
                },
                None => {
                    lemma_scan_bounds(s, p + 1);
                    assert(comments_from(s, p) == comments_from(s, p + 1));
                    assert(spans_from(s, p) == spans_from(s, p + 1));
                },
            }
        }
    }
}

/// No class list found in the content lies inside a comment, or overlaps
/// one: the text of every comment is left as it is.
pub proof fn no_class_list_in_comments(s: Seq<char>)
    ensures
        forall|i: int, j: int|
            0 <= i < spans(s).len() && 0 <= j < comments(s).len() ==> (#[trigger] spans(s)[i]).1
                <= (#[trigger] comments(s)[j]).0 || comments(s)[j].1 <= spans(s)[i].0,
{
    lemma_scan_bounds(s, 0);
}

} // verus!
