//! Scanning rewritten content again.
use vstd::prelude::*;

use crate::extract::{
    class_chars_end, is_class_char, is_quote, is_word_char, lemma_run_end, lemma_span_at,
    run_end, span_at, word_at, ws_end,
};
use crate::extract::{comment_at, comment_end, lemma_comment_at, lemma_comment_end, outside_from, rewrite_from};
use crate::sort::{dedup, lemma_dedup, lemma_rank_sort_members, rank_sort, sort_class_list};
use crate::tokens::{is_ws, join, lemma_word_len_bound, split_ws, word_len};

verus! {

/// `t` from `q` and `s` from `p` agree on their first `n` characters.
pub open spec fn agree(s: Seq<char>, p: int, t: Seq<char>, q: int, n: int) -> bool {
    0 <= p && 0 <= q && 0 <= n && p + n <= s.len() && q + n <= t.len() && t.subrange(q, q + n)
        == s.subrange(p, p + n)
}

proof fn lemma_agree_at(s: Seq<char>, p: int, t: Seq<char>, q: int, n: int, k: int)
    requires
        agree(s, p, t, q, n),
        0 <= k < n,
    ensures
        t[q + k] == s[p + k],
{
    assert(t.subrange(q, q + n)[k] == s.subrange(p, p + n)[k]);
}

/// A run read in `s` from `i` is read the same in `t` from `j` when the two
/// agree on the run and on the character that ends it (or both end there).
proof fn lemma_run_frame(
    s: Seq<char>,
    p: int,
    t: Seq<char>,
    q: int,
    n: int,
    i: int,
    pred: spec_fn(char) -> bool,
)
    requires
        agree(s, p, t, q, n),
        p <= i <= p + n,
        run_end(s, i, pred) < p + n || (p + n == s.len() && q + n == t.len()),
    ensures
        run_end(t, q + (i - p), pred) == q + (run_end(s, i, pred) - p),
    decreases s.len() - i,
{
    lemma_run_end(s, i, pred);
    if i < s.len() && pred(s[i]) {
        lemma_agree_at(s, p, t, q, n, i - p);
        lemma_run_frame(s, p, t, q, n, i + 1, pred);
    } else if i < s.len() {
        lemma_agree_at(s, p, t, q, n, i - p);
    }
}

proof fn lemma_word_frame(s: Seq<char>, p: int, t: Seq<char>, q: int, n: int, x: int, w: Seq<char>)
    requires
        agree(s, p, t, q, n),
        p <= x,
        x + w.len() <= p + n || (p + n == s.len() && q + n == t.len()),
    ensures
        word_at(t, q + (x - p), w) == word_at(s, x, w),
{
    let m = w.len() as int;
    let y = q + (x - p);
    if x + m <= p + n {
        assert forall|k: int| 0 <= k < m implies #[trigger] t.subrange(y, y + m)[k] == s.subrange(
            x,
            x + m,
        )[k] by {
            lemma_agree_at(s, p, t, q, n, x - p + k);
        }
        assert(t.subrange(y, y + m) =~= s.subrange(x, x + m));
    }
}

pub open spec fn class_word() -> Seq<char> {
    seq!['c', 'l', 'a', 's', 's']
}

pub open spec fn name_word() -> Seq<char> {
    seq!['N', 'a', 'm', 'e']
}

pub open spec fn name_end(s: Seq<char>, p: int) -> int {
    if word_at(s, p + 5, name_word()) {
        p + 9
    } else {
        p + 5
    }
}

pub open spec fn eq_pos(s: Seq<char>, p: int) -> int {
    ws_end(s, name_end(s, p))
}

pub open spec fn quote_pos(s: Seq<char>, p: int) -> int {
    ws_end(s, eq_pos(s, p) + 1)
}

pub open spec fn list_end(s: Seq<char>, p: int) -> int {
    class_chars_end(s, quote_pos(s, p) + 1)
}

/// Whether the match at `p` gets past the attribute name.
pub open spec fn name_ok(s: Seq<char>, p: int) -> bool {
    0 <= p < s.len() && (p > 0 && is_ws(s[p - 1])) && word_at(s, p, class_word())
}

/// One past the last position that the match at `p` looks at.
pub open spec fn reach(s: Seq<char>, p: int) -> int {
    if !(0 <= p < s.len()) || !(p > 0 && is_ws(s[p - 1])) {
        p
    } else if !word_at(s, p, class_word()) {
        p + 5
    } else {
        let b = eq_pos(s, p);
        let c = quote_pos(s, p);
        let stage = if !(b < s.len() && s[b] == '=') {
            b + 1
        } else if !(c < s.len() && is_quote(s[c])) {
            c + 1
        } else {
            list_end(s, p) + 1
        };
        if stage < p + 9 {
            p + 9
        } else {
            stage
        }
    }
}

/// `t` at `q` and `s` at `p` have the same character before them, or both
/// stand at the start.
pub open spec fn same_before(s: Seq<char>, p: int, t: Seq<char>, q: int) -> bool {
    (p == 0 && q == 0) || (0 < p <= s.len() && 0 < q <= t.len() && t[q - 1] == s[p - 1])
}

proof fn lemma_stages(s: Seq<char>, p: int)
    requires
        name_ok(s, p),
    ensures
        p + 5 <= name_end(s, p) <= eq_pos(s, p) <= s.len(),
        eq_pos(s, p) < s.len() ==> eq_pos(s, p) + 1 <= quote_pos(s, p) <= s.len(),
        quote_pos(s, p) < s.len() ==> quote_pos(s, p) + 1 <= list_end(s, p) <= s.len(),
        span_at(s, p) == if eq_pos(s, p) < s.len() && s[eq_pos(s, p)] == '=' && quote_pos(s, p)
            < s.len() && is_quote(s[quote_pos(s, p)]) && quote_pos(s, p) + 1 < list_end(s, p)
            < s.len() && s[list_end(s, p)] == s[quote_pos(s, p)] {
            Some((quote_pos(s, p) + 1, list_end(s, p)))
        } else {
            None
        },
{
    let a = name_end(s, p);
    if word_at(s, p + 5, name_word()) {
        assert(p + 9 <= s.len());
    }
    assert(p + 5 <= s.len());
    lemma_run_end(s, a, |c: char| is_ws(c));
    let b = eq_pos(s, p);
    if b < s.len() {
        lemma_run_end(s, b + 1, |c: char| is_ws(c));
        let c = quote_pos(s, p);
        if c < s.len() {
            lemma_run_end(s, c + 1, |c: char| is_class_char(c));
        }
    }
}

/// A match that fails in `s` at `p` fails in `t` at `q` when the two agree on
/// all that the match looks at.
pub proof fn lemma_frame_none(s: Seq<char>, p: int, t: Seq<char>, q: int, n: int)
    requires
        agree(s, p, t, q, n),
        p < s.len(),
        same_before(s, p, t, q),
        span_at(s, p) is None,
        reach(s, p) <= p + n || (p + n == s.len() && q + n == t.len()),
    ensures
        span_at(t, q) is None,
{
    let full = p + n == s.len() && q + n == t.len();
    if !(p > 0 && is_ws(s[p - 1])) {
    } else if !word_at(s, p, class_word()) {
        lemma_word_frame(s, p, t, q, n, p, class_word());
    } else {
        assert(name_ok(s, p));
        lemma_stages(s, p);
        if n > 0 {
            lemma_agree_at(s, p, t, q, n, 0);
        }
        lemma_word_frame(s, p, t, q, n, p, class_word());
        lemma_word_frame(s, p, t, q, n, p + 5, name_word());
        assert(name_ok(t, q));
        lemma_stages(t, q);
        assert(name_end(t, q) == q + (name_end(s, p) - p));
        let b = eq_pos(s, p);
        lemma_run_frame(s, p, t, q, n, name_end(s, p), |c: char| is_ws(c));
        assert(eq_pos(t, q) == q + (b - p));
        if b < s.len() {
            lemma_agree_at(s, p, t, q, n, b - p);
        }
        if b < s.len() && s[b] == '=' {
            let c = quote_pos(s, p);
            lemma_run_frame(s, p, t, q, n, b + 1, |c: char| is_ws(c));
            assert(quote_pos(t, q) == q + (c - p));
            if c < s.len() {
                lemma_agree_at(s, p, t, q, n, c - p);
            }
            if c < s.len() && is_quote(s[c]) {
                let e = list_end(s, p);
                lemma_run_frame(s, p, t, q, n, c + 1, |c: char| is_class_char(c));
                assert(list_end(t, q) == q + (e - p));
                if e < s.len() {
                    lemma_agree_at(s, p, t, q, n, e - p);
                }
            }
        }
    }
}

/// What a match at `p` looks at ends before the text of any class list that
/// a later attribute holds.
pub proof fn lemma_window(s: Seq<char>, p: int, p2: int, st2: int, e2: int)
    requires
        0 <= p < p2,
        span_at(s, p) is None,
        span_at(s, p2) == Some((st2, e2)),
    ensures
        reach(s, p) <= st2,
{
    lemma_span_at(s, p2);
    assert(name_ok(s, p2));
    lemma_stages(s, p2);
    let b2 = eq_pos(s, p2);
    assert(s.subrange(p2, p2 + 5)[0] == s[p2]);
    assert(st2 >= p2 + 7);
    if name_ok(s, p) {
        lemma_stages(s, p);
        assert forall|y: int| p < y < p + 5 implies s[y] != 'c' by {
            assert(s.subrange(p, p + 5)[y - p] == s[y]);
        }
        assert(p2 >= p + 5);
        let a = name_end(s, p);
        if a == p + 9 {
            assert forall|y: int| p + 5 <= y < p + 9 implies s[y] != 'c' by {
                assert(s.subrange(p + 5, p + 9)[y - p - 5] == s[y]);
            }
        }
        assert(p2 >= a);
        let b = eq_pos(s, p);
        lemma_run_end(s, a, |c: char| is_ws(c));
        if p2 < b {
            assert(is_ws(s[p2]));
        }
        assert(p2 >= b);
        if b < s.len() && s[b] == '=' {
            let c = quote_pos(s, p);
            lemma_run_end(s, b + 1, |c: char| is_ws(c));
            if p2 < c {
                assert(is_ws(s[p2]));
            }
            if c < s.len() && is_quote(s[c]) {
                let e = list_end(s, p);
                lemma_run_end(s, c + 1, |c: char| is_class_char(c));
                if e > b2 {
                    assert(is_class_char(s[b2]));
                }
            }
        }
    }
}

proof fn lemma_comment_end_frame(s: Seq<char>, p: int, t: Seq<char>, q: int, n: int, i: int)
    requires
        agree(s, p, t, q, n),
        p <= i <= p + n,
        comment_end(s, i) <= p + n,
        comment_end(s, i) == s.len() ==> (p + n == s.len() && q + n == t.len()),
    ensures
        comment_end(t, q + (i - p)) == q + (comment_end(s, i) - p),
    decreases s.len() - i,
{
    let w = seq!['-', '-', '>'];
    lemma_comment_end(s, i);
    if !(i + 3 <= s.len()) {
    } else if word_at(s, i, w) {
        lemma_word_frame(s, p, t, q, n, i, w);
    } else {
        lemma_comment_end(s, i + 1);
        lemma_word_frame(s, p, t, q, n, i, w);
        lemma_comment_end_frame(s, p, t, q, n, i + 1);
    }
}

/// A comment opens in `t` at `q` just when one does in `s` at `p`, and ends at
/// the same place, when the two agree that far.
proof fn lemma_comment_frame(s: Seq<char>, p: int, t: Seq<char>, q: int, n: int)
    requires
        agree(s, p, t, q, n),
        comment_at(s, p) matches Some(k) ==> k <= p + n && (k == s.len() ==> (p + n == s.len()
            && q + n == t.len())),
        comment_at(s, p) is None ==> (p + 4 <= p + n || (p + n == s.len() && q + n == t.len())),
    ensures
        comment_at(s, p) matches Some(k) ==> comment_at(t, q) == Some(q + (k - p)),
        comment_at(s, p) is None ==> comment_at(t, q) is None,
{
    let w = seq!['<', '!', '-', '-'];
    lemma_comment_at(s, p);
    if comment_at(s, p) is Some {
        lemma_word_frame(s, p, t, q, n, p, w);
        lemma_comment_end_frame(s, p, t, q, n, p + 4);
    } else {
        lemma_word_frame(s, p, t, q, n, p, w);
    }
}

/// What a failing match at `p` looks at ends before any later comment has
/// gone past its opening.
proof fn lemma_window_comment(s: Seq<char>, p: int, k: int, k2: int)
    requires
        0 <= p < k,
        span_at(s, p) is None,
        comment_at(s, k) == Some(k2),
    ensures
        reach(s, p) <= k + 4,
        k + 4 <= k2,
{
    lemma_comment_at(s, k);
    if name_ok(s, p) {
        lemma_stages(s, p);
        assert forall|y: int| p < y < p + 5 implies s[y] != '<' by {
            assert(s.subrange(p, p + 5)[y - p] == s[y]);
        }
        assert(s.subrange(p, p + 5)[0] == s[p]);
        let a = name_end(s, p);
        if a == p + 9 {
            assert forall|y: int| p + 5 <= y < p + 9 implies s[y] != '<' by {
                assert(s.subrange(p + 5, p + 9)[y - p - 5] == s[y]);
            }
        }
        assert(k >= a);
        let b = eq_pos(s, p);
        lemma_run_end(s, a, |c: char| is_ws(c));
        if k < b {
            assert(is_ws(s[k]));
        }
        if b < s.len() && s[b] == '=' {
            let c = quote_pos(s, p);
            lemma_run_end(s, b + 1, |c: char| is_ws(c));
            if k < c {
                assert(is_ws(s[k]));
            }
            if c < s.len() && is_quote(s[c]) {
                let e = list_end(s, p);
                lemma_run_end(s, c + 1, |c: char| is_class_char(c));
                if e > k {
                    assert(is_class_char(s[k]));
                }
            }
        }
    }
}

/// Whether a comment or a class attribute starts at `x`.
pub open spec fn starts_something(s: Seq<char>, x: int) -> bool {
    comment_at(s, x) is Some || span_at(s, x) is Some
}

/// The first position at or after `x` where a comment or a class attribute
/// starts, or the end of `s`.
pub open spec fn next_event(s: Seq<char>, x: int) -> int
    decreases s.len() - x,
{
    if !(0 <= x < s.len()) {
        s.len() as int
    } else if starts_something(s, x) {
        x
    } else {
        next_event(s, x + 1)
    }
}

proof fn lemma_next_event(s: Seq<char>, x: int)
    requires
        0 <= x <= s.len(),
    ensures
        x <= next_event(s, x) <= s.len(),
        forall|y: int| x <= y < next_event(s, x) ==> !starts_something(s, y),
        next_event(s, x) < s.len() ==> starts_something(s, next_event(s, x)),
    decreases s.len() - x,
{
    if x < s.len() && !starts_something(s, x) {
        lemma_next_event(s, x + 1);
    }
}

/// Positions where no attribute starts are copied one by one.
proof fn lemma_gap(s: Seq<char>, x: int, k: int, rd: bool)
    requires
        0 <= x <= k <= s.len(),
        forall|y: int| x <= y < k ==> !starts_something(s, y),
    ensures
        rewrite_from(s, x, rd) == s.subrange(x, k) + rewrite_from(s, k, rd),
    decreases k - x,
{
    if x < k {
        assert(!starts_something(s, x));
        lemma_gap(s, x + 1, k, rd);
        assert(s.subrange(x, k) =~= seq![s[x]] + s.subrange(x + 1, k));
    } else {
        assert(s.subrange(x, k) + rewrite_from(s, k, rd) =~= rewrite_from(s, k, rd));
    }
}

proof fn lemma_gap_outside(s: Seq<char>, x: int, k: int)
    requires
        0 <= x <= k <= s.len(),
        forall|y: int| x <= y < k ==> !starts_something(s, y),
    ensures
        outside_from(s, x) == s.subrange(x, k) + outside_from(s, k),
    decreases k - x,
{
    if x < k {
        assert(!starts_something(s, x));
        lemma_gap_outside(s, x + 1, k);
        assert(s.subrange(x, k) =~= seq![s[x]] + s.subrange(x + 1, k));
    } else {
        assert(s.subrange(x, k) + outside_from(s, k) =~= outside_from(s, k));
    }
}

proof fn lemma_agree_prefix(s: Seq<char>, p: int, t: Seq<char>, q: int, m: int, rest: Seq<char>)
    requires
        0 <= p <= p + m <= s.len(),
        0 <= q <= t.len(),
        t.skip(q) == s.subrange(p, p + m) + rest,
    ensures
        agree(s, p, t, q, m),
{
    assert(t.skip(q).len() == m + rest.len());
    assert forall|k: int| 0 <= k < m implies #[trigger] t.subrange(q, q + m)[k] == s.subrange(
        p,
        p + m,
    )[k] by {
        assert(t.skip(q)[k] == t[q + k]);
    }
    assert(t.subrange(q, q + m) =~= s.subrange(p, p + m));
}

pub open spec fn all_class(s: Seq<char>) -> bool {
    forall|i: int| 0 <= i < s.len() ==> is_class_char(#[trigger] s[i])
}

proof fn lemma_split_class(s: Seq<char>)
    requires
        all_class(s),
    ensures
        forall|j: int| 0 <= j < split_ws(s).len() ==> all_class(#[trigger] split_ws(s)[j]),
    decreases s.len(),
{
    if s.len() == 0 {
        assert(split_ws(s).len() == 0);
    } else {
        if is_ws(s[0]) {
            assert forall|i: int| 0 <= i < s.drop_first().len() implies is_class_char(
                #[trigger] s.drop_first()[i],
            ) by {
                assert(s.drop_first()[i] == s[i + 1]);
            }
            lemma_split_class(s.drop_first());
            assert(split_ws(s) == split_ws(s.drop_first()));
        } else {
            lemma_word_len_bound(s);
            let n = word_len(s) as int;
            assert forall|i: int| 0 <= i < s.skip(n).len() implies is_class_char(
                #[trigger] s.skip(n)[i],
            ) by {
                assert(s.skip(n)[i] == s[i + n]);
            }
            lemma_split_class(s.skip(n));
            let ts = split_ws(s);
            assert(ts == seq![s.take(n)] + split_ws(s.skip(n)));
            assert forall|j: int| 0 <= j < ts.len() implies all_class(#[trigger] ts[j]) by {
                if j == 0 {
                    assert forall|i: int| 0 <= i < ts[0].len() implies is_class_char(
                        #[trigger] ts[0][i],
                    ) by {
                        assert(ts[0][i] == s[i]);
                    }
                } else {
                    assert(ts[j] == split_ws(s.skip(n))[j - 1]);
                }
            }
        }
    }
}

proof fn lemma_join_class(ts: Seq<Seq<char>>)
    requires
        forall|j: int| 0 <= j < ts.len() ==> all_class(#[trigger] ts[j]),
    ensures
        all_class(join(ts)),
    decreases ts.len(),
{
    if ts.len() > 1 {
        assert forall|j: int| 0 <= j < ts.drop_first().len() implies all_class(
            #[trigger] ts.drop_first()[j],
        ) by {
            assert(ts.drop_first()[j] == ts[j + 1]);
        }
        lemma_join_class(ts.drop_first());
        let a = ts[0];
        assert(all_class(a));
        let r = a + seq![' '] + join(ts.drop_first());
        assert forall|i: int| 0 <= i < r.len() implies is_class_char(#[trigger] r[i]) by {
            if i < a.len() {
                assert(r[i] == a[i]);
            } else if i > a.len() {
                assert(r[i] == join(ts.drop_first())[i - a.len() - 1]);
            }
        }
    } else if ts.len() == 1 {
        assert(all_class(ts[0]));
    }
}

/// A sorted class list holds only class-list characters.
proof fn lemma_sorted_class(inner: Seq<char>, rd: bool)
    requires
        all_class(inner),
    ensures
        all_class(sort_class_list(inner, rd)),
{
    let ts = split_ws(inner);
    lemma_split_class(inner);
    lemma_dedup(ts);
    let u = if rd {
        dedup(ts)
    } else {
        ts
    };
    lemma_rank_sort_members(u);
    let o = rank_sort(u);
    assert forall|j: int| 0 <= j < o.len() implies all_class(#[trigger] o[j]) by {
        assert(o.contains(o[j]));
        assert(ts.contains(o[j]));
        let k = choose|k: int| 0 <= k < ts.len() && ts[k] == o[j];
        assert(all_class(ts[k]));
    }
    lemma_join_class(o);
}

/// No `c` stands in an attribute after its first character, up to its list.
proof fn lemma_header_no_c(s: Seq<char>, p: int, st: int, e: int)
    requires
        span_at(s, p) == Some((st, e)),
    ensures
        forall|y: int| p < y < st ==> s[y] != 'c' && s[y] != '<',
{
    lemma_span_at(s, p);
    assert(name_ok(s, p));
    lemma_stages(s, p);
    let a = name_end(s, p);
    let b = eq_pos(s, p);
    let c = quote_pos(s, p);
    lemma_run_end(s, a, |c: char| is_ws(c));
    lemma_run_end(s, b + 1, |c: char| is_ws(c));
    assert forall|y: int| p < y < st implies s[y] != 'c' && s[y] != '<' by {
        if y < p + 5 {
            assert(s.subrange(p, p + 5)[y - p] == s[y]);
        } else if y < a {
            assert(s.subrange(p + 5, p + 9)[y - p - 5] == s[y]);
        } else if y < b {
            assert(is_ws(s[y]));
        } else if b < y < c {
            assert(is_ws(s[y]));
        }
    }
}

/// The list of a class attribute that starts at `p` in `s` holds only
/// class-list characters; the attribute's parts stand where `lemma_stages`
/// puts them.
proof fn lemma_span_parts(s: Seq<char>, p: int, st: int, e: int)
    requires
        span_at(s, p) == Some((st, e)),
    ensures
        name_ok(s, p),
        st == quote_pos(s, p) + 1,
        e == list_end(s, p),
        eq_pos(s, p) < quote_pos(s, p),
        p + 5 <= eq_pos(s, p),
        s[eq_pos(s, p)] == '=',
        is_quote(s[quote_pos(s, p)]),
        s[e] == s[quote_pos(s, p)],
        all_class(s.subrange(st, e)),
        !is_class_char(s[e]),
{
    lemma_span_at(s, p);
    assert(name_ok(s, p));
    lemma_stages(s, p);
    lemma_run_end(s, st, |c: char| is_class_char(c));
    assert forall|i: int| 0 <= i < e - st implies is_class_char(#[trigger] s.subrange(st, e)[i]) by {
        assert(s.subrange(st, e)[i] == s[st + i]);
    }
}

/// A position where nothing starts in `s` starts nothing in `t`.
proof fn lemma_none_step(s: Seq<char>, p: int, t: Seq<char>, q: int, rd: bool)
    requires
        0 <= p < s.len(),
        0 <= q <= t.len(),
        t.skip(q) == rewrite_from(s, p, rd),
        s[p] == 'c' ==> same_before(s, p, t, q),
        comment_at(s, p) is None,
        span_at(s, p) is None,
    ensures
        q < t.len(),
        t[q] == s[p],
        t.skip(q + 1) == rewrite_from(s, p + 1, rd),
        comment_at(t, q) is None,
        span_at(t, q) is None,
{
    lemma_span_at(t, q);
    lemma_comment_at(t, q);
    let r1 = rewrite_from(s, p + 1, rd);
    assert(t.skip(q) == seq![s[p]] + r1);
    assert(t[q] == t.skip(q)[0]);
    assert(t.skip(q + 1) =~= t.skip(q).drop_first());
    assert(t.skip(q).drop_first() =~= r1);
    if s[p] == 'c' || s[p] == '<' {
        let n = lemma_agree_to_next(s, p, t, q, rd);
        if s[p] == 'c' {
            lemma_frame_none(s, p, t, q, n);
        }
        lemma_comment_frame(s, p, t, q, n);
    }
}

/// How far `t` from `q` agrees with `s` from `p`, when nothing starts at `p`:
/// far enough to cover all that a match at `p` looks at.
#[verifier::rlimit(100)]
proof fn lemma_agree_to_next(s: Seq<char>, p: int, t: Seq<char>, q: int, rd: bool) -> (n: int)
    requires
        0 <= p < s.len(),
        0 <= q <= t.len(),
        t.skip(q) == rewrite_from(s, p, rd),
        comment_at(s, p) is None,
        span_at(s, p) is None,
    ensures
        agree(s, p, t, q, n),
        reach(s, p) <= p + n || (p + n == s.len() && q + n == t.len()),
        p + 4 <= p + n || (p + n == s.len() && q + n == t.len()),
{
    lemma_next_event(s, p + 1);
    let k = next_event(s, p + 1);
    assert forall|y: int| p <= y < k implies !starts_something(s, y) by {}
    lemma_gap(s, p, k, rd);
    if k == s.len() {
        assert(rewrite_from(s, k, rd) =~= Seq::<char>::empty());
        assert(t.skip(q) =~= s.subrange(p, s.len() as int) + Seq::<char>::empty());
        lemma_agree_prefix(s, p, t, q, s.len() - p, Seq::empty());
        s.len() - p
    } else if let Some(k2) = comment_at(s, k) {
        lemma_comment_at(s, k);
        lemma_window_comment(s, p, k, k2);
        let rest = rewrite_from(s, k2, rd);
        assert(rewrite_from(s, k, rd) == s.subrange(k, k2) + rest);
        assert(t.skip(q) =~= s.subrange(p, k2) + rest);
        lemma_agree_prefix(s, p, t, q, k2 - p, rest);
        k2 - p
    } else {
        let (st2, e2) = span_at(s, k)->Some_0;
        lemma_span_at(s, k);
        lemma_window(s, p, k, st2, e2);
        let rest = sort_class_list(s.subrange(st2, e2), rd) + rewrite_from(s, e2, rd);
        assert(rewrite_from(s, k, rd) == s.subrange(k, st2) + rest);
        assert(t.skip(q) =~= s.subrange(p, st2) + rest);
        lemma_agree_prefix(s, p, t, q, st2 - p, rest);
        st2 - p
    }
}

/// A comment that opens in `s` at `p` opens in `t` at `q` and ends at the
/// same place.
proof fn lemma_comment_step(s: Seq<char>, p: int, t: Seq<char>, q: int, rd: bool, k: int)
    requires
        0 <= p < s.len(),
        0 <= q <= t.len(),
        t.skip(q) == rewrite_from(s, p, rd),
        comment_at(s, p) == Some(k),
    ensures
        comment_at(t, q) == Some(q + (k - p)),
        t.subrange(q, q + (k - p)) == s.subrange(p, k),
        t.skip(q + (k - p)) == rewrite_from(s, k, rd),
        0 < q + (k - p) <= t.len(),
        t[q + (k - p) - 1] == s[k - 1],
{
    lemma_comment_at(s, p);
    let rest = rewrite_from(s, k, rd);
    assert(t.skip(q) == s.subrange(p, k) + rest);
    lemma_agree_prefix(s, p, t, q, k - p, rest);
    if k == s.len() {
        assert(rest =~= Seq::<char>::empty());
    }
    lemma_comment_frame(s, p, t, q, k - p);
    lemma_agree_at(s, p, t, q, k - p, k - p - 1);
    assert(t.skip(q + (k - p)) =~= rest) by {
        assert(t.skip(q).len() == (k - p) + rest.len());
        assert forall|i: int| 0 <= i < rest.len() implies t.skip(q + (k - p))[i] == rest[i] by {
            assert(t.skip(q)[(k - p) + i] == t[q + (k - p) + i]);
        }
    }
}

/// `t` read at an attribute of `s`: the same name, `=` and quotes, with the
/// sorted list between them.
#[verifier::rlimit(40)]
proof fn lemma_span_step(s: Seq<char>, p: int, t: Seq<char>, q: int, rd: bool, st: int, e: int)
    requires
        0 <= p < s.len(),
        0 <= q <= t.len(),
        t.skip(q) == rewrite_from(s, p, rd),
        same_before(s, p, t, q),
        span_at(s, p) == Some((st, e)),
    ensures
        ({
            let l = sort_class_list(s.subrange(st, e), rd);
            let sp = q + (st - p);
            let ep = sp + l.len();
            &&& ep < t.len()
            &&& t[ep] == s[e]
            &&& t.subrange(q, sp) == s.subrange(p, st)
            &&& t.subrange(sp, ep) == l
            &&& t.skip(ep + 1) == rewrite_from(s, e + 1, rd)
            &&& rewrite_from(s, e, rd) == seq![s[e]] + rewrite_from(s, e + 1, rd)
            &&& all_class(l)
            &&& (l.len() > 0 ==> span_at(t, q) == Some((sp, ep)))
            &&& (l.len() == 0 ==> span_at(t, q) is None)
            &&& comment_at(t, q) is None
        }),
{
    lemma_comment_at(t, q);
    lemma_span_parts(s, p, st, e);
    let l = sort_class_list(s.subrange(st, e), rd);
    lemma_sorted_class(s.subrange(st, e), rd);
    lemma_span_at(s, e);
    let re1 = rewrite_from(s, e + 1, rd);
    assert(rewrite_from(s, e, rd) == seq![s[e]] + re1);
    let hdr = s.subrange(p, st);
    assert(t.skip(q) =~= hdr + (l + (seq![s[e]] + re1)));
    lemma_agree_prefix(s, p, t, q, st - p, l + (seq![s[e]] + re1));
    let n = st - p;
    let sp = q + n;
    let ep = sp + l.len();
    assert(t.skip(q).len() == n + l.len() + 1 + re1.len());
    assert forall|i: int| 0 <= i < l.len() implies t[sp + i] == l[i] by {
        assert(t.skip(q)[n + i] == t[q + n + i]);
    }
    assert(t[ep] == s[e]) by {
        assert(t.skip(q)[n + l.len()] == t[q + n + l.len()]);
    }
    assert(t.skip(ep + 1) =~= re1) by {
        assert forall|i: int| 0 <= i < re1.len() implies t.skip(ep + 1)[i] == re1[i] by {
            assert(t.skip(q)[n + l.len() + 1 + i] == t[q + n + l.len() + 1 + i]);
        }
    }
    assert(t.subrange(sp, ep) =~= l);
    assert(t.subrange(q, sp) =~= hdr) by {
        assert forall|i: int| 0 <= i < n implies t.subrange(q, sp)[i] == hdr[i] by {
            lemma_agree_at(s, p, t, q, n, i);
        }
    }
    lemma_agree_at(s, p, t, q, n, 0);
    lemma_word_frame(s, p, t, q, n, p, class_word());
    assert(name_ok(t, q));
    lemma_stages(t, q);
    let b = eq_pos(s, p);
    let c = quote_pos(s, p);
    if b >= p + 9 {
        lemma_word_frame(s, p, t, q, n, p + 5, name_word());
    } else {
        lemma_agree_at(s, p, t, q, n, b - p);
        if word_at(t, q + 5, name_word()) {
            assert(t.subrange(q + 5, q + 9)[b - p - 5] == t[q + (b - p)]);
        }
        if word_at(s, p + 5, name_word()) {
            assert(s.subrange(p + 5, p + 9)[b - p - 5] == s[b]);
        }
    }
    assert(name_end(t, q) == q + (name_end(s, p) - p));
    lemma_run_frame(s, p, t, q, n, name_end(s, p), |ch: char| is_ws(ch));
    assert(eq_pos(t, q) == q + (b - p));
    lemma_agree_at(s, p, t, q, n, b - p);
    lemma_run_frame(s, p, t, q, n, b + 1, |ch: char| is_ws(ch));
    assert(quote_pos(t, q) == q + (c - p));
    lemma_agree_at(s, p, t, q, n, c - p);
    assert forall|k: int| sp <= k < ep implies is_class_char(#[trigger] t[k]) by {
        assert(t[sp + (k - sp)] == l[k - sp]);
    }
    crate::extract::lemma_run_end_at(t, sp, ep, |ch: char| is_class_char(ch));
    assert(list_end(t, q) == ep);
}

/// Scanning `t` from `q`, where `t` continues with what rewriting `s` from
/// `p` gives, yields that same text again.
pub proof fn lemma_rescan(s: Seq<char>, p: int, t: Seq<char>, q: int, rd: bool)
    requires
        0 <= p <= s.len(),
        0 <= q <= t.len(),
        t.skip(q) == rewrite_from(s, p, rd),
        p < s.len() && s[p] == 'c' ==> same_before(s, p, t, q),
    ensures
        rewrite_from(t, q, rd) == rewrite_from(s, p, rd),
        outside_from(t, q) == outside_from(s, p),
    decreases s.len() - p,
{
    if p == s.len() {
        assert(t.skip(q).len() == 0);
    } else {
        lemma_span_at(s, p);
        lemma_span_at(t, q);
        lemma_comment_at(s, p);
        if let Some(k) = comment_at(s, p) {
            lemma_comment_step(s, p, t, q, rd, k);
            lemma_rescan(s, k, t, q + (k - p), rd);
        } else {
        match span_at(s, p) {
            None => {
                lemma_none_step(s, p, t, q, rd);
                lemma_rescan(s, p + 1, t, q + 1, rd);
            },
            Some((st, e)) => {
                lemma_span_step(s, p, t, q, rd, st, e);
                let l = sort_class_list(s.subrange(st, e), rd);
                let sp = q + (st - p);
                let ep = sp + l.len();
                let hdr = s.subrange(p, st);
                let re1 = rewrite_from(s, e + 1, rd);
                if l.len() > 0 {
                    crate::laws::sort_class_list_idempotent(s.subrange(st, e), rd);
                    assert(t.skip(ep) =~= seq![s[e]] + re1) by {
                        assert(t.skip(ep)[0] == t[ep]);
                        assert forall|i: int| 1 <= i < t.skip(ep).len() implies t.skip(ep)[i] == (
                        seq![s[e]] + re1)[i] by {
                            assert(t.skip(ep)[i] == t.skip(ep + 1)[i - 1]);
                        }
                    }
                    lemma_span_at(s, e);
                    lemma_rescan(s, e, t, ep, rd);
                    assert(outside_from(t, q) == t.subrange(q, sp) + outside_from(t, ep));
                } else {
                    lemma_header_no_c(s, p, st, e);
                    assert forall|y: int| q <= y < ep + 1 implies !starts_something(t, y) by {
                        if y > q {
                            lemma_span_at(t, y);
                            lemma_comment_at(t, y);
                            if y < ep {
                                assert(t.subrange(q, sp)[y - q] == hdr[y - q]);
                            }
                        }
                    }
                    lemma_gap(t, q, ep + 1, rd);
                    lemma_gap_outside(t, q, ep + 1);
                    lemma_span_at(s, e);
                    assert(outside_from(s, e) == seq![s[e]] + outside_from(s, e + 1));
                    assert(t.subrange(q, ep + 1) =~= hdr + seq![s[e]]) by {
                        assert forall|i: int| 0 <= i < st - p implies t.subrange(q, ep + 1)[i]
                            == hdr[i] by {
                            assert(t.subrange(q, sp)[i] == hdr[i]);
                        }
                    }
                    lemma_rescan(s, e + 1, t, ep + 1, rd);
                    assert(l =~= Seq::<char>::empty());
                    assert(rewrite_from(s, p, rd) =~= hdr + seq![s[e]] + re1);
                    assert(outside_from(s, p) =~= hdr + seq![s[e]] + outside_from(s, e + 1));
                }
            },
        }
        }
    }
}

} // verus!
