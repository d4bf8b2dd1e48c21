//! Finding the class lists of `class="..."` / `className='...'` attributes in
//! file content, and rewriting them in place.
use vstd::prelude::*;

use crate::sort::{sort_class_list, sort_classes};
use crate::tokens::{copy_range, is_whitespace, is_ws};

verus! {

/// A character of an identifier: a class attribute must not follow one.
pub open spec fn is_word_char(c: char) -> bool {
    ('a' <= c && c <= 'z') || ('A' <= c && c <= 'Z') || ('0' <= c && c <= '9') || c == '_'
}

/// A character that may stand in a class list.
pub open spec fn is_class_char(c: char) -> bool {
    is_word_char(c) || is_ws(c) || c == '-' || c == ':' || c == '/' || c == '.' || c == '['
        || c == ']' || c == '#' || c == '%' || c == '!'
}

pub open spec fn is_quote(c: char) -> bool {
    c == '"' || c == '\''
}

/// The end of the run of characters satisfying `pred` that starts at `i`.
pub open spec fn run_end(s: Seq<char>, i: int, pred: spec_fn(char) -> bool) -> int
    decreases s.len() - i,
{
    if 0 <= i < s.len() && pred(s[i]) {
        run_end(s, i + 1, pred)
    } else {
        i
    }
}

pub open spec fn ws_end(s: Seq<char>, i: int) -> int {
    run_end(s, i, |c: char| is_ws(c))
}

pub open spec fn class_chars_end(s: Seq<char>, i: int) -> int {
    run_end(s, i, |c: char| is_class_char(c))
}

/// Whether `w` stands in `s` at `p`.
pub open spec fn word_at(s: Seq<char>, p: int, w: Seq<char>) -> bool {
    0 <= p && p + w.len() <= s.len() && s.subrange(p, p + w.len()) == w
}

/// The class list of an attribute that starts at `p`, as the range of its
/// text between the quotes: `class` or `className` after whitespace, `=` with optional whitespace around it, a quote, one
/// or more class-list characters, and the same quote again.
pub open spec fn span_at(s: Seq<char>, p: int) -> Option<(int, int)> {
    if !(0 <= p < s.len()) || !(p > 0 && is_ws(s[p - 1])) || !word_at(
        s,
        p,
        seq!['c', 'l', 'a', 's', 's'],
    ) {
        None
    } else {
        let a = if word_at(s, p + 5, seq!['N', 'a', 'm', 'e']) {
            p + 9
        } else {
            p + 5
        };
        let b = ws_end(s, a);
        if !(b < s.len() && s[b] == '=') {
            None
        } else {
            let c = ws_end(s, b + 1);
            if !(c < s.len() && is_quote(s[c])) {
                None
            } else {
                let e = class_chars_end(s, c + 1);
                if c + 1 < e < s.len() && s[e] == s[c] {
                    Some((c + 1, e))
                } else {
                    None
                }
            }
        }
    }
}

/// Just past the first `-->` that starts at or after `i`, or the end of `s`.
pub open spec fn comment_end(s: Seq<char>, i: int) -> int
    decreases s.len() - i,
{
    if !(0 <= i && i + 3 <= s.len()) {
        s.len() as int
    } else if word_at(s, i, seq!['-', '-', '>']) {
        i + 3
    } else {
        comment_end(s, i + 1)
    }
}

/// Where a comment that opens at `p` with `<!--` ends: just past its `-->`,
/// or the end of `s` if it is not closed.
pub open spec fn comment_at(s: Seq<char>, p: int) -> Option<int> {
    if word_at(s, p, seq!['<', '!', '-', '-']) {
        Some(comment_end(s, p + 4))
    } else {
        None
    }
}

pub proof fn lemma_comment_end(s: Seq<char>, i: int)
    requires
        0 <= i <= s.len(),
    ensures
        i <= comment_end(s, i) <= s.len(),
        comment_end(s, i) < s.len() ==> i + 3 <= comment_end(s, i),
    decreases s.len() - i,
{
    if i + 3 <= s.len() && !word_at(s, i, seq!['-', '-', '>']) {
        lemma_comment_end(s, i + 1);
    }
}

pub proof fn lemma_comment_at(s: Seq<char>, p: int)
    ensures
        comment_at(s, p) matches Some(k) ==> 0 <= p && p + 4 <= k <= s.len() && s[p] == '<',
{
    if comment_at(s, p) is Some {
        assert(s.subrange(p, p + 4)[0] == s[p]);
        lemma_comment_end(s, p + 4);
    }
}

pub proof fn lemma_run_end(s: Seq<char>, i: int, pred: spec_fn(char) -> bool)
    requires
        0 <= i <= s.len(),
    ensures
        i <= run_end(s, i, pred) <= s.len(),
        forall|k: int| i <= k < run_end(s, i, pred) ==> pred(#[trigger] s[k]),
        run_end(s, i, pred) < s.len() ==> !pred(s[run_end(s, i, pred)]),
    decreases s.len() - i,
{
    if i < s.len() && pred(s[i]) {
        lemma_run_end(s, i + 1, pred);
    }
}

pub proof fn lemma_run_end_at(s: Seq<char>, i: int, j: int, pred: spec_fn(char) -> bool)
    requires
        0 <= i <= j <= s.len(),
        forall|k: int| i <= k < j ==> pred(#[trigger] s[k]),
        j == s.len() || !pred(s[j]),
    ensures
        run_end(s, i, pred) == j,
    decreases j - i,
{
    if i < j {
        lemma_run_end_at(s, i + 1, j, pred);
    }
}

pub proof fn lemma_span_at(s: Seq<char>, p: int)
    ensures
        span_at(s, p) matches Some((st, e)) ==> p < st < e < s.len() && is_quote(s[e])
            && is_quote(s[st - 1]) && s[p] == 'c',
{
    if span_at(s, p) is Some {
        let a = if word_at(s, p + 5, seq!['N', 'a', 'm', 'e']) {
            p + 9
        } else {
            p + 5
        };
        assert(s.subrange(p, p + 5)[0] == s[p]);
        lemma_run_end(s, a, |c: char| is_ws(c));
        let b = ws_end(s, a);
        lemma_run_end(s, b + 1, |c: char| is_ws(c));
    }
}

/// The content with every class list sorted, scanning from `p`: text outside
/// the class lists, comments included, is kept as it is.
pub open spec fn rewrite_from(s: Seq<char>, p: int, remove_dups: bool) -> Seq<char>
    decreases s.len() - p,
    via rewrite_from_decreases
{
    if !(0 <= p < s.len()) {
        Seq::empty()
    } else if let Some(k) = comment_at(s, p) {
        s.subrange(p, k) + rewrite_from(s, k, remove_dups)
    } else {
        match span_at(s, p) {
            Some((st, e)) => s.subrange(p, st) + sort_class_list(s.subrange(st, e), remove_dups)
                + rewrite_from(s, e, remove_dups),
            None => seq![s[p]] + rewrite_from(s, p + 1, remove_dups),
        }
    }
}

#[via_fn]
proof fn rewrite_from_decreases(s: Seq<char>, p: int, remove_dups: bool) {
    lemma_span_at(s, p);
    lemma_comment_at(s, p);
}

/// The content with every class list sorted.
pub open spec fn rewrite(s: Seq<char>, remove_dups: bool) -> Seq<char> {
    rewrite_from(s, 0, remove_dups)
}

/// The class lists found scanning from `p`, left to right, as ranges; a
/// comment is passed over whole.
pub open spec fn spans_from(s: Seq<char>, p: int) -> Seq<(int, int)>
    decreases s.len() - p,
    via spans_from_decreases
{
    if !(0 <= p < s.len()) {
        Seq::empty()
    } else if let Some(k) = comment_at(s, p) {
        spans_from(s, k)
    } else {
        match span_at(s, p) {
            Some((st, e)) => seq![(st, e)] + spans_from(s, e),
            None => spans_from(s, p + 1),
        }
    }
}

#[via_fn]
proof fn spans_from_decreases(s: Seq<char>, p: int) {
    lemma_span_at(s, p);
    lemma_comment_at(s, p);
}

/// The class lists of `s`, left to right.
pub open spec fn spans(s: Seq<char>) -> Seq<(int, int)> {
    spans_from(s, 0)
}

/// The content outside the class lists, scanning from `p`: everything but the
/// text between the quotes of each class attribute.
pub open spec fn outside_from(s: Seq<char>, p: int) -> Seq<char>
    decreases s.len() - p,
    via outside_from_decreases
{
    if !(0 <= p < s.len()) {
        Seq::empty()
    } else if let Some(k) = comment_at(s, p) {
        s.subrange(p, k) + outside_from(s, k)
    } else {
        match span_at(s, p) {
            Some((st, e)) => s.subrange(p, st) + outside_from(s, e),
            None => seq![s[p]] + outside_from(s, p + 1),
        }
    }
}

#[via_fn]
proof fn outside_from_decreases(s: Seq<char>, p: int) {
    lemma_span_at(s, p);
    lemma_comment_at(s, p);
}

/// The content outside the class lists of `s`, in order.
pub open spec fn outside(s: Seq<char>) -> Seq<char> {
    outside_from(s, 0)
}

pub fn is_word_character(c: char) -> (r: bool)
    ensures
        r == is_word_char(c),
{
    ('a' <= c && c <= 'z') || ('A' <= c && c <= 'Z') || ('0' <= c && c <= '9') || c == '_'
}

pub fn is_class_character(c: char) -> (r: bool)
    ensures
        r == is_class_char(c),
{
    is_word_character(c) || is_whitespace(c) || c == '-' || c == ':' || c == '/' || c == '.' || c
        == '[' || c == ']' || c == '#' || c == '%' || c == '!'
}

fn skip_ws(s: &[char], i: usize) -> (r: usize)
    requires
        i <= s@.len(),
    ensures
        r == ws_end(s@, i as int),
{
    let mut j: usize = i;
    while j < s.len() && is_whitespace(s[j])
        invariant
            i <= j <= s@.len(),
            forall|k: int| i <= k < j ==> is_ws(#[trigger] s@[k]),
        decreases s@.len() - j,
    {
        j = j + 1;
    }
    proof {
        let pred = |c: char| is_ws(c);
        assert forall|k: int| i <= k < j implies pred(#[trigger] s@[k]) by {}
        lemma_run_end_at(s@, i as int, j as int, pred);
    }
    j
}

fn skip_class_chars(s: &[char], i: usize) -> (r: usize)
    requires
        i <= s@.len(),
    ensures
        r == class_chars_end(s@, i as int),
{
    let mut j: usize = i;
    while j < s.len() && is_class_character(s[j])
        invariant
            i <= j <= s@.len(),
            forall|k: int| i <= k < j ==> is_class_char(#[trigger] s@[k]),
        decreases s@.len() - j,
    {
        j = j + 1;
    }
    proof {
        let pred = |c: char| is_class_char(c);
        assert forall|k: int| i <= k < j implies pred(#[trigger] s@[k]) by {}
        lemma_run_end_at(s@, i as int, j as int, pred);
    }
    j
}

/// Whether the characters of `w` stand in `s` at `p`.
fn chars_at(s: &[char], p: usize, w: &[char]) -> (r: bool)
    ensures
        r == word_at(s@, p as int, w@),
{
    if p > s.len() || w.len() > s.len() - p {
        return false;
    }
    let mut k: usize = 0;
    while k < w.len()
        invariant
            k <= w@.len(),
            p + w@.len() <= s@.len(),
            s@.len() <= usize::MAX,
            forall|j: int| 0 <= j < k ==> s@[p + j] == w@[j],
        decreases w@.len() - k,
    {
        if s[p + k] != w[k] {
            assert(s@.subrange(p as int, p + w@.len())[k as int] != w@[k as int]);
            return false;
        }
        k = k + 1;
    }
    assert(s@.subrange(p as int, p + w@.len()) =~= w@);
    true
}

/// Where a comment that opens at `p` ends (see `comment_at`).
pub fn comment_at_pos(s: &[char], p: usize) -> (r: Option<usize>)
    ensures
        match r {
            Some(k) => comment_at(s@, p as int) == Some(k as int),
            None => comment_at(s@, p as int) is None,
        },
{
    let open: [char; 4] = ['<', '!', '-', '-'];
    let close: [char; 3] = ['-', '-', '>'];
    assert(open@ =~= seq!['<', '!', '-', '-']);
    assert(close@ =~= seq!['-', '-', '>']);
    if !chars_at(s, p, open.as_slice()) {
        return None;
    }
    let n = s.len();
    assert(word_at(s@, p as int, seq!['<', '!', '-', '-']));
    assert(p + 4 <= n);
    let mut i: usize = p + 4;
    while i < s.len() && s.len() - i >= 3
        invariant
            p + 4 <= i <= s@.len(),
            word_at(s@, p as int, seq!['<', '!', '-', '-']),
            close@ == seq!['-', '-', '>'],
            comment_end(s@, i as int) == comment_end(s@, p + 4),
        decreases s@.len() - i,
    {
        if chars_at(s, i, close.as_slice()) {
            assert(word_at(s@, i as int, seq!['-', '-', '>']));
            assert(comment_end(s@, i as int) == i + 3);
            assert(comment_at(s@, p as int) == Some(comment_end(s@, p + 4)));
            return Some(i + 3);
        }
        i = i + 1;
    }
    Some(s.len())
}

/// The class list of an attribute starting at `p`, if one does (see `span_at`).
pub fn span_at_pos(s: &[char], p: usize) -> (r: Option<(usize, usize)>)
    ensures
        match r {
            Some((st, e)) => span_at(s@, p as int) == Some((st as int, e as int)),
            None => span_at(s@, p as int) is None,
        },
{
    if p >= s.len() || p == 0 || !is_whitespace(s[p - 1]) {
        return None;
    }
    let class_word: [char; 5] = ['c', 'l', 'a', 's', 's'];
    let name_word: [char; 4] = ['N', 'a', 'm', 'e'];
    assert(class_word@ =~= seq!['c', 'l', 'a', 's', 's']);
    assert(name_word@ =~= seq!['N', 'a', 'm', 'e']);
    if !chars_at(s, p, class_word.as_slice()) {
        return None;
    }
    let a = if chars_at(s, p + 5, name_word.as_slice()) {
        p + 9
    } else {
        p + 5
    };
    let b = skip_ws(s, a);
    if !(b < s.len() && s[b] == '=') {
        return None;
    }
    let c = skip_ws(s, b + 1);
    if !(c < s.len() && (s[c] == '"' || s[c] == '\'')) {
        return None;
    }
    let e = skip_class_chars(s, c + 1);
    if c + 1 < e && e < s.len() && s[e] == s[c] {
        Some((c + 1, e))
    } else {
        None
    }
}

/// A class list found in file content: the range `start..end` of its text
/// between the quotes, as character positions (not byte offsets) in the
/// content's characters.
#[derive(Clone, Copy, Debug, PartialEq, Eq)]
pub struct Span {
    pub start: usize,
    pub end: usize,
}

pub open spec fn span_ranges(v: Seq<Span>) -> Seq<(int, int)> {
    v.map_values(|sp: Span| (sp.start as int, sp.end as int))
}

/// The class lists of `s`, left to right.
pub fn find_spans(s: &[char]) -> (r: Vec<Span>)
    ensures
        span_ranges(r@) == spans(s@),
{
    let mut r: Vec<Span> = Vec::new();
    let mut p: usize = 0;
    assert(span_ranges(r@) + spans_from(s@, 0) =~= spans(s@));
    while p < s.len()
        invariant
            p <= s@.len(),
            span_ranges(r@) + spans_from(s@, p as int) == spans(s@),
        decreases s@.len() - p,
    {
        proof {
            lemma_span_at(s@, p as int);
            lemma_comment_at(s@, p as int);
        }
        if let Some(k) = comment_at_pos(s, p) {
            p = k;
            continue;
        }
        match span_at_pos(s, p) {
            Some((st, e)) => {
                let ghost r0 = span_ranges(r@);
                r.push(Span { start: st, end: e });
                assert(span_ranges(r@) =~= r0.push((st as int, e as int)));
                assert(span_ranges(r@) + spans_from(s@, e as int) =~= r0 + spans_from(s@, p as int));
                p = e;
            },
            None => {
                p = p + 1;
            },
        }
    }
    assert(span_ranges(r@) + spans_from(s@, p as int) =~= span_ranges(r@));
    r
}

/// Whether `s` holds at least one class list.
pub fn has_class_lists(s: &[char]) -> (r: bool)
    ensures
        r == (spans(s@).len() > 0),
{
    let mut p: usize = 0;
    while p < s.len()
        invariant
            p <= s@.len(),
            spans_from(s@, p as int) == spans(s@),
        decreases s@.len() - p,
    {
        proof {
            lemma_comment_at(s@, p as int);
        }
        if let Some(k) = comment_at_pos(s, p) {
            p = k;
            continue;
        }
        match span_at_pos(s, p) {
            Some(_) => {
                return true;
            },
            None => {
                p = p + 1;
            },
        }
    }
    false
}

/// The content with every class list sorted (see `rewrite`).
pub fn rewrite_contents(s: &[char], remove_dups: bool) -> (r: Vec<char>)
    ensures
        r@ == rewrite(s@, remove_dups),
{
    let mut out: Vec<char> = Vec::new();
    let mut p: usize = 0;
    assert(out@ + rewrite_from(s@, 0, remove_dups) =~= rewrite(s@, remove_dups));
    while p < s.len()
        invariant
            p <= s@.len(),
            out@ + rewrite_from(s@, p as int, remove_dups) == rewrite(s@, remove_dups),
        decreases s@.len() - p,
    {
        proof {
            lemma_span_at(s@, p as int);
            lemma_comment_at(s@, p as int);
        }
        let ghost o0 = out@;
        if let Some(k) = comment_at_pos(s, p) {
            let mut j: usize = p;
            while j < k
                invariant
                    p <= j <= k <= s@.len(),
                    out@ == o0 + s@.subrange(p as int, j as int),
                decreases k - j,
            {
                out.push(s[j]);
                j = j + 1;
                assert(out@ =~= o0 + s@.subrange(p as int, j as int));
            }
            assert(out@ + rewrite_from(s@, k as int, remove_dups) =~= o0 + rewrite_from(
                s@,
                p as int,
                remove_dups,
            ));
            p = k;
            continue;
        }
        match span_at_pos(s, p) {
            Some((st, e)) => {
                let mut k: usize = p;
                while k < st
                    invariant
                        p <= k <= st <= s@.len(),
                        out@ == o0 + s@.subrange(p as int, k as int),
                    decreases st - k,
                {
                    out.push(s[k]);
                    k = k + 1;
                    assert(out@ =~= o0 + s@.subrange(p as int, k as int));
                }
                let inner = copy_range(s, st, e);
                let sorted = sort_classes(inner.as_slice(), remove_dups);
                let ghost o1 = out@;
                let mut j: usize = 0;
                while j < sorted.len()
                    invariant
                        j <= sorted@.len(),
                        out@ == o1 + sorted@.take(j as int),
                    decreases sorted@.len() - j,
                {
                    out.push(sorted[j]);
                    j = j + 1;
                    assert(out@ =~= o1 + sorted@.take(j as int));
                }
                assert(sorted@.take(j as int) =~= sorted@);
                assert(out@ + rewrite_from(s@, e as int, remove_dups) =~= o0 + rewrite_from(
                    s@,
                    p as int,
                    remove_dups,
                ));
                p = e;
            },
            None => {
                out.push(s[p]);
                assert(out@ + rewrite_from(s@, p + 1, remove_dups) =~= o0 + rewrite_from(
                    s@,
                    p as int,
                    remove_dups,
                ));
                p = p + 1;
            },
        }
    }
    assert(out@ + rewrite_from(s@, p as int, remove_dups) =~= out@);
    out
}

} // verus!
