//! Splitting a class list into tokens, and joining tokens back.
use vstd::prelude::*;

verus! {

/// Whitespace that separates class tokens.
pub open spec fn is_ws(c: char) -> bool {
    c == ' ' || c == '\t' || c == '\n' || c == '\r' || c == '\x0C'
}

pub fn is_whitespace(c: char) -> (r: bool)
    ensures
        r == is_ws(c),
{
    c == ' ' || c == '\t' || c == '\n' || c == '\r' || c == '\x0C'
}

/// Number of leading characters of `s` that are not whitespace.
pub open spec fn word_len(s: Seq<char>) -> nat
    decreases s.len(),
{
    if s.len() == 0 || is_ws(s[0]) {
        0
    } else {
        1 + word_len(s.drop_first())
    }
}

/// The whitespace-separated tokens of `s`, in order; none is empty.
pub open spec fn split_ws(s: Seq<char>) -> Seq<Seq<char>>
    decreases s.len(),
    via split_ws_decreases
{
    if s.len() == 0 {
        Seq::empty()
    } else if is_ws(s[0]) {
        split_ws(s.drop_first())
    } else {
        let n = word_len(s) as int;
        seq![s.take(n)] + split_ws(s.skip(n))
    }
}

#[via_fn]
proof fn split_ws_decreases(s: Seq<char>) {
    if s.len() > 0 && !is_ws(s[0]) {
        lemma_word_len_bound(s);
        assert(word_len(s) == 1 + word_len(s.drop_first()));
    }
}

/// The tokens joined by single spaces.
pub open spec fn join(ts: Seq<Seq<char>>) -> Seq<char>
    decreases ts.len(),
{
    if ts.len() == 0 {
        Seq::empty()
    } else if ts.len() == 1 {
        ts[0]
    } else {
        ts[0] + seq![' '] + join(ts.drop_first())
    }
}

/// A token as `split_ws` yields it: non-empty, without whitespace.
pub open spec fn is_token(t: Seq<char>) -> bool {
    t.len() > 0 && forall|i: int| 0 <= i < t.len() ==> !is_ws(#[trigger] t[i])
}

pub open spec fn all_tokens(ts: Seq<Seq<char>>) -> bool {
    forall|i: int| 0 <= i < ts.len() ==> is_token(#[trigger] ts[i])
}

pub open spec fn views(v: Seq<Vec<char>>) -> Seq<Seq<char>> {
    v.map_values(|t: Vec<char>| t@)
}

pub proof fn lemma_word_len_bound(s: Seq<char>)
    ensures
        word_len(s) <= s.len(),
        forall|i: int| 0 <= i < word_len(s) ==> !is_ws(#[trigger] s[i]),
        word_len(s) < s.len() ==> is_ws(s[word_len(s) as int]),
    decreases s.len(),
{
    if s.len() > 0 && !is_ws(s[0]) {
        lemma_word_len_bound(s.drop_first());
        assert forall|i: int| 0 <= i < word_len(s) implies !is_ws(#[trigger] s[i]) by {
            if i > 0 {
                assert(s[i] == s.drop_first()[i - 1]);
            }
        }
    }
}

pub proof fn lemma_split_ws_tokens(s: Seq<char>)
    ensures
        all_tokens(split_ws(s)),
    decreases s.len(),
{
    if s.len() > 0 {
        if is_ws(s[0]) {
            lemma_split_ws_tokens(s.drop_first());
        } else {
            lemma_word_len_bound(s);
            let n = word_len(s) as int;
            lemma_split_ws_tokens(s.skip(n));
            let ts = split_ws(s);
            assert forall|i: int| 0 <= i < ts.len() implies is_token(#[trigger] ts[i]) by {
                if i > 0 {
                    assert(ts[i] == split_ws(s.skip(n))[i - 1]);
                } else {
                    assert(ts[i] == s.take(n));
                }
            }
        }
    }
}

/// Word length of a token followed by whitespace or nothing.
proof fn lemma_word_len_token(t: Seq<char>, rest: Seq<char>)
    requires
        forall|i: int| 0 <= i < t.len() ==> !is_ws(#[trigger] t[i]),
        rest.len() == 0 || is_ws(rest[0]),
    ensures
        word_len(t + rest) == t.len(),
    decreases t.len(),
{
    if t.len() == 0 {
        assert(t + rest =~= rest);
    } else {
        assert((t + rest).drop_first() =~= t.drop_first() + rest);
        lemma_word_len_token(t.drop_first(), rest);
    }
}

/// Splitting joined tokens gives the tokens back.
pub proof fn lemma_split_join(ts: Seq<Seq<char>>)
    requires
        all_tokens(ts),
    ensures
        split_ws(join(ts)) == ts,
    decreases ts.len(),
{
    if ts.len() == 0 {
        assert(split_ws(join(ts)) =~= ts);
    } else if ts.len() == 1 {
        let t = ts[0];
        assert(is_token(t));
        assert(!is_ws(t[0]));
        lemma_word_len_token(t, Seq::empty());
        assert(t + Seq::<char>::empty() =~= t);
        assert(t.take(t.len() as int) =~= t);
        assert(t.skip(t.len() as int) =~= Seq::<char>::empty());
        assert(split_ws(t.skip(t.len() as int)) =~= Seq::<Seq<char>>::empty());
        assert(split_ws(join(ts)) =~= ts);
    } else {
        let t = ts[0];
        let rest = ts.drop_first();
        assert(is_token(t));
        assert(!is_ws(t[0]));
        assert forall|i: int| 0 <= i < rest.len() implies is_token(#[trigger] rest[i]) by {
            assert(rest[i] == ts[i + 1]);
        }
        lemma_split_join(rest);
        let tail = seq![' '] + join(rest);
        let s = t + tail;
        assert(join(ts) =~= s);
        lemma_word_len_token(t, tail);
        let n = t.len() as int;
        assert(s.take(n) =~= t);
        assert(s.skip(n) =~= tail);
        assert(tail.drop_first() =~= join(rest));
        assert(split_ws(tail) == split_ws(join(rest)));
        assert(split_ws(join(ts)) =~= ts);
    }
}

proof fn lemma_join_push(ts: Seq<Seq<char>>, t: Seq<char>)
    ensures
        join(ts.push(t)) == if ts.len() == 0 {
            t
        } else {
            join(ts) + seq![' '] + t
        },
    decreases ts.len(),
{
    if ts.len() == 0 {
    } else if ts.len() == 1 {
        assert(ts.push(t).drop_first() =~= seq![t]);
        assert(join(seq![t]) == t);
        assert(ts.push(t)[0] == ts[0]);
    } else {
        assert(ts.push(t)[0] == ts[0]);
        assert(ts.push(t).drop_first() =~= ts.drop_first().push(t));
        lemma_join_push(ts.drop_first(), t);
        assert(join(ts.push(t)) =~= join(ts) + seq![' '] + t);
    }
}

/// Copy of `s[lo..hi]`.
pub fn copy_range(s: &[char], lo: usize, hi: usize) -> (r: Vec<char>)
    requires
        lo <= hi <= s@.len(),
    ensures
        r@ == s@.subrange(lo as int, hi as int),
{
    let mut r: Vec<char> = Vec::new();
    let mut i: usize = lo;
    while i < hi
        invariant
            lo <= i <= hi <= s@.len(),
            r@ == s@.subrange(lo as int, i as int),
        decreases hi - i,
    {
        r.push(s[i]);
        i = i + 1;
    }
    r
}

/// Splits a class list into its tokens.
pub fn tokenize(s: &[char]) -> (r: Vec<Vec<char>>)
    ensures
        views(r@) == split_ws(s@),
{
    let mut r: Vec<Vec<char>> = Vec::new();
    let mut i: usize = 0;
    assert(s@.skip(0) =~= s@);
    assert(views(r@) + split_ws(s@) =~= split_ws(s@));
    while i < s.len()
        invariant
            i <= s@.len(),
            views(r@) + split_ws(s@.skip(i as int)) == split_ws(s@),
        decreases s@.len() - i,
    {
        let ghost rest = s@.skip(i as int);
        if is_whitespace(s[i]) {
            assert(rest.drop_first() =~= s@.skip(i + 1));
            i = i + 1;
        } else {
            let mut j: usize = i;
            while j < s.len() && !is_whitespace(s[j])
                invariant
                    i <= j <= s@.len(),
                    forall|k: int| i <= k < j ==> !is_ws(#[trigger] s@[k]),
                decreases s@.len() - j,
            {
                j = j + 1;
            }
            proof {
                let w = s@.subrange(i as int, j as int);
                let tail = s@.skip(j as int);
                assert(rest =~= w + tail);
                lemma_word_len_token(w, tail);
                assert(rest.take((j - i) as int) =~= w);
                assert(rest.skip((j - i) as int) =~= tail);
            }
            let tok = copy_range(s, i, j);
            let ghost r0 = r@;
            r.push(tok);
            i = j;
            proof {
                assert(views(r@) =~= views(r0).push(tok@));
                assert(views(r@) + split_ws(s@.skip(i as int)) =~= views(r0) + (seq![tok@] + split_ws(s@.skip(i as int))));
            }
        }
    }
    assert(s@.skip(i as int) =~= Seq::<char>::empty());
    assert(views(r@) + split_ws(Seq::<char>::empty()) =~= views(r@));
    r
}

/// Joins tokens with single spaces.
pub fn join_tokens(ts: &Vec<Vec<char>>) -> (r: Vec<char>)
    ensures
        r@ == join(views(ts@)),
{
    let mut r: Vec<char> = Vec::new();
    let mut i: usize = 0;
    while i < ts.len()
        invariant
            i <= ts@.len(),
            r@ == join(views(ts@).take(i as int)),
        decreases ts@.len() - i,
    {
        proof {
            assert(views(ts@).take(i + 1) =~= views(ts@).take(i as int).push(ts@[i as int]@));
            lemma_join_push(views(ts@).take(i as int), ts@[i as int]@);
        }
        if i > 0 {
            r.push(' ');
        }
        let t = &ts[i];
        let mut k: usize = 0;
        let ghost r0 = r@;
        while k < t.len()
            invariant
                k <= t@.len(),
                r@ == r0 + t@.take(k as int),
            decreases t@.len() - k,
        {
            r.push(t[k]);
            k = k + 1;
            proof {
                assert(r@ =~= r0 + t@.take(k as int));
            }
        }
        i = i + 1;
        proof {
            assert(t@.take(t@.len() as int) =~= t@);
        }
    }
    assert(views(ts@).take(i as int) =~= views(ts@));
    r
}

} // verus!
