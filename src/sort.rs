//! Stable ordering of class tokens by rank, with optional removal of repeats.
use vstd::prelude::*;

use crate::order::{lemma_rank_bound, rank, rank_of, ORDER_LEN};
use vstd::multiset::Multiset;
use crate::tokens::{copy_range, join, join_tokens, split_ws, tokenize, views};

verus! {

/// Whether a token has rank `r`.
pub open spec fn has_rank(r: nat) -> spec_fn(Seq<char>) -> bool {
    |t: Seq<char>| rank(t) == r
}

/// The tokens of `ts` whose rank is `r`, in their input order.
pub open spec fn bucket(ts: Seq<Seq<char>>, r: nat) -> Seq<Seq<char>> {
    ts.filter(has_rank(r))
}

/// The buckets of ranks below `r`, one after another.
pub open spec fn sorted_below(ts: Seq<Seq<char>>, r: nat) -> Seq<Seq<char>>
    decreases r,
{
    if r == 0 {
        Seq::empty()
    } else {
        sorted_below(ts, (r - 1) as nat) + bucket(ts, (r - 1) as nat)
    }
}

/// `ts` stably sorted by rank: lower ranks first, ties in input order, unknown
/// classes last.
pub open spec fn rank_sort(ts: Seq<Seq<char>>) -> Seq<Seq<char>> {
    sorted_below(ts, (ORDER_LEN + 1) as nat)
}

/// `ts` without the tokens equal to an earlier one.
pub open spec fn dedup(ts: Seq<Seq<char>>) -> Seq<Seq<char>>
    decreases ts.len(),
{
    if ts.len() == 0 {
        ts
    } else if ts.drop_last().contains(ts.last()) {
        dedup(ts.drop_last())
    } else {
        dedup(ts.drop_last()).push(ts.last())
    }
}

/// The tokens in their sorted order, repeats dropped when `remove_dups` holds.
pub open spec fn sort_tokens(ts: Seq<Seq<char>>, remove_dups: bool) -> Seq<Seq<char>> {
    rank_sort(
        if remove_dups {
            dedup(ts)
        } else {
            ts
        },
    )
}

/// A class list rewritten: its tokens sorted and joined by single spaces.
pub open spec fn sort_class_list(inner: Seq<char>, remove_dups: bool) -> Seq<char> {
    join(sort_tokens(split_ws(inner), remove_dups))
}

/// Whether `a` and `b` hold the same characters.
pub fn same_chars(a: &[char], b: &[char]) -> (r: bool)
    ensures
        r == (a@ == b@),
{
    if a.len() != b.len() {
        return false;
    }
    let mut i: usize = 0;
    while i < a.len()
        invariant
            a@.len() == b@.len(),
            i <= a@.len(),
            forall|j: int| 0 <= j < i ==> a@[j] == b@[j],
        decreases a@.len() - i,
    {
        if a[i] != b[i] {
            return false;
        }
        i = i + 1;
    }
    assert(a@ =~= b@);
    true
}

/// The tokens without repeats; the first of equal tokens stays.
pub fn dedup_tokens(ts: &Vec<Vec<char>>) -> (r: Vec<Vec<char>>)
    ensures
        views(r@) == dedup(views(ts@)),
{
    let mut r: Vec<Vec<char>> = Vec::new();
    let mut i: usize = 0;
    while i < ts.len()
        invariant
            i <= ts@.len(),
            views(r@) == dedup(views(ts@).take(i as int)),
            forall|x: Seq<char>| views(r@).contains(x) <==> views(ts@).take(i as int).contains(x),
        decreases ts@.len() - i,
    {
        let ghost pre = views(ts@).take(i as int);
        let ghost next = views(ts@).take(i + 1);
        assert(next.drop_last() =~= pre);
        assert(next.last() == ts@[i as int]@);
        let mut seen = false;
        let mut k: usize = 0;
        while k < r.len()
            invariant
                i < ts@.len(),
                k <= r@.len(),
                seen ==> views(r@).contains(ts@[i as int]@),
                !seen ==> forall|j: int| 0 <= j < k ==> r@[j]@ != ts@[i as int]@,
            decreases r@.len() - k,
        {
            if same_chars(r[k].as_slice(), ts[i].as_slice()) {
                assert(views(r@)[k as int] == ts@[i as int]@);
                seen = true;
            }
            k = k + 1;
        }
        if !seen {
            let ghost r0 = views(r@);
            let t = copy_range(ts[i].as_slice(), 0, ts[i].len());
            proof {
                assert(t@ =~= ts@[i as int]@);
                assert(!r0.contains(ts@[i as int]@));
            }
            r.push(t);
            assert(views(r@) =~= r0.push(t@));
            assert forall|x: Seq<char>| views(r@).contains(x) <==> next.contains(x) by {
                if next.contains(x) {
                    let j = choose|j: int| 0 <= j < next.len() && next[j] == x;
                    if j < i {
                        assert(pre.contains(x));
                        assert(r0.contains(x));
                        let m = choose|m: int| 0 <= m < r0.len() && r0[m] == x;
                        assert(views(r@)[m] == x);
                    } else {
                        assert(views(r@)[r0.len() as int] == x);
                    }
                }
                if views(r@).contains(x) {
                    let m = choose|m: int| 0 <= m < views(r@).len() && views(r@)[m] == x;
                    if m < r0.len() {
                        assert(r0.contains(x));
                        let j = choose|j: int| 0 <= j < pre.len() && pre[j] == x;
                        assert(next[j] == x);
                    } else {
                        assert(next[i as int] == x);
                    }
                }
            }
        } else {
            assert forall|x: Seq<char>| views(r@).contains(x) <==> next.contains(x) by {
                if next.contains(x) {
                    let j = choose|j: int| 0 <= j < next.len() && next[j] == x;
                    if j < i {
                        assert(pre[j] == x);
                        assert(pre.contains(x));
                    }
                }
                if views(r@).contains(x) {
                    let j = choose|j: int| 0 <= j < pre.len() && pre[j] == x;
                    assert(next[j] == x);
                }
            }
        }
        i = i + 1;
    }
    assert(views(ts@).take(i as int) =~= views(ts@));
    r
}

/// `ts` stably sorted by rank.
pub fn rank_sort_tokens(ts: &Vec<Vec<char>>) -> (r: Vec<Vec<char>>)
    ensures
        views(r@) == rank_sort(views(ts@)),
{
    let ghost s = views(ts@);
    let mut ranks: Vec<usize> = Vec::new();
    let mut i: usize = 0;
    while i < ts.len()
        invariant
            i <= ts@.len(),
            ranks@.len() == i,
            forall|j: int| 0 <= j < i ==> ranks@[j] == rank(#[trigger] ts@[j]@),
        decreases ts@.len() - i,
    {
        let k = rank_of(ts[i].as_slice());
        ranks.push(k);
        i = i + 1;
    }
    let mut r: Vec<Vec<char>> = Vec::new();
    let mut level: usize = 0;
    while level <= ORDER_LEN
        invariant
            level <= ORDER_LEN + 1,
            ranks@.len() == ts@.len(),
            s == views(ts@),
            forall|j: int| 0 <= j < ts@.len() ==> ranks@[j] == rank(#[trigger] ts@[j]@),
            views(r@) == sorted_below(s, level as nat),
        decreases ORDER_LEN + 1 - level,
    {
        let ghost f = has_rank(level as nat);
        let ghost r0 = views(r@);
        let mut j: usize = 0;
        assert(s.take(0).filter(f) =~= Seq::<Seq<char>>::empty());
        assert(r0 + s.take(0).filter(f) =~= r0);
        while j < ts.len()
            invariant
                j <= ts@.len(),
                level <= ORDER_LEN,
                f == has_rank(level as nat),
                r0 == sorted_below(s, level as nat),
                ranks@.len() == ts@.len(),
                s == views(ts@),
                forall|m: int| 0 <= m < ts@.len() ==> ranks@[m] == rank(#[trigger] ts@[m]@),
                views(r@) == r0 + s.take(j as int).filter(f),
            decreases ts@.len() - j,
        {
            proof {
                assert(s.take(j + 1) =~= s.take(j as int).push(s[j as int]));
                s.take(j as int).lemma_filter_push(s[j as int], f);
                assert(s[j as int] == ts@[j as int]@);
            }
            if ranks[j] == level {
                assert(f(s[j as int]));
                let t = copy_range(ts[j].as_slice(), 0, ts[j].len());
                assert(t@ =~= ts@[j as int]@);
                let ghost before = views(r@);
                r.push(t);
                assert(views(r@) =~= before.push(t@));
                assert(views(r@) =~= r0 + s.take(j + 1).filter(f));
            } else {
                assert(!f(s[j as int]));
            }
            j = j + 1;
        }
        assert(s.take(j as int) =~= s);
        assert(views(r@) =~= sorted_below(s, (level + 1) as nat));
        level = level + 1;
    }
    r
}

/// Rewrites a class list: its tokens sorted by rank and joined by single
/// spaces, repeats dropped when `remove_dups` holds.
pub fn sort_classes(inner: &[char], remove_dups: bool) -> (r: Vec<char>)
    ensures
        r@ == sort_class_list(inner@, remove_dups),
{
    let ts = tokenize(inner);
    let sorted = if remove_dups {
        let d = dedup_tokens(&ts);
        rank_sort_tokens(&d)
    } else {
        rank_sort_tokens(&ts)
    };
    join_tokens(&sorted)
}

/// Filtering a bucket by a rank keeps it whole or empties it.
proof fn lemma_bucket_filter(ts: Seq<Seq<char>>, k: nat, r: nat)
    ensures
        bucket(ts, k).filter(has_rank(r)) == if k == r {
            bucket(ts, r)
        } else {
            Seq::<Seq<char>>::empty()
        },
    decreases ts.len(),
{
    broadcast use Seq::lemma_filter_push;

    if ts.len() == 0 {
        assert(ts.filter(has_rank(k)) =~= Seq::<Seq<char>>::empty());
        assert(Seq::<Seq<char>>::empty().filter(has_rank(r)) =~= Seq::<Seq<char>>::empty());
    } else {
        let init = ts.drop_last();
        let x = ts.last();
        assert(init.push(x) =~= ts);
        lemma_bucket_filter(init, k, r);
        if has_rank(k)(x) {
            assert(bucket(ts, k) == bucket(init, k).push(x));
        } else {
            assert(bucket(ts, k) == bucket(init, k));
        }
    }
}

proof fn lemma_sorted_below_filter(ts: Seq<Seq<char>>, n: nat, r: nat)
    ensures
        sorted_below(ts, n).filter(has_rank(r)) == if r < n {
            bucket(ts, r)
        } else {
            Seq::<Seq<char>>::empty()
        },
    decreases n,
{
    broadcast use Seq::filter_distributes_over_add;

    if n == 0 {
        assert(Seq::<Seq<char>>::empty().filter(has_rank(r)) =~= Seq::<Seq<char>>::empty());
    } else {
        let m = (n - 1) as nat;
        lemma_sorted_below_filter(ts, m, r);
        lemma_bucket_filter(ts, m, r);
        assert(sorted_below(ts, n).filter(has_rank(r)) == sorted_below(ts, m).filter(has_rank(r))
            + bucket(ts, m).filter(has_rank(r)));
        if r < m {
            assert(sorted_below(ts, n).filter(has_rank(r)) =~= bucket(ts, r));
        } else if r == m {
            assert(sorted_below(ts, n).filter(has_rank(r)) =~= bucket(ts, r));
        } else {
            assert(sorted_below(ts, n).filter(has_rank(r)) =~= Seq::<Seq<char>>::empty());
        }
    }
}

/// Tokens of one rank come out of the sort in their input order.
pub proof fn lemma_rank_sort_keeps_ties(ts: Seq<Seq<char>>, r: nat)
    ensures
        bucket(rank_sort(ts), r) == bucket(ts, r),
{
    lemma_sorted_below_filter(ts, (ORDER_LEN + 1) as nat, r);
    if r > ORDER_LEN {
        assert forall|i: int| 0 <= i < ts.len() implies !has_rank(r)(#[trigger] ts[i]) by {
            lemma_rank_bound(ts[i]);
        }
        assert(ts.all(|x: Seq<char>| !has_rank(r)(x)));
        ts.lemma_all_neg_filter_empty(has_rank(r));
        assert(bucket(ts, r) =~= Seq::<Seq<char>>::empty());
    }
}

proof fn lemma_sorted_below_same_buckets(a: Seq<Seq<char>>, b: Seq<Seq<char>>, n: nat)
    requires
        forall|r: nat| bucket(a, r) == bucket(b, r),
    ensures
        sorted_below(a, n) == sorted_below(b, n),
    decreases n,
{
    if n > 0 {
        lemma_sorted_below_same_buckets(a, b, (n - 1) as nat);
        assert(bucket(a, (n - 1) as nat) == bucket(b, (n - 1) as nat));
    }
}

/// Sorting sorted tokens changes nothing.
pub proof fn lemma_rank_sort_idempotent(ts: Seq<Seq<char>>)
    ensures
        rank_sort(rank_sort(ts)) == rank_sort(ts),
{
    assert forall|r: nat| bucket(rank_sort(ts), r) == bucket(ts, r) by {
        lemma_rank_sort_keeps_ties(ts, r);
    }
    lemma_sorted_below_same_buckets(rank_sort(ts), ts, (ORDER_LEN + 1) as nat);
}

proof fn lemma_sorted_below_push(ts: Seq<Seq<char>>, x: Seq<char>, n: nat)
    ensures
        sorted_below(ts.push(x), n).to_multiset() == if rank(x) < n {
            sorted_below(ts, n).to_multiset().insert(x)
        } else {
            sorted_below(ts, n).to_multiset()
        },
    decreases n,
{
    broadcast use Seq::lemma_filter_push;
    broadcast use vstd::seq_lib::lemma_multiset_commutative;
    broadcast use vstd::seq_lib::group_to_multiset_ensures;
    broadcast use vstd::multiset::group_multiset_axioms;

    if n == 0 {
        assert(Seq::<Seq<char>>::empty().to_multiset() =~= Multiset::empty());
    } else {
        let m = (n - 1) as nat;
        lemma_sorted_below_push(ts, x, m);
        if has_rank(m)(x) {
            assert(bucket(ts.push(x), m) == bucket(ts, m).push(x));
            assert(sorted_below(ts.push(x), n).to_multiset() =~= sorted_below(
                ts,
                n,
            ).to_multiset().insert(x));
        } else {
            assert(bucket(ts.push(x), m) == bucket(ts, m));
            assert(sorted_below(ts.push(x), n).to_multiset() =~= if rank(x) < n {
                sorted_below(ts, n).to_multiset().insert(x)
            } else {
                sorted_below(ts, n).to_multiset()
            });
        }
    }
}

/// The sort only reorders: the same tokens, each as often.
pub proof fn lemma_rank_sort_multiset(ts: Seq<Seq<char>>)
    ensures
        rank_sort(ts).to_multiset() == ts.to_multiset(),
    decreases ts.len(),
{
    broadcast use vstd::seq_lib::group_to_multiset_ensures;

    if ts.len() == 0 {
        assert(sorted_below(ts, (ORDER_LEN + 1) as nat).to_multiset() =~= ts.to_multiset()) by {
            lemma_empty_sorted_below(ts, (ORDER_LEN + 1) as nat);
        }
    } else {
        let init = ts.drop_last();
        let x = ts.last();
        assert(init.push(x) =~= ts);
        lemma_rank_sort_multiset(init);
        lemma_rank_bound(x);
        lemma_sorted_below_push(init, x, (ORDER_LEN + 1) as nat);
    }
}

proof fn lemma_empty_sorted_below(ts: Seq<Seq<char>>, n: nat)
    requires
        ts.len() == 0,
    ensures
        sorted_below(ts, n).len() == 0,
    decreases n,
{
    if n > 0 {
        lemma_empty_sorted_below(ts, (n - 1) as nat);
        assert(bucket(ts, (n - 1) as nat).len() == 0);
    }
}

/// `dedup` keeps exactly the distinct tokens, each once.
pub proof fn lemma_dedup(ts: Seq<Seq<char>>)
    ensures
        dedup(ts).no_duplicates(),
        forall|x: Seq<char>| dedup(ts).contains(x) <==> ts.contains(x),
        ts.no_duplicates() ==> dedup(ts) == ts,
    decreases ts.len(),
{
    if ts.len() > 0 {
        let init = ts.drop_last();
        let x = ts.last();
        lemma_dedup(init);
        assert forall|y: Seq<char>| ts.contains(y) <==> (init.contains(y) || y == x) by {
            if ts.contains(y) {
                let j = choose|j: int| 0 <= j < ts.len() && ts[j] == y;
                if j < ts.len() - 1 {
                    assert(init[j] == y);
                }
            }
            if init.contains(y) {
                let j = choose|j: int| 0 <= j < init.len() && init[j] == y;
                assert(ts[j] == y);
            }
            if y == x {
                assert(ts[ts.len() - 1] == y);
            }
        }
        if init.contains(x) {
            if ts.no_duplicates() {
                let j = choose|j: int| 0 <= j < init.len() && init[j] == x;
                assert(ts[j] == ts[ts.len() - 1]);
            }
        } else {
            let d = dedup(init);
            assert forall|y: Seq<char>| d.push(x).contains(y) <==> (d.contains(y) || y == x) by {
                if d.push(x).contains(y) {
                    let j = choose|j: int| 0 <= j < d.push(x).len() && d.push(x)[j] == y;
                    if j < d.len() {
                        assert(d[j] == y);
                    }
                }
                if d.contains(y) {
                    let j = choose|j: int| 0 <= j < d.len() && d[j] == y;
                    assert(d.push(x)[j] == y);
                }
                if y == x {
                    assert(d.push(x)[d.len() as int] == y);
                }
            }
            assert forall|i: int, j: int|
                0 <= i < d.push(x).len() && 0 <= j < d.push(x).len() && i != j implies d.push(
                x,
            )[i] != d.push(x)[j] by {
                if i < d.len() && j < d.len() {
                    assert(d.push(x)[i] == d[i] && d.push(x)[j] == d[j]);
                } else if i < d.len() {
                    assert(d.contains(d[i]));
                } else {
                    assert(d.contains(d[j]));
                }
            }
            if ts.no_duplicates() {
                assert(init.no_duplicates()) by {
                    assert forall|i: int, j: int|
                        0 <= i < init.len() && 0 <= j < init.len() && i != j implies init[i]
                        != init[j] by {
                        assert(ts[i] == init[i] && ts[j] == init[j]);
                    }
                }
                assert(d.push(x) =~= ts);
            }
        }
    }
}

/// Sorting keeps a token list free of repeats, and its tokens.
pub proof fn lemma_rank_sort_members(ts: Seq<Seq<char>>)
    ensures
        forall|x: Seq<char>| rank_sort(ts).contains(x) <==> ts.contains(x),
        ts.no_duplicates() ==> rank_sort(ts).no_duplicates(),
{
    broadcast use vstd::seq_lib::group_to_multiset_ensures;

    lemma_rank_sort_multiset(ts);
    ts.to_multiset_ensures();
    rank_sort(ts).to_multiset_ensures();
    assert forall|x: Seq<char>| rank_sort(ts).contains(x) <==> ts.contains(x) by {
        assert(rank_sort(ts).contains(x) <==> rank_sort(ts).to_multiset().count(x) > 0);
        assert(ts.contains(x) <==> ts.to_multiset().count(x) > 0);
    }
    if ts.no_duplicates() {
        ts.lemma_multiset_has_no_duplicates();
        rank_sort(ts).lemma_multiset_has_no_duplicates_conv();
    }
}

} // verus!
