//! The canonical order of utility classes, and the rank of a class in it.
use vstd::prelude::*;
use vstd::string::*;

verus! {

/// Number of entries in the order table; also the rank of an unknown class.
pub const ORDER_LEN: usize = 171;

/// Number of recognized variant prefixes.
pub const VARIANT_LEN: usize = 22;

/// Entry `i` of the order table: a pattern, and whether it matches as a prefix
/// (`p-` matches `p-4` and `p-[3px]`) rather than exactly.
pub open spec fn order_entry(i: usize) -> (Seq<char>, bool) {
    match i {
        0 => ("container"@, false),
        1 => ("sr-only"@, false),
        2 => ("not-sr-only"@, false),
        3 => ("pointer-events-none"@, false),
        4 => ("pointer-events-auto"@, false),
        5 => ("visible"@, false),
        6 => ("invisible"@, false),
        7 => ("static"@, false),
        8 => ("fixed"@, false),
        9 => ("absolute"@, false),
        10 => ("relative"@, false),
        11 => ("sticky"@, false),
        12 => ("inset-"@, true),
        13 => ("top-"@, true),
        14 => ("right-"@, true),
        15 => ("bottom-"@, true),
        16 => ("left-"@, true),
        17 => ("z-"@, true),
        18 => ("order-"@, true),
        19 => ("col-span-"@, true),
        20 => ("col-start-"@, true),
        21 => ("col-end-"@, true),
        22 => ("row-span-"@, true),
        23 => ("row-start-"@, true),
        24 => ("row-end-"@, true),
        25 => ("float-"@, true),
        26 => ("clear-"@, true),
        27 => ("m-"@, true),
        28 => ("mx-"@, true),
        29 => ("my-"@, true),
        30 => ("mt-"@, true),
        31 => ("mr-"@, true),
        32 => ("mb-"@, true),
        33 => ("ml-"@, true),
        34 => ("box-border"@, false),
        35 => ("box-content"@, false),
        36 => ("block"@, false),
        37 => ("inline-block"@, false),
        38 => ("inline"@, false),
        39 => ("flex"@, false),
        40 => ("inline-flex"@, false),
        41 => ("table"@, false),
        42 => ("grid"@, false),
        43 => ("inline-grid"@, false),
        44 => ("contents"@, false),
        45 => ("hidden"@, false),
        46 => ("h-"@, true),
        47 => ("max-h-"@, true),
        48 => ("min-h-"@, true),
        49 => ("w-"@, true),
        50 => ("min-w-"@, true),
        51 => ("max-w-"@, true),
        52 => ("flex-1"@, false),
        53 => ("flex-auto"@, false),
        54 => ("flex-initial"@, false),
        55 => ("flex-none"@, false),
        56 => ("flex-shrink-"@, true),
        57 => ("flex-shrink"@, false),
        58 => ("flex-grow-"@, true),
        59 => ("flex-grow"@, false),
        60 => ("table-auto"@, false),
        61 => ("table-fixed"@, false),
        62 => ("border-collapse"@, false),
        63 => ("border-separate"@, false),
        64 => ("transform"@, false),
        65 => ("transform-gpu"@, false),
        66 => ("transform-none"@, false),
        67 => ("origin-"@, true),
        68 => ("scale-"@, true),
        69 => ("rotate-"@, true),
        70 => ("translate-x-"@, true),
        71 => ("translate-y-"@, true),
        72 => ("skew-x-"@, true),
        73 => ("skew-y-"@, true),
        74 => ("animate-"@, true),
        75 => ("cursor-"@, true),
        76 => ("select-"@, true),
        77 => ("resize"@, false),
        78 => ("resize-"@, true),
        79 => ("list-"@, true),
        80 => ("appearance-none"@, false),
        81 => ("grid-cols-"@, true),
        82 => ("grid-rows-"@, true),
        83 => ("grid-flow-"@, true),
        84 => ("auto-cols-"@, true),
        85 => ("auto-rows-"@, true),
        86 => ("flex-row"@, false),
        87 => ("flex-row-reverse"@, false),
        88 => ("flex-col"@, false),
        89 => ("flex-col-reverse"@, false),
        90 => ("flex-wrap"@, false),
        91 => ("flex-wrap-reverse"@, false),
        92 => ("flex-nowrap"@, false),
        93 => ("place-content-"@, true),
        94 => ("place-items-"@, true),
        95 => ("content-"@, true),
        96 => ("items-"@, true),
        97 => ("justify-items-"@, true),
        98 => ("justify-"@, true),
        99 => ("gap-x-"@, true),
        100 => ("gap-y-"@, true),
        101 => ("gap-"@, true),
        102 => ("space-x-"@, true),
        103 => ("space-y-"@, true),
        104 => ("divide-x"@, false),
        105 => ("divide-y"@, false),
        106 => ("divide-"@, true),
        107 => ("place-self-"@, true),
        108 => ("self-"@, true),
        109 => ("justify-self-"@, true),
        110 => ("overflow-"@, true),
        111 => ("overscroll-"@, true),
        112 => ("truncate"@, false),
        113 => ("whitespace-"@, true),
        114 => ("break-"@, true),
        115 => ("rounded"@, false),
        116 => ("rounded-"@, true),
        117 => ("border"@, false),
        118 => ("border-t"@, false),
        119 => ("border-r"@, false),
        120 => ("border-b"@, false),
        121 => ("border-l"@, false),
        122 => ("border-"@, true),
        123 => ("bg-"@, true),
        124 => ("from-"@, true),
        125 => ("via-"@, true),
        126 => ("to-"@, true),
        127 => ("fill-"@, true),
        128 => ("stroke-"@, true),
        129 => ("object-"@, true),
        130 => ("px-"@, true),
        131 => ("py-"@, true),
        132 => ("pt-"@, true),
        133 => ("pr-"@, true),
        134 => ("pb-"@, true),
        135 => ("pl-"@, true),
        136 => ("p-"@, true),
        137 => ("text-left"@, false),
        138 => ("text-center"@, false),
        139 => ("text-right"@, false),
        140 => ("text-justify"@, false),
        141 => ("align-"@, true),
        142 => ("font-"@, true),
        143 => ("text-"@, true),
        144 => ("uppercase"@, false),
        145 => ("lowercase"@, false),
        146 => ("capitalize"@, false),
        147 => ("normal-case"@, false),
        148 => ("italic"@, false),
        149 => ("not-italic"@, false),
        150 => ("leading-"@, true),
        151 => ("tracking-"@, true),
        152 => ("underline"@, false),
        153 => ("line-through"@, false),
        154 => ("no-underline"@, false),
        155 => ("antialiased"@, false),
        156 => ("subpixel-antialiased"@, false),
        157 => ("placeholder-"@, true),
        158 => ("opacity-"@, true),
        159 => ("shadow"@, false),
        160 => ("shadow-"@, true),
        161 => ("outline-"@, true),
        162 => ("ring"@, false),
        163 => ("ring-"@, true),
        164 => ("filter"@, false),
        165 => ("blur-"@, true),
        166 => ("transition"@, false),
        167 => ("transition-"@, true),
        168 => ("duration-"@, true),
        169 => ("ease-"@, true),
        170 => ("delay-"@, true),
        _ => (Seq::empty(), false),
    }
}

/// Entry `i` of the order table.
pub fn order_entry_at(i: usize) -> (r: (&'static str, bool))
    requires
        i < ORDER_LEN,
    ensures
        (r.0@, r.1) == order_entry(i),
{
    match i {
        0 => ("container", false),
        1 => ("sr-only", false),
        2 => ("not-sr-only", false),
        3 => ("pointer-events-none", false),
        4 => ("pointer-events-auto", false),
        5 => ("visible", false),
        6 => ("invisible", false),
        7 => ("static", false),
        8 => ("fixed", false),
        9 => ("absolute", false),
        10 => ("relative", false),
        11 => ("sticky", false),
        12 => ("inset-", true),
        13 => ("top-", true),
        14 => ("right-", true),
        15 => ("bottom-", true),
        16 => ("left-", true),
        17 => ("z-", true),
        18 => ("order-", true),
        19 => ("col-span-", true),
        20 => ("col-start-", true),
        21 => ("col-end-", true),
        22 => ("row-span-", true),
        23 => ("row-start-", true),
        24 => ("row-end-", true),
        25 => ("float-", true),
        26 => ("clear-", true),
        27 => ("m-", true),
        28 => ("mx-", true),
        29 => ("my-", true),
        30 => ("mt-", true),
        31 => ("mr-", true),
        32 => ("mb-", true),
        33 => ("ml-", true),
        34 => ("box-border", false),
        35 => ("box-content", false),
        36 => ("block", false),
        37 => ("inline-block", false),
        38 => ("inline", false),
        39 => ("flex", false),
        40 => ("inline-flex", false),
        41 => ("table", false),
        42 => ("grid", false),
        43 => ("inline-grid", false),
        44 => ("contents", false),
        45 => ("hidden", false),
        46 => ("h-", true),
        47 => ("max-h-", true),
        48 => ("min-h-", true),
        49 => ("w-", true),
        50 => ("min-w-", true),
        51 => ("max-w-", true),
        52 => ("flex-1", false),
        53 => ("flex-auto", false),
        54 => ("flex-initial", false),
        55 => ("flex-none", false),
        56 => ("flex-shrink-", true),
        57 => ("flex-shrink", false),
        58 => ("flex-grow-", true),
        59 => ("flex-grow", false),
        60 => ("table-auto", false),
        61 => ("table-fixed", false),
        62 => ("border-collapse", false),
        63 => ("border-separate", false),
        64 => ("transform", false),
        65 => ("transform-gpu", false),
        66 => ("transform-none", false),
        67 => ("origin-", true),
        68 => ("scale-", true),
        69 => ("rotate-", true),
        70 => ("translate-x-", true),
        71 => ("translate-y-", true),
        72 => ("skew-x-", true),
        73 => ("skew-y-", true),
        74 => ("animate-", true),
        75 => ("cursor-", true),
        76 => ("select-", true),
        77 => ("resize", false),
        78 => ("resize-", true),
        79 => ("list-", true),
        80 => ("appearance-none", false),
        81 => ("grid-cols-", true),
        82 => ("grid-rows-", true),
        83 => ("grid-flow-", true),
        84 => ("auto-cols-", true),
        85 => ("auto-rows-", true),
        86 => ("flex-row", false),
        87 => ("flex-row-reverse", false),
        88 => ("flex-col", false),
        89 => ("flex-col-reverse", false),
        90 => ("flex-wrap", false),
        91 => ("flex-wrap-reverse", false),
        92 => ("flex-nowrap", false),
        93 => ("place-content-", true),
        94 => ("place-items-", true),
        95 => ("content-", true),
        96 => ("items-", true),
        97 => ("justify-items-", true),
        98 => ("justify-", true),
        99 => ("gap-x-", true),
        100 => ("gap-y-", true),
        101 => ("gap-", true),
        102 => ("space-x-", true),
        103 => ("space-y-", true),
        104 => ("divide-x", false),
        105 => ("divide-y", false),
        106 => ("divide-", true),
        107 => ("place-self-", true),
        108 => ("self-", true),
        109 => ("justify-self-", true),
        110 => ("overflow-", true),
        111 => ("overscroll-", true),
        112 => ("truncate", false),
        113 => ("whitespace-", true),
        114 => ("break-", true),
        115 => ("rounded", false),
        116 => ("rounded-", true),
        117 => ("border", false),
        118 => ("border-t", false),
        119 => ("border-r", false),
        120 => ("border-b", false),
        121 => ("border-l", false),
        122 => ("border-", true),
        123 => ("bg-", true),
        124 => ("from-", true),
        125 => ("via-", true),
        126 => ("to-", true),
        127 => ("fill-", true),
        128 => ("stroke-", true),
        129 => ("object-", true),
        130 => ("px-", true),
        131 => ("py-", true),
        132 => ("pt-", true),
        133 => ("pr-", true),
        134 => ("pb-", true),
        135 => ("pl-", true),
        136 => ("p-", true),
        137 => ("text-left", false),
        138 => ("text-center", false),
        139 => ("text-right", false),
        140 => ("text-justify", false),
        141 => ("align-", true),
        142 => ("font-", true),
        143 => ("text-", true),
        144 => ("uppercase", false),
        145 => ("lowercase", false),
        146 => ("capitalize", false),
        147 => ("normal-case", false),
        148 => ("italic", false),
        149 => ("not-italic", false),
        150 => ("leading-", true),
        151 => ("tracking-", true),
        152 => ("underline", false),
        153 => ("line-through", false),
        154 => ("no-underline", false),
        155 => ("antialiased", false),
        156 => ("subpixel-antialiased", false),
        157 => ("placeholder-", true),
        158 => ("opacity-", true),
        159 => ("shadow", false),
        160 => ("shadow-", true),
        161 => ("outline-", true),
        162 => ("ring", false),
        163 => ("ring-", true),
        164 => ("filter", false),
        165 => ("blur-", true),
        166 => ("transition", false),
        167 => ("transition-", true),
        168 => ("duration-", true),
        169 => ("ease-", true),
        170 => ("delay-", true),
        _ => ("", false),
    }
}

/// Variant prefix `i` (written before a `:`).
pub open spec fn variant(i: usize) -> Seq<char> {
    match i {
        0 => "sm"@,
        1 => "md"@,
        2 => "lg"@,
        3 => "xl"@,
        4 => "2xl"@,
        5 => "dark"@,
        6 => "motion-safe"@,
        7 => "motion-reduce"@,
        8 => "first"@,
        9 => "last"@,
        10 => "odd"@,
        11 => "even"@,
        12 => "visited"@,
        13 => "checked"@,
        14 => "group-hover"@,
        15 => "group-focus"@,
        16 => "focus-within"@,
        17 => "hover"@,
        18 => "focus"@,
        19 => "focus-visible"@,
        20 => "active"@,
        21 => "disabled"@,
        _ => Seq::empty(),
    }
}

/// Variant prefix `i`.
pub fn variant_at(i: usize) -> (r: &'static str)
    requires
        i < VARIANT_LEN,
    ensures
        r@ == variant(i),
{
    match i {
        0 => "sm",
        1 => "md",
        2 => "lg",
        3 => "xl",
        4 => "2xl",
        5 => "dark",
        6 => "motion-safe",
        7 => "motion-reduce",
        8 => "first",
        9 => "last",
        10 => "odd",
        11 => "even",
        12 => "visited",
        13 => "checked",
        14 => "group-hover",
        15 => "group-focus",
        16 => "focus-within",
        17 => "hover",
        18 => "focus",
        19 => "focus-visible",
        20 => "active",
        21 => "disabled",
        _ => "",
    }
}

/// Whether `b` matches pattern `p`: exactly, or, for a prefix pattern, as a
/// strictly longer string that starts with `p`.
pub open spec fn pattern_matches(b: Seq<char>, p: Seq<char>, prefix: bool) -> bool {
    if prefix {
        p.len() < b.len() && b.take(p.len() as int) == p
    } else {
        b == p
    }
}

/// Whether `t[lo..hi]` matches pattern `p`.
fn range_matches(t: &[char], lo: usize, hi: usize, p: &str, prefix: bool) -> (r: bool)
    requires
        lo <= hi <= t@.len(),
    ensures
        r == pattern_matches(t@.subrange(lo as int, hi as int), p@, prefix),
{
    let ghost b = t@.subrange(lo as int, hi as int);
    let n = p.unicode_len();
    let m = hi - lo;
    if prefix {
        if n >= m {
            return false;
        }
    } else if n != m {
        return false;
    }
    let mut k: usize = 0;
    while k < n
        invariant
            k <= n < hi - lo + 1,
            n == p@.len(),
            lo <= hi <= t@.len(),
            b == t@.subrange(lo as int, hi as int),
            forall|j: int| 0 <= j < k ==> b[j] == p@[j],
        decreases n - k,
    {
        if t[lo + k] != p.get_char(k) {
            assert(b[k as int] != p@[k as int]);
            assert(b.take(n as int)[k as int] != p@[k as int]);
            return false;
        }
        k = k + 1;
    }
    assert(b.take(n as int) =~= p@);
    proof {
        if !prefix {
            assert(b =~= p@);
        }
    }
    true
}

/// Whether `v` is a recognized variant prefix.
pub open spec fn is_variant(v: Seq<char>) -> bool {
    exists|i: usize| i < VARIANT_LEN && #[trigger] variant(i) == v
}

/// Position of the first `:` in `t`, or its length if there is none.
pub open spec fn colon_pos(t: Seq<char>) -> nat
    decreases t.len(),
{
    if t.len() == 0 || t[0] == ':' {
        0
    } else {
        1 + colon_pos(t.drop_first())
    }
}

proof fn lemma_colon_pos(t: Seq<char>)
    ensures
        colon_pos(t) <= t.len(),
        forall|i: int| 0 <= i < colon_pos(t) ==> #[trigger] t[i] != ':',
        colon_pos(t) < t.len() ==> t[colon_pos(t) as int] == ':',
    decreases t.len(),
{
    if t.len() > 0 && t[0] != ':' {
        lemma_colon_pos(t.drop_first());
        assert forall|i: int| 0 <= i < colon_pos(t) implies #[trigger] t[i] != ':' by {
            if i > 0 {
                assert(t[i] == t.drop_first()[i - 1]);
            }
        }
    }
}

/// The utility a class names once its recognized variant prefixes
/// (`md:`, `hover:`, ...) are taken off the front.
pub open spec fn base_of(t: Seq<char>) -> Seq<char>
    decreases t.len(),
    via base_of_decreases
{
    let k = colon_pos(t) as int;
    if k < t.len() && is_variant(t.take(k)) {
        base_of(t.skip(k + 1))
    } else {
        t
    }
}

#[via_fn]
proof fn base_of_decreases(t: Seq<char>) {
    lemma_colon_pos(t);
}

/// Index of the first table entry at or after `i` that `b` matches, or
/// `ORDER_LEN` if there is none.
pub open spec fn first_match(b: Seq<char>, i: nat) -> nat
    decreases ORDER_LEN - i,
{
    if i >= ORDER_LEN {
        ORDER_LEN as nat
    } else if pattern_matches(b, order_entry(i as usize).0, order_entry(i as usize).1) {
        i
    } else {
        first_match(b, i + 1)
    }
}

/// The rank of a class: the first table entry that its base utility matches;
/// `ORDER_LEN` (after every table entry) for a class the table does not know.
pub open spec fn rank(t: Seq<char>) -> nat {
    first_match(base_of(t), 0)
}

pub proof fn lemma_rank_bound(t: Seq<char>)
    ensures
        rank(t) <= ORDER_LEN,
{
    lemma_first_match_bound(base_of(t), 0);
}

proof fn lemma_first_match_bound(b: Seq<char>, i: nat)
    ensures
        first_match(b, i) <= ORDER_LEN,
    decreases ORDER_LEN - i,
{
    if i < ORDER_LEN {
        lemma_first_match_bound(b, i + 1);
    }
}

/// Whether `t[lo..hi]` is a recognized variant prefix.
fn is_variant_range(t: &[char], lo: usize, hi: usize) -> (r: bool)
    requires
        lo <= hi <= t@.len(),
    ensures
        r == is_variant(t@.subrange(lo as int, hi as int)),
{
    let ghost v = t@.subrange(lo as int, hi as int);
    let mut i: usize = 0;
    while i < VARIANT_LEN
        invariant
            i <= VARIANT_LEN,
            lo <= hi <= t@.len(),
            v == t@.subrange(lo as int, hi as int),
            forall|j: usize| j < i ==> #[trigger] variant(j) != v,
        decreases VARIANT_LEN - i,
    {
        if range_matches(t, lo, hi, variant_at(i), false) {
            assert(variant(i) == v);
            return true;
        }
        i = i + 1;
    }
    false
}

/// Start of the base utility of `t`: `t[r..]` is `base_of(t)`.
pub fn base_start(t: &[char]) -> (r: usize)
    ensures
        r <= t@.len(),
        t@.skip(r as int) == base_of(t@),
{
    let mut lo: usize = 0;
    assert(t@.skip(0) =~= t@);
    loop
        invariant
            lo <= t@.len(),
            base_of(t@.skip(lo as int)) == base_of(t@),
        decreases t@.len() - lo,
    {
        let ghost u = t@.skip(lo as int);
        let mut k: usize = lo;
        while k < t.len() && t[k] != ':'
            invariant
                lo <= k <= t@.len(),
                forall|j: int| lo <= j < k ==> t@[j] != ':',
            decreases t@.len() - k,
        {
            k = k + 1;
        }
        proof {
            lemma_colon_pos(u);
            lemma_colon_pos_at(u, (k - lo) as nat);
            assert(u.take((k - lo) as int) =~= t@.subrange(lo as int, k as int));
        }
        if k < t.len() && is_variant_range(t, lo, k) {
            assert(u.skip((k - lo) + 1) =~= t@.skip(k + 1));
            lo = k + 1;
        } else {
            return lo;
        }
    }
}

/// `k` is the colon position of `u` when no `:` comes before it and one, or
/// the end, stands there.
proof fn lemma_colon_pos_at(u: Seq<char>, k: nat)
    requires
        k <= u.len(),
        forall|j: int| 0 <= j < k ==> u[j] != ':',
        k == u.len() || u[k as int] == ':',
    ensures
        colon_pos(u) == k,
    decreases k,
{
    if k > 0 {
        assert forall|j: int| 0 <= j < k - 1 implies u.drop_first()[j] != ':' by {
            assert(u.drop_first()[j] == u[j + 1]);
        }
        lemma_colon_pos_at(u.drop_first(), (k - 1) as nat);
    }
}

/// The rank of class `t` (see `rank`).
pub fn rank_of(t: &[char]) -> (r: usize)
    ensures
        r == rank(t@),
        r <= ORDER_LEN,
{
    let lo = base_start(t);
    let hi = t.len();
    let ghost b = base_of(t@);
    assert(t@.subrange(lo as int, hi as int) =~= b);
    let mut i: usize = 0;
    while i < ORDER_LEN
        invariant
            i <= ORDER_LEN,
            lo <= hi == t@.len(),
            t@.subrange(lo as int, hi as int) == b,
            b == base_of(t@),
            first_match(b, i as nat) == first_match(b, 0),
        decreases ORDER_LEN - i,
    {
        let (p, prefix) = order_entry_at(i);
        if range_matches(t, lo, hi, p, prefix) {
            assert(first_match(b, i as nat) == i);
            return i;
        }
        i = i + 1;
    }
    i
}

} // verus!
