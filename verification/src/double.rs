//! Doubles by their IEEE 754 bits: which are finite, and how they compare.

use vstd::prelude::*;

verus! {

/// The bits of a double without the sign.
pub open spec fn magnitude(bits: u64) -> nat {
    bits as nat % 0x8000_0000_0000_0000
}

/// Whether these are the bits of a finite double: neither infinite nor NaN.
pub open spec fn finite(bits: u64) -> bool {
    magnitude(bits) < 0x7ff0_0000_0000_0000
}

/// Whether these are the bits of a NaN.
pub open spec fn nan(bits: u64) -> bool {
    magnitude(bits) > 0x7ff0_0000_0000_0000
}

/// The place of a double in the order of doubles: of two that are not NaN, the one
/// with the smaller place is the smaller. Both zeros have place zero.
pub open spec fn place(bits: u64) -> int {
    if bits < 0x8000_0000_0000_0000 {
        magnitude(bits) as int
    } else {
        -(magnitude(bits) as int)
    }
}

/// Whether these are the bits of a finite double.
pub fn is_finite(bits: u64) -> (r: bool)
    ensures
        r == finite(bits),
{
    bits % 0x8000_0000_0000_0000 < 0x7ff0_0000_0000_0000
}

/// Whether these are the bits of a NaN.
pub fn is_nan(bits: u64) -> (r: bool)
    ensures
        r == nan(bits),
{
    bits % 0x8000_0000_0000_0000 > 0x7ff0_0000_0000_0000
}

/// The place of a double in the order of doubles.
pub fn order_place(bits: u64) -> (p: i64)
    ensures
        p == place(bits),
{
    if bits < 0x8000_0000_0000_0000 {
        bits as i64
    } else {
        -((bits - 0x8000_0000_0000_0000) as i64)
    }
}

/// Whether a list of doubles is in strictly ascending order.
pub open spec fn ascending(bounds: Seq<u64>) -> bool {
    forall|i: int, j: int| 0 <= i < j < bounds.len() ==> place(bounds[i]) < place(bounds[j])
}

/// `j` is where the double at `j` occurs for the first time among the finite ones:
/// no equal one stands before it.
pub open spec fn first_of_its_place(input: Seq<u64>, j: int) -> bool {
    &&& 0 <= j < input.len()
    &&& finite(input[j])
    &&& forall|k: int| 0 <= k < j && finite(input[k]) ==> place(#[trigger] input[k]) != place(
        input[j],
    )
}

/// `x` is a finite double of `input`, and of equal ones the first.
pub open spec fn first_in(input: Seq<u64>, x: u64) -> bool {
    exists|j: int| #[trigger] first_of_its_place(input, j) && input[j] == x
}

/// A double equal to `x` is among `bounds`.
pub open spec fn covered(bounds: Seq<u64>, x: u64) -> bool {
    exists|i: int| 0 <= i < bounds.len() && place(#[trigger] bounds[i]) == place(x)
}

/// `bounds` holds the finite doubles of `input` in ascending order, each once; of
/// equal ones, the first.
pub open spec fn sorted_distinct(input: Seq<u64>, bounds: Seq<u64>) -> bool {
    &&& ascending(bounds)
    &&& forall|i: int| 0 <= i < bounds.len() ==> #[trigger] first_in(input, bounds[i])
    &&& forall|j: int|
        0 <= j < input.len() && finite(input[j]) ==> #[trigger] covered(bounds, input[j])
}

/// There is but one list in ascending order with the finite doubles of `input`.
pub proof fn lemma_sorted_distinct_unique(input: Seq<u64>, a: Seq<u64>, b: Seq<u64>)
    requires
        sorted_distinct(input, a),
        sorted_distinct(input, b),
    ensures
        a == b,
{
    lemma_sorted_distinct_within(input, a, b);
    lemma_sorted_distinct_within(input, b, a);
    assert forall|i: int| 0 <= i < a.len() implies a[i] == #[trigger] b[i] by {
        lemma_same_rank(input, a, b, i);
    }
    assert(a =~= b);
}

/// Each double of one such list is in the other.
proof fn lemma_member(input: Seq<u64>, a: Seq<u64>, b: Seq<u64>, i: int) -> (k: int)
    requires
        sorted_distinct(input, a),
        sorted_distinct(input, b),
        0 <= i < a.len(),
    ensures
        0 <= k < b.len(),
        b[k] == a[i],
{
    assert(first_in(input, a[i]));
    let j = choose|j: int| #[trigger] first_of_its_place(input, j) && input[j] == a[i];
    assert(covered(b, input[j]));
    let k = choose|k: int| 0 <= k < b.len() && place(#[trigger] b[k]) == place(input[j]);
    assert(first_in(input, b[k]));
    let m = choose|m: int| #[trigger] first_of_its_place(input, m) && input[m] == b[k];
    if m < j {
        assert(place(input[m]) != place(input[j]));
    } else if j < m {
        assert(place(input[j]) != place(input[m]));
    }
    k
}

proof fn lemma_sorted_distinct_within(input: Seq<u64>, a: Seq<u64>, b: Seq<u64>)
    requires
        sorted_distinct(input, a),
        sorted_distinct(input, b),
    ensures
        a.len() <= b.len(),
{
    if a.len() > 0 {
        lemma_rank_at_most(input, a, b, a.len() - 1);
    }
}

/// The double at `i` of one list stands no earlier than at `i` in the other.
proof fn lemma_rank_at_most(input: Seq<u64>, a: Seq<u64>, b: Seq<u64>, i: int) -> (k: int)
    requires
        sorted_distinct(input, a),
        sorted_distinct(input, b),
        0 <= i < a.len(),
    ensures
        i <= k < b.len(),
        b[k] == a[i],
    decreases i,
{
    let k = lemma_member(input, a, b, i);
    if i > 0 {
        let p = lemma_rank_at_most(input, a, b, i - 1);
        assert(place(b[p]) < place(b[k]));
        if k <= p {
            if k < p {
                assert(place(b[k]) < place(b[p]));
            }
            assert(false);
        }
    }
    k
}

proof fn lemma_same_rank(input: Seq<u64>, a: Seq<u64>, b: Seq<u64>, i: int)
    requires
        sorted_distinct(input, a),
        sorted_distinct(input, b),
        a.len() == b.len(),
        0 <= i < a.len(),
    ensures
        a[i] == b[i],
{
    let k = lemma_rank_at_most(input, a, b, i);
    let m = lemma_rank_at_most(input, b, a, i);
    if k > i {
        assert(place(b[i]) < place(b[k]));
        assert(place(a[m]) < place(a[i]));
        if m > i {
            assert(place(a[i]) < place(a[m]));
        }
        assert(false);
    }
}

/// The finite doubles of `input` in ascending order, each once.
pub fn sort_distinct(input: &[u64]) -> (bounds: Vec<u64>)
    ensures
        sorted_distinct(input@, bounds@),
{
    let mut bounds: Vec<u64> = Vec::new();
    let mut n: usize = 0;
    while n < input.len()
        invariant
            n <= input.len(),
            sorted_distinct(input@.take(n as int), bounds@),
        decreases input.len() - n,
    {
        let x: u64 = input[n];
        let ghost before = bounds@;
        let ghost seen = input@.take(n as int);
        let ghost now = input@.take(n + 1);
        assert(now =~= seen.push(x));
        if is_finite(x) {
            let p: i64 = order_place(x);
            let mut at: usize = 0;
            while at < bounds.len() && order_place(bounds[at]) < p
                invariant
                    at <= bounds.len(),
                    bounds@ == before,
                    p == place(x),
                    forall|i: int| 0 <= i < at ==> place(#[trigger] before[i]) < p,
                decreases bounds.len() - at,
            {
                at = at + 1;
            }
            if at < bounds.len() && order_place(bounds[at]) == p {
                proof {
                    lemma_seen_again(seen, before, x, at as int);
                }
            } else {
                bounds.insert(at, x);
                proof {
                    lemma_new_bound(seen, before, x, at as int);
                }
            }
        } else {
            proof {
                lemma_not_finite(seen, before, x);
            }
        }
        n = n + 1;
    }
    assert(input@.take(n as int) =~= input@);
    bounds
}

/// A first occurrence stays one when the list grows.
proof fn lemma_first_stays(seen: Seq<u64>, x: u64, j: int)
    requires
        first_of_its_place(seen, j),
    ensures
        first_of_its_place(seen.push(x), j),
{
    assert forall|k: int| 0 <= k < j && finite(seen.push(x)[k]) implies place(
        #[trigger] seen.push(x)[k],
    ) != place(seen.push(x)[j]) by {
        assert(seen.push(x)[k] == seen[k]);
    }
}

proof fn lemma_first_in_stays(seen: Seq<u64>, x: u64, b: u64)
    requires
        first_in(seen, b),
    ensures
        first_in(seen.push(x), b),
{
    let j = choose|j: int| #[trigger] first_of_its_place(seen, j) && seen[j] == b;
    lemma_first_stays(seen, x, j);
    assert(seen.push(x)[j] == b);
}

proof fn lemma_not_finite(seen: Seq<u64>, bounds: Seq<u64>, x: u64)
    requires
        sorted_distinct(seen, bounds),
        !finite(x),
    ensures
        sorted_distinct(seen.push(x), bounds),
{
    let now = seen.push(x);
    assert forall|i: int| 0 <= i < bounds.len() implies #[trigger] first_in(now, bounds[i]) by {
        assert(first_in(seen, bounds[i]));
        lemma_first_in_stays(seen, x, bounds[i]);
    }
    assert forall|j: int| 0 <= j < now.len() && finite(now[j]) implies #[trigger] covered(
        bounds,
        now[j],
    ) by {
        assert(covered(bounds, seen[j]));
    }
}

proof fn lemma_seen_again(seen: Seq<u64>, bounds: Seq<u64>, x: u64, at: int)
    requires
        sorted_distinct(seen, bounds),
        0 <= at < bounds.len(),
        place(bounds[at]) == place(x),
    ensures
        sorted_distinct(seen.push(x), bounds),
{
    let now = seen.push(x);
    assert forall|i: int| 0 <= i < bounds.len() implies #[trigger] first_in(now, bounds[i]) by {
        assert(first_in(seen, bounds[i]));
        lemma_first_in_stays(seen, x, bounds[i]);
    }
    assert forall|j: int| 0 <= j < now.len() && finite(now[j]) implies #[trigger] covered(
        bounds,
        now[j],
    ) by {
        if j < seen.len() {
            assert(covered(bounds, seen[j]));
        } else {
            assert(place(bounds[at]) == place(now[j]));
        }
    }
}

proof fn lemma_new_bound(seen: Seq<u64>, bounds: Seq<u64>, x: u64, at: int)
    requires
        sorted_distinct(seen, bounds),
        finite(x),
        0 <= at <= bounds.len(),
        forall|i: int| 0 <= i < at ==> place(#[trigger] bounds[i]) < place(x),
        at < bounds.len() ==> place(bounds[at]) > place(x),
    ensures
        sorted_distinct(seen.push(x), bounds.insert(at, x)),
{
    let now = seen.push(x);
    let new = bounds.insert(at, x);
    assert forall|i: int| at <= i < bounds.len() implies place(#[trigger] bounds[i]) > place(
        x,
    ) by {
        if i > at {
            assert(place(bounds[at]) < place(bounds[i]));
        }
    }
    assert forall|i: int, j: int| 0 <= i < j < new.len() implies place(new[i]) < place(
        new[j],
    ) by {
        let a = if i < at { i } else { i - 1 };
        let b = if j < at { j } else { j - 1 };
        if i != at && j != at {
            assert(place(bounds[a]) < place(bounds[b]));
        }
    }
    assert(first_of_its_place(now, seen.len() as int)) by {
        assert forall|k: int| 0 <= k < seen.len() && finite(now[k]) implies place(
            #[trigger] now[k],
        ) != place(x) by {
            assert(covered(bounds, seen[k]));
        }
    }
    assert forall|i: int| 0 <= i < new.len() implies #[trigger] first_in(now, new[i]) by {
        if i == at {
            assert(now[seen.len() as int] == new[i]);
        } else {
            let a = if i < at { i } else { i - 1 };
            assert(new[i] == bounds[a]);
            assert(first_in(seen, bounds[a]));
            lemma_first_in_stays(seen, x, bounds[a]);
        }
    }
    assert forall|j: int| 0 <= j < now.len() && finite(now[j]) implies #[trigger] covered(
        new,
        now[j],
    ) by {
        if j < seen.len() {
            assert(covered(bounds, seen[j]));
            let i = choose|i: int|
                0 <= i < bounds.len() && place(#[trigger] bounds[i]) == place(seen[j]);
            let k = if i < at { i } else { i + 1 };
            assert(new[k] == bounds[i]);
        } else {
            assert(new[at] == now[j]);
        }
    }
}

/// The bucket of a value: the number of boundaries that it reaches.
pub open spec fn is_bucket(bounds: Seq<u64>, value: u64, idx: int) -> bool {
    &&& 0 <= idx <= bounds.len()
    &&& forall|i: int| 0 <= i < idx ==> place(#[trigger] bounds[i]) <= place(value)
    &&& forall|i: int| idx <= i < bounds.len() ==> place(#[trigger] bounds[i]) > place(value)
}

/// A value has but one bucket.
pub proof fn lemma_bucket_unique(bounds: Seq<u64>, value: u64, a: int, b: int)
    requires
        is_bucket(bounds, value, a),
        is_bucket(bounds, value, b),
    ensures
        a == b,
{
    if a < b {
        assert(place(bounds[a]) > place(value));
        assert(false);
    }
    if b < a {
        assert(place(bounds[b]) > place(value));
        assert(false);
    }
}

/// A value at a boundary counts in the bucket above it.
pub proof fn lemma_boundary_counts_above(bounds: Seq<u64>, value: u64, boundary: int, idx: int)
    requires
        ascending(bounds),
        0 <= boundary < bounds.len(),
        place(value) == place(bounds[boundary]),
        is_bucket(bounds, value, idx),
    ensures
        idx == boundary + 1,
{
    if idx > boundary + 1 {
        assert(place(bounds[boundary + 1]) <= place(value));
    }
}

/// The bucket of a value among ascending boundaries.
pub fn bucket_index(bounds: &[u64], value: u64) -> (idx: usize)
    requires
        ascending(bounds@),
    ensures
        is_bucket(bounds@, value, idx as int),
{
    let v: i64 = order_place(value);
    let mut lo: usize = 0;
    let mut hi: usize = bounds.len();
    while lo < hi
        invariant
            lo <= hi <= bounds.len(),
            ascending(bounds@),
            v == place(value),
            forall|i: int| 0 <= i < lo ==> place(#[trigger] bounds@[i]) <= v,
            forall|i: int| hi <= i < bounds.len() ==> place(#[trigger] bounds@[i]) > v,
        decreases hi - lo,
    {
        let mid: usize = lo + (hi - lo) / 2;
        if order_place(bounds[mid]) <= v {
            assert forall|i: int| 0 <= i <= mid implies place(#[trigger] bounds@[i]) <= v by {
                if i < mid {
                    assert(place(bounds@[i]) < place(bounds@[mid as int]));
                }
            }
            lo = mid + 1;
        } else {
            assert forall|i: int| mid <= i < bounds.len() implies place(#[trigger] bounds@[i])
                > v by {
                if i > mid {
                    assert(place(bounds@[mid as int]) < place(bounds@[i]));
                }
            }
            hi = mid;
        }
    }
    lo
}

/// The order of doubles, by their bits: positive ones ascend with them, negative ones descend, and
/// a negative one comes before a positive one. The two zeros are equal.
pub proof fn lemma_order_by_bits(a: u64, b: u64)
    ensures
        a < 0x8000_0000_0000_0000 && b < 0x8000_0000_0000_0000 ==> (place(a) < place(b) <==> a < b),
        a >= 0x8000_0000_0000_0000 && b >= 0x8000_0000_0000_0000 ==> (place(a) < place(b) <==> a
            > b),
        a >= 0x8000_0000_0000_0000 && b < 0x8000_0000_0000_0000 ==> (place(a) < place(b) <==> a
            != 0x8000_0000_0000_0000 || b != 0),
        a >= 0x8000_0000_0000_0000 && b < 0x8000_0000_0000_0000 ==> place(a) <= place(b),
{
}

/// The bits of an infinity and of what is not a number have an exponent of all ones; those of an
/// infinity have no fraction.
pub proof fn lemma_special_by_bits(bits: u64)
    ensures
        finite(bits) <==> (bits / 0x10_0000_0000_0000) % 2048 != 2047,
        nan(bits) <==> (bits / 0x10_0000_0000_0000) % 2048 == 2047 && bits % 0x10_0000_0000_0000
            != 0,
{
}

/// The boundaries of a histogram are the finite ones among those given, in ascending order: each
/// of them is one that was given, and each finite one that was given is equal to one of them.
pub proof fn lemma_boundaries_are_those_given(input: Seq<u64>, bounds: Seq<u64>)
    requires
        sorted_distinct(input, bounds),
    ensures
        forall|i: int, j: int|
            0 <= i < j < bounds.len() ==> place(#[trigger] bounds[i]) < place(#[trigger] bounds[j]),
        forall|i: int|
            0 <= i < bounds.len() ==> finite(#[trigger] bounds[i]) && input.contains(bounds[i]),
        forall|j: int|
            0 <= j < input.len() && finite(#[trigger] input[j]) ==> exists|i: int|
                0 <= i < bounds.len() && place(#[trigger] bounds[i]) == place(input[j]),
{
    assert forall|i: int| 0 <= i < bounds.len() implies finite(#[trigger] bounds[i])
        && input.contains(bounds[i]) by {
        assert(first_in(input, bounds[i]));
        let j = choose|j: int| #[trigger] first_of_its_place(input, j) && input[j] == bounds[i];
        assert(input[j] == bounds[i]);
    }
    assert forall|j: int| 0 <= j < input.len() && finite(#[trigger] input[j]) implies exists|i: int|
        0 <= i < bounds.len() && place(#[trigger] bounds[i]) == place(input[j]) by {
        assert(covered(bounds, input[j]));
    }
}

} // verus!
