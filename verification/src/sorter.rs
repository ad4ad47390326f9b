//! A bitonic sorting network over a comparator: it sorts in place, only ever
//! exchanges elements, and accepts exactly the inputs whose length is a
//! power of two.
//!
//! What is proved: the length requirement is exact (success if and only if
//! the length is a power of two, with the precise message otherwise), and
//! sorting only rearranges — the multiset of elements is unchanged. Which
//! order the comparator encodes is the caller's affair: nothing is assumed
//! of it, so nothing is claimed about the resulting arrangement.

use core::cmp::Ordering;
use vstd::prelude::*;
use vstd::string::StringExecFns;

verus! {

/// The direction `sort` arranges its input in.
#[derive(Debug, Clone, Copy, PartialEq, Eq)]
pub enum SortOrder {
    Ascending,
    Descending,
}

/// A power of two: one, or twice a power of two. Zero is none.
pub open spec fn is_pow2(n: nat) -> bool
    decreases n,
{
    if n == 0 {
        false
    } else if n == 1 {
        true
    } else {
        n % 2 == 0 && is_pow2(n / 2)
    }
}

/// Divides out factors of two and checks that one remains.
pub fn is_power_of_two(n: usize) -> (r: bool)
    ensures
        r == is_pow2(n as nat),
{
    if n == 0 {
        return false;
    }
    let mut m = n;
    while m % 2 == 0
        invariant
            1 <= m,
            is_pow2(n as nat) == is_pow2(m as nat),
        decreases m,
    {
        m = m / 2;
    }
    m == 1
}

/// The character of one decimal digit.
pub open spec fn digit_char(d: int) -> char {
    if d == 0 {
        '0'
    } else if d == 1 {
        '1'
    } else if d == 2 {
        '2'
    } else if d == 3 {
        '3'
    } else if d == 4 {
        '4'
    } else if d == 5 {
        '5'
    } else if d == 6 {
        '6'
    } else if d == 7 {
        '7'
    } else if d == 8 {
        '8'
    } else {
        '9'
    }
}

/// The decimal digits of `n`, most significant first.
pub open spec fn spec_decimal(n: nat) -> Seq<char>
    decreases n,
{
    if n < 10 {
        seq![digit_char(n as int)]
    } else {
        spec_decimal(n / 10) + seq![digit_char((n % 10) as int)]
    }
}

/// Appends the decimal digits of `n` to `s`.
fn append_decimal(s: &mut String, n: usize)
    ensures
        final(s)@ == old(s)@ + spec_decimal(n as nat),
    decreases n,
{
    proof {
        reveal_strlit("0");
        reveal_strlit("1");
        reveal_strlit("2");
        reveal_strlit("3");
        reveal_strlit("4");
        reveal_strlit("5");
        reveal_strlit("6");
        reveal_strlit("7");
        reveal_strlit("8");
        reveal_strlit("9");
    }
    let ghost entry = s@;
    if n >= 10 {
        append_decimal(s, n / 10);
    }
    let d = n % 10;
    if d == 0 {
        s.append("0");
    } else if d == 1 {
        s.append("1");
    } else if d == 2 {
        s.append("2");
    } else if d == 3 {
        s.append("3");
    } else if d == 4 {
        s.append("4");
    } else if d == 5 {
        s.append("5");
    } else if d == 6 {
        s.append("6");
    } else if d == 7 {
        s.append("7");
    } else if d == 8 {
        s.append("8");
    } else {
        s.append("9");
    }
    proof {
        assert(s@ =~= entry + spec_decimal(n as nat));
    }
}

/// The message `sort_by` rejects a bad length with.
pub open spec fn spec_pow2_message(len: nat) -> Seq<char> {
    "The length of x is not a power of two. (x.len(): "@ + spec_decimal(len)
}

/// Builds the rejection message for a given length.
fn pow2_message(len: usize) -> (r: String)
    ensures
        r@ == spec_pow2_message(len as nat),
{
    let mut s = String::from_str("The length of x is not a power of two. (x.len(): ");
    append_decimal(&mut s, len);
    s
}

/// Relies on `<[T]>::swap`, reached through `Vec`'s deref: it exchanges the
/// elements at the two indices and moves nothing else.
#[verifier::external_body]
fn swap_elements<T>(x: &mut Vec<T>, i: usize, j: usize)
    requires
        i < old(x)@.len(),
        j < old(x)@.len(),
    ensures
        final(x)@ == old(x)@.update(i as int, old(x)@[j as int]).update(
            j as int,
            old(x)@[i as int],
        ),
{
    x.swap(i, j);
}

/// Exchanging two elements leaves a sequence's multiset unchanged.
proof fn lemma_swap_to_multiset<T>(t: Seq<T>, a: int, b: int)
    requires
        0 <= a < t.len(),
        0 <= b < t.len(),
        a != b,
    ensures
        t.update(a, t[b]).update(b, t[a]).to_multiset() == t.to_multiset(),
{
    broadcast use vstd::seq_lib::group_to_multiset_ensures;
    broadcast use vstd::multiset::group_multiset_axioms;
    broadcast use vstd::multiset::group_multiset_properties;

    let t1 = t.update(a, t[b]);
    assert(t.contains(t[a])) by {
        assert(t[a] == t[a]);
    }
    assert(t.contains(t[b])) by {
        assert(t[b] == t[b]);
    }
    assert(t1.contains(t[b])) by {
        assert(t1[b] == t[b]);
    }
    assert(t1.update(b, t[a]).to_multiset() =~= t.to_multiset());
}

/// A range's multiset is the sum of the multisets of its two parts.
proof fn lemma_multiset_split<T>(s: Seq<T>, a: int, b: int, c: int)
    requires
        0 <= a <= b <= c <= s.len(),
    ensures
        s.subrange(a, c).to_multiset() == s.subrange(a, b).to_multiset().add(
            s.subrange(b, c).to_multiset(),
        ),
{
    assert(s.subrange(a, c) =~= s.subrange(a, b) + s.subrange(b, c));
    vstd::seq_lib::lemma_multiset_commutative(s.subrange(a, b), s.subrange(b, c));
}

/// Two sequences of one length, pointwise equal outside `[lo, lo + n)` and
/// multiset-equal inside it, are multiset-equal on any enclosing range.
proof fn lemma_segment_multiset_preserved<T>(s0: Seq<T>, s1: Seq<T>, lo: int, n: int, glo: int, gn: int)
    requires
        s0.len() == s1.len(),
        0 <= glo <= lo,
        0 <= n,
        lo + n <= glo + gn,
        glo + gn <= s0.len(),
        forall|k: int| glo <= k < lo ==> s0[k] == s1[k],
        forall|k: int| lo + n <= k < glo + gn ==> s0[k] == s1[k],
        s1.subrange(lo, lo + n).to_multiset() == s0.subrange(lo, lo + n).to_multiset(),
    ensures
        s1.subrange(glo, glo + gn).to_multiset() == s0.subrange(glo, glo + gn).to_multiset(),
{
    assert(s1.subrange(glo, lo) =~= s0.subrange(glo, lo));
    assert(s1.subrange(lo + n, glo + gn) =~= s0.subrange(lo + n, glo + gn));
    lemma_multiset_split(s0, glo, lo, glo + gn);
    lemma_multiset_split(s1, glo, lo, glo + gn);
    lemma_multiset_split(s0, lo, lo + n, glo + gn);
    lemma_multiset_split(s1, lo, lo + n, glo + gn);
}

/// One compare-and-exchange pass over the two halves of `[lo, lo + n)`: for
/// each pair at distance `n / 2`, the elements are exchanged when the
/// comparator orders them against `forward`.
fn compare_and_swap<T, F: Fn(&T, &T) -> Ordering>(
    x: &mut Vec<T>,
    lo: usize,
    n: usize,
    forward: bool,
    comparator: &F,
)
    requires
        lo + n <= old(x)@.len(),
        lo + n <= usize::MAX,
        forall|a: &T, b: &T| #[trigger] call_requires(*comparator, (a, b)),
    ensures
        final(x)@.len() == old(x)@.len(),
        forall|k: int| 0 <= k < lo ==> final(x)@[k] == old(x)@[k],
        forall|k: int| lo + n <= k < old(x)@.len() ==> final(x)@[k] == old(x)@[k],
        final(x)@.subrange(lo as int, lo + n).to_multiset() == old(x)@.subrange(
            lo as int,
            lo + n,
        ).to_multiset(),
{
    let mid_point = n / 2;
    let mut i: usize = 0;
    while i < mid_point
        invariant
            lo + n <= x@.len(),
            lo + n <= usize::MAX,
            x@.len() == old(x)@.len(),
            mid_point == n / 2,
            i <= mid_point,
            forall|a: &T, b: &T| #[trigger] call_requires(*comparator, (a, b)),
            forall|k: int| 0 <= k < lo ==> x@[k] == old(x)@[k],
            forall|k: int| lo + n <= k < old(x)@.len() ==> x@[k] == old(x)@[k],
            x@.subrange(lo as int, lo + n).to_multiset() == old(x)@.subrange(
                lo as int,
                lo + n,
            ).to_multiset(),
        decreases mid_point - i,
    {
        let a = lo + i;
        let b = lo + mid_point + i;
        let ordering = comparator(&x[a], &x[b]);
        let exchange = if forward {
            matches!(ordering, Ordering::Greater)
        } else {
            matches!(ordering, Ordering::Less)
        };
        if exchange {
            let ghost before = x@;
            swap_elements(x, a, b);
            proof {
                lemma_swap_to_multiset(before, a as int, b as int);
                assert(x@.subrange(lo as int, lo + n) =~= before.subrange(lo as int, lo + n)
                    .update(a - lo, before[b as int]).update(b - lo, before[a as int]));
                lemma_swap_to_multiset(before.subrange(lo as int, lo + n), a - lo, b - lo);
            }
        }
        i = i + 1;
    }
}

/// Sorts both halves of a bitonic run in the same direction, then recurses.
fn sub_sort<T, F: Fn(&T, &T) -> Ordering>(
    x: &mut Vec<T>,
    lo: usize,
    n: usize,
    forward: bool,
    comparator: &F,
)
    requires
        lo + n <= old(x)@.len(),
        lo + n <= usize::MAX,
        forall|a: &T, b: &T| #[trigger] call_requires(*comparator, (a, b)),
    ensures
        final(x)@.len() == old(x)@.len(),
        forall|k: int| 0 <= k < lo ==> final(x)@[k] == old(x)@[k],
        forall|k: int| lo + n <= k < old(x)@.len() ==> final(x)@[k] == old(x)@[k],
        final(x)@.subrange(lo as int, lo + n).to_multiset() == old(x)@.subrange(
            lo as int,
            lo + n,
        ).to_multiset(),
    decreases n,
{
    if n > 1 {
        let ghost x0 = x@;
        compare_and_swap(x, lo, n, forward, comparator);
        let ghost x1 = x@;
        let mid_point = n / 2;
        sub_sort(x, lo, mid_point, forward, comparator);
        let ghost x2 = x@;
        sub_sort(x, lo + mid_point, n - mid_point, forward, comparator);
        proof {
            lemma_segment_multiset_preserved(x1, x2, lo as int, mid_point as int, lo as int, n as int);
            lemma_segment_multiset_preserved(
                x2,
                x@,
                lo + mid_point,
                n - mid_point,
                lo as int,
                n as int,
            );
        }
    }
}

/// Splits `[lo, lo + n)` in half, sorts the halves in opposite directions to
/// form a bitonic run, and merges it with `sub_sort`.
fn do_sort<T, F: Fn(&T, &T) -> Ordering>(
    x: &mut Vec<T>,
    lo: usize,
    n: usize,
    forward: bool,
    comparator: &F,
)
    requires
        lo + n <= old(x)@.len(),
        lo + n <= usize::MAX,
        forall|a: &T, b: &T| #[trigger] call_requires(*comparator, (a, b)),
    ensures
        final(x)@.len() == old(x)@.len(),
        forall|k: int| 0 <= k < lo ==> final(x)@[k] == old(x)@[k],
        forall|k: int| lo + n <= k < old(x)@.len() ==> final(x)@[k] == old(x)@[k],
        final(x)@.subrange(lo as int, lo + n).to_multiset() == old(x)@.subrange(
            lo as int,
            lo + n,
        ).to_multiset(),
    decreases n,
{
    if n > 1 {
        let ghost x0 = x@;
        let mid_point = n / 2;
        do_sort(x, lo, mid_point, true, comparator);
        let ghost x1 = x@;
        do_sort(x, lo + mid_point, n - mid_point, false, comparator);
        let ghost x2 = x@;
        sub_sort(x, lo, n, forward, comparator);
        proof {
            lemma_segment_multiset_preserved(x0, x1, lo as int, mid_point as int, lo as int, n as int);
            lemma_segment_multiset_preserved(
                x1,
                x2,
                lo + mid_point,
                n - mid_point,
                lo as int,
                n as int,
            );
        }
    }
}

/// Sorts in place by the given comparator. Succeeds exactly when the length
/// is a power of two, rejecting every other length with the message naming
/// it; on success and failure alike the elements are only rearranged.
pub fn sort_by<T, F: Fn(&T, &T) -> Ordering>(x: &mut Vec<T>, comparator: &F) -> (r: Result<
    (),
    String,
>)
    requires
        forall|a: &T, b: &T| #[trigger] call_requires(*comparator, (a, b)),
    ensures
        final(x)@.len() == old(x)@.len(),
        final(x)@.to_multiset() == old(x)@.to_multiset(),
        is_pow2(old(x)@.len()) ==> r is Ok,
        !is_pow2(old(x)@.len()) ==> final(x)@ == old(x)@ && (r matches Err(m) && m@
            == spec_pow2_message(old(x)@.len())),
{
    let n = x.len();
    if is_power_of_two(n) {
        do_sort(x, 0, n, true, comparator);
        proof {
            assert(x@.subrange(0, n as int) =~= x@);
            assert(old(x)@.subrange(0, n as int) =~= old(x)@);
        }
        Ok(())
    } else {
        Err(pow2_message(n))
    }
}

/// Sorts in place into the given order, by each element's own ordering.
/// Succeeds exactly when the length is a power of two; the elements are only
/// rearranged.
pub fn sort<T: Ord>(x: &mut Vec<T>, order: &SortOrder) -> (r: Result<(), String>)
    ensures
        final(x)@.len() == old(x)@.len(),
        final(x)@.to_multiset() == old(x)@.to_multiset(),
        is_pow2(old(x)@.len()) ==> r is Ok,
        !is_pow2(old(x)@.len()) ==> final(x)@ == old(x)@ && (r matches Err(m) && m@
            == spec_pow2_message(old(x)@.len())),
{
    match order {
        SortOrder::Ascending => sort_by(x, &(|a: &T, b: &T| a.cmp(b))),
        SortOrder::Descending => sort_by(x, &(|a: &T, b: &T| b.cmp(a))),
    }
}

} // verus!
