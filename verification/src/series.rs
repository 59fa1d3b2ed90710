//! The additive series: every term after the second is the sum of the two
//! terms before it. With the seeds 0 and 1 these are the Fibonacci numbers.

use vstd::prelude::*;

verus! {

/// The first seed of the Fibonacci numbers.
pub const FIRST_SEED: i32 = 0;

/// The second seed of the Fibonacci numbers.
pub const SECOND_SEED: i32 = 1;

/// Term `i` of the series that starts with `first` and `second`.
pub open spec fn term(first: int, second: int, i: nat) -> int
    decreases i,
{
    if i == 0 {
        first
    } else if i == 1 {
        second
    } else {
        term(first, second, (i - 2) as nat) + term(first, second, (i - 1) as nat)
    }
}

/// The first `count` terms of the series, in order.
pub open spec fn series(first: int, second: int, count: nat) -> Seq<int> {
    Seq::new(count, |i: int| term(first, second, i as nat))
}

/// How many terms a requested size stands for: a size below zero asks for none.
pub open spec fn term_count(size: int) -> nat {
    if size > 0 {
        size as nat
    } else {
        0
    }
}

/// Whether `value` can be held in an `i32`.
pub open spec fn fits_i32(value: int) -> bool {
    i32::MIN <= value <= i32::MAX
}

/// Whether each of the first `count` terms can be held in an `i32`.
pub open spec fn series_fits(first: int, second: int, count: nat) -> bool {
    forall|i: int| 0 <= i < count ==> fits_i32(#[trigger] term(first, second, i as nat))
}

/// The terms held in `terms`, as integers.
pub open spec fn values(terms: Seq<i32>) -> Seq<int> {
    terms.map_values(|t: i32| t as int)
}

/// The first `size` terms of the series seeded with `num1` and `num2`.
///
/// The result is `Some` exactly when every requested term fits in an `i32`;
/// it then holds exactly `size` terms (none for a size below one), starts with
/// the seeds, and continues by summing the two preceding terms.
pub fn fibonacci(num1: i32, num2: i32, size: i32) -> (terms: Option<Vec<i32>>)
    ensures
        terms is Some <==> series_fits(num1 as int, num2 as int, term_count(size as int)),
        terms matches Some(v) ==> values(v@) == series(
            num1 as int,
            num2 as int,
            term_count(size as int),
        ),
        terms matches Some(v) ==> forall|i: int|
            2 <= i < v@.len() ==> #[trigger] v@[i] == v@[i - 2] + v@[i - 1],
{
    let mut terms: Vec<i32> = Vec::new();
    if size <= 0 {
        return Some(terms);
    }
    let count: usize = size as usize;
    let mut i: usize = 0;
    while i < count
        invariant
            i <= count,
            count == term_count(size as int),
            terms@.len() == i,
            forall|j: int|
                0 <= j < i ==> terms@[j] as int == #[trigger] term(
                    num1 as int,
                    num2 as int,
                    j as nat,
                ),
        decreases count - i,
    {
        let next: i32 = if i == 0 {
            num1
        } else if i == 1 {
            num2
        } else {
            assert(terms@[i - 2] as int == term(num1 as int, num2 as int, (i - 2) as nat));
            assert(terms@[i - 1] as int == term(num1 as int, num2 as int, (i - 1) as nat));
            match terms[i - 2].checked_add(terms[i - 1]) {
                Some(sum) => sum,
                None => {
                    proof {
                        let k: int = i as int;
                        assert(!fits_i32(term(num1 as int, num2 as int, k as nat)));
                    }
                    return None;
                },
            }
        };
        terms.push(next);
        i += 1;
    }
    assert forall|j: int| 2 <= j < terms@.len() implies #[trigger] terms@[j] == terms@[j - 2]
        + terms@[j - 1] by {
        assert(terms@[j] as int == term(num1 as int, num2 as int, j as nat));
        assert(terms@[j - 2] as int == term(num1 as int, num2 as int, (j - 2) as nat));
        assert(terms@[j - 1] as int == term(num1 as int, num2 as int, (j - 1) as nat));
    }
    Some(terms)
}

/// Two answers to the same request are the same: both hold the series or
/// neither does, and where they hold it they hold the same terms.
pub proof fn same_request_same_series(
    num1: i32,
    num2: i32,
    size: i32,
    one: Option<Vec<i32>>,
    other: Option<Vec<i32>>,
)
    requires
        one is Some <==> series_fits(num1 as int, num2 as int, term_count(size as int)),
        other is Some <==> series_fits(num1 as int, num2 as int, term_count(size as int)),
        one matches Some(v) ==> values(v@) == series(
            num1 as int,
            num2 as int,
            term_count(size as int),
        ),
        other matches Some(v) ==> values(v@) == series(
            num1 as int,
            num2 as int,
            term_count(size as int),
        ),
    ensures
        one is Some <==> other is Some,
        one is Some ==> one->0@ == other->0@,
{
    if one is Some {
        let a = one->0@;
        let b = other->0@;
        assert(a.len() == values(a).len());
        assert(b.len() == values(b).len());
        assert forall|i: int| 0 <= i < a.len() implies a[i] == b[i] by {
            assert(values(a)[i] == a[i] as int);
            assert(values(b)[i] == b[i] as int);
        }
        assert(a =~= b);
    }
}

/// The series has exactly `count` terms, opens with its two seeds, and each
/// later term is the sum of the two terms before it.
pub proof fn series_is_additive(first: int, second: int, count: nat)
    ensures
        series(first, second, count).len() == count,
        count >= 1 ==> series(first, second, count)[0] == first,
        count >= 2 ==> series(first, second, count)[1] == second,
        forall|i: int|
            2 <= i < count ==> #[trigger] series(first, second, count)[i] == series(
                first,
                second,
                count,
            )[i - 2] + series(first, second, count)[i - 1],
{
}

} // verus!
