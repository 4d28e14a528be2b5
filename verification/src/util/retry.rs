//! Retrying: the delays between tries, and how a try and a run of tries end.
//!
//! Delays are counted in milliseconds.

use retry::delay::Fibonacci;
use vstd::prelude::*;

verus! {

/// How one try of an operation ended.
#[derive(Debug, PartialEq, Eq)]
pub enum RetryResult<T, E> {
    /// The operation succeeded.
    Done(T),
    /// The operation failed and is tried again, if a delay is left.
    Retry(E),
    /// The operation failed for good.
    Abort(E),
}

/// How a run of tries failed.
#[derive(Debug, PartialEq, Eq)]
pub enum RetryError<E> {
    /// The error of the last try, with the number of tries and the time
    /// waited between them.
    Operation { error: E, total_delay: u64, tries: u64 },
    /// The retry mechanism itself failed.
    Internal(String),
}

/// The two numbers that a Fibonacci delay keeps after `i` delays were taken
/// from it: the delay that comes next and the one after it. Both start as
/// `initial`; a sum that does not fit 64 bits is replaced by the largest
/// number that does.
pub open spec fn fibonacci_state(initial: u64, i: nat) -> (u64, u64)
    decreases i,
{
    if i == 0 {
        (initial, initial)
    } else {
        let (curr, next) = fibonacci_state(initial, (i - 1) as nat);
        (
            next,
            if curr + next <= u64::MAX {
                (curr + next) as u64
            } else {
                u64::MAX
            },
        )
    }
}

/// The delay of place `i`, from 0, of the Fibonacci delays that start with
/// `initial`.
pub open spec fn fibonacci_delay(initial: u64, i: nat) -> u64 {
    fibonacci_state(initial, i).0
}

/// `retry::delay::Fibonacci::from_millis`, and `next` of its `Iterator`
/// `count` times: the first `count` delays, each the sum of the two before
/// it, the first two both `initial`.
#[verifier::external_body]
pub(crate) fn fibonacci(initial: u64, count: usize) -> (r: Vec<u64>)
    ensures
        r@.len() == count,
        forall|i: int| 0 <= i < count ==> r@[i] == fibonacci_delay(initial, i as nat),
{
    Fibonacci::from_millis(initial).take(count).map(|d| d.as_millis() as u64).collect()
}

pub open spec fn min_u64(a: u64, b: u64) -> u64 {
    if a <= b {
        a
    } else {
        b
    }
}

/// The sum of the first `n` delays of `strategy`, each cut to `max_delay`.
pub open spec fn clamped_sum(strategy: Seq<u64>, max_delay: u64, n: nat) -> nat
    decreases n,
{
    if n == 0 {
        0
    } else {
        clamped_sum(strategy, max_delay, (n - 1) as nat) + min_u64(
            strategy[n - 1],
            max_delay,
        ) as nat
    }
}

/// Whether `delay` is what `clamp_total` lets through at place `i`: the cut
/// delays before it sum to less than `max_total`, and it is the delay of the
/// strategy cut to `max_delay` and to what is left of `max_total`.
pub open spec fn is_clamped_at(
    delay: u64,
    strategy: Seq<u64>,
    max_delay: u64,
    max_total: u64,
    i: int,
) -> bool {
    &&& clamped_sum(strategy, max_delay, i as nat) < max_total
    &&& delay as nat == if clamped_sum(strategy, max_delay, (i + 1) as nat) > max_total {
        (max_total - clamped_sum(strategy, max_delay, i as nat)) as nat
    } else {
        min_u64(strategy[i], max_delay) as nat
    }
}

/// What `clamp_total` makes of a strategy: a delay stays as long as the cut
/// delays before it sum to less than `max_total`; it is cut to `max_delay`,
/// and the last one to what is left of `max_total`.
pub open spec fn is_clamped(
    out: Seq<u64>,
    strategy: Seq<u64>,
    max_delay: u64,
    max_total: u64,
) -> bool {
    &&& out.len() <= strategy.len()
    &&& forall|i: int|
        0 <= i < out.len() ==> #[trigger] is_clamped_at(out[i], strategy, max_delay, max_total, i)
    &&& out.len() < strategy.len() ==> clamped_sum(strategy, max_delay, out.len()) >= max_total
}

/// The sum of a sequence of delays.
pub open spec fn total_of(delays: Seq<u64>) -> nat
    decreases delays.len(),
{
    if delays.len() == 0 {
        0
    } else {
        total_of(delays.drop_last()) + delays.last() as nat
    }
}

/// Cuts each delay of `strategy` to `max_delay`, and the whole to
/// `max_total`: the delays end with the one that brings their sum to
/// `max_total`, which is cut so that the sum is `max_total` exactly.
pub fn clamp_total(strategy: Vec<u64>, max_delay: u64, max_total: u64) -> (r: Vec<u64>)
    ensures
        is_clamped(r@, strategy@, max_delay, max_total),
{
    let mut out: Vec<u64> = Vec::new();
    let mut remaining: u64 = max_total;
    let mut i: usize = 0;
    while i < strategy.len() && remaining > 0
        invariant
            i <= strategy.len(),
            out@.len() == i,
            remaining <= max_total,
            remaining > 0 ==> clamped_sum(strategy@, max_delay, i as nat) == max_total - remaining,
            remaining == 0 ==> clamped_sum(strategy@, max_delay, i as nat) >= max_total,
            forall|j: int|
                0 <= j < i ==> #[trigger] is_clamped_at(out@[j], strategy@, max_delay, max_total, j),
        decreases strategy.len() - i,
    {
        let delay = if strategy[i] <= max_delay {
            strategy[i]
        } else {
            max_delay
        };
        assert(clamped_sum(strategy@, max_delay, (i + 1) as nat) == clamped_sum(
            strategy@,
            max_delay,
            i as nat,
        ) + delay);
        let ghost before = out@;
        if delay > remaining {
            out.push(remaining);
            remaining = 0;
        } else {
            out.push(delay);
            remaining = remaining - delay;
        }
        assert forall|j: int| 0 <= j < i + 1 implies #[trigger] is_clamped_at(
            out@[j],
            strategy@,
            max_delay,
            max_total,
            j,
        ) by {
            if j < i {
                assert(is_clamped_at(before[j], strategy@, max_delay, max_total, j));
            }
        }
        i = i + 1;
    }
    out
}

/// No delay that `clamp_total` lets through is longer than `max_delay`.
pub proof fn lemma_clamped_delays_bounded(
    out: Seq<u64>,
    strategy: Seq<u64>,
    max_delay: u64,
    max_total: u64,
    i: int,
)
    requires
        is_clamped(out, strategy, max_delay, max_total),
        0 <= i < out.len(),
    ensures
        out[i] <= max_delay,
        out[i] <= max_total,
{
    assert(is_clamped_at(out[i], strategy, max_delay, max_total, i));
    assert(clamped_sum(strategy, max_delay, (i + 1) as nat) == clamped_sum(
        strategy,
        max_delay,
        i as nat,
    ) + min_u64(strategy[i], max_delay) as nat);
}

/// The delays that `clamp_total` lets through end with the first that brings
/// the sum of the cut delays to `max_total`: the cut delays before any of
/// them sum to less, and where delays of the strategy are left out, those
/// let through sum to `max_total` or more before the last is cut.
pub proof fn lemma_clamped_ends_at_first_prefix(
    out: Seq<u64>,
    strategy: Seq<u64>,
    max_delay: u64,
    max_total: u64,
)
    requires
        is_clamped(out, strategy, max_delay, max_total),
    ensures
        forall|k: nat| k < out.len() ==> #[trigger] clamped_sum(strategy, max_delay, k) < max_total,
        out.len() < strategy.len() ==> clamped_sum(strategy, max_delay, out.len()) >= max_total,
{
    assert forall|k: nat| k < out.len() implies #[trigger] clamped_sum(strategy, max_delay, k)
        < max_total by {
        assert(is_clamped_at(out[k as int], strategy, max_delay, max_total, k as int));
    }
}

/// The first `k` delays that `clamp_total` lets through sum to what the
/// first `k` cut delays of the strategy sum to, but to no more than
/// `max_total`.
pub proof fn lemma_clamped_prefix_total(
    out: Seq<u64>,
    strategy: Seq<u64>,
    max_delay: u64,
    max_total: u64,
    k: nat,
)
    requires
        is_clamped(out, strategy, max_delay, max_total),
        k <= out.len(),
    ensures
        total_of(out.take(k as int)) == if clamped_sum(strategy, max_delay, k) > max_total {
            max_total as nat
        } else {
            clamped_sum(strategy, max_delay, k)
        },
    decreases k,
{
    if k == 0 {
        assert(out.take(0).len() == 0);
    } else {
        lemma_clamped_prefix_total(out, strategy, max_delay, max_total, (k - 1) as nat);
        assert(out.take(k as int).drop_last() == out.take(k - 1));
        assert(out.take(k as int).last() == out[k - 1]);
        assert(is_clamped_at(out[k - 1], strategy, max_delay, max_total, k - 1));
    }
}

/// The delays that `clamp_total` lets through sum to no more than
/// `max_total`, and to `max_total` exactly where the cut delays of the
/// strategy reach it.
pub proof fn lemma_clamped_total(
    out: Seq<u64>,
    strategy: Seq<u64>,
    max_delay: u64,
    max_total: u64,
)
    requires
        is_clamped(out, strategy, max_delay, max_total),
    ensures
        total_of(out) <= max_total,
        clamped_sum(strategy, max_delay, strategy.len()) >= max_total ==> total_of(out)
            == max_total,
{
    lemma_clamped_prefix_total(out, strategy, max_delay, max_total, out.len());
    assert(out.take(out.len() as int) == out);
    if clamped_sum(strategy, max_delay, strategy.len()) >= max_total {
        if out.len() == strategy.len() {
        }
    }
}

} // verus!
