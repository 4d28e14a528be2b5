//! The delays between the tries of a step of the handshake.

use crate::util::retry::clamped_sum;
use crate::util::retry::clamp_total;
use crate::util::retry::fibonacci;
use crate::util::retry::fibonacci_delay;
use crate::util::retry::fibonacci_state;
use crate::util::retry::is_clamped;
use crate::util::retry::is_clamped_at;
use crate::util::retry::lemma_clamped_total;
use crate::util::retry::total_of;
use vstd::prelude::*;

verus! {

/// The longest delay between two tries: one minute, in milliseconds.
pub const MAX_DELAY: u64 = 60000;

/// The longest time waited in all: ten minutes, in milliseconds.
pub const MAX_TOTAL_DELAY: u64 = 600000;

/// The first delay: one second, in milliseconds.
pub const INITIAL_DELAY: u64 = 1000;

/// How many Fibonacci delays are taken: with the eighteenth the cut delays
/// reach the total.
pub const DELAYS: usize = 18;

/// The delays between the tries, in milliseconds: the Fibonacci delays from
/// one second on, each cut to one minute, the last cut so that all sum to
/// ten minutes.
pub open spec fn default_delays() -> Seq<u64> {
    seq![1000u64, 1000u64, 2000u64, 3000u64, 5000u64, 8000u64, 13000u64, 21000u64, 34000u64, 55000u64, 60000u64, 60000u64, 60000u64, 60000u64, 60000u64, 60000u64, 60000u64, 37000u64]
}

proof fn lemma_default_delays(strategy: Seq<u64>, out: Seq<u64>)
    requires
        strategy.len() == DELAYS,
        forall|i: int| 0 <= i < DELAYS ==> strategy[i] == fibonacci_delay(INITIAL_DELAY, i as nat),
        is_clamped(out, strategy, MAX_DELAY, MAX_TOTAL_DELAY),
    ensures
        out == default_delays(),
        total_of(out) == MAX_TOTAL_DELAY,
{
    lemma_clamped_total(out, strategy, MAX_DELAY, MAX_TOTAL_DELAY);
    assert(fibonacci_state(INITIAL_DELAY, 0) == (1000u64, 1000u64));
    assert(fibonacci_state(INITIAL_DELAY, 1) == (1000u64, 2000u64));
    assert(fibonacci_state(INITIAL_DELAY, 2) == (2000u64, 3000u64));
    assert(fibonacci_state(INITIAL_DELAY, 3) == (3000u64, 5000u64));
    assert(fibonacci_state(INITIAL_DELAY, 4) == (5000u64, 8000u64));
    assert(fibonacci_state(INITIAL_DELAY, 5) == (8000u64, 13000u64));
    assert(fibonacci_state(INITIAL_DELAY, 6) == (13000u64, 21000u64));
    assert(fibonacci_state(INITIAL_DELAY, 7) == (21000u64, 34000u64));
    assert(fibonacci_state(INITIAL_DELAY, 8) == (34000u64, 55000u64));
    assert(fibonacci_state(INITIAL_DELAY, 9) == (55000u64, 89000u64));
    assert(fibonacci_state(INITIAL_DELAY, 10) == (89000u64, 144000u64));
    assert(fibonacci_state(INITIAL_DELAY, 11) == (144000u64, 233000u64));
    assert(fibonacci_state(INITIAL_DELAY, 12) == (233000u64, 377000u64));
    assert(fibonacci_state(INITIAL_DELAY, 13) == (377000u64, 610000u64));
    assert(fibonacci_state(INITIAL_DELAY, 14) == (610000u64, 987000u64));
    assert(fibonacci_state(INITIAL_DELAY, 15) == (987000u64, 1597000u64));
    assert(fibonacci_state(INITIAL_DELAY, 16) == (1597000u64, 2584000u64));
    assert(fibonacci_state(INITIAL_DELAY, 17) == (2584000u64, 4181000u64));
    assert(clamped_sum(strategy, MAX_DELAY, 0) == 0);
    assert(clamped_sum(strategy, MAX_DELAY, 1) == 1000);
    assert(clamped_sum(strategy, MAX_DELAY, 2) == 2000);
    assert(clamped_sum(strategy, MAX_DELAY, 3) == 4000);
    assert(clamped_sum(strategy, MAX_DELAY, 4) == 7000);
    assert(clamped_sum(strategy, MAX_DELAY, 5) == 12000);
    assert(clamped_sum(strategy, MAX_DELAY, 6) == 20000);
    assert(clamped_sum(strategy, MAX_DELAY, 7) == 33000);
    assert(clamped_sum(strategy, MAX_DELAY, 8) == 54000);
    assert(clamped_sum(strategy, MAX_DELAY, 9) == 88000);
    assert(clamped_sum(strategy, MAX_DELAY, 10) == 143000);
    assert(clamped_sum(strategy, MAX_DELAY, 11) == 203000);
    assert(clamped_sum(strategy, MAX_DELAY, 12) == 263000);
    assert(clamped_sum(strategy, MAX_DELAY, 13) == 323000);
    assert(clamped_sum(strategy, MAX_DELAY, 14) == 383000);
    assert(clamped_sum(strategy, MAX_DELAY, 15) == 443000);
    assert(clamped_sum(strategy, MAX_DELAY, 16) == 503000);
    assert(clamped_sum(strategy, MAX_DELAY, 17) == 563000);
    assert(clamped_sum(strategy, MAX_DELAY, 18) == 623000);
    assert(is_clamped_at(out[0], strategy, MAX_DELAY, MAX_TOTAL_DELAY, 0));
    assert(is_clamped_at(out[1], strategy, MAX_DELAY, MAX_TOTAL_DELAY, 1));
    assert(is_clamped_at(out[2], strategy, MAX_DELAY, MAX_TOTAL_DELAY, 2));
    assert(is_clamped_at(out[3], strategy, MAX_DELAY, MAX_TOTAL_DELAY, 3));
    assert(is_clamped_at(out[4], strategy, MAX_DELAY, MAX_TOTAL_DELAY, 4));
    assert(is_clamped_at(out[5], strategy, MAX_DELAY, MAX_TOTAL_DELAY, 5));
    assert(is_clamped_at(out[6], strategy, MAX_DELAY, MAX_TOTAL_DELAY, 6));
    assert(is_clamped_at(out[7], strategy, MAX_DELAY, MAX_TOTAL_DELAY, 7));
    assert(is_clamped_at(out[8], strategy, MAX_DELAY, MAX_TOTAL_DELAY, 8));
    assert(is_clamped_at(out[9], strategy, MAX_DELAY, MAX_TOTAL_DELAY, 9));
    assert(is_clamped_at(out[10], strategy, MAX_DELAY, MAX_TOTAL_DELAY, 10));
    assert(is_clamped_at(out[11], strategy, MAX_DELAY, MAX_TOTAL_DELAY, 11));
    assert(is_clamped_at(out[12], strategy, MAX_DELAY, MAX_TOTAL_DELAY, 12));
    assert(is_clamped_at(out[13], strategy, MAX_DELAY, MAX_TOTAL_DELAY, 13));
    assert(is_clamped_at(out[14], strategy, MAX_DELAY, MAX_TOTAL_DELAY, 14));
    assert(is_clamped_at(out[15], strategy, MAX_DELAY, MAX_TOTAL_DELAY, 15));
    assert(is_clamped_at(out[16], strategy, MAX_DELAY, MAX_TOTAL_DELAY, 16));
    assert(is_clamped_at(out[17], strategy, MAX_DELAY, MAX_TOTAL_DELAY, 17));
    assert(out.len() == 18);
    assert(out =~= default_delays());
}

/// The delays between the tries of one step of the handshake.
pub fn default() -> (r: Vec<u64>)
    ensures
        r@ == default_delays(),
        r@.len() == DELAYS,
        total_of(r@) == MAX_TOTAL_DELAY,
{
    let strategy = fibonacci(INITIAL_DELAY, DELAYS);
    let out = clamp_total(strategy, MAX_DELAY, MAX_TOTAL_DELAY);
    proof {
        lemma_default_delays(strategy@, out@);
    }
    out
}

} // verus!
