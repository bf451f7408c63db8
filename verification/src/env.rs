//! The storage-environment size negotiator. Some platforms impose a small
//! usable virtual-address ceiling even on 64-bit builds, so a fixed maximum
//! reservation can fail outright: the negotiator probes geometrically
//! shrinking, page-aligned reservation sizes until an open succeeds, and
//! gives up after a fixed number of retries. The probing itself (an open
//! attempt against the filesystem) is injected as a sequence of simulated
//! outcomes, so the size schedule is pure and fully specified; the I/O edge
//! drives the same schedule against the real environment.

use vstd::prelude::*;

use vstd::arithmetic::div_mod::{
    lemma_div_is_ordered, lemma_div_multiples_vanish, lemma_fundamental_div_mod,
    lemma_mod_bound, lemma_mod_multiples_basic,
};

verus! {

/// The largest reservation ever requested, in bytes.
pub const MAX_POSSIBLE_SIZE: u64 = 1099511627776;

/// The coarsest page size among the supported platforms: every requested
/// reservation is rounded down to a multiple of it.
pub const MAX_OS_PAGE_SIZE: u64 = 16384;

/// How many times a failed open is retried with a smaller reservation.
pub const MAP_SIZE_TRIES: u32 = 10;

/// The geometric backoff: attempt `a` requests `MAX_POSSIBLE_SIZE` scaled
/// by `(9/10)^a` — shrinking from the original maximum, not from the last
/// failure — rounded down to a page multiple.
pub const MAP_BACKOFF_NUM: u64 = 9;

pub const MAP_BACKOFF_DEN: u64 = 10;

pub open spec fn pow_of(b: int, e: nat) -> int
    decreases e,
{
    if e == 0 {
        1
    } else {
        b * pow_of(b, (e - 1) as nat)
    }
}

/// The unrounded reservation of attempt `a`.
pub open spec fn raw_probe_size(a: nat) -> int {
    (MAX_POSSIBLE_SIZE as int) * pow_of(MAP_BACKOFF_NUM as int, a) / pow_of(
        MAP_BACKOFF_DEN as int,
        a,
    )
}

/// The reservation requested on attempt `a`: the raw size rounded down to
/// the nearest page multiple.
pub open spec fn probe_size_spec(a: nat) -> int {
    raw_probe_size(a) - raw_probe_size(a) % (MAX_OS_PAGE_SIZE as int)
}

/// The exact request schedule over the whole retry budget.
pub proof fn lemma_probe_size_table()
    ensures
        probe_size_spec(0) == 1099511627776,
        probe_size_spec(1) == 989560455168,
        probe_size_spec(2) == 890604404736,
        probe_size_spec(3) == 801543962624,
        probe_size_spec(4) == 721389568000,
        probe_size_spec(5) == 649250619392,
        probe_size_spec(6) == 584325545984,
        probe_size_spec(7) == 525892993024,
        probe_size_spec(8) == 473303695360,
        probe_size_spec(9) == 425973317632,
        probe_size_spec(10) == 383375998976,
{
    reveal_with_fuel(pow_of, 12);
    assert(pow_of(9, 0) == 1);
    assert(pow_of(10, 0) == 1);
    assert(pow_of(9, 1) == 9);
    assert(pow_of(10, 1) == 10);
    assert(pow_of(9, 2) == 81);
    assert(pow_of(10, 2) == 100);
    assert(pow_of(9, 3) == 729);
    assert(pow_of(10, 3) == 1000);
    assert(pow_of(9, 4) == 6561);
    assert(pow_of(10, 4) == 10000);
    assert(pow_of(9, 5) == 59049);
    assert(pow_of(10, 5) == 100000);
    assert(pow_of(9, 6) == 531441);
    assert(pow_of(10, 6) == 1000000);
    assert(pow_of(9, 7) == 4782969);
    assert(pow_of(10, 7) == 10000000);
    assert(pow_of(9, 8) == 43046721);
    assert(pow_of(10, 8) == 100000000);
    assert(pow_of(9, 9) == 387420489);
    assert(pow_of(10, 9) == 1000000000);
    assert(pow_of(9, 10) == 3486784401);
    assert(pow_of(10, 10) == 10000000000);
}

/// Every attempt requests a page multiple, never more than the maximum.
pub proof fn lemma_probe_size_aligned(a: nat)
    requires
        a <= MAP_SIZE_TRIES,
    ensures
        probe_size_spec(a) % (MAX_OS_PAGE_SIZE as int) == 0,
        0 <= probe_size_spec(a) <= MAX_POSSIBLE_SIZE,
{
    let m = MAX_POSSIBLE_SIZE as int;
    let p = MAX_OS_PAGE_SIZE as int;
    lemma_pow_bounds(a);
    let p9 = pow_of(9, a);
    let p10 = pow_of(10, a);
    let raw = raw_probe_size(a);
    lemma_div_is_ordered(m * p9, m * p10, p10);
    lemma_div_multiples_vanish(m, p10);
    assert(m * p10 == p10 * m) by (nonlinear_arith);
    assert(raw <= m);
    lemma_div_is_ordered(0, m * p9, p10);
    assert(raw >= 0);
    lemma_fundamental_div_mod(raw, p);
    lemma_mod_multiples_basic(raw / p, p);
    lemma_mod_bound(raw, p);
    assert(probe_size_spec(a) == p * (raw / p));
    assert((p * (raw / p)) % p == ((raw / p) * p) % p) by (nonlinear_arith);
}

/// The powers that drive the schedule stay positive, ordered and small
/// enough for exact machine arithmetic over the whole retry budget.
pub proof fn lemma_pow_bounds(a: nat)
    requires
        a <= MAP_SIZE_TRIES,
    ensures
        1 <= pow_of(9, a),
        pow_of(9, a) <= pow_of(10, a),
        pow_of(10, a) <= 10000000000,
    decreases a,
{
    reveal_with_fuel(pow_of, 12);
    if a > 0 {
        lemma_pow_bounds((a - 1) as nat);
        lemma_pow10_upper(a);
    }
}

pub proof fn lemma_pow10_upper(a: nat)
    requires
        a <= 10,
    ensures
        pow_of(10, a) <= 10000000000,
    decreases 10 - a,
{
    reveal_with_fuel(pow_of, 12);
    if a < 10 {
        lemma_pow10_upper((a + 1) as nat);
        assert(pow_of(10, (a + 1) as nat) == 10 * pow_of(10, a));
        lemma_pow_pos(a);
    } else {
        assert(pow_of(10, 10) == 10000000000);
    }
}

pub proof fn lemma_pow_pos(a: nat)
    ensures
        pow_of(9, a) >= 1,
        pow_of(10, a) >= 1,
    decreases a,
{
    if a > 0 {
        lemma_pow_pos((a - 1) as nat);
    }
}

/// Each retry requests strictly less than the attempt before it.
pub proof fn lemma_probe_size_strictly_shrinks(a: nat)
    requires
        a < MAP_SIZE_TRIES,
    ensures
        probe_size_spec(a + 1) < probe_size_spec(a),
{
    lemma_probe_size_table();
}

/// The negotiation outcome from attempt `a` on: the first attempt whose
/// simulated open succeeds wins with that attempt's size; an attempt past
/// the end of the outcome sequence fails; after a failure at the last
/// attempt the negotiator gives up and surfaces the error.
pub open spec fn negotiate_from(outcomes: Seq<bool>, a: int) -> Option<int>
    decreases MAP_SIZE_TRIES - a,
{
    if a < 0 || a > MAP_SIZE_TRIES {
        None
    } else if 0 <= a < outcomes.len() && outcomes[a] {
        Some(probe_size_spec(a as nat))
    } else if a == MAP_SIZE_TRIES {
        None
    } else {
        negotiate_from(outcomes, a + 1)
    }
}

/// Computes the reservation size of attempt `attempt` with exact integer
/// arithmetic.
pub fn probe_size(attempt: u32) -> (r: u64)
    requires
        attempt <= MAP_SIZE_TRIES,
    ensures
        r as int == probe_size_spec(attempt as nat),
        r % MAX_OS_PAGE_SIZE == 0,
        r <= MAX_POSSIBLE_SIZE,
{
    let mut p9: u128 = 1;
    let mut p10: u128 = 1;
    let mut k: u32 = 0;
    while k < attempt
        invariant
            k <= attempt,
            attempt <= MAP_SIZE_TRIES,
            p9 as int == pow_of(9, k as nat),
            p10 as int == pow_of(10, k as nat),
        decreases attempt - k,
    {
        proof {
            lemma_pow_bounds(k as nat);
            lemma_pow_bounds((k + 1) as nat);
        }
        p9 = p9 * 9;
        p10 = p10 * 10;
        k = k + 1;
    }
    proof {
        lemma_pow_bounds(attempt as nat);
        assert((MAX_POSSIBLE_SIZE as int) * (p9 as int) <= (MAX_POSSIBLE_SIZE as int)
            * 10000000000) by (nonlinear_arith)
            requires
                p9 as int <= 10000000000,
        ;
    }
    let x: u128 = (MAX_POSSIBLE_SIZE as u128) * p9;
    let q: u128 = x / p10;
    proof {
        let m = MAX_POSSIBLE_SIZE as int;
        lemma_div_is_ordered(m * (p9 as int), m * (p10 as int), p10 as int);
        lemma_div_multiples_vanish(m, p10 as int);
        assert(m * (p10 as int) == (p10 as int) * m) by (nonlinear_arith);
        lemma_div_is_ordered(0, m * (p9 as int), p10 as int);
        lemma_mod_bound(q as int, MAX_OS_PAGE_SIZE as int);
    }
    let r: u128 = q - q % (MAX_OS_PAGE_SIZE as u128);
    proof {
        let p = MAX_OS_PAGE_SIZE as int;
        lemma_fundamental_div_mod(q as int, p);
        lemma_mod_multiples_basic((q as int) / p, p);
        assert(r as int == p * ((q as int) / p));
        assert((p * ((q as int) / p)) % p == (((q as int) / p) * p) % p) by (nonlinear_arith);
        assert((r as u64) % MAX_OS_PAGE_SIZE == 0);
    }
    r as u64
}

/// Runs the negotiation against a sequence of simulated open outcomes
/// (`true` means the open with that attempt's size succeeded): the injected
/// open capability of the design. Returns the winning reservation size, or
/// `None` when every attempt up to the retry cap failed.
pub fn negotiate_map_size(outcomes: &Vec<bool>) -> (r: Option<u64>)
    ensures
        match r {
            Some(s) => negotiate_from(outcomes@, 0) == Some(s as int),
            None => negotiate_from(outcomes@, 0) is None,
        },
{
    let mut a: u32 = 0;
    while a <= MAP_SIZE_TRIES
        invariant
            a <= MAP_SIZE_TRIES + 1,
            negotiate_from(outcomes@, 0) == negotiate_from(outcomes@, a as int),
        decreases MAP_SIZE_TRIES + 1 - a,
    {
        if (a as usize) < outcomes.len() {
            if outcomes[a as usize] {
                let s = probe_size(a);
                return Some(s);
            }
        }
        a = a + 1;
    }
    None
}

/// After `k` simulated failures with `k` below the retry cap, negotiation
/// succeeds on attempt `k + 1` with that attempt's size; every attempt
/// requests a page-aligned size, and each retry requests strictly less than
/// the attempt before it.
pub proof fn lemma_negotiation_backoff(outcomes: Seq<bool>, k: int)
    requires
        0 <= k <= MAP_SIZE_TRIES,
        k < outcomes.len(),
        forall|j: int| 0 <= j < k ==> !outcomes[j],
        outcomes[k],
    ensures
        negotiate_from(outcomes, 0) == Some(probe_size_spec(k as nat)),
        forall|a: int| 0 <= a <= MAP_SIZE_TRIES ==> #[trigger] probe_size_spec(a as nat) % (
        MAX_OS_PAGE_SIZE as int) == 0,
        forall|a: int| 0 <= a < MAP_SIZE_TRIES ==> probe_size_spec((a + 1) as nat)
            < #[trigger] probe_size_spec(a as nat),
{
    lemma_negotiate_reaches(outcomes, k, 0);
    assert forall|a: int| 0 <= a <= MAP_SIZE_TRIES implies #[trigger] probe_size_spec(
        a as nat,
    ) % (MAX_OS_PAGE_SIZE as int) == 0 by {
        lemma_probe_size_aligned(a as nat);
    }
    assert forall|a: int| 0 <= a < MAP_SIZE_TRIES implies probe_size_spec((a + 1) as nat)
        < #[trigger] probe_size_spec(a as nat) by {
        lemma_probe_size_strictly_shrinks(a as nat);
    }
}

pub proof fn lemma_negotiate_reaches(outcomes: Seq<bool>, k: int, a: int)
    requires
        0 <= a <= k <= MAP_SIZE_TRIES,
        k < outcomes.len(),
        forall|j: int| 0 <= j < k ==> !outcomes[j],
        outcomes[k],
    ensures
        negotiate_from(outcomes, a) == Some(probe_size_spec(k as nat)),
    decreases k - a,
{
    if a < k {
        lemma_negotiate_reaches(outcomes, k, a + 1);
    }
}

} // verus!
