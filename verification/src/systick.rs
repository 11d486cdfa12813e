use vstd::prelude::*;

verus! {

/// Number of SysTick counts in one time slice of `quanta_us` microseconds,
/// given the number of counts in 10 ms (10 000 us), rounded down.
pub open spec fn slice_ticks(quanta_us: u32, ticks_for_10ms: u32) -> int {
    (quanta_us * ticks_for_10ms) / 10_000
}

/// A time slice of `quanta_us` microseconds lasts the whole number of
/// SysTick counts that fit in it: `slice_ticks` counts take no more than
/// `quanta_us` microseconds at `ticks_for_10ms` counts per 10 000 us, and
/// one count more would take longer.
pub proof fn lemma_slice_ticks_bounds(quanta_us: u32, ticks_for_10ms: u32)
    ensures
        slice_ticks(quanta_us, ticks_for_10ms) * 10_000 <= quanta_us * ticks_for_10ms,
        quanta_us * ticks_for_10ms < (slice_ticks(quanta_us, ticks_for_10ms) + 1) * 10_000,
{
    let p: int = quanta_us * ticks_for_10ms;
    assert(p >= 0) by (nonlinear_arith)
        requires
            p == quanta_us * ticks_for_10ms,
    ;
    assert((p / 10_000) * 10_000 <= p && p < (p / 10_000 + 1) * 10_000) by (nonlinear_arith)
        requires
            p >= 0,
    ;
}

/// The length of a time slice in SysTick counts, computed without overflow.
pub fn timer_counts(quanta_us: u32, ticks_for_10ms: u32) -> (ticks: u64)
    ensures
        ticks == slice_ticks(quanta_us, ticks_for_10ms),
{
    let q: u64 = quanta_us as u64;
    let t: u64 = ticks_for_10ms as u64;
    assert(q * t <= u64::MAX) by (nonlinear_arith)
        requires
            q <= u32::MAX,
            t <= u32::MAX,
    ;
    (q * t) / 10_000
}

/// The value to load into the SysTick reload register so that the timer
/// fires once per time slice of `quanta_us` microseconds (the counter
/// counts the reload value down to zero, so it is one less than the slice
/// length in counts). The caller programs the timer with it: core clock
/// source, counter cleared, counter and interrupt enabled.
pub fn reset_timer(quanta_us: u32, ticks_for_10ms: u32) -> (reload: u32)
    requires
        1 <= slice_ticks(quanta_us, ticks_for_10ms) <= u32::MAX,
    ensures
        reload == slice_ticks(quanta_us, ticks_for_10ms) - 1,
{
    let ticks: u64 = timer_counts(quanta_us, ticks_for_10ms);
    (ticks - 1) as u32
}

} // verus!
