//! Uptime tick counter, advanced by the timer, and the preemption request
//! that the timer raises every `PREEMPT_INTERVAL` ticks for the scheduler.
use vstd::prelude::*;

verus! {

/// Every this many ticks the timer asks the scheduler to preempt.
pub const PREEMPT_INTERVAL: u64 = 20;

/// Tick count and pending preemption request.
pub struct Uptime {
    pub ticks: u64,
    pub preempt_requested: bool,
}

impl Uptime {
    pub fn new() -> (r: Self)
        ensures
            r.ticks == 0,
            !r.preempt_requested,
    {
        Uptime { ticks: 0, preempt_requested: false }
    }
}

/// Whether the tick that finds the counter at `t` raises a preemption request.
pub open spec fn tick_requests_preempt(t: u64) -> bool {
    t > 0 && t % PREEMPT_INTERVAL == 0
}

/// One timer tick: the counter goes up by one (wrapping), and a preemption
/// is requested when the count before the tick is a positive multiple of
/// `PREEMPT_INTERVAL`.
pub fn tick(u: &mut Uptime)
    ensures
        final(u).ticks == (if old(u).ticks == u64::MAX { 0 } else { (old(u).ticks + 1) as u64 }),
        final(u).preempt_requested == (old(u).preempt_requested || tick_requests_preempt(old(u).ticks)),
{
    let t = u.ticks;
    u.ticks = t.wrapping_add(1);
    if t > 0 && t % PREEMPT_INTERVAL == 0 {
        u.preempt_requested = true;
    }
}

/// Answers whether a preemption was requested, and clears the request.
pub fn take_preempt_requested(u: &mut Uptime) -> (r: bool)
    ensures
        r == old(u).preempt_requested,
        !final(u).preempt_requested,
        final(u).ticks == old(u).ticks,
{
    let r = u.preempt_requested;
    u.preempt_requested = false;
    r
}

/// Current uptime in ticks.
pub fn ticks(u: &Uptime) -> (r: u64)
    ensures
        r == u.ticks,
{
    u.ticks
}

/// Preemption is requested every twenty ticks: the tick that finds the
/// count at any positive multiple of 20 requests it, however large the
/// count, and no other tick does (the first tick, at count 0, neither).
pub proof fn lemma_preempt_every_twenty(k: u64, t: u64)
    ensures
        1 <= k && 20 * k <= u64::MAX ==> tick_requests_preempt((20 * k) as u64),
        (t as int) % 20 != 0 ==> !tick_requests_preempt(t),
        !tick_requests_preempt(0),
{
    if 1 <= k && 20 * k <= u64::MAX {
        vstd::arithmetic::div_mod::lemma_mod_multiples_basic(k as int, 20);
        assert((k * 20) as u64 == (20 * k) as u64);
    }
}

} // verus!
