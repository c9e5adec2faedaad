//! Accounting of the time spent switching between tasks. The context switch
//! itself is machine code and is performed by the caller; this module keeps
//! the stopwatch and the running total.
use vstd::prelude::*;

verus! {

/// The state of the switch-time accounting.
pub struct SwitchTimeInner {
    /// Total time spent switching, in microseconds.
    pub time: usize,
    /// Clock reading at the last refresh, in microseconds.
    pub stop_watch: usize,
}

/// Switch-time accounting.
pub struct SwitchTime {
    pub inner: SwitchTimeInner,
}

impl SwitchTime {
    /// Nothing accounted yet, stopwatch at zero.
    pub fn new() -> (r: Self)
        ensures
            r.inner.time == 0,
            r.inner.stop_watch == 0,
    {
        SwitchTime { inner: SwitchTimeInner { time: 0, stop_watch: 0 } }
    }

    /// Adds `time` to the total.
    pub fn add(&mut self, time: usize)
        requires
            old(self).inner.time + time <= usize::MAX,
        ensures
            final(self).inner.time == old(self).inner.time + time,
            final(self).inner.stop_watch == old(self).inner.stop_watch,
            switch_step(*old(self), *final(self), Some(time)),
    {
        self.inner.time += time;
    }

    /// Sets the stopwatch to the clock reading `now` and returns the time
    /// elapsed since the previous reading.
    pub fn switch_refresh_and_return(&mut self, now: usize) -> (r: usize)
        requires
            old(self).inner.stop_watch <= now,
        ensures
            r == now - old(self).inner.stop_watch,
            final(self).inner.stop_watch == now,
            final(self).inner.time == old(self).inner.time,
            switch_step(*old(self), *final(self), None),
    {
        let previous_time = self.inner.stop_watch;
        self.inner.stop_watch = now;
        self.inner.stop_watch - previous_time
    }

    /// The total time spent switching.
    pub fn get_switch_time(&self) -> (r: usize)
        ensures
            r == self.inner.time,
    {
        self.inner.time
    }
}

/// Adds `time` to the total switch time.
pub fn add_switch_time(switch_time: &mut SwitchTime, time: usize)
    requires
        old(switch_time).inner.time + time <= usize::MAX,
    ensures
        final(switch_time).inner.time == old(switch_time).inner.time + time,
        final(switch_time).inner.stop_watch == old(switch_time).inner.stop_watch,
        switch_step(*old(switch_time), *final(switch_time), Some(time)),
{
    switch_time.add(time);
}

/// Sets the switch stopwatch to `now` and returns the time elapsed since the
/// previous reading.
pub fn switch_refresh_and_return(switch_time: &mut SwitchTime, now: usize) -> (r: usize)
    requires
        old(switch_time).inner.stop_watch <= now,
    ensures
        r == now - old(switch_time).inner.stop_watch,
        final(switch_time).inner.stop_watch == now,
        final(switch_time).inner.time == old(switch_time).inner.time,
        switch_step(*old(switch_time), *final(switch_time), None),
{
    switch_time.switch_refresh_and_return(now)
}

/// The total time spent switching.
pub fn get_switch_time(switch_time: &SwitchTime) -> (r: usize)
    ensures
        r == switch_time.inner.time,
{
    switch_time.get_switch_time()
}

/// One operation on the switch-time accounting: `Some(t)` adds `t` to the
/// total, as `add` does; `None` leaves the total alone, as a refresh of the
/// stopwatch or a read does.
pub open spec fn switch_step(a: SwitchTime, b: SwitchTime, op: Option<usize>) -> bool {
    match op {
        Some(t) => b.inner.time == a.inner.time + t,
        None => b.inner.time == a.inner.time,
    }
}

/// The sum of the times added by the first `n` operations.
pub open spec fn added_time(ops: Seq<Option<usize>>, n: nat) -> nat
    decreases n,
{
    if n == 0 {
        0
    } else {
        added_time(ops, (n - 1) as nat) + match ops[n - 1] {
            Some(t) => t as nat,
            None => 0nat,
        }
    }
}

/// Over a run of operations, the total switch time grows by exactly the sum
/// of the times added; from `SwitchTime::new` it is that sum.
pub proof fn lemma_switch_time_is_sum(sts: Seq<SwitchTime>, ops: Seq<Option<usize>>)
    requires
        sts.len() == ops.len() + 1,
        forall|j: int| 0 <= j < ops.len() ==> #[trigger] switch_step(sts[j], sts[j + 1], ops[j]),
    ensures
        sts.last().inner.time == sts[0].inner.time + added_time(ops, ops.len()),
    decreases ops.len(),
{
    if ops.len() > 0 {
        let n = ops.len() - 1;
        let sts0 = sts.subrange(0, n + 1);
        let ops0 = ops.subrange(0, n);
        assert forall|j: int| 0 <= j < ops0.len() implies #[trigger] switch_step(sts0[j], sts0[j + 1], ops0[j]) by {
            assert(switch_step(sts[j], sts[j + 1], ops[j]));
        }
        lemma_switch_time_is_sum(sts0, ops0);
        lemma_added_time_prefix(ops, ops0, n as nat);
        assert(switch_step(sts[n], sts[n + 1], ops[n]));
    }
}

proof fn lemma_added_time_prefix(ops: Seq<Option<usize>>, ops0: Seq<Option<usize>>, n: nat)
    requires
        n <= ops0.len() <= ops.len(),
        forall|j: int| 0 <= j < ops0.len() ==> ops0[j] == ops[j],
    ensures
        added_time(ops0, n) == added_time(ops, n),
    decreases n,
{
    if n > 0 {
        lemma_added_time_prefix(ops, ops0, (n - 1) as nat);
    }
}

} // verus!
