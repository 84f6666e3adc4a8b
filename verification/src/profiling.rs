//! Lightweight, always-on frame timing metrics.
//!
//! Every frame is split into four phases (input, simulation, render,
//! present); a bounded rolling history of per-frame timings feeds the editor
//! overlay and the benchmark regression checks.
use std::collections::VecDeque;
use vstd::prelude::*;

verus! {

pub const NANOS_PER_SEC: u32 = 1_000_000_000;

/// A span of time with nanosecond precision: whole seconds plus the
/// sub-second nanoseconds, the same range as `std::time::Duration`.
#[derive(Debug, Clone, Copy, PartialEq, Eq, PartialOrd, Ord, Hash)]
pub struct Duration {
    secs: u64,
    nanos: u32,
}

/// The largest number of nanoseconds a `Duration` can hold, plus one.
pub open spec fn duration_limit() -> int {
    (u64::MAX as int + 1) * 1_000_000_000
}

impl View for Duration {
    type V = int;

    /// The span in nanoseconds.
    closed spec fn view(&self) -> int {
        self.secs * 1_000_000_000 + self.nanos
    }
}

impl Duration {
    /// Sub-second nanoseconds stay below one second; every `Duration`
    /// value keeps this.
    #[verifier::type_invariant]
    pub closed spec fn wf(self) -> bool {
        self.nanos < NANOS_PER_SEC
    }

    /// Every span is at least zero long.
    pub proof fn lemma_nonneg(self)
        ensures
            self@ >= 0,
    {
    }

    /// A well-formed span is non-negative and below `duration_limit()`.
    pub proof fn lemma_bounds(self)
        requires
            self.wf(),
        ensures
            0 <= self@ < duration_limit(),
    {
    }

    /// A zero-length span.
    pub fn zero() -> (r: Duration)
        ensures
            r.wf(),
            r@ == 0,
    {
        Duration { secs: 0, nanos: 0 }
    }

    /// `secs` seconds plus `nanos` nanoseconds; nanoseconds beyond a second
    /// carry into the seconds.
    pub fn new(secs: u64, nanos: u32) -> (r: Duration)
        requires
            secs + nanos / 1_000_000_000 <= u64::MAX,
        ensures
            r.wf(),
            r@ == secs * 1_000_000_000 + nanos,
    {
        let extra = (nanos / NANOS_PER_SEC) as u64;
        Duration { secs: secs + extra, nanos: nanos % NANOS_PER_SEC }
    }

    pub fn from_secs(secs: u64) -> (r: Duration)
        ensures
            r.wf(),
            r@ == secs * 1_000_000_000,
    {
        Duration { secs, nanos: 0 }
    }

    pub fn from_millis(millis: u64) -> (r: Duration)
        ensures
            r.wf(),
            r@ == millis * 1_000_000,
    {
        Duration { secs: millis / 1000, nanos: ((millis % 1000) as u32) * 1_000_000 }
    }

    pub fn from_micros(micros: u64) -> (r: Duration)
        ensures
            r.wf(),
            r@ == micros * 1000,
    {
        Duration { secs: micros / 1_000_000, nanos: ((micros % 1_000_000) as u32) * 1000 }
    }

    pub fn from_nanos(nanos: u64) -> (r: Duration)
        ensures
            r.wf(),
            r@ == nanos,
    {
        Duration { secs: nanos / 1_000_000_000, nanos: (nanos % 1_000_000_000) as u32 }
    }

    /// Whole seconds.
    pub fn as_secs(&self) -> (r: u64)
        ensures
            r == self@ / 1_000_000_000,
    {
        proof {
            use_type_invariant(self);
        }
        self.secs
    }

    /// Nanoseconds past the last whole second.
    pub fn subsec_nanos(&self) -> (r: u32)
        ensures
            r == self@ % 1_000_000_000,
    {
        proof {
            use_type_invariant(self);
        }
        self.nanos
    }

    /// Total whole microseconds.
    pub fn as_micros(&self) -> (r: u128)
        ensures
            r == self@ / 1000,
    {
        proof {
            use_type_invariant(self);
        }
        self.secs as u128 * 1_000_000 + (self.nanos / 1000) as u128
    }

    /// Total nanoseconds.
    pub fn as_nanos(&self) -> (r: u128)
        ensures
            r == self@,
    {
        self.secs as u128 * 1_000_000_000 + self.nanos as u128
    }

    /// The sum of two spans, or `None` if it does not fit.
    pub fn checked_add(self, rhs: Duration) -> (r: Option<Duration>)
        ensures
            r matches Some(d) ==> d.wf() && d@ == self@ + rhs@,
            r is None <==> self@ + rhs@ >= duration_limit(),
    {
        proof {
            use_type_invariant(&self);
            use_type_invariant(&rhs);
        }
        let nanos = self.nanos + rhs.nanos;
        let (carry, nanos) = if nanos >= NANOS_PER_SEC {
            (1u64, nanos - NANOS_PER_SEC)
        } else {
            (0u64, nanos)
        };
        match self.secs.checked_add(rhs.secs) {
            None => None,
            Some(s) => match s.checked_add(carry) {
                None => None,
                Some(secs) => Some(Duration { secs, nanos }),
            },
        }
    }

    /// The span divided by `rhs`, rounded down to whole nanoseconds, or
    /// `None` if `rhs` is zero.
    pub fn checked_div(self, rhs: u32) -> (r: Option<Duration>)
        ensures
            rhs == 0 ==> r is None,
            rhs != 0 ==> (r matches Some(d) && d.wf() && d@ == self@ / (rhs as int)),
    {
        proof {
            use_type_invariant(&self);
        }
        if rhs == 0 {
            return None;
        }
        let r64 = rhs as u64;
        let secs = self.secs / r64;
        let extra_secs = self.secs % r64;
        let nanos = self.nanos / rhs;
        let extra_nanos = self.nanos % rhs;
        proof {
            assert(extra_secs < r64);
            assert(extra_nanos <= self.nanos) by (nonlinear_arith)
                requires
                    extra_nanos == self.nanos % rhs,
                    rhs >= 1,
            ;
            assert(extra_secs * 1_000_000_000 + extra_nanos < (rhs as int) * 1_000_000_000)
                by (nonlinear_arith)
                requires
                    extra_secs < r64,
                    extra_nanos < 1_000_000_000,
                    r64 == rhs,
                    rhs >= 1,
            ;
        }
        let carry = (extra_secs as u128 * 1_000_000_000 + extra_nanos as u128) / (rhs as u128);
        proof {
            let q = secs as int;
            let n = self.secs as int;
            assert(carry < 1_000_000_000) by (nonlinear_arith)
                requires
                    carry == (extra_secs * 1_000_000_000 + extra_nanos) / (rhs as int),
                    extra_secs * 1_000_000_000 + extra_nanos < (rhs as int) * 1_000_000_000,
                    rhs >= 1,
            ;
            assert(nanos * (rhs as int) + carry * (rhs as int) <= self.nanos + extra_secs
                * 1_000_000_000) by (nonlinear_arith)
                requires
                    nanos == self.nanos / rhs,
                    extra_nanos == self.nanos % rhs,
                    carry == (extra_secs * 1_000_000_000 + extra_nanos) / (rhs as int),
                    rhs >= 1,
            ;
            assert(nanos + carry < 1_000_000_000) by (nonlinear_arith)
                requires
                    nanos * (rhs as int) + carry * (rhs as int) <= self.nanos + extra_secs
                        * 1_000_000_000,
                    self.nanos < 1_000_000_000,
                    extra_secs < rhs,
                    rhs >= 1,
                    nanos >= 0,
                    carry >= 0,
            ;
            assert((n * 1_000_000_000 + self.nanos) / (rhs as int) == q * 1_000_000_000 + nanos
                + carry) by (nonlinear_arith)
                requires
                    q == n / (rhs as int),
                    extra_secs == n % (rhs as int),
                    nanos == self.nanos / rhs,
                    extra_nanos == self.nanos % rhs,
                    carry == (extra_secs * 1_000_000_000 + extra_nanos) / (rhs as int),
                    rhs >= 1,
                    n >= 0,
                    self.nanos >= 0,
            ;
        }
        Some(Duration { secs, nanos: nanos + carry as u32 })
    }

    /// `self` is strictly shorter than `other`.
    pub fn is_shorter_than(&self, other: &Duration) -> (r: bool)
        ensures
            r == (self@ < other@),
    {
        proof {
            use_type_invariant(self);
            use_type_invariant(other);
        }
        self.secs < other.secs || (self.secs == other.secs && self.nanos < other.nanos)
    }
}

impl Default for Duration {
    fn default() -> (r: Duration)
        ensures
            r.wf(),
            r@ == 0,
    {
        Duration { secs: 0, nanos: 0 }
    }
}

/// The four frame phases, in the engine's canonical order: input polling,
/// fixed-step simulation, render command recording, and presentation.
#[derive(Debug, Clone, Copy, PartialEq, Eq, Hash)]
pub enum FramePhase {
    Input,
    Sim,
    Render,
    Present,
}

impl FramePhase {
    /// All phases in canonical order.
    pub fn ordered() -> (r: [FramePhase; 4])
        ensures
            r@ == seq![FramePhase::Input, FramePhase::Sim, FramePhase::Render, FramePhase::Present],
    {
        [FramePhase::Input, FramePhase::Sim, FramePhase::Render, FramePhase::Present]
    }

    /// Label for the editor overlay and logs.
    pub fn label(self) -> (r: &'static str)
        ensures
            r@ == match self {
                FramePhase::Input => "input"@,
                FramePhase::Sim => "sim"@,
                FramePhase::Render => "render"@,
                FramePhase::Present => "present"@,
            },
    {
        match self {
            FramePhase::Input => "input",
            FramePhase::Sim => "sim",
            FramePhase::Render => "render",
            FramePhase::Present => "present",
        }
    }
}

/// Per-phase wall-clock time of one frame.
#[derive(Debug, Clone, Copy, PartialEq, Eq)]
pub struct FrameTiming {
    pub input: Duration,
    pub sim: Duration,
    pub render: Duration,
    pub present: Duration,
}

impl Default for FrameTiming {
    /// Every phase zero, so the total is zero too.
    fn default() -> (r: FrameTiming)
        ensures
            r.wf(),
            r.input@ == 0,
            r.sim@ == 0,
            r.render@ == 0,
            r.present@ == 0,
            r.spec_total() == 0,
    {
        FrameTiming {
            input: Duration::zero(),
            sim: Duration::zero(),
            render: Duration::zero(),
            present: Duration::zero(),
        }
    }
}

impl FrameTiming {
    pub open spec fn wf(self) -> bool {
        &&& self.input.wf()
        &&& self.sim.wf()
        &&& self.render.wf()
        &&& self.present.wf()
    }

    /// Sum of the four phases, in nanoseconds.
    pub open spec fn spec_total(self) -> int {
        self.input@ + self.sim@ + self.render@ + self.present@
    }

    pub open spec fn spec_phase(self, phase: FramePhase) -> Duration {
        match phase {
            FramePhase::Input => self.input,
            FramePhase::Sim => self.sim,
            FramePhase::Render => self.render,
            FramePhase::Present => self.present,
        }
    }

    /// Sum of all four phases (inter-phase overhead is not tracked).
    pub fn total(&self) -> (r: Duration)
        requires
            self.spec_total() < duration_limit(),
        ensures
            r.wf(),
            r@ == self.spec_total(),
    {
        proof {
            use_type_invariant(&self.input);
            use_type_invariant(&self.sim);
            use_type_invariant(&self.render);
            use_type_invariant(&self.present);
        }
        let a = self.input.checked_add(self.sim).unwrap();
        let b = a.checked_add(self.render).unwrap();
        b.checked_add(self.present).unwrap()
    }

    /// The duration recorded for `phase`.
    pub fn phase(self, phase: FramePhase) -> (r: Duration)
        ensures
            r == self.spec_phase(phase),
    {
        match phase {
            FramePhase::Input => self.input,
            FramePhase::Sim => self.sim,
            FramePhase::Render => self.render,
            FramePhase::Present => self.present,
        }
    }

    /// Whole microseconds per phase, `(input, sim, render, present)`, each
    /// taken modulo 2^64.
    pub fn as_micros_tuple(self) -> (r: (u64, u64, u64, u64))
        ensures
            r.0 == (self.input@ / 1000) % 0x1_0000_0000_0000_0000,
            r.1 == (self.sim@ / 1000) % 0x1_0000_0000_0000_0000,
            r.2 == (self.render@ / 1000) % 0x1_0000_0000_0000_0000,
            r.3 == (self.present@ / 1000) % 0x1_0000_0000_0000_0000,
    {
        (
            micros_low_bits(&self.input),
            micros_low_bits(&self.sim),
            micros_low_bits(&self.render),
            micros_low_bits(&self.present),
        )
    }
}

fn micros_low_bits(d: &Duration) -> (r: u64)
    ensures
        r == (d@ / 1000) % 0x1_0000_0000_0000_0000,
{
    (d.as_micros() % 0x1_0000_0000_0000_0000) as u64
}

/// Sum of one phase over a sequence of frames, in nanoseconds.
pub open spec fn phase_sum(s: Seq<FrameTiming>, phase: FramePhase) -> int
    decreases s.len(),
{
    if s.len() == 0 {
        0
    } else {
        phase_sum(s.drop_last(), phase) + s.last().spec_phase(phase)@
    }
}

/// Largest total over a sequence of frames, or 0 for none.
pub open spec fn max_total_of(s: Seq<FrameTiming>) -> int
    decreases s.len(),
{
    if s.len() == 0 {
        0
    } else {
        let m = max_total_of(s.drop_last());
        let t = s.last().spec_total();
        if m < t {
            t
        } else {
            m
        }
    }
}

/// The retained window after pushing `t` into a history of capacity `cap`
/// that holds `s`.
pub open spec fn spec_history_push(cap: nat, s: Seq<FrameTiming>, t: FrameTiming) -> Seq<
    FrameTiming,
> {
    if cap == 0 {
        s
    } else if s.len() >= cap {
        s.drop_first().push(t)
    } else {
        s.push(t)
    }
}

/// The retained window after pushing every element of `pushes`, in order.
pub open spec fn spec_history_after(cap: nat, s: Seq<FrameTiming>, pushes: Seq<FrameTiming>) -> Seq<
    FrameTiming,
>
    decreases pushes.len(),
{
    if pushes.len() == 0 {
        s
    } else {
        spec_history_push(cap, spec_history_after(cap, s, pushes.drop_last()), pushes.last())
    }
}

/// A rolling history of the last `capacity` frames' timings, oldest first.
/// A capacity of zero discards every push.
#[derive(Debug)]
pub struct FrameTimingHistory {
    samples: VecDeque<FrameTiming>,
    capacity: usize,
}

impl FrameTimingHistory {
    /// Default capacity for the editor overlay: about one second at 60 FPS,
    /// rounded up to a power of two.
    pub const DEFAULT_CAPACITY: usize = 128;

    pub closed spec fn spec_samples(&self) -> Seq<FrameTiming> {
        self.samples@
    }

    pub closed spec fn spec_capacity(&self) -> nat {
        self.capacity as nat
    }

    /// The window never holds more than the capacity; every history value
    /// keeps this.
    #[verifier::type_invariant]
    pub closed spec fn wf(&self) -> bool {
        self.spec_samples().len() <= self.spec_capacity()
    }

    /// A history that retains the last `capacity` samples.
    pub fn new(capacity: usize) -> (r: FrameTimingHistory)
        ensures
            r.wf(),
            r.spec_samples() == Seq::<FrameTiming>::empty(),
            r.spec_capacity() == capacity,
    {
        FrameTimingHistory { samples: VecDeque::with_capacity(capacity), capacity }
    }

    /// Pushes a new frame's timing, evicting the oldest sample when full.
    pub fn push(&mut self, timing: FrameTiming)
        ensures
            final(self).wf(),
            final(self).spec_capacity() == old(self).spec_capacity(),
            final(self).spec_samples() == spec_history_push(
                old(self).spec_capacity(),
                old(self).spec_samples(),
                timing,
            ),
    {
        proof {
            use_type_invariant(&*self);
        }
        if self.capacity == 0 {
            return;
        }
        let mut samples: VecDeque<FrameTiming> = VecDeque::new();
        std::mem::swap(&mut samples, &mut self.samples);
        if samples.len() >= self.capacity {
            samples.pop_front();
        }
        samples.push_back(timing);
        self.samples = samples;
        proof {
            assert(old(self).spec_samples().len() >= old(self).spec_capacity() ==> old(
                self,
            ).spec_samples().subrange(1, old(self).spec_samples().len() as int)
                =~= old(self).spec_samples().drop_first());
        }
    }

    /// All retained samples, oldest first.
    pub fn samples(&self) -> (r: &VecDeque<FrameTiming>)
        ensures
            r@ == self.spec_samples(),
    {
        &self.samples
    }

    /// Number of retained samples.
    pub fn len(&self) -> (r: usize)
        ensures
            r == self.spec_samples().len(),
            r <= self.spec_capacity(),
    {
        proof {
            use_type_invariant(self);
        }
        self.samples.len()
    }

    pub fn is_empty(&self) -> (r: bool)
        ensures
            r == (self.spec_samples().len() == 0),
    {
        self.samples.len() == 0
    }

    /// The most recently pushed timing, if any.
    pub fn last(&self) -> (r: Option<&FrameTiming>)
        ensures
            r == (if self.spec_samples().len() == 0 {
                None
            } else {
                Some(&self.spec_samples().last())
            }),
    {
        let n = self.samples.len();
        if n == 0 {
            None
        } else {
            Some(&self.samples[n - 1])
        }
    }

    /// Per-phase sum over the window divided by the sample count taken as a
    /// `u32` (the count modulo 2^32), each rounded down to whole
    /// nanoseconds; all zeros when the window is empty. A non-empty window
    /// whose count is a multiple of 2^32 would divide by zero and is left
    /// out.
    pub fn average(&self) -> (r: FrameTiming)
        requires
            self.spec_samples().len() % 0x1_0000_0000 != 0 || self.spec_samples().len() == 0,
            phase_sum(self.spec_samples(), FramePhase::Input) < duration_limit(),
            phase_sum(self.spec_samples(), FramePhase::Sim) < duration_limit(),
            phase_sum(self.spec_samples(), FramePhase::Render) < duration_limit(),
            phase_sum(self.spec_samples(), FramePhase::Present) < duration_limit(),
        ensures
            r.wf(),
            self.spec_samples().len() == 0 ==> r.input@ == 0 && r.sim@ == 0 && r.render@ == 0
                && r.present@ == 0,
            self.spec_samples().len() > 0 ==> {
                let n = self.spec_samples().len() as int % 0x1_0000_0000;
                &&& r.input@ == phase_sum(self.spec_samples(), FramePhase::Input) / n
                &&& r.sim@ == phase_sum(self.spec_samples(), FramePhase::Sim) / n
                &&& r.render@ == phase_sum(self.spec_samples(), FramePhase::Render) / n
                &&& r.present@ == phase_sum(self.spec_samples(), FramePhase::Present) / n
            },
    {
        let len = self.samples.len();
        if len == 0 {
            return FrameTiming {
                input: Duration::zero(),
                sim: Duration::zero(),
                render: Duration::zero(),
                present: Duration::zero(),
            };
        }
        let n: u32 = ((len as u64) % 0x1_0000_0000u64) as u32;
        let input = Self::sum_phase(&self.samples, FramePhase::Input);
        let sim = Self::sum_phase(&self.samples, FramePhase::Sim);
        let render = Self::sum_phase(&self.samples, FramePhase::Render);
        let present = Self::sum_phase(&self.samples, FramePhase::Present);
        FrameTiming {
            input: input.checked_div(n).unwrap(),
            sim: sim.checked_div(n).unwrap(),
            render: render.checked_div(n).unwrap(),
            present: present.checked_div(n).unwrap(),
        }
    }

    fn sum_phase(samples: &VecDeque<FrameTiming>, phase: FramePhase) -> (r: Duration)
        requires
            phase_sum(samples@, phase) < duration_limit(),
        ensures
            r.wf(),
            r@ == phase_sum(samples@, phase),
    {
        let mut acc = Duration::zero();
        let mut i: usize = 0;
        let n = samples.len();
        while i < n
            invariant
                n == samples@.len(),
                i <= n,
                phase_sum(samples@, phase) < duration_limit(),
                acc.wf(),
                acc@ == phase_sum(samples@.take(i as int), phase),
            decreases n - i,
        {
            proof {
                assert(samples@.take(i + 1).drop_last() =~= samples@.take(i as int));
                lemma_phase_sum_prefix_bounded(samples@, phase, i + 1);
            }
            let d = samples[i].phase(phase);
            acc = acc.checked_add(d).unwrap();
            i = i + 1;
        }
        assert(samples@.take(n as int) =~= samples@);
        acc
    }

    /// The largest total frame time in the window, or zero when empty.
    pub fn max_total(&self) -> (r: Duration)
        requires
            forall|i: int|
                0 <= i < self.spec_samples().len() ==> (#[trigger] self.spec_samples()[i]).spec_total()
                    < duration_limit(),
        ensures
            r.wf(),
            r@ == max_total_of(self.spec_samples()),
            forall|i: int|
                0 <= i < self.spec_samples().len() ==> (#[trigger] self.spec_samples()[i]).spec_total()
                    <= r@,
            self.spec_samples().len() > 0 ==> exists|i: int|
                0 <= i < self.spec_samples().len() && r@ == (#[trigger] self.spec_samples()[i]).spec_total(),
    {
        proof {
            law_max_total_is_the_worst_frame(self.spec_samples());
        }
        let mut best = Duration::zero();
        let mut i: usize = 0;
        let n = self.samples.len();
        while i < n
            invariant
                n == self.samples@.len(),
                i <= n,
                forall|j: int|
                    0 <= j < self.spec_samples().len() ==> (#[trigger] self.spec_samples()[j]).spec_total()
                        < duration_limit(),
                best.wf(),
                best@ == max_total_of(self.samples@.take(i as int)),
            decreases n - i,
        {
            proof {
                assert(self.samples@.take(i + 1).drop_last() =~= self.samples@.take(i as int));
            }
            assert(self.spec_samples()[i as int].spec_total() < duration_limit());
            let t = self.samples[i].total();
            if best.is_shorter_than(&t) {
                best = t;
            }
            i = i + 1;
        }
        assert(self.samples@.take(n as int) =~= self.samples@);
        best
    }

    /// The retained capacity (not the current sample count).
    pub fn capacity(&self) -> (r: usize)
        ensures
            r == self.spec_capacity(),
    {
        self.capacity
    }
}

impl Clone for FrameTimingHistory {
    /// A copy with the same samples and capacity.
    fn clone(&self) -> (r: FrameTimingHistory)
        ensures
            r.spec_samples() == self.spec_samples(),
            r.spec_capacity() == self.spec_capacity(),
    {
        proof {
            use_type_invariant(self);
        }
        let samples = self.samples.clone();
        assert(samples@ =~= self.samples@);
        FrameTimingHistory { samples, capacity: self.capacity }
    }
}

impl Default for FrameTimingHistory {
    fn default() -> (r: FrameTimingHistory)
        ensures
            r.wf(),
            r.spec_samples() == Seq::<FrameTiming>::empty(),
            r.spec_capacity() == 128,
    {
        FrameTimingHistory::new(128)
    }
}

proof fn lemma_phase_sum_prefix_bounded(s: Seq<FrameTiming>, phase: FramePhase, k: int)
    requires
        0 <= k <= s.len(),
    ensures
        phase_sum(s.take(k), phase) <= phase_sum(s, phase),
    decreases s.len() - k,
{
    if k < s.len() {
        lemma_phase_sum_prefix_bounded(s, phase, k + 1);
        assert(s.take(k + 1).drop_last() =~= s.take(k));
        assert(s.take(k + 1).last().spec_phase(phase)@ >= 0);
    } else {
        assert(s.take(k) =~= s);
    }
}

/// The history is a window of the latest pushes: starting from an empty
/// history of capacity `cap` and pushing `pushes` in order leaves exactly
/// the last `min(cap, pushes.len())` of them, oldest first.
pub proof fn law_history_keeps_latest_window(cap: nat, pushes: Seq<FrameTiming>)
    ensures
        spec_history_after(cap, Seq::empty(), pushes) == pushes.skip(
            if pushes.len() > cap {
                pushes.len() - cap
            } else {
                0
            },
        ),
    decreases pushes.len(),
{
    if pushes.len() == 0 {
        assert(pushes.skip(0) =~= pushes);
    } else {
        let prev = pushes.drop_last();
        law_history_keeps_latest_window(cap, prev);
        let before = spec_history_after(cap, Seq::empty(), prev);
        if cap == 0 {
            assert(pushes.skip(pushes.len() as int) =~= Seq::<FrameTiming>::empty());
            assert(prev.skip(prev.len() as int) =~= Seq::<FrameTiming>::empty());
        } else if prev.len() >= cap {
            assert(before.drop_first().push(pushes.last()) =~= pushes.skip(pushes.len() - cap));
        } else {
            assert(before.push(pushes.last()) =~= pushes.skip(0));
        }
    }
}

/// The history never holds more samples than its capacity.
pub proof fn law_history_bounded_by_capacity(cap: nat, s: Seq<FrameTiming>, t: FrameTiming)
    requires
        s.len() <= cap,
    ensures
        spec_history_push(cap, s, t).len() <= cap,
{
}

/// The worst frame of a window: no frame's total exceeds it, and in a
/// non-empty window it is the total of one of the frames.
pub proof fn law_max_total_is_the_worst_frame(s: Seq<FrameTiming>)
    ensures
        forall|i: int| 0 <= i < s.len() ==> (#[trigger] s[i]).spec_total() <= max_total_of(s),
        s.len() > 0 ==> exists|i: int| 0 <= i < s.len() && max_total_of(s) == (#[trigger] s[i]).spec_total(),
        s.len() == 0 ==> max_total_of(s) == 0,
    decreases s.len(),
{
    if s.len() > 0 {
        let p = s.drop_last();
        law_max_total_is_the_worst_frame(p);
        assert forall|i: int| 0 <= i < s.len() implies (#[trigger] s[i]).spec_total() <= max_total_of(s) by {
            if i < p.len() {
                assert(s[i] == p[i]);
            }
        }
        if max_total_of(p) < s.last().spec_total() || p.len() == 0 {
            assert(s[s.len() - 1] == s.last());
            if p.len() == 0 {
                assert(s[0].input@ >= 0 && s[0].sim@ >= 0 && s[0].render@ >= 0 && s[0].present@ >= 0) by {
                    s[0].input.lemma_nonneg();
                    s[0].sim.lemma_nonneg();
                    s[0].render.lemma_nonneg();
                    s[0].present.lemma_nonneg();
                }
            }
        } else {
            let i = choose|i: int| 0 <= i < p.len() && max_total_of(p) == (#[trigger] p[i]).spec_total();
            assert(s[i] == p[i]);
        }
    }
}

} // verus!
