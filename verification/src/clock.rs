//! The tick's time base.
//!
//! The engine never reads the wall clock: it works in monotonic durations
//! measured from the moment a clock was created. [`ManualClock`] moves only
//! when told to, so the timing properties are ordinary checks; [`SystemClock`]
//! is the real one, and the piece of it that decides something — how long the
//! next nap before a deadline may be — is [`SystemClock::nap`].
use vstd::prelude::*;

use std::time::{Duration, Instant};

verus! {

/// Ticks of the output loop per second.
pub const TICK_HZ: u64 = 44;


/// The longest single sleep a host should ask for before a deadline, in
/// nanoseconds: two milliseconds. Short enough that an operating system's
/// proportional timer slack stays well under the spin margin that follows it.
pub const SLEEP_SLICE_NANOS: u64 = 2_000_000;

/// The spin margin a [`SystemClock`] starts with, in nanoseconds: one
/// millisecond.
pub const DEFAULT_SPIN_MARGIN_NANOS: u64 = 1_000_000;

/// The nanoseconds in `Duration::MAX`: `u64::MAX` whole seconds and
/// 999 999 999 nanoseconds more.
pub const MAX_DURATION_NANOS: u128 = 18_446_744_073_709_551_615_999_999_999;

/// The seed of a [`ManualClock`]'s overshoot generator.
pub const OVERSHOOT_SEED: u64 = 0x2545_F491_4F6C_DD1D;

/// `std::time::Instant`, carried opaque: a clock's origin, which nothing here
/// looks inside.
#[verifier::external_type_specification]
#[verifier::external_body]
pub struct ExInstant(Instant);

/// The whole nanoseconds a duration spans, as `Duration::as_nanos` counts them.
pub uninterp spec fn nanos_of(d: Duration) -> u128;

/// `Duration::as_nanos`: the total number of whole nanoseconds in `d`.
#[verifier::external_body]
fn as_nanos(d: Duration) -> (r: u128)
    ensures
        r == nanos_of(d),
{
    d.as_nanos()
}

/// `Duration::from_nanos`: a duration of exactly `nanos` nanoseconds, which
/// `as_nanos` then reads back.
#[verifier::external_body]
fn from_nanos(nanos: u64) -> (r: Duration)
    ensures
        nanos_of(r) == nanos,
{
    Duration::from_nanos(nanos)
}

/// `Instant::now`: the monotonic clock's present reading. Nothing is promised
/// of it, since it is the time.
#[verifier::external_body]
fn instant_now() -> Instant {
    Instant::now()
}

/// `Instant::elapsed`: how long ago `origin` was. Nothing is promised of it,
/// since it is the time.
#[verifier::external_body]
fn elapsed_since(origin: &Instant) -> Duration {
    origin.elapsed()
}

/// A duration's nanoseconds, held at `u64::MAX` past some 584 years.
pub open spec fn clamped(nanos: u128) -> u64 {
    if nanos > u64::MAX {
        u64::MAX
    } else {
        nanos as u64
    }
}

/// A duration's nanoseconds, held at `u64::MAX`.
fn clamped_nanos(d: Duration) -> (r: u64)
    ensures
        r == clamped(nanos_of(d)),
{
    let n = as_nanos(d);
    if n > u64::MAX as u128 {
        u64::MAX
    } else {
        n as u64
    }
}

/// A number of nanoseconds held at the longest duration there is.
pub open spec fn capped(nanos: int) -> u128 {
    if nanos > MAX_DURATION_NANOS {
        MAX_DURATION_NANOS
    } else {
        nanos as u128
    }
}

/// `Duration::checked_add`: the sum of two durations, or nothing when it
/// would pass `Duration::MAX`.
#[verifier::external_body]
fn checked_add(a: Duration, b: Duration) -> (r: Option<Duration>)
    ensures
        match r {
            Some(d) => nanos_of(d) == nanos_of(a) + nanos_of(b) && nanos_of(a) + nanos_of(b) <= MAX_DURATION_NANOS,
            None => nanos_of(a) + nanos_of(b) > MAX_DURATION_NANOS,
        },
{
    a.checked_add(b)
}

/// `Duration::MAX`: the longest duration there is.
#[verifier::external_body]
fn duration_max() -> (r: Duration)
    ensures
        nanos_of(r) == MAX_DURATION_NANOS,
{
    Duration::MAX
}

/// The tick's view of time: what time it is, and "wake me at this time".
pub trait Clock {
    /// Monotonic time since this clock was created.
    fn now(&self) -> Duration;

    /// Returns once the clock reads at least `deadline`; at once if it already
    /// does.
    fn sleep_until(&mut self, deadline: Duration);
}

/// One step of xorshift64: the same sequence on every run, with no state but
/// the number.
pub open spec fn next_state(state: u64) -> u64 {
    let a = state ^ (state << 13u64);
    let b = a ^ (a >> 7u64);
    b ^ (b << 17u64)
}

/// How late the next wake-up is, and the generator state after it: nothing and
/// no step when the overshoot may be at most zero, and otherwise the next state
/// reduced to `0..=max`.
pub open spec fn overshoot_spec(state: u64, max: u64) -> (u64, u64) {
    if max == 0 {
        (0, state)
    } else if max == u64::MAX {
        (next_state(state), next_state(state))
    } else {
        (next_state(state) % ((max + 1) as u64), next_state(state))
    }
}

/// A clock that only moves when it is told to.
///
/// Sleeping does not wait: it sets the time to the deadline plus an overshoot,
/// deterministic but uneven, standing in for a scheduler that woke up late.
pub struct ManualClock {
    now: Duration,
    max_overshoot: u64,
    state: u64,
}

impl ManualClock {
    /// The time, in nanoseconds.
    pub closed spec fn now_spec(&self) -> u128 {
        nanos_of(self.now)
    }

    /// The largest overshoot, in nanoseconds.
    pub closed spec fn max_overshoot_spec(&self) -> u64 {
        self.max_overshoot
    }

    /// The overshoot generator's state.
    pub closed spec fn state_spec(&self) -> u64 {
        self.state
    }

    /// A clock at zero that wakes exactly on the deadline.
    pub fn new() -> (r: ManualClock)
        ensures
            r.now_spec() == 0,
            r.max_overshoot_spec() == 0,
            r.state_spec() == OVERSHOOT_SEED,
    {
        ManualClock { now: from_nanos(0), max_overshoot: 0, state: OVERSHOOT_SEED }
    }

    /// A clock at zero that wakes up to `max_overshoot` late, by a
    /// deterministic but uneven amount. An overshoot past `u64::MAX`
    /// nanoseconds (some 584 years) is held there.
    pub fn with_overshoot(max_overshoot: Duration) -> (r: ManualClock)
        ensures
            r.now_spec() == 0,
            r.max_overshoot_spec() == clamped(nanos_of(max_overshoot)),
            r.state_spec() == OVERSHOOT_SEED,
    {
        ManualClock { now: from_nanos(0), max_overshoot: clamped_nanos(max_overshoot), state: OVERSHOOT_SEED }
    }

    /// Moves the clock forward, as a slow tick body would. The time it
    /// reaches must be a duration there is.
    pub fn advance(&mut self, by: Duration)
        requires
            old(self).now_spec() + nanos_of(by) <= MAX_DURATION_NANOS,
        ensures
            final(self).now_spec() == old(self).now_spec() + nanos_of(by),
            final(self).max_overshoot_spec() == old(self).max_overshoot_spec(),
            final(self).state_spec() == old(self).state_spec(),
    {
        match checked_add(self.now, by) {
            Some(t) => self.now = t,
            None => {},
        }
    }

    /// How late the next wake-up is, stepping the generator.
    fn next_overshoot(&mut self) -> (r: u64)
        ensures
            (r, final(self).state_spec()) == overshoot_spec(old(self).state_spec(), old(self).max_overshoot_spec()),
            final(self).now_spec() == old(self).now_spec(),
            final(self).max_overshoot_spec() == old(self).max_overshoot_spec(),
    {
        let max = self.max_overshoot;
        if max == 0 {
            return 0;
        }
        let mut state = self.state;
        state = state ^ (state << 13u64);
        state = state ^ (state >> 7u64);
        state = state ^ (state << 17u64);
        self.state = state;
        if max == u64::MAX {
            state
        } else {
            state % (max + 1)
        }
    }
}

impl Default for ManualClock {
    fn default() -> (r: ManualClock)
        ensures
            r.now_spec() == 0,
            r.max_overshoot_spec() == 0,
            r.state_spec() == OVERSHOOT_SEED,
    {
        ManualClock::new()
    }
}

impl Clock for ManualClock {
    fn now(&self) -> (r: Duration)
        ensures
            nanos_of(r) == self.now_spec(),
    {
        self.now
    }

    /// Moves the clock to the deadline plus an overshoot of at most the
    /// clock's maximum, held at `Duration::MAX`; a deadline already past
    /// leaves the clock where it is.
    fn sleep_until(&mut self, deadline: Duration)
        ensures
            ({
                let d = nanos_of(deadline);
                let (late, state) = overshoot_spec(old(self).state_spec(), old(self).max_overshoot_spec());
                if d > old(self).now_spec() {
                    final(self).now_spec() == capped(d + late) && final(self).state_spec() == state
                } else {
                    final(self).now_spec() == old(self).now_spec() && final(self).state_spec()
                        == old(self).state_spec()
                }
            }),
            final(self).max_overshoot_spec() == old(self).max_overshoot_spec(),
    {
        if as_nanos(deadline) > as_nanos(self.now) {
            let late = self.next_overshoot();
            self.now = match checked_add(deadline, from_nanos(late)) {
                Some(t) => t,
                None => duration_max(),
            };
        }
    }
}

/// A manual clock never runs backwards, wakes no earlier than the deadline it
/// was given, and no later than its maximum overshoot after it.
pub proof fn law_a_manual_clock_wakes_on_time_and_never_runs_backwards(state: u64, max: u64, now: u128, deadline: u128)
    requires
        deadline <= MAX_DURATION_NANOS,
    ensures
        ({
            let (late, _) = overshoot_spec(state, max);
            &&& late <= max
            &&& deadline > now ==> capped(deadline + late) >= deadline
            &&& deadline > now ==> capped(deadline + late) > now
            &&& deadline > now ==> capped(deadline + late) <= deadline + max
        }),
{
    let (late, _) = overshoot_spec(state, max);
    if max != 0 && max != u64::MAX {
        assert(next_state(state) % ((max + 1) as u64) <= max);
    }
}

/// The next nap before a deadline: with `remaining` nanoseconds left and a
/// spin margin of `margin`, none once only the margin is left, and otherwise
/// what is left above the margin, capped at one slice.
pub open spec fn nap_spec(remaining: u128, margin: u128) -> Option<u64> {
    if remaining <= margin {
        None
    } else if remaining - margin < SLEEP_SLICE_NANOS {
        Some((remaining - margin) as u64)
    } else {
        Some(SLEEP_SLICE_NANOS)
    }
}

/// No nap is longer than one slice or reaches into the spin margin, and only
/// the margin is ever left unslept.
pub proof fn law_no_nap_overshoots_the_margin_or_the_slice(remaining: u128, margin: u128)
    ensures
        nap_spec(remaining, margin) matches Some(n) ==> 0 < n <= SLEEP_SLICE_NANOS && n + margin <= remaining,
        nap_spec(remaining, margin) is None <==> remaining <= margin,
{
}

/// A duration of exactly `nanos` nanoseconds.
pub fn duration_of_nanos(nanos: u64) -> (r: Duration)
    ensures
        nanos_of(r) == nanos,
{
    from_nanos(nanos)
}

/// The slice a host sleeps in at most, as a duration.
pub fn sleep_slice() -> (r: Duration)
    ensures
        nanos_of(r) == SLEEP_SLICE_NANOS,
{
    from_nanos(SLEEP_SLICE_NANOS)
}

/// The real clock: a monotonic instant, and a spin margin before each
/// deadline that no operating system's sleep is trusted with.
pub struct SystemClock {
    origin: Instant,
    spin_margin: Duration,
    woke: Ghost<Option<u128>>,
    readings: Ghost<Seq<u128>>,
}

impl SystemClock {
    /// The spin margin, in nanoseconds.
    pub closed spec fn spin_margin_spec(&self) -> u128 {
        nanos_of(self.spin_margin)
    }

    /// The clock's reading, in nanoseconds, when the last
    /// [`Clock::sleep_until`] returned: `None` before the first sleep, and
    /// after one that gave up when every one of `u64::MAX` readings still fell
    /// short of its deadline.
    pub closed spec fn woke_spec(&self) -> Option<u128> {
        self.woke@
    }

    /// Every reading, in nanoseconds, that the last [`Clock::sleep_until`]
    /// took, in the order it took them; empty before the first sleep.
    pub closed spec fn readings_spec(&self) -> Seq<u128> {
        self.readings@
    }

    /// A clock starting now, with the one-millisecond spin margin.
    pub fn new() -> (r: SystemClock)
        ensures
            r.spin_margin_spec() == DEFAULT_SPIN_MARGIN_NANOS,
    {
        SystemClock { origin: instant_now(), spin_margin: from_nanos(DEFAULT_SPIN_MARGIN_NANOS), woke: Ghost(None), readings: Ghost(Seq::empty()) }
    }

    /// A clock starting now that stops sleeping `spin_margin` before the
    /// deadline.
    pub fn with_spin_margin(spin_margin: Duration) -> (r: SystemClock)
        ensures
            r.spin_margin_spec() == nanos_of(spin_margin),
    {
        SystemClock { origin: instant_now(), spin_margin, woke: Ghost(None), readings: Ghost(Seq::empty()) }
    }

    /// How long before the deadline this clock switches from sleeping to
    /// spinning.
    pub fn spin_margin(&self) -> (r: Duration)
        ensures
            nanos_of(r) == self.spin_margin_spec(),
    {
        self.spin_margin
    }

    /// How long to sleep next with `remaining` left before the deadline, or
    /// `None` to stop sleeping and spin the rest: at most one slice, and never
    /// into the margin.
    pub fn nap(&self, remaining: Duration) -> (r: Option<Duration>)
        ensures
            match nap_spec(nanos_of(remaining), self.spin_margin_spec()) {
                Some(n) => r matches Some(d) && nanos_of(d) == n,
                None => r is None,
            },
    {
        let remaining = as_nanos(remaining);
        let margin = as_nanos(self.spin_margin);
        if remaining <= margin {
            return None;
        }
        let coarse = remaining - margin;
        if coarse < SLEEP_SLICE_NANOS as u128 {
            Some(from_nanos(coarse as u64))
        } else {
            Some(from_nanos(SLEEP_SLICE_NANOS))
        }
    }
}

impl Default for SystemClock {
    fn default() -> (r: SystemClock)
        ensures
            r.spin_margin_spec() == DEFAULT_SPIN_MARGIN_NANOS,
    {
        SystemClock::new()
    }
}

impl Clock for SystemClock {
    fn now(&self) -> Duration {
        elapsed_since(&self.origin)
    }

    /// Spins until the clock reads at least `deadline`, and never returns
    /// before that unless `u64::MAX` readings in a row all fell short. A host
    /// that can give the processor back sleeps first, in the naps
    /// [`SystemClock::nap`] decides, and leaves the last stretch to this.
    fn sleep_until(&mut self, deadline: Duration)
        ensures
            final(self).spin_margin_spec() == old(self).spin_margin_spec(),
            final(self).woke_spec() matches Some(w) ==> w >= nanos_of(deadline),
            nanos_of(deadline) == 0 ==> final(self).woke_spec() is Some,
            final(self).woke_spec() is None ==> final(self).readings_spec().len() == u64::MAX,
            final(self).woke_spec() matches Some(w) ==> final(self).readings_spec().len() >= 1
                && final(self).readings_spec().last() == w,
            forall|k: int|
                0 <= k < final(self).readings_spec().len() && (final(self).woke_spec() is None || k
                    < final(self).readings_spec().len() - 1) ==> #[trigger] final(self).readings_spec()[k]
                    < nanos_of(deadline),
    {
        let target = as_nanos(deadline);
        self.woke = Ghost(None);
        self.readings = Ghost(Seq::empty());
        let mut rounds: u64 = 0;
        while rounds < u64::MAX
            invariant_except_break
                target == nanos_of(deadline),
                self.spin_margin == old(self).spin_margin,
                self.woke@ is None,
                self.readings@.len() == rounds,
                forall|k: int| 0 <= k < self.readings@.len() ==> #[trigger] self.readings@[k] < target,
            ensures
                self.spin_margin == old(self).spin_margin,
                self.woke@ matches Some(w) ==> w >= nanos_of(deadline) && self.readings@.len() >= 1
                    && self.readings@.last() == w,
                self.woke@ is None ==> self.readings@.len() == u64::MAX,
                forall|k: int|
                    0 <= k < self.readings@.len() && (self.woke@ is None || k < self.readings@.len() - 1)
                        ==> #[trigger] self.readings@[k] < nanos_of(deadline),
            decreases u64::MAX - rounds,
        {
            let reading = as_nanos(self.now());
            proof {
                self.readings@ = self.readings@.push(reading);
            }
            if reading >= target {
                self.woke = Ghost(Some(reading));
                break;
            }
            rounds = rounds + 1;
        }
        proof {
            if target == 0 && self.woke@ is None {
                assert(self.readings@[0] < target);
            }
        }
    }
}

} // verus!
