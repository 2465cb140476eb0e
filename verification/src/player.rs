//! Playback: cues running on the output loop's time base.
//!
//! A [`CuePlayer`] owns one playback's position in a cue list and the fade it
//! is part way through; once a tick it works out a value for every attribute it
//! holds and writes them into that playback's [`PlaybackSource`].
//!
//! Cues track: a cue holds what it names and nothing else. A Go during a
//! running fade overtakes it from where every attribute has reached. A release
//! fades intensities home and holds everything else still, then leaves the
//! merge. At most one cue starts per tick. Time is accumulated at the
//! playback's speed, with the fraction of a tick carried; a manual crossfade
//! replaces the clock of a cue transition with the travel of a fader.
use vstd::prelude::*;

use crate::cue::{interpolate, interpolate_spec, step_spec, follow_step_spec, transition_spec, GoDirection, SequencePlan};
use crate::ids::{PlaybackId, SPEED_UNITY};
use crate::playback::{PlaybackLayer, PlaybackSource};
use crate::sequence::CueTrigger;
use crate::sorted::{map_of, strictly_sorted, Keyed};

verus! {

/// Full travel of a crossfade fader.
pub const FADER_FULL: u16 = 65535;

/// The middle of a crossfade fader's travel, which decides which end it is
/// heading for.
pub const FADER_HALF: u16 = 32767;

/// How long two taps may be apart and still be one measurement: four seconds
/// of ticks.
pub const TAP_WINDOW: u64 = 176;

/// A number that saturates at the largest `u64`.
pub open spec fn sat64(n: int) -> u64 {
    if n > u64::MAX {
        u64::MAX
    } else if n < 0 {
        0
    } else {
        n as u64
    }
}

/// A manual crossfade: where the fader stood when the cue was taken, where it
/// stands now, and whether the travel has been completed.
#[derive(Debug, Clone, Copy, PartialEq, Eq, Structural)]
pub struct Crossfade {
    /// The fader position the current transition started from.
    pub origin: u16,
    /// Where the fader is now.
    pub position: u16,
    /// Whether the travel has been completed.
    pub done: bool,
}

/// The end a crossfade travel is heading for: whichever is further away.
pub open spec fn fade_target(origin: u16) -> u16 {
    if origin > FADER_HALF {
        0
    } else {
        FADER_FULL
    }
}

/// How far through the transition a crossfade has been pushed, towards its
/// target only, `0..=65535`.
pub open spec fn progress_spec(c: Crossfade) -> u16 {
    if c.done {
        FADER_FULL
    } else {
        let target = fade_target(c.origin);
        let span: int = if target >= c.origin { target - c.origin } else { c.origin - target };
        if span == 0 {
            FADER_FULL
        } else {
            let travelled: int = if target > c.origin {
                if c.position > c.origin { c.position - c.origin } else { 0 }
            } else {
                if c.origin > c.position { c.origin - c.position } else { 0 }
            };
            let scaled = travelled * 65535 / span;
            if scaled > 65535 {
                FADER_FULL
            } else {
                scaled as u16
            }
        }
    }
}

impl Crossfade {
    /// A crossfade engaged with the fader where it is, so engaging one never
    /// moves any light by itself.
    pub fn new(position: u16) -> (r: Crossfade)
        ensures
            r == (Crossfade { origin: position, position, done: false }),
    {
        Crossfade { origin: position, position, done: false }
    }

    /// The end this travel is heading for.
    pub fn target(self) -> (r: u16)
        ensures
            r == fade_target(self.origin),
    {
        if self.origin > FADER_HALF {
            0
        } else {
            FADER_FULL
        }
    }

    /// How far through the transition the fader has been pushed.
    pub fn progress(self) -> (r: u16)
        ensures
            r == progress_spec(self),
    {
        if self.done {
            return FADER_FULL;
        }
        let target = self.target();
        let span: u16 = if target >= self.origin { target - self.origin } else { self.origin - target };
        if span == 0 {
            return FADER_FULL;
        }
        let travelled: u16 = if target > self.origin {
            self.position.saturating_sub(self.origin)
        } else {
            self.origin.saturating_sub(self.position)
        };
        proof {
            assert(travelled as int * 65535 <= 65535 * 65535) by (nonlinear_arith)
                requires
                    travelled <= 65535,
            ;
        }
        let scaled: u32 = (travelled as u32 * 65535) / (span as u32);
        if scaled > 65535 {
            FADER_FULL
        } else {
            scaled as u16
        }
    }

    /// Whether the fader has reached the end it was heading for.
    pub fn arrived(self) -> (r: bool)
        ensures
            r == (progress_spec(self) == FADER_FULL),
    {
        self.progress() == FADER_FULL
    }
}

/// A crossfade engaged where the fader stands makes no progress: engaging one
/// moves no light. A completed one stands at full.
pub proof fn law_engaging_a_crossfade_moves_nothing(position: u16)
    ensures
        progress_spec(Crossfade { origin: position, position, done: false }) == 0,
        progress_spec(Crossfade { origin: position, position, done: true }) == FADER_FULL,
{
}

/// Under a manual crossfade the fader is the clock: a held attribute's value
/// depends on how far the fader has travelled and not on the time, and once
/// the travel is complete the transition stands finished wherever the fader
/// is moved to, until the next cue re-bases it.
pub proof fn law_a_manual_crossfade_is_driven_by_the_fader(
    e: Entry,
    c: Crossfade,
    earlier: u64,
    later: u64,
    delay: u64,
    position: u16,
)
    ensures
        evaluated_entry(e, Some(progress_spec(c)), earlier, delay) == evaluated_entry(e, Some(progress_spec(c)), later, delay),
        c.done ==> progress_spec(Crossfade { position, ..c }) == FADER_FULL,
        c.done && e.live ==> evaluated_entry(e, Some(progress_spec(c)), earlier, delay).value == e.to,
{
    if c.done && e.live {
        crate::cue::law_a_fade_starts_at_its_start_and_ends_at_its_target(e.from, e.to, 65535, 65535);
    }
}

/// One attribute a playback is holding, and the fade it is part way through.
#[derive(Debug, Clone, Copy, PartialEq, Eq, Structural)]
pub struct Entry {
    /// Whether the playback is holding this attribute at all.
    pub live: bool,
    /// Value at the start of the current transition.
    pub from: u16,
    /// Value the transition is heading for.
    pub to: u16,
    /// Value right now.
    pub value: u16,
    /// Ticks the transition takes.
    pub duration: u64,
}

impl Default for Entry {
    fn default() -> (r: Entry)
        ensures
            r == (Entry { live: false, from: 0, to: 0, value: 0, duration: 0 }),
    {
        Entry { live: false, from: 0, to: 0, value: 0, duration: 0 }
    }
}

/// What a tick's worth of playback did to the source's place in the merge.
#[derive(Debug, Clone, Copy, PartialEq, Eq, Structural)]
pub enum Change {
    /// Nothing: the source was already where it should be.
    Unchanged,
    /// The playback started, so its source goes active and is stamped.
    Activate,
    /// The playback finished releasing and leaves the merge.
    Deactivate,
}

/// One entry as a cue's start leaves it: a held attribute re-bases from where
/// it is on the cue's fade, and one the cue names heads for the cue's value,
/// fading in from its home if it was not held.
pub open spec fn begun_entry(sp: SequencePlan, e: Entry, p: int, index: int) -> Entry {
    let fade = sp.cues_spec()[index].fade_in_spec();
    let e1 = if e.live {
        Entry { from: e.value, duration: fade, ..e }
    } else {
        e
    };
    let parts = sp.parts_spec(index);
    if map_of(parts).contains_key(p) && p < sp.slots_spec().len() {
        let home = sp.slots_spec()[p].home;
        let e2 = if !e1.live {
            Entry { live: true, from: home, value: home, ..e1 }
        } else {
            e1
        };
        Entry { to: map_of(parts)[p].value, duration: fade, ..e2 }
    } else {
        e1
    }
}

/// The entries as the start of cue `index` leaves them; unchanged for a cue
/// that is not there.
pub open spec fn begun(sp: SequencePlan, entries: Seq<Entry>, index: int) -> Seq<Entry> {
    if 0 <= index < sp.cues_spec().len() {
        Seq::new(entries.len(), |p: int| begun_entry(sp, entries[p], p, index))
    } else {
        entries
    }
}

/// The delay of cue `index`, or nothing for a cue that is not there.
pub open spec fn cue_delay(sp: SequencePlan, index: int) -> u64 {
    if 0 <= index < sp.cues_spec().len() {
        sp.cues_spec()[index].delay_spec()
    } else {
        0
    }
}

/// Starts cue `index`: every held attribute re-bases from where it is now,
/// and the cue's own attributes take their new targets. Returns the cue's
/// delay, or nothing for a cue that is not there. A buffer too short for the
/// sequence loses values rather than panicking.
pub fn begin(plan: &SequencePlan, entries: &mut [Entry], index: usize) -> (r: u64)
    ensures
        final(entries)@ == begun(*plan, old(entries)@, index as int),
        r == cue_delay(*plan, index as int),
{
    let cue = match plan.cue(index) {
        Some(c) => c,
        None => return 0,
    };
    let fade = cue.fade_in();
    let n = entries.len();
    let ghost original = entries@;
    let mut i: usize = 0;
    while i < n
        invariant
            0 <= i <= n,
            n == entries@.len(),
            original.len() == n,
            fade == plan.cues_spec()[index as int].fade_in_spec(),
            forall|p: int|
                0 <= p < n ==> #[trigger] entries@[p] == if p < i && original[p].live {
                    Entry { from: original[p].value, duration: fade, ..original[p] }
                } else {
                    original[p]
                },
        decreases n - i,
    {
        let e = entries[i];
        if e.live {
            entries[i] = Entry { live: e.live, from: e.value, to: e.to, value: e.value, duration: fade };
        }
        i = i + 1;
    }
    let ghost staged = entries@;
    let parts = plan.parts_of(index);
    let m = parts.len();
    let count = plan.slot_count();
    let mut j: usize = 0;
    while j < m
        invariant
            0 <= j <= m,
            m == parts@.len(),
            n == entries@.len(),
            staged.len() == n,
            count == plan.slots_spec().len(),
            0 <= index < plan.cues_spec().len(),
            fade == plan.cues_spec()[index as int].fade_in_spec(),
            parts@ == plan.parts_spec(index as int),
            strictly_sorted(parts@),
            forall|p: int|
                0 <= p < n ==> #[trigger] staged[p] == if original[p].live {
                    Entry { from: original[p].value, duration: fade, ..original[p] }
                } else {
                    original[p]
                },
            forall|p: int|
                0 <= p < n ==> #[trigger] entries@[p] == if (exists|k: int| 0 <= k < j && parts@[k].slot == p) {
                    begun_entry(*plan, original[p], p, index as int)
                } else {
                    staged[p]
                },
        decreases m - j,
    {
        let part = parts[j];
        let position = part.slot as usize;
        proof {
            crate::sorted::lemma_map_of_index(parts@, j as int);
        }
        if position < n && position < count {
            let slot = plan.slots()[position];
            let mut e = entries[position];
            if !e.live {
                e = Entry { live: true, from: slot.home, to: e.to, value: slot.home, duration: e.duration };
            }
            e = Entry { live: e.live, from: e.from, to: part.value, value: e.value, duration: fade };
            entries[position] = e;
        }
        proof {
            assert forall|p: int|
                0 <= p < n implies #[trigger] entries@[p] == if (exists|k: int| 0 <= k < j + 1 && parts@[k].slot == p) {
                    begun_entry(*plan, original[p], p, index as int)
                } else {
                    staged[p]
                } by {
                if p == position {
                    if exists|k: int| 0 <= k < j && parts@[k].slot == p {
                        let k = choose|k: int| 0 <= k < j && parts@[k].slot == p;
                        crate::sorted::lemma_key_unique(parts@, k, j as int);
                    }
                    assert(parts@[j as int].slot == p);
                } else {
                    if exists|k: int| 0 <= k < j + 1 && parts@[k].slot == p {
                        let k = choose|k: int| 0 <= k < j + 1 && parts@[k].slot == p;
                        assert(k != j);
                    }
                }
            }
        }
        j = j + 1;
    }
    proof {
        assert forall|p: int| 0 <= p < n implies #[trigger] entries@[p] == begun_entry(*plan, original[p], p, index as int) by {
            if !(exists|k: int| 0 <= k < m && parts@[k].slot == p) {
                if map_of(parts@).contains_key(p) {
                    let k = choose|k: int| 0 <= k < parts@.len() && parts@[k].key_spec() == p;
                    assert(parts@[k].slot == p);
                }
            } else {
                let k = choose|k: int| 0 <= k < m && parts@[k].slot == p;
                crate::sorted::lemma_map_of_index(parts@, k);
            }
        }
        assert(entries@ =~= begun(*plan, original, index as int));
    }
    cue.delay()
}

/// The entries as a release over the outgoing cue's fade-out leaves them:
/// every held intensity heads for home, everything else holds where it is.
pub open spec fn released(sp: SequencePlan, entries: Seq<Entry>, outgoing: int) -> Seq<Entry> {
    let fade = if 0 <= outgoing < sp.cues_spec().len() {
        sp.cues_spec()[outgoing].fade_out_spec()
    } else {
        0
    };
    Seq::new(
        entries.len(),
        |p: int|
            {
                let e = entries[p];
                if e.live {
                    Entry {
                        live: true,
                        from: e.value,
                        to: if p < sp.slots_spec().len() && sp.slots_spec()[p].htp {
                            sp.slots_spec()[p].home
                        } else {
                            e.value
                        },
                        value: e.value,
                        duration: fade,
                    }
                } else {
                    e
                }
            },
    )
}

/// Turns everything the playback holds into a release over the outgoing cue's
/// fade-out time: intensities to home, everything else held where it is.
pub fn release(plan: &SequencePlan, entries: &mut [Entry], outgoing: usize)
    ensures
        final(entries)@ == released(*plan, old(entries)@, outgoing as int),
{
    let fade = match plan.cue(outgoing) {
        Some(cue) => cue.fade_out(),
        None => 0,
    };
    let count = plan.slot_count();
    let n = entries.len();
    let ghost original = entries@;
    let mut i: usize = 0;
    while i < n
        invariant
            0 <= i <= n,
            n == entries@.len(),
            original.len() == n,
            count == plan.slots_spec().len(),
            fade == (if 0 <= outgoing < plan.cues_spec().len() {
                plan.cues_spec()[outgoing as int].fade_out_spec()
            } else {
                0
            }),
            forall|p: int|
                0 <= p < n ==> #[trigger] entries@[p] == if p < i {
                    released(*plan, original, outgoing as int)[p]
                } else {
                    original[p]
                },
        decreases n - i,
    {
        let e = entries[i];
        if e.live {
            let to = if i < count && plan.slots()[i].htp {
                plan.slots()[i].home
            } else {
                e.value
            };
            entries[i] = Entry { live: true, from: e.value, to, value: e.value, duration: fade };
        }
        i = i + 1;
    }
    proof {
        assert(entries@ =~= released(*plan, original, outgoing as int));
    }
}

/// Whether cue `next` starts by itself, `elapsed` ticks after cue `current`
/// started: a follow once the current cue has finished fading, a timed cue
/// once its time has passed. A timed cue with no time and a sound cue wait.
pub open spec fn triggers_spec(sp: SequencePlan, current: int, next: int, elapsed: u64) -> bool {
    let n = sp.cues_spec().len();
    if 0 <= current < n && 0 <= next < n {
        let cur = sp.cues_spec()[current];
        match sp.cues_spec()[next].trigger_spec() {
            CueTrigger::Follow => elapsed >= transition_spec(cur.delay_spec(), cur.fade_in_spec()),
            CueTrigger::Time => match sp.cues_spec()[next].trigger_ticks_spec() {
                Some(t) => elapsed >= t,
                None => false,
            },
            _ => false,
        }
    } else {
        false
    }
}

/// Whether cue `next` starts by itself, `elapsed` ticks after cue `current`
/// started.
pub fn triggers(plan: &SequencePlan, current: usize, next: usize, elapsed: u64) -> (r: bool)
    ensures
        r == triggers_spec(*plan, current as int, next as int, elapsed),
{
    let cur = match plan.cue(current) {
        Some(c) => c,
        None => return false,
    };
    let nxt = match plan.cue(next) {
        Some(c) => c,
        None => return false,
    };
    match nxt.trigger() {
        CueTrigger::Follow => elapsed >= cur.transition_ticks(),
        CueTrigger::Time => match nxt.trigger_ticks() {
            Some(t) => elapsed >= t,
            None => false,
        },
        _ => false,
    }
}

/// The slots of the tick grid that have passed since the last tick a player
/// was given, or none for its first.
pub open spec fn slots_passed(last_tick: Option<u64>, tick: u64) -> u64 {
    match last_tick {
        Some(last) => if tick >= last {
            (tick - last) as u64
        } else {
            0
        },
        None => 0,
    }
}

/// Speed times slots plus the carried fraction, saturating.
pub open spec fn scaled_ticks(speed: u16, slots: u64, remainder: u32) -> u64 {
    sat64(sat64(speed * slots) + remainder)
}

/// A held attribute's value at `elapsed`: driven by a crossfade's progress
/// when one governs, else held at its start through the delay and then
/// faded over its duration.
pub open spec fn evaluated_entry(e: Entry, manual: Option<u16>, elapsed: u64, delay: u64) -> Entry {
    if !e.live {
        e
    } else {
        Entry {
            value: match manual {
                Some(progress) => interpolate_spec(e.from, e.to, progress as u64, 65535),
                None => if elapsed < delay {
                    e.from
                } else {
                    interpolate_spec(e.from, e.to, (elapsed - delay) as u64, e.duration)
                },
            },
            ..e
        }
    }
}

/// Every entry evaluated at `elapsed`.
pub open spec fn evaluated(entries: Seq<Entry>, manual: Option<u16>, elapsed: u64, delay: u64) -> Seq<Entry> {
    Seq::new(entries.len(), |p: int| evaluated_entry(entries[p], manual, elapsed, delay))
}

/// Whether every held attribute of a release has finished its fade.
pub open spec fn release_over(entries: Seq<Entry>, elapsed: u64, delay: u64) -> bool {
    forall|p: int| 0 <= p < entries.len() && (#[trigger] entries[p]).live ==> elapsed >= sat64(delay + entries[p].duration)
}

/// Every entry let go.
pub open spec fn dropped(entries: Seq<Entry>) -> Seq<Entry> {
    Seq::new(entries.len(), |p: int| Entry { live: false, ..entries[p] })
}

/// Whether anything is held.
pub open spec fn any_live(entries: Seq<Entry>) -> bool {
    exists|p: int| 0 <= p < entries.len() && (#[trigger] entries[p]).live
}

/// A crossfade re-based where its fader stands, as a new transition does it.
pub open spec fn rebased(c: Option<Crossfade>) -> Option<Crossfade> {
    match c {
        Some(f) => Some(Crossfade { origin: f.position, position: f.position, done: false }),
        None => None,
    }
}

/// Brings every held attribute to its value at `elapsed`.
fn evaluate_entries(entries: &mut [Entry], manual: Option<u16>, elapsed: u64, delay: u64)
    ensures
        final(entries)@ == evaluated(old(entries)@, manual, elapsed, delay),
{
    let n = entries.len();
    let ghost original = entries@;
    let mut i: usize = 0;
    while i < n
        invariant
            0 <= i <= n,
            n == entries@.len(),
            original.len() == n,
            forall|p: int|
                0 <= p < n ==> #[trigger] entries@[p] == if p < i {
                    evaluated_entry(original[p], manual, elapsed, delay)
                } else {
                    original[p]
                },
        decreases n - i,
    {
        let e = entries[i];
        if e.live {
            let value = match manual {
                Some(progress) => interpolate(e.from, e.to, progress as u64, 65535),
                None => if elapsed < delay {
                    e.from
                } else {
                    interpolate(e.from, e.to, elapsed - delay, e.duration)
                },
            };
            entries[i] = Entry { live: e.live, from: e.from, to: e.to, value, duration: e.duration };
        }
        i = i + 1;
    }
    proof {
        assert(entries@ =~= evaluated(original, manual, elapsed, delay));
    }
}

/// Whether every held attribute of a release has finished its fade.
fn release_is_over(entries: &[Entry], elapsed: u64, delay: u64) -> (r: bool)
    ensures
        r == release_over(entries@, elapsed, delay),
{
    let mut i: usize = 0;
    while i < entries.len()
        invariant
            0 <= i <= entries@.len(),
            forall|p: int| 0 <= p < i && (#[trigger] entries@[p]).live ==> elapsed >= sat64(delay + entries@[p].duration),
        decreases entries@.len() - i,
    {
        let e = entries[i];
        if e.live && elapsed < delay.saturating_add(e.duration) {
            return false;
        }
        i = i + 1;
    }
    true
}

/// Lets go of every entry.
fn drop_entries(entries: &mut [Entry])
    ensures
        final(entries)@ == dropped(old(entries)@),
{
    let n = entries.len();
    let ghost original = entries@;
    let mut i: usize = 0;
    while i < n
        invariant
            0 <= i <= n,
            n == entries@.len(),
            original.len() == n,
            forall|p: int|
                0 <= p < n ==> #[trigger] entries@[p] == if p < i {
                    Entry { live: false, ..original[p] }
                } else {
                    original[p]
                },
        decreases n - i,
    {
        let e = entries[i];
        entries[i] = Entry { live: false, from: e.from, to: e.to, value: e.value, duration: e.duration };
        i = i + 1;
    }
    proof {
        assert(entries@ =~= dropped(original));
    }
}

/// Whether anything is held.
fn holds_anything(entries: &[Entry]) -> (r: bool)
    ensures
        r == any_live(entries@),
{
    let mut i: usize = 0;
    while i < entries.len()
        invariant
            0 <= i <= entries@.len(),
            forall|p: int| 0 <= p < i ==> !(#[trigger] entries@[p]).live,
        decreases entries@.len() - i,
    {
        if entries[i].live {
            return true;
        }
        i = i + 1;
    }
    false
}

/// Two players agree on where their playback stands: the list, what is held,
/// the cue, the clock and what the layer was told.
pub open spec fn state_kept(a: CuePlayer, b: CuePlayer) -> bool {
    &&& a.playback_spec() == b.playback_spec()
    &&& a.sequence_spec() == b.sequence_spec()
    &&& a.entries_spec() == b.entries_spec()
    &&& a.current_spec() == b.current_spec()
    &&& a.clock_spec() == b.clock_spec()
    &&& a.remainder_spec() == b.remainder_spec()
    &&& a.last_tick_spec() == b.last_tick_spec()
    &&& a.delay_spec() == b.delay_spec()
    &&& a.restart_spec() == b.restart_spec()
    &&& a.active_spec() == b.active_spec()
    &&& a.flush_spec() == b.flush_spec()
}

/// Two players agree on the executor's own settings: speed, tap, crossfade
/// and flash.
pub open spec fn settings_kept(a: CuePlayer, b: CuePlayer) -> bool {
    &&& a.speed_spec() == b.speed_spec()
    &&& a.tap_spec() == b.tap_spec()
    &&& a.last_tap_spec() == b.last_tap_spec()
    &&& a.crossfade_spec() == b.crossfade_spec()
    &&& a.flashed_spec() == b.flashed_spec()
}

/// What a player is left as after it is stepped by a Go; when nothing could be done it
/// is left as it was.
pub open spec fn went(before: CuePlayer, after: CuePlayer, direction: GoDirection) -> bool {
    if (before.sequence_spec() matches Some(sp) && step_spec(
                sp.cues_spec().len() as int,
                before.current_spec(),
                direction,
            ) is Some) {
        {
                let sp = before.sequence_spec()->0;
                let next = step_spec(sp.cues_spec().len() as int, before.current_spec(), direction)->0;
                &&& after.entries_spec() == begun(sp, before.entries_spec(), next as int)
                &&& after.delay_spec() == cue_delay(sp, next as int)
                &&& after.current_spec() == Some(next)
                &&& after.restart_spec()
                &&& after.crossfade_spec() == rebased(before.crossfade_spec())
                &&& after.sequence_spec() == before.sequence_spec()
                &&& after.playback_spec() == before.playback_spec()
                &&& after.clock_spec() == before.clock_spec()
                &&& after.remainder_spec() == before.remainder_spec()
                &&& after.last_tick_spec() == before.last_tick_spec()
                &&& after.speed_spec() == before.speed_spec()
                &&& after.tap_spec() == before.tap_spec()
                &&& after.last_tap_spec() == before.last_tap_spec()
                &&& after.flashed_spec() == before.flashed_spec()
                &&& after.active_spec() == before.active_spec()
                &&& after.flush_spec() == before.flush_spec()
            }
    } else {
        after == before
    }
}

/// What a player is left as after it is sent straight to one cue; when nothing could be done it
/// is left as it was.
pub open spec fn gone_to(before: CuePlayer, after: CuePlayer, index: usize) -> bool {
    if (before.sequence_spec() matches Some(sp) && index < sp.cues_spec().len()) {
        {
                let sp = before.sequence_spec()->0;
                &&& after.entries_spec() == begun(sp, before.entries_spec(), index as int)
                &&& after.delay_spec() == cue_delay(sp, index as int)
                &&& after.current_spec() == Some(index)
                &&& after.restart_spec()
                &&& after.crossfade_spec() == rebased(before.crossfade_spec())
                &&& after.sequence_spec() == before.sequence_spec()
                &&& after.playback_spec() == before.playback_spec()
                &&& after.clock_spec() == before.clock_spec()
                &&& after.remainder_spec() == before.remainder_spec()
                &&& after.last_tick_spec() == before.last_tick_spec()
                &&& after.speed_spec() == before.speed_spec()
                &&& after.tap_spec() == before.tap_spec()
                &&& after.last_tap_spec() == before.last_tap_spec()
                &&& after.flashed_spec() == before.flashed_spec()
                &&& after.active_spec() == before.active_spec()
                &&& after.flush_spec() == before.flush_spec()
            }
    } else {
        after == before
    }
}

/// What a player is left as after it is switched on; when nothing could be done it
/// is left as it was.
pub open spec fn switched_on(before: CuePlayer, after: CuePlayer) -> bool {
    if (before.current_spec() is None && (before.sequence_spec() matches Some(sp)
                && sp.cues_spec().len() > 0)) {
        {
                let sp = before.sequence_spec()->0;
                &&& after.entries_spec() == begun(sp, before.entries_spec(), 0)
                &&& after.delay_spec() == cue_delay(sp, 0)
                &&& after.current_spec() == Some(0usize)
                &&& after.restart_spec()
                &&& after.crossfade_spec() == rebased(before.crossfade_spec())
                &&& after.sequence_spec() == before.sequence_spec()
                &&& after.playback_spec() == before.playback_spec()
                &&& after.speed_spec() == before.speed_spec()
                &&& after.flashed_spec() == before.flashed_spec()
                &&& after.active_spec() == before.active_spec()
                &&& after.flush_spec() == before.flush_spec()
                &&& after.last_tap_spec() == before.last_tap_spec()
                &&& after.tap_spec() == before.tap_spec()
            }
    } else {
        after == before
    }
}

/// What a player is left as after it is switched off; when nothing could be done it
/// is left as it was.
pub open spec fn switched_off(before: CuePlayer, after: CuePlayer) -> bool {
    if (before.sequence_spec() is Some && before.current_spec() is Some) {
        {
                let sp = before.sequence_spec()->0;
                &&& after.entries_spec() == released(sp, before.entries_spec(), before.current_spec()->0 as int)
                &&& after.current_spec() is None
                &&& after.delay_spec() == 0
                &&& after.restart_spec()
                &&& after.sequence_spec() == before.sequence_spec()
                &&& after.playback_spec() == before.playback_spec()
                &&& after.crossfade_spec() == before.crossfade_spec()
                &&& after.speed_spec() == before.speed_spec()
                &&& after.flashed_spec() == before.flashed_spec()
                &&& after.active_spec() == before.active_spec()
                &&& after.flush_spec() == before.flush_spec()
                &&& after.last_tap_spec() == before.last_tap_spec()
                &&& after.tap_spec() == before.tap_spec()
            }
    } else {
        after == before
    }
}

/// What a player is left as after it is given a new playback rate.
pub open spec fn speed_set(before: CuePlayer, after: CuePlayer, speed: u16) -> bool {
    &&& state_kept(after, before)
    &&& after.speed_spec() == speed
    &&& after.tap_spec() == before.tap_spec()
    &&& after.last_tap_spec() == before.last_tap_spec()
    &&& after.crossfade_spec() == before.crossfade_spec()
    &&& after.flashed_spec() == before.flashed_spec()
}

/// What a player is left as after it is tapped for speed.
pub open spec fn tapped(before: CuePlayer, after: CuePlayer) -> bool {
    &&& state_kept(after, before)
    &&& after.tap_spec()
    &&& after.speed_spec() == before.speed_spec()
    &&& after.last_tap_spec() == before.last_tap_spec()
    &&& after.crossfade_spec() == before.crossfade_spec()
    &&& after.flashed_spec() == before.flashed_spec()
}

/// What a player is left as after it is given a new crossfade fader position.
pub open spec fn crossfade_moved(before: CuePlayer, after: CuePlayer, position: u16) -> bool {
    &&& state_kept(after, before)
    &&& after.crossfade_spec() == Some(
                match before.crossfade_spec() {
                    Some(f) => Crossfade {
                        position,
                        done: f.done || progress_spec(Crossfade { position, ..f }) == FADER_FULL,
                        ..f
                    },
                    None => Crossfade { origin: position, position, done: false },
                },
            )
    &&& after.speed_spec() == before.speed_spec()
    &&& after.tap_spec() == before.tap_spec()
    &&& after.last_tap_spec() == before.last_tap_spec()
    &&& after.flashed_spec() == before.flashed_spec()
}

/// What a player is left as after it is marked as started, or not, by a flash.
pub open spec fn flash_marked(before: CuePlayer, after: CuePlayer, flashed: bool) -> bool {
    &&& state_kept(after, before)
    &&& after.flashed_spec() == flashed
    &&& after.speed_spec() == before.speed_spec()
    &&& after.tap_spec() == before.tap_spec()
    &&& after.last_tap_spec() == before.last_tap_spec()
    &&& after.crossfade_spec() == before.crossfade_spec()
}

/// What a player is left as after a held flash starts it: switched on, and
/// marked as started by the flash; a player already running, or with nothing
/// to start, is left as it was.
pub open spec fn flashed_on(before: CuePlayer, after: CuePlayer) -> bool {
    if before.current_spec() is None && (before.sequence_spec() matches Some(sp) && sp.cues_spec().len() > 0) {
        &&& after.flashed_spec()
        &&& after.current_spec() == Some(0usize)
        &&& after.entries_spec() == begun(before.sequence_spec()->0, before.entries_spec(), 0)
        &&& after.sequence_spec() == before.sequence_spec()
        &&& after.playback_spec() == before.playback_spec()
        &&& after.speed_spec() == before.speed_spec()
    } else {
        after == before
    }
}

/// What a player is left as after a held flash is released: a player the
/// flash started is no longer marked and, if a cue was running, is switched
/// off; a player the flash did not start is left as it was.
pub open spec fn flashed_off(before: CuePlayer, after: CuePlayer) -> bool {
    if before.flashed_spec() {
        &&& !after.flashed_spec()
        &&& after.sequence_spec() == before.sequence_spec()
        &&& after.playback_spec() == before.playback_spec()
        &&& after.speed_spec() == before.speed_spec()
        &&& (before.sequence_spec() is Some && before.current_spec() is Some) ==> {
            &&& after.current_spec() is None
            &&& after.entries_spec() == released(before.sequence_spec()->0, before.entries_spec(), before.current_spec()->0 as int)
        }
    } else {
        after == before
    }
}

/// What a player is left as once a compiled sequence is put on it, stopped, with nothing held.
pub open spec fn sequence_loaded(before: CuePlayer, after: CuePlayer, sequence: SequencePlan) -> bool {
    &&& after.sequence_spec() == Some(sequence)
    &&& after.entries_spec().len() == sequence.slots_spec().len()
    &&& forall|p: int|
                0 <= p < after.entries_spec().len() ==> #[trigger] after.entries_spec()[p] == (Entry {
                    live: false,
                    from: 0,
                    to: 0,
                    value: 0,
                    duration: 0,
                })
    &&& after.current_spec() is None
    &&& after.clock_spec() == 0
    &&& after.remainder_spec() == 0
    &&& after.delay_spec() == 0
    &&& !after.restart_spec()
    &&& !after.flashed_spec()
    &&& !after.flush_spec()
    &&& after.playback_spec() == before.playback_spec()
    &&& after.speed_spec() == before.speed_spec()
    &&& after.crossfade_spec() == before.crossfade_spec()
    &&& after.last_tap_spec() == before.last_tap_spec()
    &&& after.tap_spec() == before.tap_spec()
    &&& after.last_tick_spec() == before.last_tick_spec()
    &&& after.active_spec() == before.active_spec()
}

/// One playback: where it is in its cue list, and what it is holding.
#[derive(Debug)]
pub struct CuePlayer {
    playback: PlaybackId,
    sequence: Option<SequencePlan>,
    entries: Vec<Entry>,
    current: Option<usize>,
    elapsed: u64,
    remainder: u32,
    last_tick: Option<u64>,
    speed: u16,
    delay: u64,
    restart: bool,
    tap: bool,
    last_tap: Option<u64>,
    crossfade: Option<Crossfade>,
    flashed: bool,
    active: bool,
    flush: bool,
}

impl CuePlayer {
    /// Which playback this is.
    pub closed spec fn playback_spec(&self) -> PlaybackId {
        self.playback
    }

    /// The compiled cue list, if one is loaded.
    pub closed spec fn sequence_spec(&self) -> Option<SequencePlan> {
        self.sequence
    }

    /// What the player holds, one entry per sequence slot.
    pub closed spec fn entries_spec(&self) -> Seq<Entry> {
        self.entries@
    }

    /// The cue being played.
    pub closed spec fn current_spec(&self) -> Option<usize> {
        self.current
    }

    /// The player's own clock: scaled ticks since the transition started.
    pub closed spec fn clock_spec(&self) -> u64 {
        self.elapsed
    }

    /// The fraction of a scaled tick carried.
    pub closed spec fn remainder_spec(&self) -> u32 {
        self.remainder
    }

    /// The tick the last advance was given.
    pub closed spec fn last_tick_spec(&self) -> Option<u64> {
        self.last_tick
    }

    /// The playback rate in units of the speed unity.
    pub closed spec fn speed_spec(&self) -> u16 {
        self.speed
    }

    /// Ticks of delay before the current transition moves anything.
    pub closed spec fn delay_spec(&self) -> u64 {
        self.delay
    }

    /// Whether the next advance starts the transition's clock afresh.
    pub closed spec fn restart_spec(&self) -> bool {
        self.restart
    }

    /// Whether a tap waits for the next advance.
    pub closed spec fn tap_spec(&self) -> bool {
        self.tap
    }

    /// When the previous tap landed.
    pub closed spec fn last_tap_spec(&self) -> Option<u64> {
        self.last_tap
    }

    /// The manual crossfade, while one is engaged.
    pub closed spec fn crossfade_spec(&self) -> Option<Crossfade> {
        self.crossfade
    }

    /// Whether a held flash started this playback.
    pub closed spec fn flashed_spec(&self) -> bool {
        self.flashed
    }

    /// Whether this player has told the layer its source is active.
    pub closed spec fn active_spec(&self) -> bool {
        self.active
    }

    /// Whether the source must be cleaned up once after an unload.
    pub closed spec fn flush_spec(&self) -> bool {
        self.flush
    }

    /// Where plan slot `slot` stands in the loaded sequence, if it does.
    pub open spec fn position_spec(&self, slot: int) -> Option<int> {
        match self.sequence_spec() {
            Some(sp) => if exists|p: int| 0 <= p < sp.slots_spec().len() && sp.slots_spec()[p].slot == slot {
                Some(choose|p: int| 0 <= p < sp.slots_spec().len() && sp.slots_spec()[p].slot == slot)
            } else {
                None
            },
            None => None,
        }
    }

    /// What this playback holds for one slot of the merge plan.
    pub open spec fn provides_spec(&self, slot: int) -> Option<u16> {
        match self.position_spec(slot) {
            Some(p) => if p < self.entries_spec().len() && self.entries_spec()[p].live {
                Some(self.entries_spec()[p].value)
            } else {
                None
            },
            None => None,
        }
    }

    /// The rate a pending tap at `tick` leaves: the running cue's transition
    /// over the tapped interval, when a second tap lands inside the window and
    /// the cue has a transition to learn from; the old rate otherwise.
    pub open spec fn tapped_speed(&self, tick: u64) -> u16 {
        if !self.tap_spec() {
            self.speed_spec()
        } else {
            match self.last_tap_spec() {
                None => self.speed_spec(),
                Some(previous) => {
                    let interval: int = if tick >= previous { tick - previous } else { 0 };
                    if interval == 0 || interval > TAP_WINDOW {
                        self.speed_spec()
                    } else {
                        let base: int = match (self.sequence_spec(), self.current_spec()) {
                            (Some(sp), Some(c)) => if c < sp.cues_spec().len() {
                                transition_spec(sp.cues_spec()[c as int].delay_spec(), sp.cues_spec()[c as int].fade_in_spec()) as int
                            } else {
                                0
                            },
                            _ => 0,
                        };
                        if base == 0 {
                            self.speed_spec()
                        } else {
                            let learned = base * SPEED_UNITY / interval;
                            if learned > u16::MAX {
                                u16::MAX
                            } else {
                                learned as u16
                            }
                        }
                    }
                },
            }
        }
    }

    /// When the previous tap landed, after a pending tap at `tick` is taken.
    pub open spec fn tapped_last(&self, tick: u64) -> Option<u64> {
        if self.tap_spec() {
            Some(tick)
        } else {
            self.last_tap_spec()
        }
    }

    /// A player for one playback, with no sequence on it: stopped, at unity
    /// speed, with no crossfade and nothing held.
    pub fn new(playback: PlaybackId) -> (r: CuePlayer)
        ensures
            r.playback_spec() == playback,
            r.sequence_spec() is None,
            r.entries_spec().len() == 0,
            r.current_spec() is None,
            r.clock_spec() == 0,
            r.remainder_spec() == 0,
            r.last_tick_spec() is None,
            r.speed_spec() == SPEED_UNITY,
            r.delay_spec() == 0,
            !r.restart_spec(),
            !r.tap_spec(),
            r.last_tap_spec() is None,
            r.crossfade_spec() is None,
            !r.flashed_spec(),
            !r.active_spec(),
            !r.flush_spec(),
    {
        CuePlayer {
            playback,
            sequence: None,
            entries: Vec::new(),
            current: None,
            elapsed: 0,
            remainder: 0,
            last_tick: None,
            speed: SPEED_UNITY,
            delay: 0,
            restart: false,
            tap: false,
            last_tap: None,
            crossfade: None,
            flashed: false,
            active: false,
            flush: false,
        }
    }

    /// Which playback this is.
    pub fn playback(&self) -> (r: PlaybackId)
        ensures
            r == self.playback_spec(),
    {
        self.playback
    }

    /// The compiled cue list, if one is loaded.
    pub fn sequence(&self) -> (r: Option<&SequencePlan>)
        ensures
            match r {
                Some(sp) => self.sequence_spec() == Some(*sp),
                None => self.sequence_spec() is None,
            },
    {
        match &self.sequence {
            Some(sp) => Some(sp),
            None => None,
        }
    }

    /// Whether a sequence is loaded. A player without one does not touch its
    /// source at all.
    pub fn is_loaded(&self) -> (r: bool)
        ensures
            r == self.sequence_spec() is Some,
    {
        self.sequence.is_some()
    }

    /// The cue being played, as an index into the sequence; `None` while the
    /// playback is stopped or releasing.
    pub fn current_cue(&self) -> (r: Option<usize>)
        ensures
            r == self.current_spec(),
    {
        self.current
    }

    /// What this playback holds for one slot of the merge plan.
    pub fn provides(&self, slot: usize) -> (r: Option<u16>)
        ensures
            r == self.provides_spec(slot as int),
    {
        let plan = match &self.sequence {
            Some(plan) => plan,
            None => return None,
        };
        let position = match plan.position_of(slot) {
            Some(p) => p,
            None => {
                proof {
                    assert(self.position_spec(slot as int) is None);
                }
                return None;
            },
        };
        proof {
            let q = choose|q: int| 0 <= q < plan.slots_spec().len() && plan.slots_spec()[q].slot == slot;
            crate::sorted::lemma_key_unique(plan.slots_spec(), q, position as int);
        }
        if position < self.entries.len() && self.entries[position].live {
            Some(self.entries[position].value)
        } else {
            None
        }
    }

    /// Puts a compiled sequence on this playback, stopped, with nothing held.
    /// The executor's own speed, crossfade and tap survive, as does what the
    /// layer was last told.
    pub fn load(&mut self, sequence: SequencePlan)
        ensures
            sequence_loaded(*old(self), *final(self), sequence),
    {
        let n = sequence.slot_count();
        let mut entries: Vec<Entry> = Vec::new();
        let mut i: usize = 0;
        while i < n
            invariant
                0 <= i <= n,
                entries@.len() == i,
                forall|p: int| 0 <= p < i ==> #[trigger] entries@[p] == (Entry { live: false, from: 0, to: 0, value: 0, duration: 0 }),
            decreases n - i,
        {
            entries.push(Entry { live: false, from: 0, to: 0, value: 0, duration: 0 });
            i = i + 1;
        }
        self.entries = entries;
        self.sequence = Some(sequence);
        self.current = None;
        self.elapsed = 0;
        self.remainder = 0;
        self.delay = 0;
        self.restart = false;
        self.flashed = false;
        self.flush = false;
    }

    /// Takes the sequence off this playback; the next tick clears what it held
    /// and takes its source out of the merge, once. Nothing for a player with
    /// no sequence.
    pub fn unload(&mut self)
        ensures
            old(self).sequence_spec() is None ==> *final(self) == *old(self),
            old(self).sequence_spec() is Some ==> {
                &&& final(self).sequence_spec() is None
                &&& final(self).entries_spec().len() == 0
                &&& final(self).current_spec() is None
                &&& !final(self).restart_spec()
                &&& final(self).flush_spec()
                &&& final(self).playback_spec() == old(self).playback_spec()
                &&& final(self).clock_spec() == old(self).clock_spec()
                &&& final(self).remainder_spec() == old(self).remainder_spec()
                &&& final(self).last_tick_spec() == old(self).last_tick_spec()
                &&& final(self).speed_spec() == old(self).speed_spec()
                &&& final(self).delay_spec() == old(self).delay_spec()
                &&& final(self).tap_spec() == old(self).tap_spec()
                &&& final(self).last_tap_spec() == old(self).last_tap_spec()
                &&& final(self).crossfade_spec() == old(self).crossfade_spec()
                &&& final(self).flashed_spec() == old(self).flashed_spec()
                &&& final(self).active_spec() == old(self).active_spec()
            },
    {
        if self.sequence.is_none() {
            return;
        }
        self.sequence = None;
        self.entries = Vec::new();
        self.current = None;
        self.restart = false;
        self.flush = true;
    }

    /// Enters cue `next`: every held attribute re-bases, the cue's own
    /// attributes take their targets, the transition's clock starts afresh on
    /// the next tick and a crossfade re-bases where its fader stands.
    fn enter(&mut self, next: usize)
        requires
            old(self).sequence_spec() is Some,
        ensures
            final(self).entries_spec() == begun(old(self).sequence_spec()->0, old(self).entries_spec(), next as int),
            final(self).delay_spec() == cue_delay(old(self).sequence_spec()->0, next as int),
            final(self).current_spec() == Some(next),
            final(self).restart_spec(),
            final(self).crossfade_spec() == rebased(old(self).crossfade_spec()),
            final(self).sequence_spec() == old(self).sequence_spec(),
            final(self).playback_spec() == old(self).playback_spec(),
            final(self).clock_spec() == old(self).clock_spec(),
            final(self).remainder_spec() == old(self).remainder_spec(),
            final(self).last_tick_spec() == old(self).last_tick_spec(),
            final(self).speed_spec() == old(self).speed_spec(),
            final(self).tap_spec() == old(self).tap_spec(),
            final(self).last_tap_spec() == old(self).last_tap_spec(),
            final(self).flashed_spec() == old(self).flashed_spec(),
            final(self).active_spec() == old(self).active_spec(),
            final(self).flush_spec() == old(self).flush_spec(),
    {
        let delay = match &self.sequence {
            Some(plan) => begin(plan, self.entries.as_mut_slice(), next),
            None => 0,
        };
        self.delay = delay;
        self.current = Some(next);
        self.restart = true;
        self.crossfade = match self.crossfade {
            Some(fade) => Some(Crossfade::new(fade.position)),
            None => None,
        };
    }

    /// Steps to the next or previous cue, starting the list if it was stopped;
    /// a Go always comes round at the ends. Returns `false`, changing nothing,
    /// if there is no sequence or it has no cues.
    pub fn go(&mut self, direction: GoDirection) -> (r: bool)
        ensures
            r == (old(self).sequence_spec() matches Some(sp) && step_spec(
                sp.cues_spec().len() as int,
                old(self).current_spec(),
                direction,
            ) is Some),
            went(*old(self), *final(self), direction),
    {
        let next = match &self.sequence {
            Some(plan) => plan.step(self.current, direction),
            None => return false,
        };
        match next {
            Some(next) => {
                self.enter(next);
                true
            },
            None => false,
        }
    }

    /// Jumps straight to one cue of the list, entering it with its own delay
    /// and fade and starting the list if it was stopped. Returns `false`,
    /// changing nothing, if there is no sequence or the index is past its end.
    pub fn goto(&mut self, index: usize) -> (r: bool)
        ensures
            r == (old(self).sequence_spec() matches Some(sp) && index < sp.cues_spec().len()),
            gone_to(*old(self), *final(self), index),
    {
        let count = match &self.sequence {
            Some(plan) => plan.cue_count(),
            None => return false,
        };
        if index >= count {
            return false;
        }
        self.enter(index);
        true
    }

    /// Starts the sequence at its first cue. Returns `false`, changing
    /// nothing, if there is nothing to start or the playback is already
    /// running: pressing On twice must not restart the list.
    pub fn on(&mut self) -> (r: bool)
        ensures
            r == (old(self).current_spec() is None && (old(self).sequence_spec() matches Some(sp)
                && sp.cues_spec().len() > 0)),
            switched_on(*old(self), *final(self)),
    {
        if self.current.is_some() {
            return false;
        }
        self.go(GoDirection::Next)
    }

    /// Stops the playback: intensities fade to home over the current cue's
    /// fade-out, everything else holds, and the source leaves the merge when
    /// the fade is over. Returns `false`, changing nothing, if no cue was
    /// running.
    pub fn off(&mut self) -> (r: bool)
        ensures
            r == (old(self).sequence_spec() is Some && old(self).current_spec() is Some),
            switched_off(*old(self), *final(self)),
    {
        let outgoing = match self.current {
            Some(c) => c,
            None => return false,
        };
        match &self.sequence {
            Some(plan) => release(plan, self.entries.as_mut_slice(), outgoing),
            None => return false,
        }
        self.current = None;
        self.delay = 0;
        self.restart = true;
        true
    }

    /// The playback rate, in units of the speed unity.
    pub fn speed(&self) -> (r: u16)
        ensures
            r == self.speed_spec(),
    {
        self.speed
    }

    /// Sets the playback rate; `0` freezes the playback where it is. The
    /// position already reached is kept.
    pub fn set_speed(&mut self, speed: u16)
        ensures
            speed_set(*old(self), *final(self), speed),
    {
        self.speed = speed;
    }

    /// Records a tap of the learn-speed key; the moment is taken on the next
    /// advance.
    pub fn tap(&mut self)
        ensures
            tapped(*old(self), *final(self)),
    {
        self.tap = true;
    }

    /// Where a manual crossfade fader is, if one is engaged.
    pub fn crossfade(&self) -> (r: Option<u16>)
        ensures
            r == match self.crossfade_spec() {
                Some(f) => Some(f.position),
                None => None,
            },
    {
        match self.crossfade {
            Some(fade) => Some(fade.position),
            None => None,
        }
    }

    /// How far through the current transition a manual crossfade has been
    /// pushed, or nothing when none is engaged.
    pub fn crossfade_progress(&self) -> (r: Option<u16>)
        ensures
            r == match self.crossfade_spec() {
                Some(f) => Some(progress_spec(f)),
                None => None,
            },
    {
        match self.crossfade {
            Some(fade) => Some(fade.progress()),
            None => None,
        }
    }

    /// Moves the manual crossfade fader. Engaging one takes the fader where it
    /// stands as the origin; reaching the end completes the travel.
    pub fn set_crossfade(&mut self, position: u16)
        ensures
            crossfade_moved(*old(self), *final(self), position),
    {
        match self.crossfade {
            Some(fade) => {
                let moved = Crossfade { origin: fade.origin, position, done: fade.done };
                let done = moved.done || moved.arrived();
                self.crossfade = Some(Crossfade { origin: fade.origin, position, done });
            },
            None => {
                self.crossfade = Some(Crossfade::new(position));
            },
        }
    }

    /// Takes the manual crossfade off, so the transition runs on time again.
    pub fn clear_crossfade(&mut self)
        ensures
            state_kept(*final(self), *old(self)),
            final(self).crossfade_spec() is None,
            final(self).speed_spec() == old(self).speed_spec(),
            final(self).tap_spec() == old(self).tap_spec(),
            final(self).last_tap_spec() == old(self).last_tap_spec(),
            final(self).flashed_spec() == old(self).flashed_spec(),
    {
        self.crossfade = None;
    }

    /// Whether a held flash is what started this playback.
    pub fn is_flashed(&self) -> (r: bool)
        ensures
            r == self.flashed_spec(),
    {
        self.flashed
    }

    /// Records that a flash did or did not start this playback.
    pub fn mark_flashed(&mut self, flashed: bool)
        ensures
            flash_marked(*old(self), *final(self), flashed),
    {
        self.flashed = flashed;
    }

    /// Starts the playback for a held flash, remembering that the flash is
    /// what started it. Returns `false`, changing nothing, if it was already
    /// running or there is nothing to start.
    pub fn flash_on(&mut self) -> (r: bool)
        ensures
            r == (old(self).current_spec() is None && (old(self).sequence_spec() matches Some(sp)
                && sp.cues_spec().len() > 0)),
            flashed_on(*old(self), *final(self)),
    {
        if !self.on() {
            return false;
        }
        self.flashed = true;
        true
    }

    /// Releases a held flash: stops the playback if, and only if, the flash is
    /// what started it.
    pub fn flash_off(&mut self) -> (r: bool)
        ensures
            r == (old(self).flashed_spec() && old(self).sequence_spec() is Some && old(self).current_spec() is Some),
            flashed_off(*old(self), *final(self)),
    {
        if !self.flashed {
            return false;
        }
        self.flashed = false;
        self.off()
    }
}


/// What an advance to `tick` does to a player: the tick and a pending tap are
/// taken; a loaded player's clock, held values, cue, delay and crossfade move
/// on as the tick says, and it records whether it wants its source in the
/// merge.
pub open spec fn advanced_from(before: CuePlayer, after: CuePlayer, tick: u64) -> bool {
    &&& !after.tap_spec()
    &&& after.speed_spec() == before.tapped_speed(tick)
    &&& after.last_tap_spec() == before.tapped_last(tick)
    &&& after.last_tick_spec() == Some(tick)
    &&& after.playback_spec() == before.playback_spec()
    &&& after.sequence_spec() == before.sequence_spec()
    &&& after.flashed_spec() == before.flashed_spec()
    &&& after.flush_spec() == before.flush_spec()
    &&& before.sequence_spec() is None ==> {
        &&& after.entries_spec() == before.entries_spec()
        &&& after.current_spec() == before.current_spec()
        &&& after.clock_spec() == before.clock_spec()
        &&& after.remainder_spec() == before.remainder_spec()
        &&& after.delay_spec() == before.delay_spec()
        &&& after.restart_spec() == before.restart_spec()
        &&& after.crossfade_spec() == before.crossfade_spec()
        &&& after.active_spec() == before.active_spec()
    }
    &&& before.sequence_spec() is Some ==> {
        &&& !after.restart_spec()
        &&& after.entries_spec() == before.entries_after(tick)
        &&& after.current_spec() == before.current_after(tick)
        &&& after.delay_spec() == before.delay_after(tick)
        &&& after.clock_spec() == if before.follows(tick) is Some {
            0
        } else {
            before.clock_after(tick)
        }
        &&& after.remainder_spec() == if before.follows(tick) is Some {
            0
        } else {
            before.remainder_after(tick)
        }
        &&& after.crossfade_spec() == if before.follows(tick) is Some {
            rebased(before.crossfade_spec())
        } else {
            before.crossfade_spec()
        }
        &&& after.active_spec() == before.wanted_after(tick)
    }
}

/// What an advance to `tick` tells the layer: nothing for a player with no
/// sequence or one whose wish is unchanged, else that its source goes in or
/// comes out.
pub open spec fn change_of(before: CuePlayer, tick: u64) -> Change {
    if before.sequence_spec() is None || before.wanted_after(tick) == before.active_spec() {
        Change::Unchanged
    } else if before.wanted_after(tick) {
        Change::Activate
    } else {
        Change::Deactivate
    }
}

impl CuePlayer {
    /// The player's clock after an advance to `tick`: started afresh after a
    /// Go, else moved on by the playback rate times the slots that passed.
    pub open spec fn clock_after(&self, tick: u64) -> u64 {
        if self.restart_spec() {
            0
        } else {
            sat64(
                self.clock_spec() + scaled_ticks(
                    self.tapped_speed(tick),
                    slots_passed(self.last_tick_spec(), tick),
                    self.remainder_spec(),
                ) / (SPEED_UNITY as u64),
            )
        }
    }

    /// The carried fraction after an advance to `tick`.
    pub open spec fn remainder_after(&self, tick: u64) -> u32 {
        if self.restart_spec() {
            0
        } else {
            (scaled_ticks(self.tapped_speed(tick), slots_passed(self.last_tick_spec(), tick), self.remainder_spec())
                % (SPEED_UNITY as u64)) as u32
        }
    }

    /// The crossfade progress that drives a cue transition, if one does.
    pub open spec fn manual_spec(&self) -> Option<u16> {
        match (self.current_spec(), self.crossfade_spec()) {
            (Some(_), Some(f)) => Some(progress_spec(f)),
            _ => None,
        }
    }

    /// The cue that starts by itself on an advance to `tick`, if one does.
    pub open spec fn follows(&self, tick: u64) -> Option<usize> {
        match (self.sequence_spec(), self.current_spec()) {
            (Some(sp), Some(i)) => match follow_step_spec(sp.cues_spec().len() as int, sp.looping_spec(), i) {
                Some(next) => if triggers_spec(
                    sp,
                    i as int,
                    next as int,
                    self.clock_after(tick),
                ) {
                    Some(next)
                } else {
                    None
                },
                None => None,
            },
            _ => None,
        }
    }

    /// The held attributes after an advance to `tick`, before a finished
    /// release lets them go.
    pub open spec fn stepped_entries(&self, tick: u64) -> Seq<Entry> {
        let e1 = evaluated(self.entries_spec(), self.manual_spec(), self.clock_after(tick), self.delay_spec());
        match self.follows(tick) {
            Some(next) => begun(self.sequence_spec()->0, e1, next as int),
            None => e1,
        }
    }

    /// The delay after an advance to `tick`.
    pub open spec fn delay_after(&self, tick: u64) -> u64 {
        match self.follows(tick) {
            Some(next) => cue_delay(self.sequence_spec()->0, next as int),
            None => self.delay_spec(),
        }
    }

    /// The cue after an advance to `tick`.
    pub open spec fn current_after(&self, tick: u64) -> Option<usize> {
        match self.follows(tick) {
            Some(next) => Some(next),
            None => self.current_spec(),
        }
    }

    /// The held attributes after an advance to `tick`.
    pub open spec fn entries_after(&self, tick: u64) -> Seq<Entry> {
        if self.current_after(tick) is None && release_over(
            self.stepped_entries(tick),
            self.clock_after(tick),
            self.delay_after(tick),
        ) {
            dropped(self.stepped_entries(tick))
        } else {
            self.stepped_entries(tick)
        }
    }

    /// Whether the playback wants its source in the merge after an advance.
    pub open spec fn wanted_after(&self, tick: u64) -> bool {
        self.current_after(tick) is Some || any_live(self.entries_after(tick))
    }

    /// Takes a pending tap as a moment: two taps inside the window set the
    /// rate from the running cue's own transition.
    fn resolve_tap(&mut self, tick: u64)
        ensures
            !final(self).tap_spec(),
            final(self).speed_spec() == old(self).tapped_speed(tick),
            final(self).last_tap_spec() == old(self).tapped_last(tick),
            state_kept(*final(self), *old(self)),
            final(self).crossfade_spec() == old(self).crossfade_spec(),
            final(self).flashed_spec() == old(self).flashed_spec(),
    {
        if !self.tap {
            return;
        }
        self.tap = false;
        let previous = self.last_tap;
        self.last_tap = Some(tick);
        let previous = match previous {
            Some(p) => p,
            None => return,
        };
        let interval = tick.saturating_sub(previous);
        if interval == 0 || interval > TAP_WINDOW {
            return;
        }
        let base: u64 = match (&self.sequence, self.current) {
            (Some(plan), Some(c)) => match plan.cue(c) {
                Some(cue) => cue.transition_ticks(),
                None => 0,
            },
            _ => 0,
        };
        if base == 0 {
            return;
        }
        proof {
            assert(base as int * 1024 <= 0xffff_ffff_ffff_ffff * 1024) by (nonlinear_arith)
                requires
                    base <= 0xffff_ffff_ffff_ffff,
            ;
        }
        let learned: u128 = (base as u128 * SPEED_UNITY as u128) / (interval as u128);
        self.speed = if learned > 65535 {
            65535
        } else {
            learned as u16
        };
    }

    /// Moves the playback on to tick `tick` and works out what it holds: the
    /// clock, every held value, at most one automatic cue, the end of a
    /// finished release, and whether the source's place in the merge changed.
    /// A player with no sequence only takes the tick and a pending tap.
    #[verifier::rlimit(40)]
    pub fn advance(&mut self, tick: u64) -> (r: Change)
        ensures
            advanced_from(*old(self), *final(self), tick),
            r == change_of(*old(self), tick),
    {
        let ghost before = *self;
        self.resolve_tap(tick);
        let slots: u64 = match self.last_tick {
            Some(last) => tick.saturating_sub(last),
            None => 0,
        };
        self.last_tick = Some(tick);
        if self.sequence.is_none() {
            return Change::Unchanged;
        }
        if self.restart {
            self.elapsed = 0;
            self.remainder = 0;
            self.restart = false;
        } else {
            proof {
                assert(self.speed as int * slots as int <= 65535 * 0xffff_ffff_ffff_ffff) by (nonlinear_arith)
                    requires
                        self.speed <= 65535,
                        slots <= 0xffff_ffff_ffff_ffff,
                ;
            }
            let product: u128 = self.speed as u128 * slots as u128;
            let capped: u64 = if product > 0xffff_ffff_ffff_ffff {
                0xffff_ffff_ffff_ffff
            } else {
                product as u64
            };
            let scaled = capped.saturating_add(self.remainder as u64);
            self.elapsed = self.elapsed.saturating_add(scaled / (SPEED_UNITY as u64));
            self.remainder = (scaled % (SPEED_UNITY as u64)) as u32;
        }
        let elapsed = self.elapsed;
        let manual = match (self.current, self.crossfade) {
            (Some(_), Some(fade)) => Some(fade.progress()),
            _ => None,
        };
        evaluate_entries(self.entries.as_mut_slice(), manual, elapsed, self.delay);

        let mut follow: Option<usize> = None;
        match (&self.sequence, self.current) {
            (Some(plan), Some(index)) => match plan.follow_step(index) {
                Some(next) => {
                    if triggers(plan, index, next, elapsed) {
                        follow = Some(next);
                    }
                },
                None => {},
            },
            _ => {},
        }
        proof {
            assert(follow == before.follows(tick));
        }
        match follow {
            Some(next) => {
                let delay = match &self.sequence {
                    Some(plan) => begin(plan, self.entries.as_mut_slice(), next),
                    None => 0,
                };
                self.delay = delay;
                self.current = Some(next);
                self.elapsed = 0;
                self.remainder = 0;
                self.crossfade = match self.crossfade {
                    Some(fade) => Some(Crossfade::new(fade.position)),
                    None => None,
                };
            },
            None => {},
        }
        if self.current.is_none() && release_is_over(self.entries.as_slice(), elapsed, self.delay) {
            drop_entries(self.entries.as_mut_slice());
        }
        let wanted = self.current.is_some() || holds_anything(self.entries.as_slice());
        if wanted == self.active {
            return Change::Unchanged;
        }
        self.active = wanted;
        if wanted {
            Change::Activate
        } else {
            Change::Deactivate
        }
    }

    /// Writes what the playback holds into its source: the source provides
    /// exactly the held values, each at its plan slot, and nothing else. A
    /// player with no sequence leaves the source empty.
    pub fn write(&self, source: &mut PlaybackSource)
        requires
            old(source).wf(),
        ensures
            final(source).wf(),
            final(source).id_spec() == old(source).id_spec(),
            final(source).activation_spec() == old(source).activation_spec(),
            final(source).master_spec() == old(source).master_spec(),
            final(source).flash_spec() == old(source).flash_spec(),
            final(source).slot_len() == old(source).slot_len(),
            forall|s: int|
                #[trigger] final(source).get_spec(s) == if 0 <= s < old(source).slot_len() {
                    self.provides_spec(s)
                } else {
                    None
                },
    {
        source.clear();
        let plan = match &self.sequence {
            Some(plan) => plan,
            None => {
                proof {
                    assert forall|s: int| #[trigger] source.get_spec(s) == if 0 <= s < old(source).slot_len() {
                        self.provides_spec(s)
                    } else {
                        None
                    } by {}
                }
                return;
            },
        };
        let slots = plan.slots();
        let count = slots.len();
        let n = self.entries.len();
        let mut p: usize = 0;
        while p < n
            invariant
                0 <= p <= n,
                n == self.entries@.len(),
                count == plan.slots_spec().len(),
                slots@ == plan.slots_spec(),
                strictly_sorted(slots@),
                self.sequence_spec() == Some(*plan),
                source.wf(),
                source.id_spec() == old(source).id_spec(),
                source.activation_spec() == old(source).activation_spec(),
                source.master_spec() == old(source).master_spec(),
                source.flash_spec() == old(source).flash_spec(),
                source.slot_len() == old(source).slot_len(),
                forall|s: int|
                    #[trigger] source.get_spec(s) == if 0 <= s < source.slot_len() && exists|q: int|
                        0 <= q < p && q < count && self.entries@[q].live && slots@[q].slot == s {
                        self.provides_spec(s)
                    } else {
                        None
                    },
            decreases n - p,
        {
            let e = self.entries[p];
            if e.live && p < count {
                let slot = slots[p].slot;
                let ghost before = *source;
                source.set(slot, e.value);
                proof {
                    assert(self.position_spec(slot as int) == Some(p as int)) by {
                        let q = choose|q: int| 0 <= q < plan.slots_spec().len() && plan.slots_spec()[q].slot == slot;
                        crate::sorted::lemma_key_unique(plan.slots_spec(), q, p as int);
                    }
                    assert forall|s: int|
                        #[trigger] source.get_spec(s) == if 0 <= s < source.slot_len() && exists|q: int|
                            0 <= q < p + 1 && q < count && self.entries@[q].live && slots@[q].slot == s {
                            self.provides_spec(s)
                        } else {
                            None
                        } by {
                        let bs = before.get_spec(s);
                        if s != slot {
                            if exists|q: int| 0 <= q < p + 1 && q < count && self.entries@[q].live && slots@[q].slot == s {
                                let q = choose|q: int| 0 <= q < p + 1 && q < count && self.entries@[q].live && slots@[q].slot == s;
                                assert(q != p);
                            }
                        }
                    }
                }
            } else {
                proof {
                    assert forall|s: int|
                        #[trigger] source.get_spec(s) == if 0 <= s < source.slot_len() && exists|q: int|
                            0 <= q < p + 1 && q < count && self.entries@[q].live && slots@[q].slot == s {
                            self.provides_spec(s)
                        } else {
                            None
                        } by {
                        if exists|q: int| 0 <= q < p + 1 && q < count && self.entries@[q].live && slots@[q].slot == s {
                            let q = choose|q: int| 0 <= q < p + 1 && q < count && self.entries@[q].live && slots@[q].slot == s;
                            assert(q != p);
                        }
                    }
                }
            }
            p = p + 1;
        }
        proof {
            assert forall|s: int| #[trigger] source.get_spec(s) == if 0 <= s < old(source).slot_len() {
                self.provides_spec(s)
            } else {
                None
            } by {
                if 0 <= s < source.slot_len() && self.provides_spec(s) is Some {
                    let q = self.position_spec(s)->0;
                    assert(0 <= q < count && self.entries@[q].live && slots@[q].slot == s);
                }
            }
        }
    }
}

/// What one player's turn of a layer advance does to it: a loaded player is
/// advanced; an unloaded one is left alone, except that once after an unload
/// it forgets its source.
pub open spec fn layer_step(before: CuePlayer, after: CuePlayer, tick: u64) -> bool {
    if before.sequence_spec() is Some {
        advanced_from(before, after, tick)
    } else if before.flush_spec() {
        &&& !after.flush_spec()
        &&& !after.active_spec()
        &&& after.playback_spec() == before.playback_spec()
        &&& after.sequence_spec() == before.sequence_spec()
        &&& after.entries_spec() == before.entries_spec()
        &&& after.current_spec() == before.current_spec()
        &&& after.clock_spec() == before.clock_spec()
        &&& after.remainder_spec() == before.remainder_spec()
        &&& after.last_tick_spec() == before.last_tick_spec()
        &&& after.delay_spec() == before.delay_spec()
        &&& after.restart_spec() == before.restart_spec()
        &&& settings_kept(after, before)
    } else {
        after == before
    }
}

/// What one player's turn of a layer advance does to its source: a loaded
/// player's source provides exactly what the player holds, going in or out
/// of the merge as the player said; the source of a player just unloaded is
/// emptied and taken out; any other is left alone.
pub open spec fn source_step(
    before: PlaybackSource,
    after: PlaybackSource,
    player: CuePlayer,
    advanced: CuePlayer,
    tick: u64,
) -> bool {
    &&& after.wf()
    &&& after.id_spec() == before.id_spec()
    &&& after.master_spec() == before.master_spec()
    &&& after.flash_spec() == before.flash_spec()
    &&& after.slot_len() == before.slot_len()
    &&& if player.sequence_spec() is Some {
        &&& forall|s: int|
            #[trigger] after.get_spec(s) == if 0 <= s < before.slot_len() {
                advanced.provides_spec(s)
            } else {
                None
            }
        &&& match change_of(player, tick) {
            Change::Activate => after.activation_spec() is Some && (before.activation_spec() is Some
                ==> after.activation_spec() == before.activation_spec()),
            Change::Deactivate => after.activation_spec() is None,
            Change::Unchanged => after.activation_spec() == before.activation_spec(),
        }
    } else if player.flush_spec() {
        &&& after.activation_spec() is None
        &&& forall|s: int| #[trigger] after.get_spec(s) is None
    } else {
        after == before
    }
}

/// What an advance to `tick` does to the players and the layer they feed:
/// each player steps as [`layer_step`] says, and each source follows its own
/// player as [`source_step`] says; a source with no player is left alone.
pub open spec fn cues_advanced(
    before: CueLayer,
    after: CueLayer,
    layer_before: PlaybackLayer,
    layer_after: PlaybackLayer,
    tick: u64,
) -> bool {
    &&& after.players_spec().len() == before.players_spec().len()
    &&& forall|i: int|
        0 <= i < before.players_spec().len() ==> layer_step(
            before.players_spec()[i],
            #[trigger] after.players_spec()[i],
            tick,
        )
    &&& layer_after.sources_spec().len() == layer_before.sources_spec().len()
    &&& forall|k: int|
        0 <= k < layer_before.sources_spec().len() ==> {
            let b = layer_before.sources_spec()[k];
            let a = #[trigger] layer_after.sources_spec()[k];
            match before.player_position(b.id_spec()) {
                Some(i) => source_step(b, a, before.players_spec()[i], after.players_spec()[i], tick),
                None => a == b,
            }
        }
}

/// Two players that agree on everything a player holds.
pub open spec fn same_player(a: CuePlayer, b: CuePlayer) -> bool {
    &&& state_kept(a, b)
    &&& settings_kept(a, b)
}

/// A cue list lands in the same place whether it was walked to a cue or
/// jumped straight to it: a Go that arrives at a cue and a Goto to that cue,
/// from the same player, leave the player the same.
pub proof fn law_walking_to_a_cue_and_jumping_to_it_agree(
    before: CuePlayer,
    walked: CuePlayer,
    jumped: CuePlayer,
    direction: GoDirection,
)
    requires
        before.sequence_spec() is Some,
        step_spec(before.sequence_spec()->0.cues_spec().len() as int, before.current_spec(), direction) is Some,
        went(before, walked, direction),
        gone_to(
            before,
            jumped,
            step_spec(before.sequence_spec()->0.cues_spec().len() as int, before.current_spec(), direction)->0,
        ),
    ensures
        same_player(walked, jumped),
{
}

/// The automatic chain of a list that does not loop ends at its last cue: an
/// advance from there starts no cue, whatever the triggers and the times say,
/// and the playback stays on that cue.
pub proof fn law_a_list_that_does_not_loop_stops_at_its_last_cue(before: CuePlayer, after: CuePlayer, tick: u64)
    requires
        before.sequence_spec() is Some,
        !before.sequence_spec()->0.looping_spec(),
        before.current_spec() matches Some(c) && c + 1 == before.sequence_spec()->0.cues_spec().len(),
        advanced_from(before, after, tick),
    ensures
        before.follows(tick) is None,
        after.current_spec() == before.current_spec(),
{
}

/// One advance starts at most one cue: the playback is on the cue it was on,
/// or on the one after it in the list's automatic chain.
pub proof fn law_an_advance_starts_at_most_one_cue(before: CuePlayer, after: CuePlayer, tick: u64)
    requires
        before.sequence_spec() is Some,
        advanced_from(before, after, tick),
    ensures
        after.current_spec() == before.current_spec() || (before.current_spec() matches Some(c)
            && after.current_spec() == follow_step_spec(
            before.sequence_spec()->0.cues_spec().len() as int,
            before.sequence_spec()->0.looping_spec(),
            c,
        )),
{
}

/// A list that does not loop comes to rest on its last cue: once every held
/// attribute's fade has had its time, an advance keeps the playback on that
/// cue and holds each attribute at its target, tick after tick.
pub proof fn law_a_finished_list_rests_on_its_last_cue(before: CuePlayer, after: CuePlayer, tick: u64)
    requires
        before.sequence_spec() is Some,
        !before.sequence_spec()->0.looping_spec(),
        before.current_spec() matches Some(c) && c + 1 == before.sequence_spec()->0.cues_spec().len(),
        before.crossfade_spec() is None,
        forall|p: int|
            0 <= p < before.entries_spec().len() && (#[trigger] before.entries_spec()[p]).live ==> before.clock_after(tick)
                >= before.delay_spec() + before.entries_spec()[p].duration,
        advanced_from(before, after, tick),
    ensures
        after.current_spec() == before.current_spec(),
        after.entries_spec().len() == before.entries_spec().len(),
        forall|p: int|
            0 <= p < before.entries_spec().len() && (#[trigger] before.entries_spec()[p]).live ==> after.entries_spec()[p].live
                && after.entries_spec()[p].value == before.entries_spec()[p].to,
{
    assert(before.follows(tick) is None);
    assert forall|p: int|
        0 <= p < before.entries_spec().len() && (#[trigger] before.entries_spec()[p]).live implies after.entries_spec()[p].live
            && after.entries_spec()[p].value == before.entries_spec()[p].to by {
        let e = before.entries_spec()[p];
        let elapsed = before.clock_after(tick);
        crate::cue::law_a_fade_starts_at_its_start_and_ends_at_its_target(e.from, e.to, (elapsed - before.delay_spec()) as u64, e.duration);
    }
}

/// A playback at speed zero with no tap waiting is frozen: an advance, however
/// many tick slots it covers, moves neither its clock nor the fraction it
/// carries. (Every player's carried fraction is below one tick: it starts at
/// zero and an advance leaves it a remainder of the speed unit.)
pub proof fn law_a_playback_at_speed_zero_does_not_move(before: CuePlayer, tick: u64)
    requires
        before.speed_spec() == 0,
        !before.tap_spec(),
        !before.restart_spec(),
        before.remainder_spec() < SPEED_UNITY,
    ensures
        before.clock_after(tick) == before.clock_spec(),
        before.remainder_after(tick) == before.remainder_spec(),
{
    assert(sat64(0int * slots_passed(before.last_tick_spec(), tick)) == 0) by (nonlinear_arith);
}

/// At unity speed the clock counts tick slots, not advances: an advance that
/// comes after missed slots moves the clock by every slot that went by, so a
/// playback that stalled is where one that never stalled would be.
pub proof fn law_a_missed_tick_moves_the_clock_by_the_time_it_took(before: CuePlayer, tick: u64)
    requires
        before.speed_spec() == SPEED_UNITY,
        !before.tap_spec(),
        !before.restart_spec(),
        before.remainder_spec() == 0,
        slots_passed(before.last_tick_spec(), tick) * SPEED_UNITY <= u64::MAX,
    ensures
        before.clock_after(tick) == sat64(before.clock_spec() + slots_passed(before.last_tick_spec(), tick)),
        before.remainder_after(tick) == 0,
{
    let slots = slots_passed(before.last_tick_spec(), tick);
    assert((slots * 1024) / 1024 == slots && (slots * 1024) % 1024 == 0) by (nonlinear_arith);
}

/// One player per playback, kept in step with a [`PlaybackLayer`].
#[derive(Debug)]
pub struct CueLayer {
    players: Vec<CuePlayer>,
}

impl CueLayer {
    /// The players are ordered by playback, each playback once.
    pub closed spec fn wf(&self) -> bool {
        forall|i: int, j: int|
            0 <= i < j < self.players@.len() ==> self.players@[i].playback_spec().0 < self.players@[j].playback_spec().0
    }

    /// The players, in playback order.
    pub closed spec fn players_spec(&self) -> Seq<CuePlayer> {
        self.players@
    }

    /// Where a playback's player stands, if the layer has one.
    pub open spec fn player_position(&self, id: PlaybackId) -> Option<int> {
        if exists|i: int| 0 <= i < self.players_spec().len() && self.players_spec()[i].playback_spec() == id {
            Some(choose|i: int| 0 <= i < self.players_spec().len() && self.players_spec()[i].playback_spec() == id)
        } else {
            None
        }
    }

    /// In a well-formed layer, the player for a playback is the one its
    /// position names.
    pub proof fn lemma_player_at(c: CueLayer, id: PlaybackId, j: int)
        requires
            c.wf(),
            0 <= j < c.players_spec().len(),
            c.players_spec()[j].playback_spec() == id,
        ensures
            c.player_position(id) == Some(j),
    {
        let k = choose|i: int| 0 <= i < c.players_spec().len() && c.players_spec()[i].playback_spec() == id;
        if k < j {
            assert(c.players@[k].playback_spec().0 < c.players@[j].playback_spec().0);
        } else if k > j {
            assert(c.players@[j].playback_spec().0 < c.players@[k].playback_spec().0);
        }
    }

    /// Replacing one player by one for the same playback keeps the layer well
    /// formed.
    pub proof fn lemma_replace_keeps_wf(before: CueLayer, after: CueLayer, i: int)
        requires
            before.wf(),
            0 <= i < before.players_spec().len(),
            after.players_spec() == before.players_spec().update(i, after.players_spec()[i]),
            after.players_spec()[i].playback_spec() == before.players_spec()[i].playback_spec(),
        ensures
            after.wf(),
    {
        assert forall|a: int, b: int| 0 <= a < b < after.players@.len() implies after.players@[a].playback_spec().0
            < after.players@[b].playback_spec().0 by {
            assert(before.players@[a].playback_spec().0 < before.players@[b].playback_spec().0);
        }
    }

    /// A layer with the same players as a well-formed one is well formed.
    pub proof fn lemma_same_players(before: CueLayer, after: CueLayer)
        requires
            before.wf(),
            after.players_spec() == before.players_spec(),
        ensures
            after.wf(),
    {
    }

    /// A player for every source in a layer, none of them loaded, in the
    /// layer's order.
    pub fn for_layer(layer: &PlaybackLayer) -> (r: CueLayer)
        requires
            layer.wf(),
        ensures
            r.wf(),
            r.players_spec().len() == layer.sources_spec().len(),
            forall|i: int|
                0 <= i < r.players_spec().len() ==> {
                    let p = #[trigger] r.players_spec()[i];
                    &&& p.playback_spec() == layer.sources_spec()[i].id_spec()
                    &&& p.sequence_spec() is None
                    &&& p.entries_spec().len() == 0
                    &&& p.current_spec() is None
                    &&& p.speed_spec() == SPEED_UNITY
                    &&& p.crossfade_spec() is None
                    &&& !p.active_spec()
                    &&& !p.flush_spec()
                    &&& !p.flashed_spec()
                    &&& !p.tap_spec()
                    &&& p.last_tick_spec() is None
                    &&& p.last_tap_spec() is None
                    &&& !p.restart_spec()
                },
    {
        let sources = layer.sources();
        let mut players: Vec<CuePlayer> = Vec::new();
        let mut i: usize = 0;
        proof {
            layer.lemma_sorted();
        }
        while i < sources.len()
            invariant
                0 <= i <= sources@.len(),
                sources@ == layer.sources_spec(),
                crate::playback::sorted_by_playback(sources@),
                players@.len() == i,
                forall|q: int|
                    0 <= q < i ==> {
                        let p = #[trigger] players@[q];
                        &&& p.playback_spec() == sources@[q].id_spec()
                        &&& p.sequence_spec() is None
                        &&& p.entries_spec().len() == 0
                        &&& p.current_spec() is None
                        &&& p.speed_spec() == SPEED_UNITY
                        &&& p.crossfade_spec() is None
                        &&& !p.active_spec()
                        &&& !p.flush_spec()
                        &&& !p.flashed_spec()
                        &&& !p.tap_spec()
                        &&& p.last_tick_spec() is None
                        &&& p.last_tap_spec() is None
                        &&& !p.restart_spec()
                    },
            decreases sources@.len() - i,
        {
            players.push(CuePlayer::new(sources[i].id()));
            i = i + 1;
        }
        CueLayer { players }
    }

    /// How many players this layer holds.
    pub fn player_count(&self) -> (r: usize)
        ensures
            r == self.players_spec().len(),
    {
        self.players.len()
    }

    /// Every player, in playback order.
    pub fn players(&self) -> (r: &[CuePlayer])
        ensures
            r@ == self.players_spec(),
    {
        self.players.as_slice()
    }

    /// The position of a playback's player: a binary search.
    fn index_of(&self, id: PlaybackId) -> (r: Option<usize>)
        requires
            self.wf(),
        ensures
            r matches Some(i) ==> self.player_position(id) == Some(i as int),
            r is None ==> self.player_position(id) is None,
    {
        let mut lo: usize = 0;
        let mut hi: usize = self.players.len();
        while lo < hi
            invariant
                0 <= lo <= hi <= self.players@.len(),
                self.wf(),
                forall|i: int| 0 <= i < lo ==> self.players@[i].playback_spec().0 < id.0,
                forall|i: int| hi <= i < self.players@.len() ==> self.players@[i].playback_spec().0 > id.0,
            decreases hi - lo,
        {
            let mid = lo + (hi - lo) / 2;
            let here = self.players[mid].playback();
            if here.0 == id.0 {
                proof {
                    assert(self.players@[mid as int].playback_spec() == id);
                    let c = choose|i: int| 0 <= i < self.players_spec().len() && self.players_spec()[i].playback_spec() == id;
                    if c < mid {
                        assert(self.players@[c].playback_spec().0 < self.players@[mid as int].playback_spec().0);
                    }
                    if c > mid {
                        assert(self.players@[mid as int].playback_spec().0 < self.players@[c].playback_spec().0);
                    }
                }
                return Some(mid);
            } else if here.0 < id.0 {
                lo = mid + 1;
            } else {
                hi = mid;
            }
        }
        None
    }

    /// One player by playback.
    pub fn player(&self, id: PlaybackId) -> (r: Option<&CuePlayer>)
        requires
            self.wf(),
        ensures
            match r {
                Some(p) => self.player_position(id) matches Some(i) && *p == self.players_spec()[i],
                None => self.player_position(id) is None,
            },
    {
        match self.index_of(id) {
            Some(i) => Some(&self.players[i]),
            None => None,
        }
    }

    /// One player by playback, for loading a sequence or stepping it.
    pub fn player_mut(&mut self, id: PlaybackId) -> (r: Option<&mut CuePlayer>)
        requires
            old(self).wf(),
        ensures
            match r {
                Some(p) => old(self).player_position(id) matches Some(i) && *p == old(self).players_spec()[i]
                    && final(self).players_spec() == old(self).players_spec().update(i, *final(p)),
                None => old(self).player_position(id) is None && final(self).players_spec() == old(self).players_spec(),
            },
    {
        match self.index_of(id) {
            Some(i) => Some(crate::slots::element_mut(&mut self.players, i)),
            None => None,
        }
    }

    /// Runs every playback on to tick `tick` and writes the result into
    /// `layer`: each loaded player is advanced, its source filled with what it
    /// holds and put into or taken out of the merge as it says; a player just
    /// unloaded empties its source and takes it out, once; any other source is
    /// left alone.
    #[verifier::rlimit(60)]
    pub fn advance(&mut self, tick: u64, layer: &mut PlaybackLayer)
        requires
            old(self).wf(),
            old(layer).wf(),
        ensures
            final(self).wf(),
            final(layer).wf(),
            cues_advanced(*old(self), *final(self), *old(layer), *final(layer), tick),
    {
        let n = self.players.len();
        let ghost old_players = self.players@;
        let ghost old_sources = layer.sources_spec();
        proof {
            layer.lemma_sorted();
        }
        let mut i: usize = 0;
        while i < n
            invariant
                0 <= i <= n,
                n == self.players@.len(),
                old_players.len() == n,
                layer.wf(),
                layer.sources_spec().len() == old_sources.len(),
                forall|k: int| 0 <= k < old_sources.len() ==> #[trigger] layer.sources_spec()[k].id_spec() == old_sources[k].id_spec(),
                forall|a: int, b: int| 0 <= a < b < n ==> old_players[a].playback_spec().0 < old_players[b].playback_spec().0,
                forall|q: int| 0 <= q < n ==> #[trigger] self.players@[q].playback_spec() == old_players[q].playback_spec(),
                forall|q: int| 0 <= q < i ==> layer_step(old_players[q], #[trigger] self.players@[q], tick),
                forall|q: int| i <= q < n ==> #[trigger] self.players@[q] == old_players[q],
                forall|k: int|
                    0 <= k < old_sources.len() ==> {
                        let before = old_sources[k];
                        let after = #[trigger] layer.sources_spec()[k];
                        if exists|q: int| 0 <= q < i && old_players[q].playback_spec() == before.id_spec() {
                            let q = choose|q: int| 0 <= q < i && old_players[q].playback_spec() == before.id_spec();
                            source_step(before, after, old_players[q], self.players@[q], tick)
                        } else {
                            after == before
                        }
                    },
            decreases n - i,
        {
            let id = self.players[i].playback();
            let ghost before_layer = *layer;
            let ghost before_players = self.players@;
            let ghost pl0 = self.players@[i as int];
            proof {
                before_layer.lemma_sorted();
                assert(pl0 == old_players[i as int]);
            }
            let player = crate::slots::element_mut(&mut self.players, i);
            if !player.is_loaded() {
                if player.flush {
                    player.flush = false;
                    player.active = false;
                    match layer.source_mut(id) {
                        Some(source) => source.clear(),
                        None => {},
                    }
                    let ghost mid = *layer;
                    proof {
                        if before_layer.position_of(id) is Some {
                            let k = before_layer.position_of(id)->0;
                            assert(mid.sources_spec() == before_layer.sources_spec().update(k, mid.sources_spec()[k]));
                            crate::playback::PlaybackLayer::lemma_replace_source(&before_layer, &mid, k);
                        } else {
                            crate::playback::PlaybackLayer::lemma_same_sources(&before_layer, &mid);
                        }
                        mid.lemma_sorted();
                    }
                    layer.deactivate(id);
                    proof {
                        let fl = *layer;
                        fl.lemma_sorted();
                        if let Some(pk) = before_layer.position_of(id) {
                            assert(mid.position_of(id) == Some(pk));
                            let h = before_layer.sources_spec()[pk];
                            let a = layer.sources_spec()[pk];
                            let m = mid.sources_spec()[pk];
                            assert(m.id_spec() == h.id_spec());
                            assert(m.master_spec() == h.master_spec());
                            assert(m.flash_spec() == h.flash_spec());
                            assert(m.slot_len() == h.slot_len());
                            assert(a.wf());
                            assert(a.id_spec() == h.id_spec());
                            assert(a.master_spec() == h.master_spec());
                            assert(a.flash_spec() == h.flash_spec());
                            assert(a.slot_len() == h.slot_len());
                            assert(a.activation_spec() is None);
                            assert forall|s: int| #[trigger] a.get_spec(s) is None by {
                                assert(mid.sources_spec()[pk].get_spec(s) is None);
                            }
                            assert(source_step(h, a, pl0, *player, tick));
                            assert forall|k: int| 0 <= k < before_layer.sources_spec().len() && k != pk implies #[trigger] layer.sources_spec()[k]
                                == before_layer.sources_spec()[k] by {
                                assert(mid.sources_spec()[k] == before_layer.sources_spec()[k]);
                            }
                        } else {
                            assert(mid.position_of(id) is None);
                            assert(layer.sources_spec() == before_layer.sources_spec());
                        }
                    }
                } else {
                    proof {
                        assert(layer.sources_spec() == before_layer.sources_spec());
                    }
                }
            } else {
                let change = player.advance(tick);
                match change {
                    Change::Activate => {
                        layer.activate(id);
                    },
                    Change::Deactivate => {
                        layer.deactivate(id);
                    },
                    Change::Unchanged => {},
                }
                let ghost mid = *layer;
                proof {
                    mid.lemma_sorted();
                    if let Some(pk) = before_layer.position_of(id) {
                        assert(mid.sources_spec()[pk].id_spec() == id);
                        assert(mid.position_of(id) == Some(pk));
                        assert forall|k: int| 0 <= k < before_layer.sources_spec().len() && k != pk implies #[trigger] mid.sources_spec()[k]
                            == before_layer.sources_spec()[k] by {}
                    } else {
                        assert forall|k: int| 0 <= k < mid.sources_spec().len() implies #[trigger] mid.sources_spec()[k].id_spec() != id by {
                            assert(mid.sources_spec()[k] == before_layer.sources_spec()[k]);
                        }
                        assert(mid.position_of(id) is None);
                        assert(mid.sources_spec() == before_layer.sources_spec());
                    }
                }
                match layer.source_mut(id) {
                    Some(source) => player.write(source),
                    None => {},
                }
                proof {
                    if mid.position_of(id) is Some {
                        let k = mid.position_of(id)->0;
                        crate::playback::PlaybackLayer::lemma_replace_source(&mid, layer, k);
                    } else {
                        crate::playback::PlaybackLayer::lemma_same_sources(&mid, layer);
                    }
                    if let Some(pk) = before_layer.position_of(id) {
                        let h = before_layer.sources_spec()[pk];
                        let a = layer.sources_spec()[pk];
                        assert(source_step(h, a, pl0, *player, tick));
                        assert forall|k: int| 0 <= k < before_layer.sources_spec().len() && k != pk implies #[trigger] layer.sources_spec()[k]
                            == before_layer.sources_spec()[k] by {
                            assert(mid.sources_spec()[k] == before_layer.sources_spec()[k]);
                        }
                    } else {
                        assert(layer.sources_spec() == before_layer.sources_spec());
                    }
                }
            }
            proof {
                let after_layer = *layer;
                after_layer.lemma_sorted();
                assert(self.players@ == before_players.update(i as int, self.players@[i as int]));
                assert forall|q: int| 0 <= q < n implies #[trigger] self.players@[q].playback_spec() == old_players[q].playback_spec() by {
                    if q != i {
                        assert(self.players@[q] == before_players[q]);
                    }
                }
                assert forall|q: int| 0 <= q < i + 1 implies layer_step(old_players[q], #[trigger] self.players@[q], tick) by {
                    if q != i {
                        assert(self.players@[q] == before_players[q]);
                    }
                }
                assert forall|q: int| i + 1 <= q < n implies #[trigger] self.players@[q] == old_players[q] by {
                    assert(self.players@[q] == before_players[q]);
                }
                assert forall|k: int| 0 <= k < old_sources.len() implies #[trigger] layer.sources_spec()[k].id_spec() == old_sources[k].id_spec() by {
                    if let Some(pk) = before_layer.position_of(id) {
                        if k != pk {
                            assert(layer.sources_spec()[k] == before_layer.sources_spec()[k]);
                        }
                    } else {
                        assert(layer.sources_spec()[k] == before_layer.sources_spec()[k]);
                    }
                }
                assert forall|k: int|
                    0 <= k < old_sources.len() implies {
                        let before = old_sources[k];
                        let after = #[trigger] layer.sources_spec()[k];
                        if exists|q: int| 0 <= q < i + 1 && old_players[q].playback_spec() == before.id_spec() {
                            let q = choose|q: int| 0 <= q < i + 1 && old_players[q].playback_spec() == before.id_spec();
                            source_step(before, after, old_players[q], self.players@[q], tick)
                        } else {
                            after == before
                        }
                    } by {
                    let before = old_sources[k];
                    let here = before_layer.sources_spec()[k];
                    let after = layer.sources_spec()[k];
                    assert(here.id_spec() == before.id_spec());
                    if before.id_spec() == id {
                        assert(before_layer.position_of(id) == Some(k));
                        // No earlier player had this playback.
                        if exists|q: int| 0 <= q < i && old_players[q].playback_spec() == before.id_spec() {
                            let q = choose|q: int| 0 <= q < i && old_players[q].playback_spec() == before.id_spec();
                            assert(old_players[q].playback_spec().0 < old_players[i as int].playback_spec().0);
                        }
                        assert(here == before);
                        assert(old_players[i as int].playback_spec() == before.id_spec());
                        let q = choose|q: int| 0 <= q < i + 1 && old_players[q].playback_spec() == before.id_spec();
                        if q != i {
                            if q < i {
                                assert(old_players[q].playback_spec().0 < old_players[i as int].playback_spec().0);
                            }
                        }
                        assert(q == i);
                    } else {
                        if let Some(pk) = before_layer.position_of(id) {
                            assert(pk != k);
                            assert(after == here);
                        } else {
                            assert(after == here);
                        }
                        if exists|q: int| 0 <= q < i + 1 && old_players[q].playback_spec() == before.id_spec() {
                            let q = choose|q: int| 0 <= q < i + 1 && old_players[q].playback_spec() == before.id_spec();
                            assert(q != i);
                            assert(exists|q2: int| 0 <= q2 < i && old_players[q2].playback_spec() == before.id_spec());
                            assert(self.players@[q] == before_players[q]);
                        }
                    }
                }
            }
            i = i + 1;
        }
        proof {
            assert forall|q: int, r: int| 0 <= q < r < n implies self.players@[q].playback_spec().0 < self.players@[r].playback_spec().0 by {}
            assert forall|k: int|
                0 <= k < old_sources.len() implies {
                    let before = old_sources[k];
                    let after = #[trigger] layer.sources_spec()[k];
                    match old(self).player_position(before.id_spec()) {
                        Some(q) => source_step(
                            before,
                            after,
                            old(self).players_spec()[q],
                            self.players_spec()[q],
                            tick,
                        ),
                        None => after == before,
                    }
                } by {
                let before = old_sources[k];
                if old(self).player_position(before.id_spec()) is Some {
                    let q = old(self).player_position(before.id_spec())->0;
                    assert(exists|q2: int| 0 <= q2 < n && old_players[q2].playback_spec() == before.id_spec());
                    let q2 = choose|q2: int| 0 <= q2 < n && old_players[q2].playback_spec() == before.id_spec();
                    if q2 < q {
                        assert(old_players[q2].playback_spec().0 < old_players[q].playback_spec().0);
                    }
                    if q < q2 {
                        assert(old_players[q].playback_spec().0 < old_players[q2].playback_spec().0);
                    }
                } else {
                    if exists|q2: int| 0 <= q2 < n && old_players[q2].playback_spec() == before.id_spec() {
                        let q2 = choose|q2: int| 0 <= q2 < n && old_players[q2].playback_spec() == before.id_spec();
                        assert(old(self).players_spec()[q2].playback_spec() == before.id_spec());
                    }
                }
            }
        }
    }
}


/// Two taps a short interval apart set the rate that makes the running cue's
/// transition, its delay and its fade-in together, take exactly that
/// interval, up to the fastest rate a speed can hold; the tap is remembered
/// as the one the next is measured from.
pub proof fn law_two_taps_fit_the_running_cue_into_the_interval(
    before: CuePlayer,
    after: CuePlayer,
    tick: u64,
    previous: u64,
    c: usize,
)
    requires
        before.tap_spec(),
        before.last_tap_spec() == Some(previous),
        previous < tick,
        tick - previous <= TAP_WINDOW,
        before.sequence_spec() is Some,
        before.current_spec() == Some(c),
        c < before.sequence_spec()->0.cues_spec().len(),
        transition_spec(
            before.sequence_spec()->0.cues_spec()[c as int].delay_spec(),
            before.sequence_spec()->0.cues_spec()[c as int].fade_in_spec(),
        ) > 0,
        advanced_from(before, after, tick),
    ensures
        ({
            let cue = before.sequence_spec()->0.cues_spec()[c as int];
            let learned = transition_spec(cue.delay_spec(), cue.fade_in_spec()) * SPEED_UNITY / (tick - previous);
            after.speed_spec() == if learned > u16::MAX { u16::MAX as int } else { learned }
        }),
        after.last_tap_spec() == Some(tick),
{
}

/// A tap with no earlier one inside the window leaves the rate as it was.
pub proof fn law_a_lone_tap_keeps_the_rate(before: CuePlayer, after: CuePlayer, tick: u64)
    requires
        before.tap_spec(),
        match before.last_tap_spec() {
            None => true,
            Some(previous) => previous >= tick || tick - previous > TAP_WINDOW,
        },
        advanced_from(before, after, tick),
    ensures
        after.speed_spec() == before.speed_spec(),
        after.last_tap_spec() == Some(tick),
{
}

} // verus!
