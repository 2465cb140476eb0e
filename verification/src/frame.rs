//! The artefact the engine publishes once per tick: DMX channel data for every
//! patched universe.
//!
//! Channel numbers are 1-based, as an operator reads them off a fixture; the
//! buffer is 0-based, and the conversion happens here, once.
use vstd::prelude::*;
use vstd::string::StringExecFns;

use crate::ids::UniverseId;
use crate::text::{decimal, push_decimal, text_of};

verus! {

/// Channels in one DMX universe, as a `usize`.
pub const UNIVERSE_CHANNELS: usize = 512;

/// Upper bound on universes in one frame layout: a corrupt patch becomes a
/// rejected layout rather than a huge allocation.
pub const MAX_UNIVERSES: usize = 1024;

/// Why a set of universes cannot be used as a frame layout.
#[derive(Debug, Clone, Copy, PartialEq, Eq)]
pub enum LayoutError {
    /// No universes were given.
    Empty,
    /// The same universe appeared twice.
    Duplicate(UniverseId),
    /// More universes than [`MAX_UNIVERSES`].
    TooMany(usize),
}

/// What a refused layout is told, in words.
pub open spec fn layout_error_text(e: LayoutError) -> Seq<char> {
    match e {
        LayoutError::Empty => "a frame layout needs at least one universe"@,
        LayoutError::Duplicate(id) => "universe "@ + decimal(id.0 as nat)
            + " appears twice in the layout"@,
        LayoutError::TooMany(count) => decimal(count as nat)
            + " universes exceeds the limit of 1024"@,
    }
}

impl LayoutError {
    /// The sentence an operator reads for this refusal.
    pub fn message(&self) -> (r: String)
        ensures
            r@ == layout_error_text(*self),
    {
        match *self {
            LayoutError::Empty => text_of("a frame layout needs at least one universe"),
            LayoutError::Duplicate(id) => {
                let mut s = text_of("universe ");
                push_decimal(&mut s, id.0 as u64);
                s.append(" appears twice in the layout");
                s
            },
            LayoutError::TooMany(count) => {
                let mut s = String::new();
                push_decimal(&mut s, count as u64);
                s.append(" universes exceeds the limit of 1024");
                s
            },
        }
    }
}

/// The first position whose universe already appeared earlier in the list.
pub open spec fn first_repeat(u: Seq<UniverseId>) -> Option<int>
    decreases u.len(),
{
    if u.len() == 0 {
        None
    } else {
        match first_repeat(u.drop_last()) {
            Some(i) => Some(i),
            None => if u.drop_last().contains(u.last()) {
                Some(u.len() - 1)
            } else {
                None
            },
        }
    }
}

/// No universe appears twice.
pub open spec fn distinct_universes(u: Seq<UniverseId>) -> bool {
    forall|i: int, j: int| 0 <= i < j < u.len() ==> u[i] != u[j]
}

/// `first_repeat` finds nothing exactly when the list has no repeats.
proof fn lemma_first_repeat(u: Seq<UniverseId>)
    ensures
        first_repeat(u) is None <==> distinct_universes(u),
        first_repeat(u) matches Some(i) ==> 0 <= i < u.len() && u.subrange(0, i).contains(u[i])
            && distinct_universes(u.subrange(0, i)),
    decreases u.len(),
{
    if u.len() > 0 {
        let t = u.drop_last();
        lemma_first_repeat(t);
        match first_repeat(t) {
            Some(i) => {
                assert(u.subrange(0, i) =~= t.subrange(0, i));
                assert(t[i] == u[i]);
                let w = choose|w: int| 0 <= w < i && t.subrange(0, i)[w] == t[i];
                assert(!distinct_universes(u)) by {
                    assert(u[w] == u[i]);
                }
            },
            None => {
                if t.contains(u.last()) {
                    assert(u.subrange(0, u.len() - 1) =~= t);
                    let w = choose|w: int| 0 <= w < t.len() && t[w] == u.last();
                    assert(u[w] == u[u.len() - 1]);
                } else {
                    assert forall|i: int, j: int| 0 <= i < j < u.len() implies u[i] != u[j] by {
                        if j == u.len() - 1 {
                            assert(t[i] == u[i]);
                        } else {
                            assert(t[i] == u[i] && t[j] == u[j]);
                        }
                    }
                }
            },
        }
    }
}

/// The outcome of building a layout from `u`, in the order the checks are made.
pub open spec fn layout_result(u: Seq<UniverseId>) -> Result<Seq<UniverseId>, LayoutError> {
    if u.len() == 0 {
        Err(LayoutError::Empty)
    } else if u.len() > MAX_UNIVERSES {
        Err(LayoutError::TooMany(u.len() as usize))
    } else {
        match first_repeat(u) {
            Some(i) => Err(LayoutError::Duplicate(u[i])),
            None => Ok(u),
        }
    }
}

/// Which universes a frame carries, and in what order.
#[derive(Debug)]
pub struct FrameLayout {
    universes: Vec<UniverseId>,
}

impl View for FrameLayout {
    type V = Seq<UniverseId>;

    closed spec fn view(&self) -> Seq<UniverseId> {
        self.universes@
    }
}

impl FrameLayout {
    #[verifier::type_invariant]
    closed spec fn wf(self) -> bool {
        0 < self.universes@.len() <= MAX_UNIVERSES && distinct_universes(self.universes@)
    }

    /// Builds a layout from the patched universes, in patch order.
    ///
    /// Refused when the list is empty, longer than [`MAX_UNIVERSES`], or names
    /// a universe twice (the first repeat is reported).
    pub fn new(universes: &[UniverseId]) -> (r: Result<FrameLayout, LayoutError>)
        ensures
            match layout_result(universes@) {
                Ok(u) => r matches Ok(layout) && layout@ == u,
                Err(e) => r == Err::<FrameLayout, LayoutError>(e),
            },
    {
        let n = universes.len();
        if n == 0 {
            return Err(LayoutError::Empty);
        }
        if n > MAX_UNIVERSES {
            return Err(LayoutError::TooMany(n));
        }
        let mut kept: Vec<UniverseId> = Vec::new();
        let mut i: usize = 0;
        while i < n
            invariant
                0 <= i <= n,
                n == universes@.len(),
                0 < n <= MAX_UNIVERSES,
                kept@ == universes@.subrange(0, i as int),
                first_repeat(universes@.subrange(0, i as int)) is None,
            decreases n - i,
        {
            let id = universes[i];
            let mut j: usize = 0;
            let mut seen = false;
            while j < i
                invariant
                    0 <= j <= i < n,
                    n == universes@.len(),
                    kept@ == universes@.subrange(0, i as int),
                    id == universes@[i as int],
                    !seen ==> forall|k: int| 0 <= k < j ==> kept@[k] != id,
                    seen ==> kept@.contains(id),
                decreases i - j,
            {
                if kept[j].0 == id.0 {
                    seen = true;
                }
                j = j + 1;
            }
            let ghost prefix = universes@.subrange(0, i as int + 1);
            proof {
                assert(prefix.drop_last() =~= universes@.subrange(0, i as int));
                assert(prefix.last() == id);
            }
            if seen {
                proof {
                    assert(prefix.drop_last().contains(prefix.last()));
                    assert(first_repeat(prefix.drop_last()) is None);
                    assert(first_repeat(prefix) == Some(i as int));
                    lemma_first_repeat_prefix(universes@, i as int + 1);
                    assert(universes@[i as int] == id);
                }
                return Err(LayoutError::Duplicate(id));
            }
            kept.push(id);
            i = i + 1;
            proof {
                assert(kept@ =~= universes@.subrange(0, i as int));
            }
        }
        proof {
            assert(universes@.subrange(0, n as int) =~= universes@);
            lemma_first_repeat(universes@);
        }
        Ok(FrameLayout { universes: kept })
    }

    /// How many universes a frame of this layout carries.
    pub fn universe_count(&self) -> (r: usize)
        ensures
            r == self@.len(),
            0 < r <= MAX_UNIVERSES,
    {
        proof {
            use_type_invariant(self);
        }
        self.universes.len()
    }

    /// The universe numbers, in frame order.
    pub fn universes(&self) -> (r: &[UniverseId])
        ensures
            r@ == self@,
            distinct_universes(self@),
            0 < self@.len() <= MAX_UNIVERSES,
    {
        proof {
            use_type_invariant(self);
        }
        self.universes.as_slice()
    }

    /// Frame position of a universe number, if it is patched at all.
    pub fn index_of(&self, universe: UniverseId) -> (r: Option<usize>)
        ensures
            match r {
                Some(i) => i < self@.len() && self@[i as int] == universe,
                None => !self@.contains(universe),
            },
    {
        let mut i: usize = 0;
        while i < self.universes.len()
            invariant
                0 <= i <= self.universes@.len(),
                forall|k: int| 0 <= k < i ==> self.universes@[k] != universe,
            decreases self.universes@.len() - i,
        {
            if self.universes[i].0 == universe.0 {
                return Some(i);
            }
            i = i + 1;
        }
        None
    }

    /// Total channels in a frame of this layout.
    pub fn channel_count(&self) -> (r: usize)
        ensures
            r == self@.len() * UNIVERSE_CHANNELS,
    {
        proof {
            use_type_invariant(self);
        }
        self.universes.len() * UNIVERSE_CHANNELS
    }
}

/// A repeat found in a prefix is the first repeat of the whole list.
proof fn lemma_first_repeat_prefix(u: Seq<UniverseId>, n: int)
    requires
        0 <= n <= u.len(),
        first_repeat(u.subrange(0, n)) is Some,
    ensures
        first_repeat(u) == first_repeat(u.subrange(0, n)),
    decreases u.len() - n,
{
    if n < u.len() {
        let p = u.subrange(0, n + 1);
        assert(p.drop_last() =~= u.subrange(0, n));
        assert(first_repeat(p) == first_repeat(u.subrange(0, n)));
        lemma_first_repeat_prefix(u, n + 1);
    } else {
        assert(u.subrange(0, n) =~= u);
    }
}

/// Where channel `channel` (1-based) of the universe at position `universe`
/// sits in a frame's bytes.
pub open spec fn channel_position(universe: int, channel: int) -> int {
    universe * UNIVERSE_CHANNELS + channel - 1
}

/// The channel a frame holds at an address, or nothing for an address the
/// frame does not have: channels count from one, and there are 512.
pub open spec fn channel_at(bytes: Seq<u8>, universe: int, channel: int) -> Option<u8> {
    if 1 <= channel <= UNIVERSE_CHANNELS && 0 <= universe < bytes.len() as int / UNIVERSE_CHANNELS as int {
        Some(bytes[channel_position(universe, channel)])
    } else {
        None
    }
}

/// A channel reads back what was last written to it, and writing one channel
/// leaves every other address as it was.
pub proof fn law_a_channel_reads_back_what_was_written(
    bytes: Seq<u8>,
    universe: int,
    channel: int,
    value: u8,
    other_universe: int,
    other_channel: int,
)
    requires
        channel_at(bytes, universe, channel) is Some,
    ensures
        channel_at(bytes.update(channel_position(universe, channel), value), universe, channel) == Some(value),
        !(other_universe == universe && other_channel == channel) ==> channel_at(
            bytes.update(channel_position(universe, channel), value),
            other_universe,
            other_channel,
        ) == channel_at(bytes, other_universe, other_channel),
{
    let n = bytes.len() as int / UNIVERSE_CHANNELS as int;
    assert(0 <= channel_position(universe, channel) < bytes.len()) by (nonlinear_arith)
        requires
            1 <= channel <= 512,
            0 <= universe < n,
            n == bytes.len() as int / 512,
            bytes.len() >= 0,
    ;
    if channel_at(bytes, other_universe, other_channel) is Some && !(other_universe == universe && other_channel
        == channel) {
        assert(0 <= channel_position(other_universe, other_channel) < bytes.len()) by (nonlinear_arith)
            requires
                1 <= other_channel <= 512,
                0 <= other_universe < n,
                n == bytes.len() as int / 512,
                bytes.len() >= 0,
        ;
        assert(channel_position(other_universe, other_channel) != channel_position(universe, channel))
            by (nonlinear_arith)
            requires
                1 <= other_channel <= 512,
                1 <= channel <= 512,
                !(other_universe == universe && other_channel == channel),
        ;
    }
}

/// One tick's output: every channel of every patched universe, back to back.
#[derive(Debug, Clone, PartialEq, Eq)]
pub struct DmxFrame {
    sequence: u64,
    channels: Vec<u8>,
}

impl DmxFrame {
    /// The frame counter.
    pub closed spec fn sequence_spec(&self) -> u64 {
        self.sequence
    }

    /// The channel bytes.
    pub closed spec fn bytes(&self) -> Seq<u8> {
        self.channels@
    }

    /// A blacked-out frame for the given layout.
    pub fn new(layout: &FrameLayout) -> (r: DmxFrame)
        ensures
            r.sequence_spec() == 0,
            r.bytes().len() == layout@.len() * UNIVERSE_CHANNELS,
            forall|i: int| 0 <= i < r.bytes().len() ==> r.bytes()[i] == 0,
    {
        let count = layout.channel_count();
        let mut channels: Vec<u8> = Vec::new();
        let mut i: usize = 0;
        while i < count
            invariant
                0 <= i <= count,
                channels@.len() == i,
                forall|k: int| 0 <= k < i ==> channels@[k] == 0,
            decreases count - i,
        {
            channels.push(0);
            i = i + 1;
        }
        DmxFrame { sequence: 0, channels }
    }

    /// The publisher's frame counter.
    pub fn sequence(&self) -> (r: u64)
        ensures
            r == self.sequence_spec(),
    {
        self.sequence
    }

    /// Sets the frame counter.
    pub fn set_sequence(&mut self, sequence: u64)
        ensures
            final(self).sequence_spec() == sequence,
            final(self).bytes() == old(self).bytes(),
    {
        self.sequence = sequence;
    }

    /// Every channel of every universe, back to back.
    pub fn channels(&self) -> (r: &[u8])
        ensures
            r@ == self.bytes(),
    {
        self.channels.as_slice()
    }

    /// Writes one byte by flat position; a position past the end is ignored.
    pub fn write_byte(&mut self, position: usize, value: u8)
        ensures
            final(self).sequence_spec() == old(self).sequence_spec(),
            final(self).bytes() == if position < old(self).bytes().len() {
                old(self).bytes().update(position as int, value)
            } else {
                old(self).bytes()
            },
    {
        if position < self.channels.len() {
            self.channels.set(position, value);
        }
    }

    /// How many whole universes this frame carries.
    pub fn universe_count(&self) -> (r: usize)
        ensures
            r == self.bytes().len() as int / UNIVERSE_CHANNELS as int,
    {
        self.channels.len() / UNIVERSE_CHANNELS
    }

    /// The 512 channels of one universe, by frame position.
    pub fn universe(&self, index: usize) -> (r: Option<&[u8]>)
        ensures
            match r {
                Some(u) => index < self.bytes().len() as int / UNIVERSE_CHANNELS as int && u@
                    == self.bytes().subrange(
                    index * UNIVERSE_CHANNELS,
                    index * UNIVERSE_CHANNELS + UNIVERSE_CHANNELS,
                ),
                None => index >= self.bytes().len() as int / UNIVERSE_CHANNELS as int,
            },
    {
        let count = self.channels.len() / UNIVERSE_CHANNELS;
        if index >= count {
            return None;
        }
        let start = index * UNIVERSE_CHANNELS;
        let s = self.channels.as_slice();
        Some(&s[start..start + UNIVERSE_CHANNELS])
    }

    /// The 512 channels of one universe, by frame position, for writing.
    pub fn universe_mut(&mut self, index: usize) -> (r: Option<&mut [u8]>)
        ensures
            final(self).sequence_spec() == old(self).sequence_spec(),
            match r {
                Some(u) => {
                    let start = index * UNIVERSE_CHANNELS;
                    let end = start + UNIVERSE_CHANNELS;
                    &&& index < old(self).bytes().len() as int / UNIVERSE_CHANNELS as int
                    &&& u@ == old(self).bytes().subrange(start, end)
                    &&& final(self).bytes() == old(self).bytes().subrange(0, start) + final(u)@
                        + old(self).bytes().subrange(end, old(self).bytes().len() as int)
                },
                None => index >= old(self).bytes().len() as int / UNIVERSE_CHANNELS as int
                    && final(self).bytes() == old(self).bytes(),
            },
    {
        let count = self.channels.len() / UNIVERSE_CHANNELS;
        if index >= count {
            return None;
        }
        let start = index * UNIVERSE_CHANNELS;
        let s = self.channels.as_mut_slice();
        let (_head, rest) = s.split_at_mut(start);
        let (u, _tail) = rest.split_at_mut(UNIVERSE_CHANNELS);
        Some(u)
    }

    /// One channel, addressed the way an operator addresses it: `1..=512`.
    pub fn channel(&self, universe: usize, channel: u16) -> (r: Option<u8>)
        ensures
            r == channel_at(self.bytes(), universe as int, channel as int),
    {
        if channel == 0 || channel as usize > UNIVERSE_CHANNELS {
            return None;
        }
        let count = self.channels.len() / UNIVERSE_CHANNELS;
        if universe >= count {
            return None;
        }
        Some(self.channels[universe * UNIVERSE_CHANNELS + channel as usize - 1])
    }

    /// Writes one channel. Returns `false` if the address does not exist, which
    /// is the tick's answer to an out-of-range write: ignore it and keep going.
    pub fn set_channel(&mut self, universe: usize, channel: u16, value: u8) -> (r: bool)
        ensures
            r == (1 <= channel <= UNIVERSE_CHANNELS && universe < old(self).bytes().len() as int
                / UNIVERSE_CHANNELS as int),
            final(self).sequence_spec() == old(self).sequence_spec(),
            final(self).bytes() == if r {
                old(self).bytes().update(channel_position(universe as int, channel as int), value)
            } else {
                old(self).bytes()
            },
    {
        if channel == 0 || channel as usize > UNIVERSE_CHANNELS {
            return false;
        }
        let count = self.channels.len() / UNIVERSE_CHANNELS;
        if universe >= count {
            return false;
        }
        self.channels.set(universe * UNIVERSE_CHANNELS + channel as usize - 1, value);
        true
    }

    /// Sets every channel of every universe to `value`.
    pub fn fill(&mut self, value: u8)
        ensures
            final(self).sequence_spec() == old(self).sequence_spec(),
            final(self).bytes().len() == old(self).bytes().len(),
            forall|i: int| 0 <= i < final(self).bytes().len() ==> final(self).bytes()[i] == value,
    {
        let n = self.channels.len();
        let mut i: usize = 0;
        while i < n
            invariant
                0 <= i <= n,
                self.channels@.len() == n,
                self.sequence == old(self).sequence,
                forall|k: int| 0 <= k < i ==> self.channels@[k] == value,
            decreases n - i,
        {
            self.channels.set(i, value);
            i = i + 1;
        }
    }

    /// Sets every channel to zero.
    pub fn blackout(&mut self)
        ensures
            final(self).sequence_spec() == old(self).sequence_spec(),
            final(self).bytes().len() == old(self).bytes().len(),
            forall|i: int| 0 <= i < final(self).bytes().len() ==> final(self).bytes()[i] == 0,
    {
        self.fill(0);
    }

    /// The frame's shape, for a log line: its counter, its universes and its
    /// size, never its 32 KB of channel data.
    pub fn describe(&self) -> (r: String)
        ensures
            r@ == "DmxFrame { sequence: "@ + decimal(self.sequence_spec() as nat) + ", universes: "@
                + decimal((self.bytes().len() as int / UNIVERSE_CHANNELS as int) as nat) + ", channels: "@
                + decimal(self.bytes().len() as nat) + " }"@,
    {
        let mut s = text_of("DmxFrame { sequence: ");
        push_decimal(&mut s, self.sequence);
        s.append(", universes: ");
        push_decimal(&mut s, (self.channels.len() / UNIVERSE_CHANNELS) as u64);
        s.append(", channels: ");
        push_decimal(&mut s, self.channels.len() as u64);
        s.append(" }");
        s
    }
}

} // verus!
