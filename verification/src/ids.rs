//! Numbers that name things: fixtures, groups, sequences, executors, presets,
//! universes, views and windows, and the playback a source belongs to.
//!
//! Every one of them is a plain `u32` on the wire and in the show file; the
//! wrappers exist so that a fixture number can never be handed to something
//! that wanted a group.
use vstd::prelude::*;

verus! {

/// Channels in one DMX universe.
pub const CHANNELS_PER_UNIVERSE: u16 = 512;

/// A playback rate of 1x, in the units a speed master counts in.
///
/// `u16::MAX` is then just under 64x and `0` freezes a playback.
pub const SPEED_UNITY: u16 = 1024;

/// A fixture number.
#[derive(Debug, Clone, Copy, PartialEq, Eq, Structural, PartialOrd, Ord, Hash, Default)]
pub struct FixtureId(pub u32);

impl FixtureId {
    /// The fixture with this number.
    pub fn new(id: u32) -> (r: Self)
        ensures
            r.0 == id,
    {
        FixtureId(id)
    }

    /// The number.
    pub fn get(self) -> (r: u32)
        ensures
            r == self.0,
    {
        self.0
    }
}

/// A group number.
#[derive(Debug, Clone, Copy, PartialEq, Eq, Structural, PartialOrd, Ord, Hash, Default)]
pub struct GroupId(pub u32);

impl GroupId {
    /// The group with this number.
    pub fn new(id: u32) -> (r: Self)
        ensures
            r.0 == id,
    {
        GroupId(id)
    }

    /// The number.
    pub fn get(self) -> (r: u32)
        ensures
            r == self.0,
    {
        self.0
    }
}

/// A sequence (cue list) number.
#[derive(Debug, Clone, Copy, PartialEq, Eq, Structural, PartialOrd, Ord, Hash, Default)]
pub struct SequenceId(pub u32);

impl SequenceId {
    /// The sequence with this number.
    pub fn new(id: u32) -> (r: Self)
        ensures
            r.0 == id,
    {
        SequenceId(id)
    }

    /// The number.
    pub fn get(self) -> (r: u32)
        ensures
            r == self.0,
    {
        self.0
    }
}

/// An executor number.
#[derive(Debug, Clone, Copy, PartialEq, Eq, Structural, PartialOrd, Ord, Hash, Default)]
pub struct ExecutorId(pub u32);

impl ExecutorId {
    /// The executor with this number.
    pub fn new(id: u32) -> (r: Self)
        ensures
            r.0 == id,
    {
        ExecutorId(id)
    }

    /// The number.
    pub fn get(self) -> (r: u32)
        ensures
            r == self.0,
    {
        self.0
    }
}

/// A preset number.
#[derive(Debug, Clone, Copy, PartialEq, Eq, Structural, PartialOrd, Ord, Hash, Default)]
pub struct PresetId(pub u32);

impl PresetId {
    /// The preset with this number.
    pub fn new(id: u32) -> (r: Self)
        ensures
            r.0 == id,
    {
        PresetId(id)
    }

    /// The number.
    pub fn get(self) -> (r: u32)
        ensures
            r == self.0,
    {
        self.0
    }
}

/// A DMX universe number.
#[derive(Debug, Clone, Copy, PartialEq, Eq, Structural, PartialOrd, Ord, Hash, Default)]
pub struct UniverseId(pub u32);

impl UniverseId {
    /// The universe with this number.
    pub fn new(id: u32) -> (r: Self)
        ensures
            r.0 == id,
    {
        UniverseId(id)
    }

    /// The number.
    pub fn get(self) -> (r: u32)
        ensures
            r == self.0,
    {
        self.0
    }
}

/// A stored view number.
#[derive(Debug, Clone, Copy, PartialEq, Eq, Structural, PartialOrd, Ord, Hash, Default)]
pub struct ViewId(pub u32);

impl ViewId {
    /// The view with this number.
    pub fn new(id: u32) -> (r: Self)
        ensures
            r.0 == id,
    {
        ViewId(id)
    }

    /// The number.
    pub fn get(self) -> (r: u32)
        ensures
            r == self.0,
    {
        self.0
    }
}

/// A playback: the cue list a merge source belongs to.
///
/// A playback is a cue list's, so it is one number. An executor is a handle
/// on the list standing in it, and names the playback of the same number.
#[derive(Debug, Clone, Copy, PartialEq, Eq, Structural, PartialOrd, Ord, Hash, Default)]
pub struct PlaybackId(pub u32);

impl PlaybackId {
    /// The playback of a cue list.
    pub fn of_sequence(sequence: SequenceId) -> (r: Self)
        ensures
            r.0 == sequence.0,
    {
        PlaybackId(sequence.0)
    }

    /// The playback an executor is a handle on.
    pub fn of_executor(executor: ExecutorId) -> (r: Self)
        ensures
            r.0 == executor.0,
    {
        PlaybackId(executor.0)
    }

    /// The cue list this playback plays.
    pub fn sequence(self) -> (r: SequenceId)
        ensures
            r.0 == self.0,
    {
        SequenceId(self.0)
    }

    /// The key playbacks are ordered and tie-broken by.
    pub open spec fn key_spec(self) -> u64 {
        self.0 as u64
    }

    /// The key playbacks are ordered and tie-broken by.
    pub fn key(self) -> (r: u64)
        ensures
            r == self.key_spec(),
    {
        self.0 as u64
    }
}

impl From<SequenceId> for PlaybackId {
    fn from(sequence: SequenceId) -> (r: Self) {
        PlaybackId(sequence.0)
    }
}

impl vstd::std_specs::convert::FromSpecImpl<SequenceId> for PlaybackId {
    open spec fn obeys_from_spec() -> bool {
        true
    }

    open spec fn from_spec(sequence: SequenceId) -> Self {
        PlaybackId(sequence.0)
    }
}

impl From<ExecutorId> for PlaybackId {
    fn from(executor: ExecutorId) -> (r: Self) {
        PlaybackId(executor.0)
    }
}

impl vstd::std_specs::convert::FromSpecImpl<ExecutorId> for PlaybackId {
    open spec fn obeys_from_spec() -> bool {
        true
    }

    open spec fn from_spec(executor: ExecutorId) -> Self {
        PlaybackId(executor.0)
    }
}

} // verus!
