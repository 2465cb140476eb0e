//! The flat command form that crosses into the tick.
//!
//! The wire vocabulary is rich and owned; the tick can hold neither. The core
//! thread resolves each operator command against the show (names, ranges,
//! selections) and hands the tick the flat, `Copy` result defined here, through
//! a fixed-size queue slot.
//!
//! Every variant flattens to one shape: a tag byte, a 32-bit target and a
//! 16-bit value, little-endian, in the first [`TickCommand::MAX_ENCODED`] bytes
//! of a [`PAYLOAD_BYTES`] slot, with the rest of the slot zero.
use vstd::prelude::*;

use crate::cue::GoDirection;
use crate::ids::{GroupId, PlaybackId};

verus! {

/// Bytes in one queue slot.
pub const PAYLOAD_BYTES: usize = 16;

/// Which of the two manual crossfades a fader drives.
#[derive(Debug, Clone, Copy, PartialEq, Eq, Structural, Hash)]
pub enum CrossfadeMode {
    /// The fader is the running fade's clock: up runs it forward.
    Fade,
    /// Each full stroke, up or down, completes one transition.
    XFade,
}

/// A command in the form the tick can act on.
///
/// Every variant is `Copy` and flat: anything that would need an owned field is
/// resolved on the core thread and arrives here as numbers.
#[derive(Debug, Clone, Copy, PartialEq, Eq, Structural)]
pub enum TickCommand {
    /// Grand master level, `0..=65535`. Intensity only.
    SetGrandMaster(u16),
    /// A playback's fader position, `0..=65535`.
    SetExecutorLevel {
        /// Which playback.
        executor: PlaybackId,
        /// The new position.
        level: u16,
    },
    /// Switch an executor on or off.
    SetExecutorActive {
        /// Which playback.
        executor: PlaybackId,
        /// On or off.
        on: bool,
    },
    /// Hold or release a flash over an executor's master.
    SetExecutorFlash {
        /// Which playback.
        executor: PlaybackId,
        /// Held or released.
        on: bool,
    },
    /// An executor's playback rate, in units of [`crate::ids::SPEED_UNITY`].
    SetExecutorSpeed {
        /// Which playback.
        executor: PlaybackId,
        /// The new rate. `0` freezes the playback where it is.
        speed: u16,
    },
    /// A tap of the learn-speed button against an executor.
    TapExecutorSpeed {
        /// Which playback.
        executor: PlaybackId,
    },
    /// Move an executor's manual crossfade fader.
    SetExecutorCrossfade {
        /// Which playback.
        executor: PlaybackId,
        /// Which of the two crossfades this fader is.
        mode: CrossfadeMode,
        /// Where the fader is, `0..=65535`.
        position: u16,
    },
    /// Step a playback to its next or previous cue.
    Go {
        /// Which playback.
        executor: PlaybackId,
        /// Which way.
        direction: GoDirection,
    },
    /// Jump a playback straight to one cue of its list, by index.
    GotoCue {
        /// Which playback.
        executor: PlaybackId,
        /// Which cue, by index into the compiled list.
        cue_index: u16,
    },
    /// Blackout on or off. Intensity only.
    SetBlackout(bool),
    /// A group master's fader position, `0..=65535`. Intensity only.
    SetGroupMaster {
        /// Which group.
        group: GroupId,
        /// The new position.
        level: u16,
    },
    /// Put a value into the programmer, addressed by merge-plan slot.
    SetProgrammerValue {
        /// Which slot of the merge plan.
        slot: u32,
        /// The value the operator has set.
        value: u16,
    },
    /// Take one attribute back out of the programmer.
    ClearProgrammerValue {
        /// Which slot of the merge plan.
        slot: u32,
    },
    /// Empty the programmer.
    ClearProgrammer,
}

/// Tags: the first byte of a slot, one per variant (two for the crossfade,
/// one per mode).
pub const TAG_GRAND_MASTER: u8 = 1;
pub const TAG_EXECUTOR_LEVEL: u8 = 2;
pub const TAG_GO: u8 = 3;
pub const TAG_BLACKOUT: u8 = 4;
pub const TAG_EXECUTOR_ACTIVE: u8 = 5;
pub const TAG_GROUP_MASTER: u8 = 6;
pub const TAG_PROGRAMMER_VALUE: u8 = 7;
pub const TAG_PROGRAMMER_CLEAR_VALUE: u8 = 8;
pub const TAG_PROGRAMMER_CLEAR: u8 = 9;
pub const TAG_EXECUTOR_FLASH: u8 = 10;
pub const TAG_EXECUTOR_SPEED: u8 = 11;
pub const TAG_EXECUTOR_TAP: u8 = 12;
pub const TAG_EXECUTOR_XFADE: u8 = 13;
pub const TAG_GOTO: u8 = 14;
pub const TAG_EXECUTOR_FADE: u8 = 15;

/// `0` or `1` for a flag.
pub open spec fn flag_value(on: bool) -> u16 {
    if on { 1 } else { 0 }
}

/// The tag, target and value a command flattens to.
pub open spec fn flat_spec(c: TickCommand) -> (u8, u32, u16) {
    match c {
        TickCommand::SetGrandMaster(level) => (TAG_GRAND_MASTER, 0u32, level),
        TickCommand::SetExecutorLevel { executor, level } => (TAG_EXECUTOR_LEVEL, executor.0, level),
        TickCommand::SetExecutorActive { executor, on } => (TAG_EXECUTOR_ACTIVE, executor.0, flag_value(on)),
        TickCommand::SetExecutorFlash { executor, on } => (TAG_EXECUTOR_FLASH, executor.0, flag_value(on)),
        TickCommand::SetExecutorSpeed { executor, speed } => (TAG_EXECUTOR_SPEED, executor.0, speed),
        TickCommand::TapExecutorSpeed { executor } => (TAG_EXECUTOR_TAP, executor.0, 0u16),
        TickCommand::SetExecutorCrossfade { executor, mode, position } => (
            match mode {
                CrossfadeMode::Fade => TAG_EXECUTOR_FADE,
                CrossfadeMode::XFade => TAG_EXECUTOR_XFADE,
            },
            executor.0,
            position,
        ),
        TickCommand::Go { executor, direction } => (
            TAG_GO,
            executor.0,
            match direction {
                GoDirection::Next => 0u16,
                GoDirection::Prev => 1u16,
            },
        ),
        TickCommand::GotoCue { executor, cue_index } => (TAG_GOTO, executor.0, cue_index),
        TickCommand::SetBlackout(on) => (TAG_BLACKOUT, 0u32, flag_value(on)),
        TickCommand::SetGroupMaster { group, level } => (TAG_GROUP_MASTER, group.0, level),
        TickCommand::SetProgrammerValue { slot, value } => (TAG_PROGRAMMER_VALUE, slot, value),
        TickCommand::ClearProgrammerValue { slot } => (TAG_PROGRAMMER_CLEAR_VALUE, slot, 0u16),
        TickCommand::ClearProgrammer => (TAG_PROGRAMMER_CLEAR, 0u32, 0u16),
    }
}

/// The slot a tag, a target and a value fill: the tag, the target's four bytes
/// low first, the value's two bytes low first, then zeros.
pub open spec fn slot_bytes(tag: u8, target: u32, value: u16) -> Seq<u8> {
    Seq::new(
        PAYLOAD_BYTES as nat,
        |i: int|
            if i == 0 {
                tag
            } else if i == 1 {
                (target % 256) as u8
            } else if i == 2 {
                ((target / 256) % 256) as u8
            } else if i == 3 {
                ((target / 65536) % 256) as u8
            } else if i == 4 {
                (target / 16777216) as u8
            } else if i == 5 {
                (value % 256) as u8
            } else if i == 6 {
                (value / 256) as u8
            } else {
                0u8
            },
    )
}

/// The slot a command encodes to.
pub open spec fn encoding_spec(c: TickCommand) -> Seq<u8> {
    let (tag, target, value) = flat_spec(c);
    slot_bytes(tag, target, value)
}

/// The target a slot carries: bytes one to four, low first.
pub open spec fn target_of(b: Seq<u8>) -> u32 {
    (b[1] + 256 * b[2] + 65536 * b[3] + 16777216 * b[4]) as u32
}

/// The value a slot carries: bytes five and six, low first.
pub open spec fn value_of(b: Seq<u8>) -> u16 {
    (b[5] + 256 * b[6]) as u16
}

/// The command a slot decodes to: `None` for an unknown tag, and for a flag or
/// a direction whose value is neither `0` nor `1`. Only the first seven bytes
/// are read.
pub open spec fn decoded_spec(b: Seq<u8>) -> Option<TickCommand> {
    let tag = b[0];
    let target = target_of(b);
    let value = value_of(b);
    let executor = PlaybackId(target);
    if tag == TAG_GRAND_MASTER {
        Some(TickCommand::SetGrandMaster(value))
    } else if tag == TAG_EXECUTOR_LEVEL {
        Some(TickCommand::SetExecutorLevel { executor, level: value })
    } else if tag == TAG_GO {
        if value == 0 {
            Some(TickCommand::Go { executor, direction: GoDirection::Next })
        } else if value == 1 {
            Some(TickCommand::Go { executor, direction: GoDirection::Prev })
        } else {
            None
        }
    } else if tag == TAG_EXECUTOR_ACTIVE {
        if value <= 1 {
            Some(TickCommand::SetExecutorActive { executor, on: value == 1 })
        } else {
            None
        }
    } else if tag == TAG_EXECUTOR_FLASH {
        if value <= 1 {
            Some(TickCommand::SetExecutorFlash { executor, on: value == 1 })
        } else {
            None
        }
    } else if tag == TAG_EXECUTOR_SPEED {
        Some(TickCommand::SetExecutorSpeed { executor, speed: value })
    } else if tag == TAG_EXECUTOR_TAP {
        Some(TickCommand::TapExecutorSpeed { executor })
    } else if tag == TAG_GOTO {
        Some(TickCommand::GotoCue { executor, cue_index: value })
    } else if tag == TAG_EXECUTOR_XFADE {
        Some(TickCommand::SetExecutorCrossfade { executor, mode: CrossfadeMode::XFade, position: value })
    } else if tag == TAG_EXECUTOR_FADE {
        Some(TickCommand::SetExecutorCrossfade { executor, mode: CrossfadeMode::Fade, position: value })
    } else if tag == TAG_BLACKOUT {
        if value <= 1 {
            Some(TickCommand::SetBlackout(value == 1))
        } else {
            None
        }
    } else if tag == TAG_GROUP_MASTER {
        Some(TickCommand::SetGroupMaster { group: GroupId(target), level: value })
    } else if tag == TAG_PROGRAMMER_VALUE {
        Some(TickCommand::SetProgrammerValue { slot: target, value })
    } else if tag == TAG_PROGRAMMER_CLEAR_VALUE {
        Some(TickCommand::ClearProgrammerValue { slot: target })
    } else if tag == TAG_PROGRAMMER_CLEAR {
        Some(TickCommand::ClearProgrammer)
    } else {
        None
    }
}

/// Four bytes taken low first give back the number they were cut from.
proof fn lemma_target_bytes(target: u32)
    ensures
        (target % 256) + 256 * ((target / 256) % 256) + 65536 * ((target / 65536) % 256)
            + 16777216 * (target / 16777216) == target,
        target / 16777216 < 256,
{
    assert((target % 256) + 256 * ((target / 256) % 256) + 65536 * ((target / 65536) % 256)
        + 16777216 * (target / 16777216) == target) by (bit_vector);
    assert(target / 16777216 < 256) by (bit_vector);
}

/// Two bytes taken low first give back the number they were cut from.
proof fn lemma_value_bytes(value: u16)
    ensures
        (value % 256) + 256 * (value / 256) == value,
        value / 256 < 256,
{
    assert((value % 256) + 256 * (value / 256) == value) by (bit_vector);
    assert(value / 256 < 256) by (bit_vector);
}

/// The slot a tag, a target and a value fill reads back as that tag, target and
/// value.
proof fn lemma_slot_reads_back(tag: u8, target: u32, value: u16)
    ensures
        slot_bytes(tag, target, value).len() == PAYLOAD_BYTES,
        slot_bytes(tag, target, value)[0] == tag,
        target_of(slot_bytes(tag, target, value)) == target,
        value_of(slot_bytes(tag, target, value)) == value,
{
    lemma_target_bytes(target);
    lemma_value_bytes(value);
    let b = slot_bytes(tag, target, value);
    assert(b[1] == target % 256);
    assert(b[2] == (target / 256) % 256);
    assert(b[3] == (target / 65536) % 256);
    assert(b[4] == target / 16777216);
    assert(b[5] == value % 256);
    assert(b[6] == value / 256);
}

/// Every command survives the queue: decoding what a command encodes to gives
/// the command back.
pub proof fn law_every_command_survives_the_queue_encoding(c: TickCommand)
    ensures
        decoded_spec(encoding_spec(c)) == Some(c),
{
    let (tag, target, value) = flat_spec(c);
    lemma_slot_reads_back(tag, target, value);
}

/// A command uses only its first seven bytes and leaves the rest of the slot
/// zero.
pub proof fn law_a_command_leaves_the_rest_of_its_slot_zero(c: TickCommand, i: int)
    requires
        TickCommand::MAX_ENCODED <= i < PAYLOAD_BYTES,
    ensures
        encoding_spec(c)[i] == 0,
{
}

impl TickCommand {
    /// Bytes the encoding actually uses; the rest of a queue slot is headroom.
    pub const MAX_ENCODED: usize = 7;

    /// Flatten into `out`, overwriting all of it.
    pub fn encode(self, out: &mut [u8; PAYLOAD_BYTES])
        ensures
            final(out)@ == encoding_spec(self),
    {
        let (tag, target, value): (u8, u32, u16) = match self {
            TickCommand::SetGrandMaster(level) => (TAG_GRAND_MASTER, 0, level),
            TickCommand::SetExecutorLevel { executor, level } => (TAG_EXECUTOR_LEVEL, executor.0, level),
            TickCommand::SetExecutorActive { executor, on } => (
                TAG_EXECUTOR_ACTIVE,
                executor.0,
                if on { 1 } else { 0 },
            ),
            TickCommand::SetExecutorFlash { executor, on } => (
                TAG_EXECUTOR_FLASH,
                executor.0,
                if on { 1 } else { 0 },
            ),
            TickCommand::SetExecutorSpeed { executor, speed } => (TAG_EXECUTOR_SPEED, executor.0, speed),
            TickCommand::TapExecutorSpeed { executor } => (TAG_EXECUTOR_TAP, executor.0, 0),
            TickCommand::SetExecutorCrossfade { executor, mode, position } => (
                match mode {
                    CrossfadeMode::Fade => TAG_EXECUTOR_FADE,
                    CrossfadeMode::XFade => TAG_EXECUTOR_XFADE,
                },
                executor.0,
                position,
            ),
            TickCommand::Go { executor, direction } => (
                TAG_GO,
                executor.0,
                match direction {
                    GoDirection::Next => 0,
                    GoDirection::Prev => 1,
                },
            ),
            TickCommand::GotoCue { executor, cue_index } => (TAG_GOTO, executor.0, cue_index),
            TickCommand::SetBlackout(on) => (TAG_BLACKOUT, 0, if on { 1 } else { 0 }),
            TickCommand::SetGroupMaster { group, level } => (TAG_GROUP_MASTER, group.0, level),
            TickCommand::SetProgrammerValue { slot, value } => (TAG_PROGRAMMER_VALUE, slot, value),
            TickCommand::ClearProgrammerValue { slot } => (TAG_PROGRAMMER_CLEAR_VALUE, slot, 0),
            TickCommand::ClearProgrammer => (TAG_PROGRAMMER_CLEAR, 0, 0),
        };
        proof {
            lemma_target_bytes(target);
            lemma_value_bytes(value);
        }
        *out = [0u8; PAYLOAD_BYTES];
        out[0] = tag;
        out[1] = (target % 256) as u8;
        out[2] = ((target / 256) % 256) as u8;
        out[3] = ((target / 65536) % 256) as u8;
        out[4] = (target / 16777216) as u8;
        out[5] = (value % 256) as u8;
        out[6] = (value / 256) as u8;
        assert(out@ =~= slot_bytes(tag, target, value));
    }

    /// Read a command back out of a slot; `None` for a tag this build does not
    /// know, or a flag or direction out of range.
    pub fn decode(bytes: &[u8; PAYLOAD_BYTES]) -> (r: Option<TickCommand>)
        ensures
            r == decoded_spec(bytes@),
    {
        let tag = bytes[0];
        let target: u32 = bytes[1] as u32 + 256 * (bytes[2] as u32) + 65536 * (bytes[3] as u32)
            + 16777216 * (bytes[4] as u32);
        let value: u16 = bytes[5] as u16 + 256 * (bytes[6] as u16);
        assert(target == target_of(bytes@));
        assert(value == value_of(bytes@));
        let executor = PlaybackId(target);
        if tag == TAG_GRAND_MASTER {
            Some(TickCommand::SetGrandMaster(value))
        } else if tag == TAG_EXECUTOR_LEVEL {
            Some(TickCommand::SetExecutorLevel { executor, level: value })
        } else if tag == TAG_GO {
            if value == 0 {
                Some(TickCommand::Go { executor, direction: GoDirection::Next })
            } else if value == 1 {
                Some(TickCommand::Go { executor, direction: GoDirection::Prev })
            } else {
                None
            }
        } else if tag == TAG_EXECUTOR_ACTIVE {
            if value <= 1 {
                Some(TickCommand::SetExecutorActive { executor, on: value == 1 })
            } else {
                None
            }
        } else if tag == TAG_EXECUTOR_FLASH {
            if value <= 1 {
                Some(TickCommand::SetExecutorFlash { executor, on: value == 1 })
            } else {
                None
            }
        } else if tag == TAG_EXECUTOR_SPEED {
            Some(TickCommand::SetExecutorSpeed { executor, speed: value })
        } else if tag == TAG_EXECUTOR_TAP {
            Some(TickCommand::TapExecutorSpeed { executor })
        } else if tag == TAG_GOTO {
            Some(TickCommand::GotoCue { executor, cue_index: value })
        } else if tag == TAG_EXECUTOR_XFADE {
            Some(TickCommand::SetExecutorCrossfade { executor, mode: CrossfadeMode::XFade, position: value })
        } else if tag == TAG_EXECUTOR_FADE {
            Some(TickCommand::SetExecutorCrossfade { executor, mode: CrossfadeMode::Fade, position: value })
        } else if tag == TAG_BLACKOUT {
            if value <= 1 {
                Some(TickCommand::SetBlackout(value == 1))
            } else {
                None
            }
        } else if tag == TAG_GROUP_MASTER {
            Some(TickCommand::SetGroupMaster { group: GroupId(target), level: value })
        } else if tag == TAG_PROGRAMMER_VALUE {
            Some(TickCommand::SetProgrammerValue { slot: target, value })
        } else if tag == TAG_PROGRAMMER_CLEAR_VALUE {
            Some(TickCommand::ClearProgrammerValue { slot: target })
        } else if tag == TAG_PROGRAMMER_CLEAR {
            Some(TickCommand::ClearProgrammer)
        } else {
            None
        }
    }
}

} // verus!
