//! The control surface's binding vocabulary: which controls a surface has,
//! what a binding profile calls each one, and what a binding may say it does.
use vstd::prelude::*;

use crate::cue::GoDirection;
use crate::fixture::FeatureGroup;
use crate::ids::ViewId;
use crate::session::WindowType;
use crate::text::{same_text, strip_prefix, text_of};

verus! {

/// Which button on a channel strip.
#[derive(Debug, Clone, Copy, PartialEq, Eq, Structural, PartialOrd, Ord, Hash)]
pub enum StripButton {
    /// Rec / Arm, the top button of the strip.
    Rec,
    /// Solo.
    Solo,
    /// Mute.
    Mute,
    /// Select.
    Select,
    /// Pushing the V-Pot in: a button, not a rotation.
    VPotPush,
}

/// Where a strip button stands in [`StripButton::ALL`].
pub open spec fn strip_button_index(b: StripButton) -> int {
    match b {
        StripButton::Rec => 0,
        StripButton::Solo => 1,
        StripButton::Mute => 2,
        StripButton::Select => 3,
        StripButton::VPotPush => 4,
    }
}

/// The strip button at a position of [`StripButton::ALL`].
pub open spec fn strip_button_at(i: int) -> StripButton {
    if i == 0 {
        StripButton::Rec
    } else if i == 1 {
        StripButton::Solo
    } else if i == 2 {
        StripButton::Mute
    } else if i == 3 {
        StripButton::Select
    } else {
        StripButton::VPotPush
    }
}

/// What a binding profile calls a strip button.
pub open spec fn strip_button_name(b: StripButton) -> Seq<char> {
    match b {
        StripButton::Rec => "Rec"@,
        StripButton::Solo => "Solo"@,
        StripButton::Mute => "Mute"@,
        StripButton::Select => "Select"@,
        StripButton::VPotPush => "VPotPush"@,
    }
}

impl StripButton {
    /// Every one, in declaration order.
    pub const ALL: [StripButton; 5] = [
        StripButton::Rec,
        StripButton::Solo,
        StripButton::Mute,
        StripButton::Select,
        StripButton::VPotPush,
    ];

    /// This button's position in [`StripButton::ALL`], which is how a shadow model
    /// indexes its LEDs.
    pub fn index(self) -> (r: usize)
        ensures
            r == strip_button_index(self),
            r < 5,
    {
        match self {
            StripButton::Rec => 0,
            StripButton::Solo => 1,
            StripButton::Mute => 2,
            StripButton::Select => 3,
            StripButton::VPotPush => 4,
        }
    }

    /// The button at a position of [`StripButton::ALL`].
    fn at(i: usize) -> (r: StripButton)
        requires
            i < 5,
        ensures
            r == strip_button_at(i as int),
            strip_button_index(r) == i,
    {
        if i == 0 {
            StripButton::Rec
        } else if i == 1 {
            StripButton::Solo
        } else if i == 2 {
            StripButton::Mute
        } else if i == 3 {
            StripButton::Select
        } else {
            StripButton::VPotPush
        }
    }

    /// What a binding profile calls this button.
    pub fn name(self) -> (r: &'static str)
        ensures
            r@ == strip_button_name(self),
    {
        match self {
            StripButton::Rec => "Rec",
            StripButton::Solo => "Solo",
            StripButton::Mute => "Mute",
            StripButton::Select => "Select",
            StripButton::VPotPush => "VPotPush",
        }
    }

    /// The name, as a string of its own.
    pub fn to_string(&self) -> (r: String)
        ensures
            r@ == strip_button_name(*self),
    {
        text_of(self.name())
    }

    /// The button a control name refers to: the inverse of
    /// [`StripButton::name`].
    pub fn from_name(name: &str) -> (r: Option<StripButton>)
        ensures
            match r {
                Some(b) => strip_button_name(b) == name@,
                None => forall|b: StripButton| #[trigger] strip_button_name(b) != name@,
            },
    {
        let mut i: usize = 0;
        while i < 5
            invariant
                0 <= i <= 5,
                forall|k: int| 0 <= k < i ==> #[trigger] strip_button_name(strip_button_at(k)) != name@,
            decreases 5 - i,
        {
            let b = StripButton::at(i);
            if same_text(b.name(), name) {
                return Some(b);
            }
            i = i + 1;
        }
        proof {
            assert forall|b: StripButton| #[trigger] strip_button_name(b) != name@ by {
                assert(strip_button_at(strip_button_index(b)) == b);
            }
        }
        None
    }
}

/// Every button on the panel that does not belong to a channel strip. The
/// names are the ones printed on the surface.
#[derive(Debug, Clone, Copy, PartialEq, Eq, Structural, PartialOrd, Ord, Hash)]
pub enum GlobalButton {
    /// Encoder Assign: Track.
    AssignTrack,
    /// Encoder Assign: Send.
    AssignSend,
    /// Encoder Assign: Pan/Surround.
    AssignPan,
    /// Encoder Assign: Plug-in.
    AssignPlugin,
    /// Encoder Assign: EQ.
    AssignEq,
    /// Encoder Assign: Instrument.
    AssignInstrument,
    /// Fader bank left: executor page down.
    BankLeft,
    /// Fader bank right: executor page up.
    BankRight,
    /// Channel left: previous view.
    ChannelLeft,
    /// Channel right: next view.
    ChannelRight,
    /// Flip.
    Flip,
    /// Global View.
    GlobalView,
    /// Display: Name/Value.
    NameValue,
    /// Display: SMPTE/Beats.
    SmpteBeats,
    /// Function key 1.
    F1,
    /// Function key 2.
    F2,
    /// Function key 3.
    F3,
    /// Function key 4.
    F4,
    /// Function key 5.
    F5,
    /// Function key 6.
    F6,
    /// Function key 7.
    F7,
    /// Function key 8.
    F8,
    /// Global View group: MIDI Tracks.
    ViewMidiTracks,
    /// Global View group: Inputs.
    ViewInputs,
    /// Global View group: Audio Tracks.
    ViewAudioTracks,
    /// Global View group: Audio Instruments.
    ViewAudioInstruments,
    /// Global View group: Aux.
    ViewAux,
    /// Global View group: Busses.
    ViewBusses,
    /// Global View group: Outputs.
    ViewOutputs,
    /// Global View group: User.
    ViewUser,
    /// Modifier: Shift. Held, not latched.
    ModShift,
    /// Modifier: Option. Held, not latched.
    ModOption,
    /// Modifier: Control. Held, not latched.
    ModControl,
    /// Modifier: Alt. Held, not latched.
    ModAlt,
    /// Automation: Read/Off.
    AutoRead,
    /// Automation: Write.
    AutoWrite,
    /// Automation: Trim.
    AutoTrim,
    /// Automation: Touch; not the fader touch sensor.
    AutoTouch,
    /// Automation: Latch.
    AutoLatch,
    /// Automation: Group.
    AutoGroup,
    /// Utility: Save.
    Save,
    /// Utility: Undo.
    Undo,
    /// Utility: Cancel.
    Cancel,
    /// Utility: Enter.
    Enter,
    /// Upper transport row: Markers.
    Markers,
    /// Upper transport row: Nudge.
    Nudge,
    /// Upper transport row: Cycle.
    Cycle,
    /// Upper transport row: Drop.
    Drop,
    /// Upper transport row: Replace.
    Replace,
    /// Upper transport row: Click.
    Click,
    /// Upper transport row: Solo, the global one that clears solos.
    SoloClear,
    /// Transport: Rewind.
    Rewind,
    /// Transport: Fast forward.
    FastForward,
    /// Transport: Stop.
    Stop,
    /// Transport: Play.
    Play,
    /// Transport: Record.
    Record,
    /// Cursor: up.
    CursorUp,
    /// Cursor: down.
    CursorDown,
    /// Cursor: left.
    CursorLeft,
    /// Cursor: right.
    CursorRight,
    /// Cursor cluster: Zoom.
    Zoom,
    /// Cursor cluster: Scrub.
    Scrub,
    /// Foot switch 1.
    FootSwitch1,
    /// Foot switch 2.
    FootSwitch2,
}

/// Where a global button stands in [`GlobalButton::ALL`].
pub open spec fn global_button_index(b: GlobalButton) -> int {
    match b {
        GlobalButton::AssignTrack => 0,
        GlobalButton::AssignSend => 1,
        GlobalButton::AssignPan => 2,
        GlobalButton::AssignPlugin => 3,
        GlobalButton::AssignEq => 4,
        GlobalButton::AssignInstrument => 5,
        GlobalButton::BankLeft => 6,
        GlobalButton::BankRight => 7,
        GlobalButton::ChannelLeft => 8,
        GlobalButton::ChannelRight => 9,
        GlobalButton::Flip => 10,
        GlobalButton::GlobalView => 11,
        GlobalButton::NameValue => 12,
        GlobalButton::SmpteBeats => 13,
        GlobalButton::F1 => 14,
        GlobalButton::F2 => 15,
        GlobalButton::F3 => 16,
        GlobalButton::F4 => 17,
        GlobalButton::F5 => 18,
        GlobalButton::F6 => 19,
        GlobalButton::F7 => 20,
        GlobalButton::F8 => 21,
        GlobalButton::ViewMidiTracks => 22,
        GlobalButton::ViewInputs => 23,
        GlobalButton::ViewAudioTracks => 24,
        GlobalButton::ViewAudioInstruments => 25,
        GlobalButton::ViewAux => 26,
        GlobalButton::ViewBusses => 27,
        GlobalButton::ViewOutputs => 28,
        GlobalButton::ViewUser => 29,
        GlobalButton::ModShift => 30,
        GlobalButton::ModOption => 31,
        GlobalButton::ModControl => 32,
        GlobalButton::ModAlt => 33,
        GlobalButton::AutoRead => 34,
        GlobalButton::AutoWrite => 35,
        GlobalButton::AutoTrim => 36,
        GlobalButton::AutoTouch => 37,
        GlobalButton::AutoLatch => 38,
        GlobalButton::AutoGroup => 39,
        GlobalButton::Save => 40,
        GlobalButton::Undo => 41,
        GlobalButton::Cancel => 42,
        GlobalButton::Enter => 43,
        GlobalButton::Markers => 44,
        GlobalButton::Nudge => 45,
        GlobalButton::Cycle => 46,
        GlobalButton::Drop => 47,
        GlobalButton::Replace => 48,
        GlobalButton::Click => 49,
        GlobalButton::SoloClear => 50,
        GlobalButton::Rewind => 51,
        GlobalButton::FastForward => 52,
        GlobalButton::Stop => 53,
        GlobalButton::Play => 54,
        GlobalButton::Record => 55,
        GlobalButton::CursorUp => 56,
        GlobalButton::CursorDown => 57,
        GlobalButton::CursorLeft => 58,
        GlobalButton::CursorRight => 59,
        GlobalButton::Zoom => 60,
        GlobalButton::Scrub => 61,
        GlobalButton::FootSwitch1 => 62,
        GlobalButton::FootSwitch2 => 63,
    }
}

/// The global button at a position of [`GlobalButton::ALL`].
pub open spec fn global_button_at(i: int) -> GlobalButton {
    if i == 0 {
        GlobalButton::AssignTrack
    } else if i == 1 {
        GlobalButton::AssignSend
    } else if i == 2 {
        GlobalButton::AssignPan
    } else if i == 3 {
        GlobalButton::AssignPlugin
    } else if i == 4 {
        GlobalButton::AssignEq
    } else if i == 5 {
        GlobalButton::AssignInstrument
    } else if i == 6 {
        GlobalButton::BankLeft
    } else if i == 7 {
        GlobalButton::BankRight
    } else if i == 8 {
        GlobalButton::ChannelLeft
    } else if i == 9 {
        GlobalButton::ChannelRight
    } else if i == 10 {
        GlobalButton::Flip
    } else if i == 11 {
        GlobalButton::GlobalView
    } else if i == 12 {
        GlobalButton::NameValue
    } else if i == 13 {
        GlobalButton::SmpteBeats
    } else if i == 14 {
        GlobalButton::F1
    } else if i == 15 {
        GlobalButton::F2
    } else if i == 16 {
        GlobalButton::F3
    } else if i == 17 {
        GlobalButton::F4
    } else if i == 18 {
        GlobalButton::F5
    } else if i == 19 {
        GlobalButton::F6
    } else if i == 20 {
        GlobalButton::F7
    } else if i == 21 {
        GlobalButton::F8
    } else if i == 22 {
        GlobalButton::ViewMidiTracks
    } else if i == 23 {
        GlobalButton::ViewInputs
    } else if i == 24 {
        GlobalButton::ViewAudioTracks
    } else if i == 25 {
        GlobalButton::ViewAudioInstruments
    } else if i == 26 {
        GlobalButton::ViewAux
    } else if i == 27 {
        GlobalButton::ViewBusses
    } else if i == 28 {
        GlobalButton::ViewOutputs
    } else if i == 29 {
        GlobalButton::ViewUser
    } else if i == 30 {
        GlobalButton::ModShift
    } else if i == 31 {
        GlobalButton::ModOption
    } else if i == 32 {
        GlobalButton::ModControl
    } else if i == 33 {
        GlobalButton::ModAlt
    } else if i == 34 {
        GlobalButton::AutoRead
    } else if i == 35 {
        GlobalButton::AutoWrite
    } else if i == 36 {
        GlobalButton::AutoTrim
    } else if i == 37 {
        GlobalButton::AutoTouch
    } else if i == 38 {
        GlobalButton::AutoLatch
    } else if i == 39 {
        GlobalButton::AutoGroup
    } else if i == 40 {
        GlobalButton::Save
    } else if i == 41 {
        GlobalButton::Undo
    } else if i == 42 {
        GlobalButton::Cancel
    } else if i == 43 {
        GlobalButton::Enter
    } else if i == 44 {
        GlobalButton::Markers
    } else if i == 45 {
        GlobalButton::Nudge
    } else if i == 46 {
        GlobalButton::Cycle
    } else if i == 47 {
        GlobalButton::Drop
    } else if i == 48 {
        GlobalButton::Replace
    } else if i == 49 {
        GlobalButton::Click
    } else if i == 50 {
        GlobalButton::SoloClear
    } else if i == 51 {
        GlobalButton::Rewind
    } else if i == 52 {
        GlobalButton::FastForward
    } else if i == 53 {
        GlobalButton::Stop
    } else if i == 54 {
        GlobalButton::Play
    } else if i == 55 {
        GlobalButton::Record
    } else if i == 56 {
        GlobalButton::CursorUp
    } else if i == 57 {
        GlobalButton::CursorDown
    } else if i == 58 {
        GlobalButton::CursorLeft
    } else if i == 59 {
        GlobalButton::CursorRight
    } else if i == 60 {
        GlobalButton::Zoom
    } else if i == 61 {
        GlobalButton::Scrub
    } else if i == 62 {
        GlobalButton::FootSwitch1
    } else {
        GlobalButton::FootSwitch2
    }
}

/// What a binding profile calls a global button.
pub open spec fn global_button_name(b: GlobalButton) -> Seq<char> {
    match b {
        GlobalButton::AssignTrack => "AssignTrack"@,
        GlobalButton::AssignSend => "AssignSend"@,
        GlobalButton::AssignPan => "AssignPan"@,
        GlobalButton::AssignPlugin => "AssignPlugin"@,
        GlobalButton::AssignEq => "AssignEq"@,
        GlobalButton::AssignInstrument => "AssignInstrument"@,
        GlobalButton::BankLeft => "BankLeft"@,
        GlobalButton::BankRight => "BankRight"@,
        GlobalButton::ChannelLeft => "ChannelLeft"@,
        GlobalButton::ChannelRight => "ChannelRight"@,
        GlobalButton::Flip => "Flip"@,
        GlobalButton::GlobalView => "GlobalView"@,
        GlobalButton::NameValue => "NameValue"@,
        GlobalButton::SmpteBeats => "SmpteBeats"@,
        GlobalButton::F1 => "F1"@,
        GlobalButton::F2 => "F2"@,
        GlobalButton::F3 => "F3"@,
        GlobalButton::F4 => "F4"@,
        GlobalButton::F5 => "F5"@,
        GlobalButton::F6 => "F6"@,
        GlobalButton::F7 => "F7"@,
        GlobalButton::F8 => "F8"@,
        GlobalButton::ViewMidiTracks => "ViewMidiTracks"@,
        GlobalButton::ViewInputs => "ViewInputs"@,
        GlobalButton::ViewAudioTracks => "ViewAudioTracks"@,
        GlobalButton::ViewAudioInstruments => "ViewAudioInstruments"@,
        GlobalButton::ViewAux => "ViewAux"@,
        GlobalButton::ViewBusses => "ViewBusses"@,
        GlobalButton::ViewOutputs => "ViewOutputs"@,
        GlobalButton::ViewUser => "ViewUser"@,
        GlobalButton::ModShift => "ModShift"@,
        GlobalButton::ModOption => "ModOption"@,
        GlobalButton::ModControl => "ModControl"@,
        GlobalButton::ModAlt => "ModAlt"@,
        GlobalButton::AutoRead => "AutoRead"@,
        GlobalButton::AutoWrite => "AutoWrite"@,
        GlobalButton::AutoTrim => "AutoTrim"@,
        GlobalButton::AutoTouch => "AutoTouch"@,
        GlobalButton::AutoLatch => "AutoLatch"@,
        GlobalButton::AutoGroup => "AutoGroup"@,
        GlobalButton::Save => "Save"@,
        GlobalButton::Undo => "Undo"@,
        GlobalButton::Cancel => "Cancel"@,
        GlobalButton::Enter => "Enter"@,
        GlobalButton::Markers => "Markers"@,
        GlobalButton::Nudge => "Nudge"@,
        GlobalButton::Cycle => "Cycle"@,
        GlobalButton::Drop => "Drop"@,
        GlobalButton::Replace => "Replace"@,
        GlobalButton::Click => "Click"@,
        GlobalButton::SoloClear => "SoloClear"@,
        GlobalButton::Rewind => "Rewind"@,
        GlobalButton::FastForward => "FastForward"@,
        GlobalButton::Stop => "Stop"@,
        GlobalButton::Play => "Play"@,
        GlobalButton::Record => "Record"@,
        GlobalButton::CursorUp => "CursorUp"@,
        GlobalButton::CursorDown => "CursorDown"@,
        GlobalButton::CursorLeft => "CursorLeft"@,
        GlobalButton::CursorRight => "CursorRight"@,
        GlobalButton::Zoom => "Zoom"@,
        GlobalButton::Scrub => "Scrub"@,
        GlobalButton::FootSwitch1 => "FootSwitch1"@,
        GlobalButton::FootSwitch2 => "FootSwitch2"@,
    }
}

impl GlobalButton {
    /// Every one, in declaration order.
    pub const ALL: [GlobalButton; 64] = [
        GlobalButton::AssignTrack,
        GlobalButton::AssignSend,
        GlobalButton::AssignPan,
        GlobalButton::AssignPlugin,
        GlobalButton::AssignEq,
        GlobalButton::AssignInstrument,
        GlobalButton::BankLeft,
        GlobalButton::BankRight,
        GlobalButton::ChannelLeft,
        GlobalButton::ChannelRight,
        GlobalButton::Flip,
        GlobalButton::GlobalView,
        GlobalButton::NameValue,
        GlobalButton::SmpteBeats,
        GlobalButton::F1,
        GlobalButton::F2,
        GlobalButton::F3,
        GlobalButton::F4,
        GlobalButton::F5,
        GlobalButton::F6,
        GlobalButton::F7,
        GlobalButton::F8,
        GlobalButton::ViewMidiTracks,
        GlobalButton::ViewInputs,
        GlobalButton::ViewAudioTracks,
        GlobalButton::ViewAudioInstruments,
        GlobalButton::ViewAux,
        GlobalButton::ViewBusses,
        GlobalButton::ViewOutputs,
        GlobalButton::ViewUser,
        GlobalButton::ModShift,
        GlobalButton::ModOption,
        GlobalButton::ModControl,
        GlobalButton::ModAlt,
        GlobalButton::AutoRead,
        GlobalButton::AutoWrite,
        GlobalButton::AutoTrim,
        GlobalButton::AutoTouch,
        GlobalButton::AutoLatch,
        GlobalButton::AutoGroup,
        GlobalButton::Save,
        GlobalButton::Undo,
        GlobalButton::Cancel,
        GlobalButton::Enter,
        GlobalButton::Markers,
        GlobalButton::Nudge,
        GlobalButton::Cycle,
        GlobalButton::Drop,
        GlobalButton::Replace,
        GlobalButton::Click,
        GlobalButton::SoloClear,
        GlobalButton::Rewind,
        GlobalButton::FastForward,
        GlobalButton::Stop,
        GlobalButton::Play,
        GlobalButton::Record,
        GlobalButton::CursorUp,
        GlobalButton::CursorDown,
        GlobalButton::CursorLeft,
        GlobalButton::CursorRight,
        GlobalButton::Zoom,
        GlobalButton::Scrub,
        GlobalButton::FootSwitch1,
        GlobalButton::FootSwitch2,
    ];

    /// This button's position in [`GlobalButton::ALL`], which is how a shadow model
    /// indexes its LEDs.
    pub fn index(self) -> (r: usize)
        ensures
            r == global_button_index(self),
            r < 64,
    {
        match self {
            GlobalButton::AssignTrack => 0,
            GlobalButton::AssignSend => 1,
            GlobalButton::AssignPan => 2,
            GlobalButton::AssignPlugin => 3,
            GlobalButton::AssignEq => 4,
            GlobalButton::AssignInstrument => 5,
            GlobalButton::BankLeft => 6,
            GlobalButton::BankRight => 7,
            GlobalButton::ChannelLeft => 8,
            GlobalButton::ChannelRight => 9,
            GlobalButton::Flip => 10,
            GlobalButton::GlobalView => 11,
            GlobalButton::NameValue => 12,
            GlobalButton::SmpteBeats => 13,
            GlobalButton::F1 => 14,
            GlobalButton::F2 => 15,
            GlobalButton::F3 => 16,
            GlobalButton::F4 => 17,
            GlobalButton::F5 => 18,
            GlobalButton::F6 => 19,
            GlobalButton::F7 => 20,
            GlobalButton::F8 => 21,
            GlobalButton::ViewMidiTracks => 22,
            GlobalButton::ViewInputs => 23,
            GlobalButton::ViewAudioTracks => 24,
            GlobalButton::ViewAudioInstruments => 25,
            GlobalButton::ViewAux => 26,
            GlobalButton::ViewBusses => 27,
            GlobalButton::ViewOutputs => 28,
            GlobalButton::ViewUser => 29,
            GlobalButton::ModShift => 30,
            GlobalButton::ModOption => 31,
            GlobalButton::ModControl => 32,
            GlobalButton::ModAlt => 33,
            GlobalButton::AutoRead => 34,
            GlobalButton::AutoWrite => 35,
            GlobalButton::AutoTrim => 36,
            GlobalButton::AutoTouch => 37,
            GlobalButton::AutoLatch => 38,
            GlobalButton::AutoGroup => 39,
            GlobalButton::Save => 40,
            GlobalButton::Undo => 41,
            GlobalButton::Cancel => 42,
            GlobalButton::Enter => 43,
            GlobalButton::Markers => 44,
            GlobalButton::Nudge => 45,
            GlobalButton::Cycle => 46,
            GlobalButton::Drop => 47,
            GlobalButton::Replace => 48,
            GlobalButton::Click => 49,
            GlobalButton::SoloClear => 50,
            GlobalButton::Rewind => 51,
            GlobalButton::FastForward => 52,
            GlobalButton::Stop => 53,
            GlobalButton::Play => 54,
            GlobalButton::Record => 55,
            GlobalButton::CursorUp => 56,
            GlobalButton::CursorDown => 57,
            GlobalButton::CursorLeft => 58,
            GlobalButton::CursorRight => 59,
            GlobalButton::Zoom => 60,
            GlobalButton::Scrub => 61,
            GlobalButton::FootSwitch1 => 62,
            GlobalButton::FootSwitch2 => 63,
        }
    }

    /// The button at a position of [`GlobalButton::ALL`].
    fn at(i: usize) -> (r: GlobalButton)
        requires
            i < 64,
        ensures
            r == global_button_at(i as int),
            global_button_index(r) == i,
    {
        if i == 0 {
            GlobalButton::AssignTrack
        } else if i == 1 {
            GlobalButton::AssignSend
        } else if i == 2 {
            GlobalButton::AssignPan
        } else if i == 3 {
            GlobalButton::AssignPlugin
        } else if i == 4 {
            GlobalButton::AssignEq
        } else if i == 5 {
            GlobalButton::AssignInstrument
        } else if i == 6 {
            GlobalButton::BankLeft
        } else if i == 7 {
            GlobalButton::BankRight
        } else if i == 8 {
            GlobalButton::ChannelLeft
        } else if i == 9 {
            GlobalButton::ChannelRight
        } else if i == 10 {
            GlobalButton::Flip
        } else if i == 11 {
            GlobalButton::GlobalView
        } else if i == 12 {
            GlobalButton::NameValue
        } else if i == 13 {
            GlobalButton::SmpteBeats
        } else if i == 14 {
            GlobalButton::F1
        } else if i == 15 {
            GlobalButton::F2
        } else if i == 16 {
            GlobalButton::F3
        } else if i == 17 {
            GlobalButton::F4
        } else if i == 18 {
            GlobalButton::F5
        } else if i == 19 {
            GlobalButton::F6
        } else if i == 20 {
            GlobalButton::F7
        } else if i == 21 {
            GlobalButton::F8
        } else if i == 22 {
            GlobalButton::ViewMidiTracks
        } else if i == 23 {
            GlobalButton::ViewInputs
        } else if i == 24 {
            GlobalButton::ViewAudioTracks
        } else if i == 25 {
            GlobalButton::ViewAudioInstruments
        } else if i == 26 {
            GlobalButton::ViewAux
        } else if i == 27 {
            GlobalButton::ViewBusses
        } else if i == 28 {
            GlobalButton::ViewOutputs
        } else if i == 29 {
            GlobalButton::ViewUser
        } else if i == 30 {
            GlobalButton::ModShift
        } else if i == 31 {
            GlobalButton::ModOption
        } else if i == 32 {
            GlobalButton::ModControl
        } else if i == 33 {
            GlobalButton::ModAlt
        } else if i == 34 {
            GlobalButton::AutoRead
        } else if i == 35 {
            GlobalButton::AutoWrite
        } else if i == 36 {
            GlobalButton::AutoTrim
        } else if i == 37 {
            GlobalButton::AutoTouch
        } else if i == 38 {
            GlobalButton::AutoLatch
        } else if i == 39 {
            GlobalButton::AutoGroup
        } else if i == 40 {
            GlobalButton::Save
        } else if i == 41 {
            GlobalButton::Undo
        } else if i == 42 {
            GlobalButton::Cancel
        } else if i == 43 {
            GlobalButton::Enter
        } else if i == 44 {
            GlobalButton::Markers
        } else if i == 45 {
            GlobalButton::Nudge
        } else if i == 46 {
            GlobalButton::Cycle
        } else if i == 47 {
            GlobalButton::Drop
        } else if i == 48 {
            GlobalButton::Replace
        } else if i == 49 {
            GlobalButton::Click
        } else if i == 50 {
            GlobalButton::SoloClear
        } else if i == 51 {
            GlobalButton::Rewind
        } else if i == 52 {
            GlobalButton::FastForward
        } else if i == 53 {
            GlobalButton::Stop
        } else if i == 54 {
            GlobalButton::Play
        } else if i == 55 {
            GlobalButton::Record
        } else if i == 56 {
            GlobalButton::CursorUp
        } else if i == 57 {
            GlobalButton::CursorDown
        } else if i == 58 {
            GlobalButton::CursorLeft
        } else if i == 59 {
            GlobalButton::CursorRight
        } else if i == 60 {
            GlobalButton::Zoom
        } else if i == 61 {
            GlobalButton::Scrub
        } else if i == 62 {
            GlobalButton::FootSwitch1
        } else {
            GlobalButton::FootSwitch2
        }
    }

    /// What a binding profile calls this button.
    pub fn name(self) -> (r: &'static str)
        ensures
            r@ == global_button_name(self),
    {
        match self {
            GlobalButton::AssignTrack => "AssignTrack",
            GlobalButton::AssignSend => "AssignSend",
            GlobalButton::AssignPan => "AssignPan",
            GlobalButton::AssignPlugin => "AssignPlugin",
            GlobalButton::AssignEq => "AssignEq",
            GlobalButton::AssignInstrument => "AssignInstrument",
            GlobalButton::BankLeft => "BankLeft",
            GlobalButton::BankRight => "BankRight",
            GlobalButton::ChannelLeft => "ChannelLeft",
            GlobalButton::ChannelRight => "ChannelRight",
            GlobalButton::Flip => "Flip",
            GlobalButton::GlobalView => "GlobalView",
            GlobalButton::NameValue => "NameValue",
            GlobalButton::SmpteBeats => "SmpteBeats",
            GlobalButton::F1 => "F1",
            GlobalButton::F2 => "F2",
            GlobalButton::F3 => "F3",
            GlobalButton::F4 => "F4",
            GlobalButton::F5 => "F5",
            GlobalButton::F6 => "F6",
            GlobalButton::F7 => "F7",
            GlobalButton::F8 => "F8",
            GlobalButton::ViewMidiTracks => "ViewMidiTracks",
            GlobalButton::ViewInputs => "ViewInputs",
            GlobalButton::ViewAudioTracks => "ViewAudioTracks",
            GlobalButton::ViewAudioInstruments => "ViewAudioInstruments",
            GlobalButton::ViewAux => "ViewAux",
            GlobalButton::ViewBusses => "ViewBusses",
            GlobalButton::ViewOutputs => "ViewOutputs",
            GlobalButton::ViewUser => "ViewUser",
            GlobalButton::ModShift => "ModShift",
            GlobalButton::ModOption => "ModOption",
            GlobalButton::ModControl => "ModControl",
            GlobalButton::ModAlt => "ModAlt",
            GlobalButton::AutoRead => "AutoRead",
            GlobalButton::AutoWrite => "AutoWrite",
            GlobalButton::AutoTrim => "AutoTrim",
            GlobalButton::AutoTouch => "AutoTouch",
            GlobalButton::AutoLatch => "AutoLatch",
            GlobalButton::AutoGroup => "AutoGroup",
            GlobalButton::Save => "Save",
            GlobalButton::Undo => "Undo",
            GlobalButton::Cancel => "Cancel",
            GlobalButton::Enter => "Enter",
            GlobalButton::Markers => "Markers",
            GlobalButton::Nudge => "Nudge",
            GlobalButton::Cycle => "Cycle",
            GlobalButton::Drop => "Drop",
            GlobalButton::Replace => "Replace",
            GlobalButton::Click => "Click",
            GlobalButton::SoloClear => "SoloClear",
            GlobalButton::Rewind => "Rewind",
            GlobalButton::FastForward => "FastForward",
            GlobalButton::Stop => "Stop",
            GlobalButton::Play => "Play",
            GlobalButton::Record => "Record",
            GlobalButton::CursorUp => "CursorUp",
            GlobalButton::CursorDown => "CursorDown",
            GlobalButton::CursorLeft => "CursorLeft",
            GlobalButton::CursorRight => "CursorRight",
            GlobalButton::Zoom => "Zoom",
            GlobalButton::Scrub => "Scrub",
            GlobalButton::FootSwitch1 => "FootSwitch1",
            GlobalButton::FootSwitch2 => "FootSwitch2",
        }
    }

    /// The name, as a string of its own.
    pub fn to_string(&self) -> (r: String)
        ensures
            r@ == global_button_name(*self),
    {
        text_of(self.name())
    }

    /// The button a control name refers to: the inverse of
    /// [`GlobalButton::name`].
    pub fn from_name(name: &str) -> (r: Option<GlobalButton>)
        ensures
            match r {
                Some(b) => global_button_name(b) == name@,
                None => forall|b: GlobalButton| #[trigger] global_button_name(b) != name@,
            },
    {
        let mut i: usize = 0;
        while i < 64
            invariant
                0 <= i <= 64,
                forall|k: int| 0 <= k < i ==> #[trigger] global_button_name(global_button_at(k)) != name@,
            decreases 64 - i,
        {
            let b = GlobalButton::at(i);
            if same_text(b.name(), name) {
                return Some(b);
            }
            i = i + 1;
        }
        proof {
            assert forall|b: GlobalButton| #[trigger] global_button_name(b) != name@ by {
                assert(global_button_at(global_button_index(b)) == b);
            }
        }
        None
    }
}

/// Every strip button has a name of its own, so a name read back names the
/// button it was written for.
#[verifier::rlimit(10)]
pub proof fn law_every_strip_button_name_is_distinct(a: StripButton, b: StripButton)
    ensures
        strip_button_name(a) == strip_button_name(b) ==> a == b,
{
    reveal_strlit("Rec");
    reveal_strlit("Solo");
    reveal_strlit("Mute");
    reveal_strlit("Select");
    reveal_strlit("VPotPush");
    if strip_button_name(a) == strip_button_name(b) {
        let x = strip_button_name(a);
        let y = strip_button_name(b);
        assert(x.len() == y.len());
        assert(x[0] == y[0]);
        assert(x[1] == y[1]);
        assert(x[2] == y[2]);
        assert(x[3] == y[3]);
    }
}

/// Every global button has a name of its own, so a name read back names the
/// button it was written for.
#[verifier::rlimit(100)]
pub proof fn law_every_global_button_name_is_distinct(a: GlobalButton, b: GlobalButton)
    ensures
        global_button_name(a) == global_button_name(b) ==> a == b,
{
    reveal_strlit("AssignTrack");
    reveal_strlit("AssignSend");
    reveal_strlit("AssignPan");
    reveal_strlit("AssignPlugin");
    reveal_strlit("AssignEq");
    reveal_strlit("AssignInstrument");
    reveal_strlit("BankLeft");
    reveal_strlit("BankRight");
    reveal_strlit("ChannelLeft");
    reveal_strlit("ChannelRight");
    reveal_strlit("Flip");
    reveal_strlit("GlobalView");
    reveal_strlit("NameValue");
    reveal_strlit("SmpteBeats");
    reveal_strlit("F1");
    reveal_strlit("F2");
    reveal_strlit("F3");
    reveal_strlit("F4");
    reveal_strlit("F5");
    reveal_strlit("F6");
    reveal_strlit("F7");
    reveal_strlit("F8");
    reveal_strlit("ViewMidiTracks");
    reveal_strlit("ViewInputs");
    reveal_strlit("ViewAudioTracks");
    reveal_strlit("ViewAudioInstruments");
    reveal_strlit("ViewAux");
    reveal_strlit("ViewBusses");
    reveal_strlit("ViewOutputs");
    reveal_strlit("ViewUser");
    reveal_strlit("ModShift");
    reveal_strlit("ModOption");
    reveal_strlit("ModControl");
    reveal_strlit("ModAlt");
    reveal_strlit("AutoRead");
    reveal_strlit("AutoWrite");
    reveal_strlit("AutoTrim");
    reveal_strlit("AutoTouch");
    reveal_strlit("AutoLatch");
    reveal_strlit("AutoGroup");
    reveal_strlit("Save");
    reveal_strlit("Undo");
    reveal_strlit("Cancel");
    reveal_strlit("Enter");
    reveal_strlit("Markers");
    reveal_strlit("Nudge");
    reveal_strlit("Cycle");
    reveal_strlit("Drop");
    reveal_strlit("Replace");
    reveal_strlit("Click");
    reveal_strlit("SoloClear");
    reveal_strlit("Rewind");
    reveal_strlit("FastForward");
    reveal_strlit("Stop");
    reveal_strlit("Play");
    reveal_strlit("Record");
    reveal_strlit("CursorUp");
    reveal_strlit("CursorDown");
    reveal_strlit("CursorLeft");
    reveal_strlit("CursorRight");
    reveal_strlit("Zoom");
    reveal_strlit("Scrub");
    reveal_strlit("FootSwitch1");
    reveal_strlit("FootSwitch2");
    if global_button_name(a) == global_button_name(b) {
        let x = global_button_name(a);
        let y = global_button_name(b);
        assert(x.len() == y.len());
        assert(x[0] == y[0]);
        assert(x[1] == y[1]);
        assert(x[2] == y[2]);
        assert(x[3] == y[3]);
        assert(x[4] == y[4]);
        assert(x[5] == y[5]);
        assert(x[6] == y[6]);
        assert(x[7] == y[7]);
        assert(x[8] == y[8]);
        assert(x[9] == y[9]);
        assert(x[10] == y[10]);
        assert(x[11] == y[11]);
    }
}

/// Which executor an action acts on.
#[derive(Debug, Clone, Copy, PartialEq, Eq, Structural, PartialOrd, Ord, Hash)]
pub enum ExecutorTarget {
    /// The executor on the strip the event came from. Nothing at all when the
    /// control is not a strip's.
    Strip,
    /// The executor the session has selected. Nothing when none is.
    Selected,
}

/// Which way a relative move goes.
#[derive(Debug, Clone, Copy, PartialEq, Eq, Structural, PartialOrd, Ord, Hash)]
pub enum Step {
    /// Backwards.
    Prev,
    /// Forwards.
    Next,
}

/// Which way the jog wheel moves the selected programmer parameter.
#[derive(Debug, Clone, Copy, PartialEq, Eq, Structural, PartialOrd, Ord, Hash)]
pub enum ParamDirection {
    /// The previous parameter.
    Prev,
    /// The next parameter.
    Next,
}

/// Which of an executor's buttons a control presses.
#[derive(Debug, Clone, Copy, PartialEq, Eq, Structural, PartialOrd, Ord, Hash)]
pub enum ExecutorButtonRef {
    /// A hardware position on the executor, counted from the top.
    Slot {
        /// Which position.
        index: u8,
    },
}

/// What a control does. Every one resolves to a command that already exists.
#[derive(Debug, Clone, PartialEq, Eq)]
pub enum SurfaceAction {
    /// Move an executor's master: a fader, or an encoder.
    ExecutorMaster {
        /// Whose master.
        target: ExecutorTarget,
    },
    /// Step an executor's sequence.
    ExecutorGo {
        /// Which executor.
        target: ExecutorTarget,
        /// Which way.
        direction: GoDirection,
    },
    /// Stop an executor.
    ExecutorOff {
        /// Which executor.
        target: ExecutorTarget,
    },
    /// Press one of an executor's buttons and let the executor decide what it
    /// means. The only action that forwards a release as well as a press.
    ExecutorButton {
        /// Which executor.
        target: ExecutorTarget,
        /// Which of its buttons.
        button: ExecutorButtonRef,
    },
    /// Make an executor the selected one.
    SelectExecutor {
        /// Which executor.
        target: ExecutorTarget,
    },
    /// Advance the three-stage Clear.
    ClearProgrammer,
    /// Page the fader bank, eight executors to a page.
    ExecutorPage {
        /// How many pages, signed. Saturates at page 0 rather than wrapping.
        delta: i32,
    },
    /// Jump to a stored view by number.
    SelectView {
        /// Which view.
        view: ViewId,
    },
    /// Move to the neighbouring stored view.
    StepView {
        /// Which way.
        direction: Step,
    },
    /// Page the programmer.
    ProgrammerPage {
        /// How many pages, signed. Saturates at page 0.
        delta: i32,
    },
    /// Move the programmer parameter the jog wheel turns.
    SelectProgrammerParam {
        /// Which way.
        direction: ParamDirection,
    },
    /// Change the selected programmer parameter by the steps the control
    /// reported.
    AdjustParameter,
    /// Switch the encoder bank.
    SetEncoderBank {
        /// Which feature group.
        group: FeatureGroup,
    },
    /// Open a window on the canvas.
    OpenWindow {
        /// Which window.
        window: WindowType,
    },
    /// Open the window chooser, so the operator picks which.
    OpenWindowPicker,
    /// Put a line into the command line, and run it if `submit` says so.
    WriteCommandLine {
        /// The line to write, exactly as it would be typed.
        line: String,
        /// Run it as well, rather than leaving it for Enter.
        submit: bool,
    },
    /// Write the show to disk.
    SaveShow,
    /// Undo.
    Oops,
    /// Redo.
    Redo,
}

impl SurfaceAction {
    /// Whether this action wants the release of a button as well as the
    /// press: only an executor button does, because only the executor knows
    /// whether that key is a flash.
    pub fn is_momentary(&self) -> (r: bool)
        ensures
            r == (*self is ExecutorButton),
    {
        match self {
            SurfaceAction::ExecutorButton { .. } => true,
            _ => false,
        }
    }
}

/// A control a binding can name. A strip's controls are one entry each: the
/// strip index is what fills in the executor.
#[derive(Debug, Clone, Copy, PartialEq, Eq, Structural, PartialOrd, Ord, Hash)]
pub enum BoundControl {
    /// `Strip[*].Fader`.
    StripFader,
    /// `Strip[*].Encoder`.
    StripEncoder,
    /// `Strip[*].Button.<name>`.
    StripButton {
        /// Which of the strip's five buttons.
        button: StripButton,
    },
    /// `Main.Fader`.
    MainFader,
    /// `Global.<name>`.
    Global {
        /// Which of the panel's sixty-four buttons.
        button: GlobalButton,
    },
    /// `Global.Jog`.
    Jog,
}

/// What a binding profile calls a control.
pub open spec fn control_name(c: BoundControl) -> Seq<char> {
    match c {
        BoundControl::StripFader => "Strip[*].Fader"@,
        BoundControl::StripEncoder => "Strip[*].Encoder"@,
        BoundControl::StripButton { button } => "Strip[*].Button."@ + strip_button_name(button),
        BoundControl::MainFader => "Main.Fader"@,
        BoundControl::Global { button } => "Global."@ + global_button_name(button),
        BoundControl::Jog => "Global.Jog"@,
    }
}

/// The control a name names, if any does.
pub open spec fn control_of_name(name: Seq<char>) -> Option<BoundControl> {
    if exists|c: BoundControl| #[trigger] control_name(c) == name {
        Some(choose|c: BoundControl| #[trigger] control_name(c) == name)
    } else {
        None
    }
}

/// The controls in the order an editor draws them: the strip's own, the main
/// fader, the jog wheel, then the panel.
pub open spec fn all_controls() -> Seq<BoundControl> {
    Seq::new(
        73,
        |i: int|
            if i == 0 {
                BoundControl::StripFader
            } else if i == 1 {
                BoundControl::StripEncoder
            } else if i < 7 {
                BoundControl::StripButton { button: strip_button_at(i - 2) }
            } else if i == 7 {
                BoundControl::MainFader
            } else if i == 8 {
                BoundControl::Jog
            } else {
                BoundControl::Global { button: global_button_at(i - 9) }
            },
    )
}

/// Where a control stands in [`all_controls`].
pub open spec fn control_position(c: BoundControl) -> int {
    match c {
        BoundControl::StripFader => 0,
        BoundControl::StripEncoder => 1,
        BoundControl::StripButton { button } => 2 + strip_button_index(button),
        BoundControl::MainFader => 7,
        BoundControl::Jog => 8,
        BoundControl::Global { button } => 9 + global_button_index(button),
    }
}

/// Buttons this desk must never bind, drive or claim. SMPTE/Beats is the
/// button that switches a shared surface between its two hosts.
pub const RESERVED_BUTTONS: [GlobalButton; 1] = [GlobalButton::SmpteBeats];

/// Why a reserved control may not be bound, in the words an operator reads.
pub const RESERVED_REASON: &'static str = "on a surface shared with a sound console (Xctl+MC) it is the button that switches the desk between the two hosts, so a binding on it strands the operator away from their sound desk. Leave it unbound";

impl BoundControl {
    /// What a binding profile calls this control.
    pub fn to_string(&self) -> (r: String)
        ensures
            r@ == control_name(*self),
    {
        match *self {
            BoundControl::StripFader => text_of("Strip[*].Fader"),
            BoundControl::StripEncoder => text_of("Strip[*].Encoder"),
            BoundControl::StripButton { button } => {
                let mut s = text_of("Strip[*].Button.");
                s.append(button.name());
                s
            },
            BoundControl::MainFader => text_of("Main.Fader"),
            BoundControl::Global { button } => {
                let mut s = text_of("Global.");
                s.append(button.name());
                s
            },
            BoundControl::Jog => text_of("Global.Jog"),
        }
    }

    /// The control a profile's `control` string names, or nothing for a name
    /// that is not a control.
    pub fn from_name(name: &str) -> (r: Option<BoundControl>)
        ensures
            r == control_of_name(name@),
            match r {
                Some(c) => control_name(c) == name@,
                None => forall|c: BoundControl| #[trigger] control_name(c) != name@,
            },
    {
        let r = Self::find_by_name(name);
        proof {
            if let Some(c) = r {
                let d = choose|d: BoundControl| #[trigger] control_name(d) == name@;
                law_every_control_name_is_distinct(c, d);
            }
        }
        r
    }

    /// Looks a name up among the controls.
    fn find_by_name(name: &str) -> (r: Option<BoundControl>)
        ensures
            match r {
                Some(c) => control_name(c) == name@,
                None => forall|c: BoundControl| #[trigger] control_name(c) != name@,
            },
    {
        proof {
            reveal_strlit("Strip[*].Button.");
            reveal_strlit("Global.");
        }
        if same_text(name, "Strip[*].Fader") {
            return Some(BoundControl::StripFader);
        }
        if same_text(name, "Strip[*].Encoder") {
            return Some(BoundControl::StripEncoder);
        }
        if same_text(name, "Main.Fader") {
            return Some(BoundControl::MainFader);
        }
        if same_text(name, "Global.Jog") {
            return Some(BoundControl::Jog);
        }
        match strip_prefix(name, "Strip[*].Button.") {
            Some(rest) => {
                let found = StripButton::from_name(rest);
                proof {
                    assert forall|c: BoundControl| found is None implies #[trigger] control_name(c) != name@ by {
                        if let BoundControl::StripButton { button } = c {
                            if control_name(c) == name@ {
                                assert(rest@ =~= name@.skip(16));
                                assert(("Strip[*].Button."@ + strip_button_name(button)).skip(16) =~= strip_button_name(button));
                            }
                        }
                        if let BoundControl::Global { button } = c {
                            if control_name(c) == name@ {
                                assert(name@[0] == 'S');
                                assert(control_name(c)[0] == 'G');
                            }
                        }
                    }
                }
                match found {
                    Some(button) => Some(BoundControl::StripButton { button }),
                    None => None,
                }
            },
            None => {
                let rest = match strip_prefix(name, "Global.") {
                    Some(rest) => rest,
                    None => {
                        proof {
                            assert forall|c: BoundControl| #[trigger] control_name(c) != name@ by {
                                if let BoundControl::StripButton { button } = c {
                                    if control_name(c) == name@ {
                                        assert(name@.subrange(0, 16) =~= "Strip[*].Button."@);
                                    }
                                }
                                if let BoundControl::Global { button } = c {
                                    if control_name(c) == name@ {
                                        assert(name@.subrange(0, 7) =~= "Global."@);
                                    }
                                }
                            }
                        }
                        return None;
                    },
                };
                let found = GlobalButton::from_name(rest);
                proof {
                    assert forall|c: BoundControl| found is None implies #[trigger] control_name(c) != name@ by {
                        if let BoundControl::Global { button } = c {
                            if control_name(c) == name@ {
                                assert(rest@ =~= name@.skip(7));
                                assert(("Global."@ + global_button_name(button)).skip(7) =~= global_button_name(button));
                            }
                        }
                        if let BoundControl::StripButton { button } = c {
                            if control_name(c) == name@ {
                                assert(name@.subrange(0, 16) =~= "Strip[*].Button."@);
                            }
                        }
                    }
                }
                match found {
                    Some(button) => Some(BoundControl::Global { button }),
                    None => None,
                }
            },
        }
    }

    /// The reserved button this control is, if it is one.
    pub fn reserved(self) -> (r: Option<GlobalButton>)
        ensures
            r == match self {
                BoundControl::Global { button } => if RESERVED_BUTTONS@.contains(button) {
                    Some(button)
                } else {
                    None
                },
                _ => None::<GlobalButton>,
            },
    {
        match self {
            BoundControl::Global { button } => {
                let mut i: usize = 0;
                while i < RESERVED_BUTTONS.len()
                    invariant
                        0 <= i <= RESERVED_BUTTONS@.len(),
                        self == (BoundControl::Global { button }),
                        forall|k: int| 0 <= k < i ==> RESERVED_BUTTONS@[k] != button,
                    decreases RESERVED_BUTTONS@.len() - i,
                {
                    if RESERVED_BUTTONS[i] == button {
                        proof {
                            assert(RESERVED_BUTTONS@[i as int] == button);
                        }
                        return Some(button);
                    }
                    i = i + 1;
                }
                None
            },
            _ => None,
        }
    }

    /// Every control a binding table has a row for, in the order an editor
    /// draws them.
    pub fn all() -> (r: Vec<BoundControl>)
        ensures
            r@ == all_controls(),
    {
        let mut controls: Vec<BoundControl> = Vec::new();
        controls.push(BoundControl::StripFader);
        controls.push(BoundControl::StripEncoder);
        let mut i: usize = 0;
        while i < 5
            invariant
                0 <= i <= 5,
                controls@ == all_controls().take(2 + i),
            decreases 5 - i,
        {
            controls.push(BoundControl::StripButton { button: StripButton::at(i) });
            proof {
                assert(controls@ =~= all_controls().take(2 + i + 1));
            }
            i = i + 1;
        }
        controls.push(BoundControl::MainFader);
        controls.push(BoundControl::Jog);
        proof {
            assert(controls@ =~= all_controls().take(9));
        }
        let mut j: usize = 0;
        while j < 64
            invariant
                0 <= j <= 64,
                controls@ == all_controls().take(9 + j),
            decreases 64 - j,
        {
            controls.push(BoundControl::Global { button: GlobalButton::at(j) });
            proof {
                assert(controls@ =~= all_controls().take(9 + j + 1));
            }
            j = j + 1;
        }
        proof {
            assert(controls@ =~= all_controls());
        }
        controls
    }
}

/// The list of controls is the whole desk with no repeats: every control
/// stands in it exactly once, at its own position.
pub proof fn law_the_list_is_the_whole_desk_and_has_no_repeats(c: BoundControl, i: int)
    ensures
        0 <= control_position(c) < all_controls().len(),
        all_controls()[control_position(c)] == c,
        0 <= i < all_controls().len() && all_controls()[i] == c ==> i == control_position(c),
{
    match c {
        BoundControl::StripButton { button } => {
            assert(strip_button_at(strip_button_index(button)) == button);
        },
        BoundControl::Global { button } => {
            assert(global_button_at(global_button_index(button)) == button);
        },
        _ => {},
    }
    if 0 <= i < all_controls().len() && all_controls()[i] == c {
        if 2 <= i < 7 {
            assert(strip_button_index(strip_button_at(i - 2)) == i - 2);
        }
        if 9 <= i < 73 {
            assert(global_button_index(global_button_at(i - 9)) == i - 9);
        }
    }
}

/// Every control is read back from its own name: what
/// [`BoundControl::to_string`] writes, [`BoundControl::from_name`] reads as
/// the same control.
pub proof fn law_every_control_round_trips_through_its_name(c: BoundControl)
    ensures
        control_of_name(control_name(c)) == Some(c),
{
    let d = choose|d: BoundControl| #[trigger] control_name(d) == control_name(c);
    law_every_control_name_is_distinct(c, d);
}

/// Every control has a name of its own, so [`BoundControl::from_name`] reads
/// back exactly the control [`BoundControl::to_string`] wrote.
#[verifier::rlimit(100)]
pub proof fn law_every_control_name_is_distinct(a: BoundControl, b: BoundControl)
    ensures
        control_name(a) == control_name(b) ==> a == b,
{
    reveal_strlit("Strip[*].Fader");
    reveal_strlit("Strip[*].Encoder");
    reveal_strlit("Strip[*].Button.");
    reveal_strlit("Main.Fader");
    reveal_strlit("Global.");
    reveal_strlit("Global.Jog");
    reveal_strlit("Jog");
    if control_name(a) == control_name(b) {
        let x = control_name(a);
        let y = control_name(b);
        assert(x.len() == y.len());
        assert(x[0] == y[0]);
        assert(x[6] == y[6]);
        assert(x[9] == y[9]);
        match (a, b) {
            (BoundControl::StripButton { button: p }, BoundControl::StripButton { button: q }) => {
                assert(x.skip(16) =~= strip_button_name(p));
                assert(y.skip(16) =~= strip_button_name(q));
                law_every_strip_button_name_is_distinct(p, q);
            },
            (BoundControl::Global { button: p }, BoundControl::Global { button: q }) => {
                assert(x.skip(7) =~= global_button_name(p));
                assert(y.skip(7) =~= global_button_name(q));
                law_every_global_button_name_is_distinct(p, q);
            },
            (BoundControl::Global { button: p }, BoundControl::Jog) => {
                assert(x.skip(7) =~= global_button_name(p));
                assert(y.skip(7) =~= "Jog"@);
                lemma_no_global_button_is_called_jog(p);
            },
            (BoundControl::Jog, BoundControl::Global { button: q }) => {
                assert(y.skip(7) =~= global_button_name(q));
                assert(x.skip(7) =~= "Jog"@);
                lemma_no_global_button_is_called_jog(q);
            },
            _ => {},
        }
    }
}

/// The jog wheel's name is not a panel button's.
proof fn lemma_no_global_button_is_called_jog(b: GlobalButton)
    ensures
        global_button_name(b) != "Jog"@,
{
    reveal_strlit("Jog");
    reveal_strlit("AssignTrack");
    reveal_strlit("AssignSend");
    reveal_strlit("AssignPan");
    reveal_strlit("AssignPlugin");
    reveal_strlit("AssignEq");
    reveal_strlit("AssignInstrument");
    reveal_strlit("BankLeft");
    reveal_strlit("BankRight");
    reveal_strlit("ChannelLeft");
    reveal_strlit("ChannelRight");
    reveal_strlit("Flip");
    reveal_strlit("GlobalView");
    reveal_strlit("NameValue");
    reveal_strlit("SmpteBeats");
    reveal_strlit("F1");
    reveal_strlit("F2");
    reveal_strlit("F3");
    reveal_strlit("F4");
    reveal_strlit("F5");
    reveal_strlit("F6");
    reveal_strlit("F7");
    reveal_strlit("F8");
    reveal_strlit("ViewMidiTracks");
    reveal_strlit("ViewInputs");
    reveal_strlit("ViewAudioTracks");
    reveal_strlit("ViewAudioInstruments");
    reveal_strlit("ViewAux");
    reveal_strlit("ViewBusses");
    reveal_strlit("ViewOutputs");
    reveal_strlit("ViewUser");
    reveal_strlit("ModShift");
    reveal_strlit("ModOption");
    reveal_strlit("ModControl");
    reveal_strlit("ModAlt");
    reveal_strlit("AutoRead");
    reveal_strlit("AutoWrite");
    reveal_strlit("AutoTrim");
    reveal_strlit("AutoTouch");
    reveal_strlit("AutoLatch");
    reveal_strlit("AutoGroup");
    reveal_strlit("Save");
    reveal_strlit("Undo");
    reveal_strlit("Cancel");
    reveal_strlit("Enter");
    reveal_strlit("Markers");
    reveal_strlit("Nudge");
    reveal_strlit("Cycle");
    reveal_strlit("Drop");
    reveal_strlit("Replace");
    reveal_strlit("Click");
    reveal_strlit("SoloClear");
    reveal_strlit("Rewind");
    reveal_strlit("FastForward");
    reveal_strlit("Stop");
    reveal_strlit("Play");
    reveal_strlit("Record");
    reveal_strlit("CursorUp");
    reveal_strlit("CursorDown");
    reveal_strlit("CursorLeft");
    reveal_strlit("CursorRight");
    reveal_strlit("Zoom");
    reveal_strlit("Scrub");
    reveal_strlit("FootSwitch1");
    reveal_strlit("FootSwitch2");
    if global_button_name(b) == "Jog"@ {
        let x = global_button_name(b);
        assert(x.len() == 3);
        assert(x[0] == 'J');
        assert(x[1] == 'o');
    }
}

/// One row of the binding table: a control and what it does, or nothing for a
/// control deliberately left alone.
#[derive(Debug, Clone, PartialEq, Eq)]
pub struct SurfaceBinding {
    /// Which control.
    pub control: BoundControl,
    /// What it does, or nothing.
    pub action: Option<SurfaceAction>,
}

/// One control of the surface as the control editor draws it: the binding,
/// plus the two facts that belong to the device profile.
#[derive(Debug, Clone, PartialEq, Eq)]
pub struct SurfaceControl {
    /// Which control.
    pub control: BoundControl,
    /// What a binding profile calls it.
    pub name: String,
    /// What it does now, or nothing.
    pub action: Option<SurfaceAction>,
    /// Whether it reaches the desk permanently on a surface shared with a
    /// sound console, rather than following the operator's switch.
    pub permanent: bool,
    /// Whether it may never be bound.
    pub reserved: bool,
}


/// Each button is spelled in a binding profile by its own name on the
/// panel, letter for letter: what a profile file writes for a button is the
/// button's name and no other.
pub proof fn law_every_button_is_spelled_as_the_panel_names_it()
    ensures
        strip_button_name(StripButton::Rec) == "Rec"@,
        strip_button_name(StripButton::Solo) == "Solo"@,
        strip_button_name(StripButton::Mute) == "Mute"@,
        strip_button_name(StripButton::Select) == "Select"@,
        strip_button_name(StripButton::VPotPush) == "VPotPush"@,
        global_button_name(GlobalButton::AssignTrack) == "AssignTrack"@,
        global_button_name(GlobalButton::AssignSend) == "AssignSend"@,
        global_button_name(GlobalButton::AssignPan) == "AssignPan"@,
        global_button_name(GlobalButton::AssignPlugin) == "AssignPlugin"@,
        global_button_name(GlobalButton::AssignEq) == "AssignEq"@,
        global_button_name(GlobalButton::AssignInstrument) == "AssignInstrument"@,
        global_button_name(GlobalButton::BankLeft) == "BankLeft"@,
        global_button_name(GlobalButton::BankRight) == "BankRight"@,
        global_button_name(GlobalButton::ChannelLeft) == "ChannelLeft"@,
        global_button_name(GlobalButton::ChannelRight) == "ChannelRight"@,
        global_button_name(GlobalButton::Flip) == "Flip"@,
        global_button_name(GlobalButton::GlobalView) == "GlobalView"@,
        global_button_name(GlobalButton::NameValue) == "NameValue"@,
        global_button_name(GlobalButton::SmpteBeats) == "SmpteBeats"@,
        global_button_name(GlobalButton::F1) == "F1"@,
        global_button_name(GlobalButton::F2) == "F2"@,
        global_button_name(GlobalButton::F3) == "F3"@,
        global_button_name(GlobalButton::F4) == "F4"@,
        global_button_name(GlobalButton::F5) == "F5"@,
        global_button_name(GlobalButton::F6) == "F6"@,
        global_button_name(GlobalButton::F7) == "F7"@,
        global_button_name(GlobalButton::F8) == "F8"@,
        global_button_name(GlobalButton::ViewMidiTracks) == "ViewMidiTracks"@,
        global_button_name(GlobalButton::ViewInputs) == "ViewInputs"@,
        global_button_name(GlobalButton::ViewAudioTracks) == "ViewAudioTracks"@,
        global_button_name(GlobalButton::ViewAudioInstruments) == "ViewAudioInstruments"@,
        global_button_name(GlobalButton::ViewAux) == "ViewAux"@,
        global_button_name(GlobalButton::ViewBusses) == "ViewBusses"@,
        global_button_name(GlobalButton::ViewOutputs) == "ViewOutputs"@,
        global_button_name(GlobalButton::ViewUser) == "ViewUser"@,
        global_button_name(GlobalButton::ModShift) == "ModShift"@,
        global_button_name(GlobalButton::ModOption) == "ModOption"@,
        global_button_name(GlobalButton::ModControl) == "ModControl"@,
        global_button_name(GlobalButton::ModAlt) == "ModAlt"@,
        global_button_name(GlobalButton::AutoRead) == "AutoRead"@,
        global_button_name(GlobalButton::AutoWrite) == "AutoWrite"@,
        global_button_name(GlobalButton::AutoTrim) == "AutoTrim"@,
        global_button_name(GlobalButton::AutoTouch) == "AutoTouch"@,
        global_button_name(GlobalButton::AutoLatch) == "AutoLatch"@,
        global_button_name(GlobalButton::AutoGroup) == "AutoGroup"@,
        global_button_name(GlobalButton::Save) == "Save"@,
        global_button_name(GlobalButton::Undo) == "Undo"@,
        global_button_name(GlobalButton::Cancel) == "Cancel"@,
        global_button_name(GlobalButton::Enter) == "Enter"@,
        global_button_name(GlobalButton::Markers) == "Markers"@,
        global_button_name(GlobalButton::Nudge) == "Nudge"@,
        global_button_name(GlobalButton::Cycle) == "Cycle"@,
        global_button_name(GlobalButton::Drop) == "Drop"@,
        global_button_name(GlobalButton::Replace) == "Replace"@,
        global_button_name(GlobalButton::Click) == "Click"@,
        global_button_name(GlobalButton::SoloClear) == "SoloClear"@,
        global_button_name(GlobalButton::Rewind) == "Rewind"@,
        global_button_name(GlobalButton::FastForward) == "FastForward"@,
        global_button_name(GlobalButton::Stop) == "Stop"@,
        global_button_name(GlobalButton::Play) == "Play"@,
        global_button_name(GlobalButton::Record) == "Record"@,
        global_button_name(GlobalButton::CursorUp) == "CursorUp"@,
        global_button_name(GlobalButton::CursorDown) == "CursorDown"@,
        global_button_name(GlobalButton::CursorLeft) == "CursorLeft"@,
        global_button_name(GlobalButton::CursorRight) == "CursorRight"@,
        global_button_name(GlobalButton::Zoom) == "Zoom"@,
        global_button_name(GlobalButton::Scrub) == "Scrub"@,
        global_button_name(GlobalButton::FootSwitch1) == "FootSwitch1"@,
        global_button_name(GlobalButton::FootSwitch2) == "FootSwitch2"@,
{
}


/// A binding profile spells each control by where it sits and what it is:
/// the strip's fader, encoder and buttons under `Strip[*].`, the main fader
/// under `Main.`, and the jog wheel and the panel's buttons under `Global.`.
pub proof fn law_every_control_is_spelled_by_where_it_sits(button: StripButton, key: GlobalButton)
    ensures
        control_name(BoundControl::StripFader) == "Strip[*].Fader"@,
        control_name(BoundControl::StripEncoder) == "Strip[*].Encoder"@,
        control_name(BoundControl::StripButton { button }) == "Strip[*].Button."@ + strip_button_name(button),
        control_name(BoundControl::MainFader) == "Main.Fader"@,
        control_name(BoundControl::Jog) == "Global.Jog"@,
        control_name(BoundControl::Global { button: key }) == "Global."@ + global_button_name(key),
{
}

} // verus!
