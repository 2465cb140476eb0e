//! Session vocabulary the surface bindings name: the kinds of window the
//! canvas can hold.
use vstd::prelude::*;

verus! {

/// The kinds of window the canvas can hold.
#[derive(Debug, Clone, Copy, PartialEq, Eq, Structural, PartialOrd, Ord, Hash)]
pub enum WindowType {
    /// Live values per fixture and attribute.
    FixtureSheet,
    /// The DMX output itself, universe by universe and channel by channel.
    DmxSheet,
    /// Cues of a sequence.
    SequenceSheet,
    /// Group pool.
    Groups,
    /// 3D stage view.
    Viewer3D,
    /// Phaser (effect) editor.
    PhaserEditor,
    /// Clocks and timecode.
    ClockViewer,
    /// The cue currently running on an executor.
    CueViewer,
    /// A preset pool.
    PresetPool,
    /// The patch.
    Patch,
    /// Settings.
    Settings,
    /// The executors of the current page, as a window.
    Executors,
    /// The console keys: the words of the command line, as buttons.
    CommandKeys,
    /// The readings: the show, the session, the engine and the outputs.
    Status,
}

impl Default for WindowType {
    /// A new window is a fixture sheet.
    fn default() -> (r: WindowType)
        ensures
            r == WindowType::FixtureSheet,
    {
        WindowType::FixtureSheet
    }
}

} // verus!
