//! Answers to questions that change nothing: what a patch or a store would do,
//! worked out before it is done.
use vstd::prelude::*;

use crate::ids::{FixtureId, UniverseId};
use crate::text::{decimal, push_decimal, text_of};

verus! {

/// Two fixtures sharing DMX channels. Not an error: the higher fixture
/// number wins the shared channels, and a list of these reads like a patch
/// sheet, ordered by universe and then by the first shared channel.
#[derive(Debug, Clone, Copy, PartialEq, Eq, Structural, PartialOrd, Ord, Hash)]
pub struct PatchConflict {
    /// The universe the overlap is in.
    pub universe: UniverseId,
    /// First shared channel, `1..=512`.
    pub from: u16,
    /// Last shared channel.
    pub to: u16,
    /// The lower of the two fixture numbers.
    pub first: FixtureId,
    /// The higher of the two fixture numbers: the one that wins the shared
    /// channels.
    pub second: FixtureId,
}

/// What a conflict says, in words.
pub open spec fn conflict_text(c: PatchConflict) -> Seq<char> {
    "fixtures "@ + decimal(c.first.0 as nat) + " and "@ + decimal(c.second.0 as nat) + " share universe "@
        + decimal(c.universe.0 as nat) + " channels "@ + decimal(c.from as nat) + "-"@ + decimal(c.to as nat)
        + "; "@ + decimal(c.second.0 as nat) + " wins"@
}

impl PatchConflict {
    /// The conflict in words, saying which fixture wins.
    pub fn to_string(&self) -> (r: String)
        ensures
            r@ == conflict_text(*self),
    {
        let mut s = text_of("fixtures ");
        push_decimal(&mut s, self.first.0 as u64);
        s.append(" and ");
        push_decimal(&mut s, self.second.0 as u64);
        s.append(" share universe ");
        push_decimal(&mut s, self.universe.0 as u64);
        s.append(" channels ");
        push_decimal(&mut s, self.from as u64);
        s.append("-");
        push_decimal(&mut s, self.to as u64);
        s.append("; ");
        push_decimal(&mut s, self.second.0 as u64);
        s.append(" wins");
        s
    }
}

/// What patching one fixture would do, worked out without doing it.
#[derive(Debug, Clone, PartialEq, Eq)]
pub struct PatchPreview {
    /// Whether the patch would be applied.
    pub accepted: bool,
    /// Why it would not be, in words. `None` when it would.
    pub refusal: Option<String>,
    /// How many channels the fixture would occupy, or 0 when the profile is
    /// unknown.
    pub footprint: u16,
    /// The last channel it would occupy, or `None` when it would not fit.
    pub last_address: Option<u16>,
    /// The overlaps this patch would create, in patch-sheet order. An overlap
    /// is not a refusal.
    pub conflicts: Vec<PatchConflict>,
}

/// One profile in the desk's library, as a menu shows it.
#[derive(Debug, Clone, PartialEq, Eq)]
pub struct LibraryEntry {
    /// The key a profile is embedded by.
    pub id: String,
    /// Who makes it.
    pub manufacturer: String,
    /// What it is called.
    pub name: String,
    /// Which mode of it.
    pub mode: String,
    /// How many channels one of them occupies.
    pub footprint: u16,
}

/// How a store combines with what is already there.
#[derive(Debug, Clone, Copy, PartialEq, Eq, Structural, PartialOrd, Ord, Hash, Default)]
pub enum StoreMode {
    /// What is stored is added to what is there; nothing is taken away. The
    /// mode that cannot lose anything, and the default for that reason.
    #[default]
    Merge,
    /// What is there is replaced by what is stored.
    Override,
    /// The programmer's values are taken out of what is there.
    Remove,
}

/// What storing the programmer into a cue or a preset would do. With *S*
/// what is filed there and *I* what the programmer brings: Merge adds I∖S,
/// replaces I∩S and keeps S∖I; Override adds I∖S, replaces I∩S and removes
/// S∖I; Remove keeps S∖I and removes I∩S.
#[derive(Debug, Clone, PartialEq, Eq)]
pub struct StorePreview {
    /// Whether the store would be applied.
    pub accepted: bool,
    /// Why it would not be, in words. `None` when it would.
    pub refusal: Option<String>,
    /// Whether something is already filed under that number.
    pub exists: bool,
    /// What is filed there now, or empty when nothing is.
    pub name: String,
    /// How this store would combine with what is there.
    pub mode: StoreMode,
    /// Values the programmer would add that are not stored yet.
    pub added: u32,
    /// Values already stored that the programmer would write over.
    pub replaced: u32,
    /// Values already stored that this store would leave alone.
    pub kept: u32,
    /// Values already stored that this store would take away.
    pub removed: u32,
}

} // verus!
