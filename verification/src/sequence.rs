//! Cues, cue lists, and the tracking rule.
//!
//! A cue is an edit, not a state: it carries what it names and nothing else,
//! and everything it does not name keeps whatever the cue before it left. The
//! state a walk down the list produces at every cue is derived here, once, by
//! [`CueTrack`], and never stored.
//!
//! Times in this library are whole ticks of the output loop, so no float ever
//! reaches a cue; a caller converting from seconds rounds once, on the way in.
use vstd::prelude::*;

use crate::fixture::AttributeType;
use crate::ids::{FixtureId, PresetId, SequenceId};
use crate::plan::key_of;
use crate::sorted::{find_key, map_of, remove_key, strictly_sorted, upsert, Keyed};
use crate::text::{same_trimmed, trim};

verus! {

/// What starts a cue.
#[derive(Debug, Clone, Copy, PartialEq, Eq, Structural, Hash, Default)]
pub enum CueTrigger {
    /// Waits for a Go from the operator.
    #[default]
    Go,
    /// Starts when the previous cue has finished fading.
    Follow,
    /// Starts after the cue's trigger time.
    Time,
    /// Starts on an audio trigger.
    Sound,
}

/// What a cue says about one attribute it names.
///
/// [`Self::Track`] asserts and carries forward; [`Self::CueOnly`] asserts and
/// hands the attribute back to whatever was underneath it when the list leaves
/// the cue. An attribute a cue does not name inherits, and has no part at all.
#[derive(Debug, Clone, Copy, PartialEq, Eq, Structural, Hash, Default)]
pub enum CueTracking {
    /// The value stands until a later cue says otherwise.
    #[default]
    Track,
    /// The value is taken back when the list leaves this cue.
    CueOnly,
}

/// One attribute value inside a cue.
#[derive(Debug, Clone, Copy, PartialEq, Eq, Structural)]
pub struct CuePart {
    /// The fixture this part applies to.
    pub fixture: FixtureId,
    /// The attribute being set.
    pub attribute: AttributeType,
    /// The value, `0..=65535`.
    pub value: u16,
    /// The preset this value came from, if any.
    pub preset_ref: Option<PresetId>,
    /// Whether the value carries forward or is taken back at the end of the cue.
    pub tracking: CueTracking,
}

/// The order key of one attribute of one fixture, computed.
pub fn attribute_key(fixture: FixtureId, attribute: AttributeType) -> (r: u64)
    ensures
        r as int == key_of(fixture, attribute),
{
    fixture.0 as u64 * 65536 + attribute.code() as u64
}

impl Keyed for CuePart {
    open spec fn key_spec(&self) -> int {
        key_of(self.fixture, self.attribute)
    }

    fn key(&self) -> (r: u64) {
        attribute_key(self.fixture, self.attribute)
    }
}

/// Which cue the programmer is editing, and whether it has moved since.
#[derive(Debug, Clone, PartialEq, Eq)]
pub struct CueEdit {
    /// The sequence the cue is in.
    pub sequence_id: SequenceId,
    /// The cue, by its number.
    pub cue_number: String,
    /// Whether the programmer has changed since the cue was loaded.
    pub modified: bool,
}

impl CueEdit {
    /// Whether this edit is of that cue of that sequence. The numbers are
    /// compared with the white space at either end set aside, because an
    /// operator typed them.
    pub fn is_of(&self, sequence: SequenceId, number: &str) -> (r: bool)
        ensures
            r == (self.sequence_id == sequence && trim(self.cue_number@) == trim(number@)),
    {
        self.sequence_id.0 == sequence.0 && same_trimmed(self.cue_number.as_str(), number)
    }
}

/// One step of a sequence. Times are in ticks.
#[derive(Debug, Clone, PartialEq, Eq)]
pub struct Cue {
    /// Cue number as typed, e.g. `1`, `1.5`, `2`.
    pub number: String,
    /// Operator-facing name.
    pub name: String,
    /// Fade-in time in ticks.
    pub fade_in: u64,
    /// Fade-out time in ticks.
    pub fade_out: u64,
    /// Delay before the fade starts, in ticks.
    pub delay: u64,
    /// What starts this cue.
    pub trigger: CueTrigger,
    /// Trigger time in ticks, for [`CueTrigger::Time`].
    pub trigger_time: Option<u64>,
    /// The values this cue sets.
    pub parts: Vec<CuePart>,
}

/// One attribute of one fixture, as a tracking state names it.
pub type CueKey = (FixtureId, AttributeType);

/// The order key of a cue key.
pub open spec fn cue_key(k: CueKey) -> int {
    key_of(k.0, k.1)
}

/// The last part of `parts` that names the attribute with key `k`.
pub open spec fn last_part(parts: Seq<CuePart>, k: int) -> Option<CuePart>
    decreases parts.len(),
{
    if parts.len() == 0 {
        None
    } else if parts.last().key_spec() == k {
        Some(parts.last())
    } else {
        last_part(parts.drop_last(), k)
    }
}

/// A part is the last of its attribute: its key is the one asked about.
pub proof fn lemma_last_part(parts: Seq<CuePart>, k: int)
    ensures
        last_part(parts, k) matches Some(p) ==> p.key_spec() == k && parts.contains(p),
        last_part(parts, k) is None ==> forall|i: int| 0 <= i < parts.len() ==> (#[trigger] parts[i]).key_spec() != k,
    decreases parts.len(),
{
    if parts.len() > 0 {
        lemma_last_part(parts.drop_last(), k);
        if parts.last().key_spec() != k {
            if let Some(p) = last_part(parts.drop_last(), k) {
                let w = choose|w: int| 0 <= w < parts.drop_last().len() && parts.drop_last()[w] == p;
                assert(parts[w] == p);
            } else {
                assert forall|i: int| 0 <= i < parts.len() implies (#[trigger] parts[i]).key_spec() != k by {
                    if i < parts.len() - 1 {
                        assert(parts[i] == parts.drop_last()[i]);
                    }
                }
            }
        } else {
            assert(parts[parts.len() - 1] == parts.last());
        }
    }
}

impl Cue {
    /// Which attributes this cue asserts, whether they track or are taken back:
    /// every attribute a part names, once each, in key order.
    pub fn asserts(&self) -> (r: Vec<CueKey>)
        ensures
            forall|a: int, b: int| 0 <= a < b < r@.len() ==> cue_key(r@[a]) < cue_key(r@[b]),
            forall|j: int|
                0 <= j < r@.len() ==> exists|i: int|
                    0 <= i < self.parts@.len() && self.parts@[i].key_spec() == cue_key(#[trigger] r@[j]),
            forall|i: int|
                0 <= i < self.parts@.len() ==> exists|j: int|
                    0 <= j < r@.len() && cue_key(r@[j]) == (#[trigger] self.parts@[i]).key_spec(),
    {
        let here = last_parts(&self.parts);
        let mut keys: Vec<CueKey> = Vec::new();
        let mut j: usize = 0;
        while j < here.len()
            invariant
                0 <= j <= here@.len(),
                strictly_sorted(here@),
                keys@.len() == j,
                forall|q: int| 0 <= q < j ==> cue_key(#[trigger] keys@[q]) == here@[q].key_spec(),
            decreases here@.len() - j,
        {
            keys.push((here[j].fixture, here[j].attribute));
            j = j + 1;
        }
        proof {
            assert forall|a: int, b: int| 0 <= a < b < keys@.len() implies cue_key(keys@[a]) < cue_key(keys@[b]) by {
                assert(here@[a].key_spec() < here@[b].key_spec());
            }
            assert forall|j: int| 0 <= j < keys@.len() implies exists|i: int|
                0 <= i < self.parts@.len() && self.parts@[i].key_spec() == cue_key(#[trigger] keys@[j]) by {
                let k = cue_key(keys@[j]);
                lemma_last_part(self.parts@, k);
                assert(here@[j].key_spec() == k);
                assert(map_of(here@).contains_key(k));
                let p = last_part(self.parts@, k)->0;
                let i = choose|i: int| 0 <= i < self.parts@.len() && self.parts@[i] == p;
                assert(self.parts@[i].key_spec() == k);
            }
            assert forall|i: int| 0 <= i < self.parts@.len() implies exists|j: int|
                0 <= j < keys@.len() && cue_key(keys@[j]) == (#[trigger] self.parts@[i]).key_spec() by {
                let k = self.parts@[i].key_spec();
                lemma_last_part(self.parts@, k);
                assert(last_part(self.parts@, k) is Some);
                assert(map_of(here@).contains_key(k));
                let w = choose|w: int| 0 <= w < here@.len() && here@[w].key_spec() == k;
                assert(cue_key(keys@[w]) == k);
            }
        }
        keys
    }
}

/// The value one attribute is held at in a tracking state.
#[derive(Debug, Clone, Copy, PartialEq, Eq, Structural)]
pub struct Held {
    /// The fixture.
    pub fixture: FixtureId,
    /// The attribute.
    pub attribute: AttributeType,
    /// The value it is held at.
    pub value: u16,
}

impl Keyed for Held {
    open spec fn key_spec(&self) -> int {
        key_of(self.fixture, self.attribute)
    }

    fn key(&self) -> (r: u64) {
        attribute_key(self.fixture, self.attribute)
    }
}

/// One attribute whose held value moved when a cue was entered. `value` is
/// `None` for an attribute the list has stopped holding, which is a different
/// fact from held at zero.
#[derive(Debug, Clone, Copy, PartialEq, Eq, Structural)]
pub struct CueChange {
    /// The fixture.
    pub fixture: FixtureId,
    /// The attribute.
    pub attribute: AttributeType,
    /// What it is held at from this cue on, or `None` for no longer held.
    pub value: Option<u16>,
}

impl Keyed for CueChange {
    open spec fn key_spec(&self) -> int {
        key_of(self.fixture, self.attribute)
    }

    fn key(&self) -> (r: u64) {
        attribute_key(self.fixture, self.attribute)
    }
}

/// What a state holds under key `k`, if anything.
pub open spec fn held_at(m: Map<int, Held>, k: int) -> Option<u16> {
    if m.contains_key(k) {
        Some(m[k].value)
    } else {
        None
    }
}

/// The tracked value after a cue whose last part for the attribute is `part`:
/// a tracking part asserts its value, anything else leaves it alone.
pub open spec fn entered_tracked(carried: Option<u16>, part: Option<CuePart>) -> Option<u16> {
    match part {
        Some(p) => if p.tracking == CueTracking::Track {
            Some(p.value)
        } else {
            carried
        },
        None => carried,
    }
}

/// The cue-only value a cue lays over the tracked state, if its last part for
/// the attribute is a cue-only one.
pub open spec fn entered_overlay(part: Option<CuePart>) -> Option<u16> {
    match part {
        Some(p) => if p.tracking == CueTracking::CueOnly {
            Some(p.value)
        } else {
            None
        },
        None => None,
    }
}

/// An overlay value where there is one, and the tracked value underneath
/// otherwise.
pub open spec fn overlaid(overlay: Option<u16>, carried: Option<u16>) -> Option<u16> {
    match overlay {
        Some(v) => Some(v),
        None => carried,
    }
}

/// The tracked value of attribute `k` after walking the first `n` cues.
pub open spec fn walk_tracked(cues: Seq<Cue>, n: int, k: int) -> Option<u16>
    decreases n,
{
    if n <= 0 {
        None
    } else {
        entered_tracked(walk_tracked(cues, n - 1, k), last_part(cues[n - 1].parts@, k))
    }
}

/// The cue-only value of attribute `k` while the `n`th cue is played.
pub open spec fn walk_overlay(cues: Seq<Cue>, n: int, k: int) -> Option<u16> {
    if n <= 0 {
        None
    } else {
        entered_overlay(last_part(cues[n - 1].parts@, k))
    }
}

/// What the list holds attribute `k` at while the `n`th cue is played.
pub open spec fn walk_visible(cues: Seq<Cue>, n: int, k: int) -> Option<u16> {
    overlaid(walk_overlay(cues, n, k), walk_tracked(cues, n, k))
}

/// The tracking rule, written once.
///
/// Two states are carried rather than an undo: `tracked`, built from tracking
/// parts only, and `visible`, which is `tracked` with the current cue's
/// cue-only parts laid over it. Leaving a cue is then not an operation at all.
#[derive(Debug)]
pub struct CueTrack {
    carried: Vec<Held>,
    visible: Vec<Held>,
    overlay: Vec<Held>,
}

impl CueTrack {
    /// Each state is ordered by key, and the visible one is the overlay over
    /// the tracked one.
    pub closed spec fn wf(&self) -> bool {
        &&& strictly_sorted(self.carried@)
        &&& strictly_sorted(self.visible@)
        &&& strictly_sorted(self.overlay@)
        &&& forall|k: int|
            #[trigger] held_at(map_of(self.visible@), k) == overlaid(
                held_at(map_of(self.overlay@), k),
                held_at(map_of(self.carried@), k),
            )
    }

    /// What the list would hand on to the next cue, for attribute `k`.
    pub closed spec fn tracked_at(&self, k: int) -> Option<u16> {
        held_at(map_of(self.carried@), k)
    }

    /// What the current cue holds cue-only, for attribute `k`.
    pub closed spec fn overlay_at(&self, k: int) -> Option<u16> {
        held_at(map_of(self.overlay@), k)
    }

    /// What the list holds while the current cue is played, for attribute `k`.
    pub closed spec fn visible_at(&self, k: int) -> Option<u16> {
        held_at(map_of(self.visible@), k)
    }

    /// The visible state, in key order.
    pub closed spec fn visible_spec(&self) -> Seq<Held> {
        self.visible@
    }

    /// The tracked state, in key order.
    pub closed spec fn tracked_spec(&self) -> Seq<Held> {
        self.carried@
    }

    /// What `wf` promises, for callers that cannot see it.
    pub proof fn lemma_wf(&self)
        requires
            self.wf(),
        ensures
            strictly_sorted(self.visible_spec()),
            strictly_sorted(self.tracked_spec()),
            forall|k: int| #[trigger] self.visible_at(k) == overlaid(self.overlay_at(k), self.tracked_at(k)),
            forall|k: int| #[trigger] self.visible_at(k) == held_at(map_of(self.visible_spec()), k),
            forall|k: int| #[trigger] self.tracked_at(k) == held_at(map_of(self.tracked_spec()), k),
    {
    }

    /// A walk that has not entered a cue yet: nothing is held.
    pub fn new() -> (r: CueTrack)
        ensures
            r.wf(),
            forall|k: int| #[trigger] r.tracked_at(k) is None && r.overlay_at(k) is None && r.visible_at(k) is None,
    {
        CueTrack { carried: Vec::new(), visible: Vec::new(), overlay: Vec::new() }
    }

    /// What the list holds while the cue just entered is played, in key order.
    pub fn visible(&self) -> (r: &[Held])
        ensures
            r@ == self.visible_spec(),
    {
        self.visible.as_slice()
    }

    /// What the list would hand on to the next cue, in key order: the visible
    /// state without the current cue's cue-only overlay.
    pub fn tracked_values(&self) -> (r: &[Held])
        ensures
            r@ == self.tracked_spec(),
    {
        self.carried.as_slice()
    }

    /// Enters `cue` and reports every attribute whose held value moved.
    ///
    /// `changes` is cleared first and left holding the difference, in key
    /// order. A cue that names one attribute twice says the second thing, and
    /// the second part's tracking is what governs.
    #[verifier::rlimit(30)]
    pub fn enter(&mut self, cue: &Cue, changes: &mut Vec<CueChange>)
        requires
            old(self).wf(),
        ensures
            final(self).wf(),
            forall|k: int|
                #[trigger] final(self).tracked_at(k) == entered_tracked(
                    old(self).tracked_at(k),
                    last_part(cue.parts@, k),
                ),
            forall|k: int| #[trigger] final(self).overlay_at(k) == entered_overlay(last_part(cue.parts@, k)),
            strictly_sorted(final(changes)@),
            forall|k: int|
                #[trigger] map_of(final(changes)@).contains_key(k) <==> old(self).visible_at(k) != final(self).visible_at(k),
            forall|i: int|
                0 <= i < final(changes)@.len() ==> (#[trigger] final(changes)@[i]).value == final(self).visible_at(
                    final(changes)@[i].key_spec(),
                ),
    {
        changes.clear();
        let here = last_parts(&cue.parts);
        let ghost old_tracked = self.carried@;
        let ghost old_overlay = self.overlay@;
        let ghost old_visible = self.visible@;
        let touched = touched_keys(&self.overlay, &here);

        // Lay the cue's parts over the tracked state, and collect its cue-only
        // parts as the new overlay.
        let mut overlay: Vec<Held> = Vec::new();
        let mut j: usize = 0;
        while j < here.len()
            invariant
                0 <= j <= here@.len(),
                strictly_sorted(here@),
                strictly_sorted(self.carried@),
                strictly_sorted(overlay@),
                self.visible@ == old_visible,
                strictly_sorted(old_visible),
                forall|k: int| #[trigger] map_of(here@).contains_key(k) == last_part(cue.parts@, k) is Some,
                forall|k: int| map_of(here@).contains_key(k) ==> Some(#[trigger] map_of(here@)[k]) == last_part(cue.parts@, k),
                forall|q: int| 0 <= q < overlay@.len() ==> (#[trigger] overlay@[q]).key_spec() < (if j < here@.len() { here@[j as int].key_spec() } else { i64::MAX as int }),
                forall|k: int|
                    #[trigger] held_at(map_of(self.carried@), k) == if exists|q: int| 0 <= q < j && here@[q].key_spec() == k {
                        entered_tracked(held_at(map_of(old_tracked), k), Some(map_of(here@)[k]))
                    } else {
                        held_at(map_of(old_tracked), k)
                    },
                forall|k: int|
                    #[trigger] held_at(map_of(overlay@), k) == if exists|q: int| 0 <= q < j && here@[q].key_spec() == k {
                        entered_overlay(Some(map_of(here@)[k]))
                    } else {
                        None
                    },
            decreases here@.len() - j,
        {
            let part = here[j];
            let held = Held { fixture: part.fixture, attribute: part.attribute, value: part.value };
            let ghost before_tracked = self.carried@;
            let ghost before_overlay = overlay@;
            proof {
                crate::sorted::lemma_map_of_index(here@, j as int);
            }
            match part.tracking {
                CueTracking::Track => {
                    upsert(&mut self.carried, held);
                },
                CueTracking::CueOnly => {
                    overlay.push(held);
                    proof {
                        assert forall|a: int, b: int| 0 <= a < b < overlay@.len() implies overlay@[a].key_spec()
                            < overlay@[b].key_spec() by {
                            if b == overlay@.len() - 1 {
                                assert(before_overlay[a].key_spec() < here@[j as int].key_spec());
                            } else {
                                assert(before_overlay[a].key_spec() < before_overlay[b].key_spec());
                            }
                        }
                        assert forall|k: int| #[trigger] map_of(overlay@).contains_key(k) <==> (map_of(before_overlay).contains_key(k) || k == held.key_spec()) by {
                            if map_of(overlay@).contains_key(k) {
                                let w = choose|w: int| 0 <= w < overlay@.len() && overlay@[w].key_spec() == k;
                                if w < before_overlay.len() {
                                    assert(before_overlay[w] == overlay@[w]);
                                }
                            }
                            if map_of(before_overlay).contains_key(k) {
                                let w = choose|w: int| 0 <= w < before_overlay.len() && before_overlay[w].key_spec() == k;
                                assert(overlay@[w] == before_overlay[w]);
                            }
                            if k == held.key_spec() {
                                assert(overlay@[overlay@.len() - 1] == held);
                            }
                        }
                        assert forall|k: int| #[trigger] map_of(overlay@).contains_key(k) implies map_of(overlay@)[k] == (if k == held.key_spec() { held } else { map_of(before_overlay)[k] }) by {
                            let w = choose|w: int| 0 <= w < overlay@.len() && overlay@[w].key_spec() == k;
                            crate::sorted::lemma_map_of_index(overlay@, w);
                            if w < before_overlay.len() {
                                assert(before_overlay[w] == overlay@[w]);
                                crate::sorted::lemma_map_of_index(before_overlay, w);
                            }
                        }
                        assert(map_of(overlay@) =~= map_of(before_overlay).insert(held.key_spec(), held));
                    }
                },
            }
            proof {
                assert forall|k: int|
                    #[trigger] held_at(map_of(self.carried@), k) == if exists|q: int| 0 <= q < j + 1 && here@[q].key_spec() == k {
                        entered_tracked(held_at(map_of(old_tracked), k), Some(map_of(here@)[k]))
                    } else {
                        held_at(map_of(old_tracked), k)
                    } by {
                    let bt = held_at(map_of(before_tracked), k);
                    let bo = held_at(map_of(before_overlay), k);
                    if k != here@[j as int].key_spec() {
                        if exists|q: int| 0 <= q < j + 1 && here@[q].key_spec() == k {
                            let q = choose|q: int| 0 <= q < j + 1 && here@[q].key_spec() == k;
                            assert(q < j);
                        }
                    } else {
                        assert(here@[j as int].key_spec() == k);
                        if exists|q: int| 0 <= q < j && here@[q].key_spec() == k {
                            let q = choose|q: int| 0 <= q < j && here@[q].key_spec() == k;
                            crate::sorted::lemma_key_unique(here@, q, j as int);
                        }
                    }
                }
                assert forall|k: int|
                    #[trigger] held_at(map_of(overlay@), k) == if exists|q: int| 0 <= q < j + 1 && here@[q].key_spec() == k {
                        entered_overlay(Some(map_of(here@)[k]))
                    } else {
                        None
                    } by {
                    let bt = held_at(map_of(before_tracked), k);
                    let bo = held_at(map_of(before_overlay), k);
                    if k != here@[j as int].key_spec() {
                        if exists|q: int| 0 <= q < j + 1 && here@[q].key_spec() == k {
                            let q = choose|q: int| 0 <= q < j + 1 && here@[q].key_spec() == k;
                            assert(q < j);
                        }
                    } else {
                        assert(here@[j as int].key_spec() == k);
                        if exists|q: int| 0 <= q < j && here@[q].key_spec() == k {
                            let q = choose|q: int| 0 <= q < j && here@[q].key_spec() == k;
                            crate::sorted::lemma_key_unique(here@, q, j as int);
                        }
                    }
                }
                assert forall|q: int| 0 <= q < overlay@.len() implies (#[trigger] overlay@[q]).key_spec() < (if j + 1 < here@.len() { here@[j + 1].key_spec() } else { i64::MAX as int }) by {
                    if j + 1 < here@.len() {
                        assert(here@[j as int].key_spec() < here@[j + 1].key_spec());
                    }
                    assert(here@[j as int].key_spec() < i64::MAX) by {
                        crate::plan::lemma_key_bounded(here@[j as int].fixture, here@[j as int].attribute);
                    }
                }
            }
            j = j + 1;
        }
        proof {
            assert forall|k: int|
                #[trigger] held_at(map_of(self.carried@), k) == entered_tracked(held_at(map_of(old_tracked), k), last_part(cue.parts@, k)) by {
                if exists|q: int| 0 <= q < here@.len() && here@[q].key_spec() == k {
                    let q = choose|q: int| 0 <= q < here@.len() && here@[q].key_spec() == k;
                    crate::sorted::lemma_map_of_index(here@, q);
                } else {
                    assert(!map_of(here@).contains_key(k));
                }
            }
            assert forall|k: int|
                #[trigger] held_at(map_of(overlay@), k) == entered_overlay(last_part(cue.parts@, k)) by {
                if exists|q: int| 0 <= q < here@.len() && here@[q].key_spec() == k {
                    let q = choose|q: int| 0 <= q < here@.len() && here@[q].key_spec() == k;
                    crate::sorted::lemma_map_of_index(here@, q);
                } else {
                    assert(!map_of(here@).contains_key(k));
                }
            }
        }
        let ghost new_tracked = self.carried@;
        let ghost new_overlay = overlay@;

        // Every attribute that can have moved is in `touched`: bring the
        // visible state up to date there, and report what moved.
        let mut t: usize = 0;
        while t < touched.len()
            invariant
                0 <= t <= touched@.len(),
                strictly_sorted(touched@),
                strictly_sorted(self.visible@),
                strictly_sorted(changes@),
                self.carried@ == new_tracked,
                overlay@ == new_overlay,
                strictly_sorted(new_tracked),
                strictly_sorted(new_overlay),
                strictly_sorted(old_visible),
                forall|q: int| 0 <= q < changes@.len() ==> (#[trigger] changes@[q]).key_spec() < (if t < touched@.len() { touched@[t as int].key_spec() } else { i64::MAX as int }),
                forall|k: int|
                    #[trigger] held_at(map_of(self.visible@), k) == if exists|q: int| 0 <= q < t && touched@[q].key_spec() == k {
                        overlaid(held_at(map_of(new_overlay), k), held_at(map_of(new_tracked), k))
                    } else {
                        held_at(map_of(old_visible), k)
                    },
                forall|k: int|
                    #[trigger] map_of(changes@).contains_key(k) <==> ((exists|q: int| 0 <= q < t && touched@[q].key_spec() == k)
                        && held_at(map_of(old_visible), k) != overlaid(held_at(map_of(new_overlay), k), held_at(map_of(new_tracked), k))),
                forall|i: int|
                    0 <= i < changes@.len() ==> (#[trigger] changes@[i]).value == overlaid(held_at(map_of(new_overlay), changes@[i].key_spec()), held_at(map_of(new_tracked), changes@[i].key_spec())),
            decreases touched@.len() - t,
        {
            let key_entry = touched[t];
            let key = key_entry.key();
            let now = match crate::sorted::get_key(&overlay, key) {
                Some(h) => Some(h.value),
                None => match crate::sorted::get_key(&self.carried, key) {
                    Some(h) => Some(h.value),
                    None => None,
                },
            };
            let was = match crate::sorted::get_key(&self.visible, key) {
                Some(h) => Some(h.value),
                None => None,
            };
            let ghost before_visible = self.visible@;
            let ghost before_changes = changes@;
            proof {
                if exists|q: int| 0 <= q < t && touched@[q].key_spec() == key {
                    let q = choose|q: int| 0 <= q < t && touched@[q].key_spec() == key;
                    assert(touched@[q].key_spec() < touched@[t as int].key_spec());
                }
            }
            let moved = match (was, now) {
                (Some(a), Some(b)) => a != b,
                (None, None) => false,
                _ => true,
            };
            if moved {
                match now {
                    Some(value) => {
                        upsert(&mut self.visible, Held { fixture: key_entry.fixture, attribute: key_entry.attribute, value });
                    },
                    None => {
                        remove_key(&mut self.visible, key);
                    },
                }
                let change = CueChange { fixture: key_entry.fixture, attribute: key_entry.attribute, value: now };
                changes.push(change);
                proof {
                    crate::plan::lemma_key_bounded(key_entry.fixture, key_entry.attribute);
                    assert forall|a: int, b: int| 0 <= a < b < changes@.len() implies changes@[a].key_spec()
                        < changes@[b].key_spec() by {
                        if b < before_changes.len() {
                            assert(before_changes[a].key_spec() < before_changes[b].key_spec());
                        } else {
                            assert(before_changes[a].key_spec() < key);
                        }
                    }
                    assert forall|k: int| #[trigger] map_of(changes@).contains_key(k) <==> (map_of(before_changes).contains_key(k) || k == key) by {
                        if map_of(changes@).contains_key(k) {
                            let w = choose|w: int| 0 <= w < changes@.len() && changes@[w].key_spec() == k;
                            if w < before_changes.len() {
                                assert(before_changes[w] == changes@[w]);
                            }
                        }
                        if map_of(before_changes).contains_key(k) {
                            let w = choose|w: int| 0 <= w < before_changes.len() && before_changes[w].key_spec() == k;
                            assert(changes@[w] == before_changes[w]);
                        }
                        if k == key {
                            assert(changes@[changes@.len() - 1].key_spec() == k);
                        }
                    }
                }
            }
            proof {
                crate::plan::lemma_key_bounded(key_entry.fixture, key_entry.attribute);
                let bv = held_at(map_of(before_visible), key as int);
                let bc = map_of(before_changes).contains_key(key as int);
                assert forall|k: int|
                    #[trigger] held_at(map_of(self.visible@), k) == if exists|q: int| 0 <= q < t + 1 && touched@[q].key_spec() == k {
                        overlaid(held_at(map_of(new_overlay), k), held_at(map_of(new_tracked), k))
                    } else {
                        held_at(map_of(old_visible), k)
                    } by {
                    let bvk = held_at(map_of(before_visible), k);
                    if k != key {
                        if exists|q: int| 0 <= q < t + 1 && touched@[q].key_spec() == k {
                            let q = choose|q: int| 0 <= q < t + 1 && touched@[q].key_spec() == k;
                            assert(q < t);
                        }
                    } else {
                        assert(touched@[t as int].key_spec() == k);
                    }
                }
                assert forall|k: int|
                    #[trigger] map_of(changes@).contains_key(k) <==> ((exists|q: int| 0 <= q < t + 1 && touched@[q].key_spec() == k)
                        && held_at(map_of(old_visible), k) != overlaid(held_at(map_of(new_overlay), k), held_at(map_of(new_tracked), k))) by {
                    if k != key {
                        if exists|q: int| 0 <= q < t + 1 && touched@[q].key_spec() == k {
                            let q = choose|q: int| 0 <= q < t + 1 && touched@[q].key_spec() == k;
                            assert(q < t);
                        }
                    } else {
                        assert(touched@[t as int].key_spec() == k);
                        if map_of(before_changes).contains_key(k) {
                            let w = choose|w: int| 0 <= w < before_changes.len() && before_changes[w].key_spec() == k;
                            assert(before_changes[w].key_spec() < key);
                        }
                    }
                }
                assert forall|q: int| 0 <= q < changes@.len() implies (#[trigger] changes@[q]).key_spec() < (if t + 1 < touched@.len() { touched@[t + 1].key_spec() } else { i64::MAX as int }) by {
                    if t + 1 < touched@.len() {
                        assert(touched@[t as int].key_spec() < touched@[t + 1].key_spec());
                    }
                    if q < before_changes.len() {
                        assert(before_changes[q] == changes@[q]);
                    }
                }
            }
            t = t + 1;
        }
        self.overlay = overlay;
        proof {
            assert forall|k: int|
                #[trigger] held_at(map_of(self.visible@), k) == overlaid(
                    held_at(map_of(self.overlay@), k),
                    held_at(map_of(self.carried@), k),
                ) by {
                if !(exists|q: int| 0 <= q < touched@.len() && touched@[q].key_spec() == k) {
                    assert(!map_of(touched@).contains_key(k));
                    assert(!map_of(old_overlay).contains_key(k));
                    assert(!map_of(here@).contains_key(k));
                    lemma_last_part(cue.parts@, k);
                    if let Some(p) = last_part(cue.parts@, k) {
                        let i = choose|i: int| 0 <= i < cue.parts@.len() && cue.parts@[i] == p;
                    }
                }
            }
            assert forall|k: int|
                #[trigger] map_of(changes@).contains_key(k) <==> old_visible_at(old_visible, k) != held_at(map_of(self.visible@), k) by {
                if !(exists|q: int| 0 <= q < touched@.len() && touched@[q].key_spec() == k) {
                    assert(!map_of(touched@).contains_key(k));
                }
            }
        }
    }

    /// Which of the attributes now held the cue does not name: what it
    /// inherits, in key order.
    pub fn inherited(&self, cue: &Cue) -> (r: Vec<(CueKey, u16)>)
        requires
            self.wf(),
        ensures
            forall|i: int|
                0 <= i < r@.len() ==> self.visible_at(key_of((#[trigger] r@[i]).0.0, r@[i].0.1)) == Some(r@[i].1)
                    && last_part(cue.parts@, key_of(r@[i].0.0, r@[i].0.1)) is None,
            forall|a: int, b: int| 0 <= a < b < r@.len() ==> key_of(r@[a].0.0, r@[a].0.1) < key_of(r@[b].0.0, r@[b].0.1),
            forall|k: int|
                self.visible_at(k) is Some && last_part(cue.parts@, k) is None ==> exists|i: int|
                    0 <= i < r@.len() && key_of((#[trigger] r@[i]).0.0, r@[i].0.1) == k,
    {
        let named = last_parts(&cue.parts);
        let mut out: Vec<(CueKey, u16)> = Vec::new();
        let mut j: usize = 0;
        while j < self.visible.len()
            invariant
                0 <= j <= self.visible@.len(),
                self.wf(),
                strictly_sorted(named@),
                forall|k: int| #[trigger] map_of(named@).contains_key(k) <==> last_part(cue.parts@, k) is Some,
                forall|i: int|
                    0 <= i < out@.len() ==> self.visible_at(key_of((#[trigger] out@[i]).0.0, out@[i].0.1)) == Some(out@[i].1)
                        && last_part(cue.parts@, key_of(out@[i].0.0, out@[i].0.1)) is None,
                forall|i: int|
                    0 <= i < out@.len() ==> key_of((#[trigger] out@[i]).0.0, out@[i].0.1) < (if j < self.visible@.len() { self.visible@[j as int].key_spec() } else { i64::MAX as int }),
                forall|a: int, b: int| 0 <= a < b < out@.len() ==> key_of(out@[a].0.0, out@[a].0.1) < key_of(out@[b].0.0, out@[b].0.1),
                forall|q: int|
                    0 <= q < j && last_part(cue.parts@, self.visible@[q].key_spec()) is None ==> exists|i: int|
                        0 <= i < out@.len() && key_of((#[trigger] out@[i]).0.0, out@[i].0.1) == self.visible@[q].key_spec(),
            decreases self.visible@.len() - j,
        {
            let h = self.visible[j];
            proof {
                crate::sorted::lemma_map_of_index(self.visible@, j as int);
                crate::plan::lemma_key_bounded(h.fixture, h.attribute);
                if j + 1 < self.visible@.len() {
                    assert(self.visible@[j as int].key_spec() < self.visible@[j + 1].key_spec());
                }
            }
            if find_key(&named, h.key()).is_none() {
                let ghost before = out@;
                out.push(((h.fixture, h.attribute), h.value));
                proof {
                    assert(!map_of(named@).contains_key(h.key_spec()));
                    assert forall|q: int|
                        0 <= q < j + 1 && last_part(cue.parts@, self.visible@[q].key_spec()) is None implies exists|i: int|
                            0 <= i < out@.len() && key_of((#[trigger] out@[i]).0.0, out@[i].0.1) == self.visible@[q].key_spec() by {
                        if q == j {
                            assert(key_of(out@[before.len() as int].0.0, out@[before.len() as int].0.1) == self.visible@[q].key_spec());
                        } else {
                            let i = choose|i: int| 0 <= i < before.len() && key_of((#[trigger] before[i]).0.0, before[i].0.1) == self.visible@[q].key_spec();
                            assert(out@[i] == before[i]);
                        }
                    }
                }
            } else {
                proof {
                    let w = choose|w: int| 0 <= w < named@.len() && named@[w].key_spec() == h.key_spec();
                    assert(map_of(named@).contains_key(h.key_spec()));
                }
            }
            j = j + 1;
        }
        proof {
            assert forall|k: int|
                self.visible_at(k) is Some && last_part(cue.parts@, k) is None implies exists|i: int|
                    0 <= i < out@.len() && key_of((#[trigger] out@[i]).0.0, out@[i].0.1) == k by {
                let q = choose|q: int| 0 <= q < self.visible@.len() && self.visible@[q].key_spec() == k;
            }
        }
        out
    }
}

impl Clone for CueTrack {
    fn clone(&self) -> (r: Self)
        ensures
            self.wf() ==> r.wf(),
            r.visible_spec() == self.visible_spec(),
            r.tracked_spec() == self.tracked_spec(),
            forall|k: int|
                #[trigger] r.tracked_at(k) == self.tracked_at(k) && r.overlay_at(k) == self.overlay_at(k)
                    && r.visible_at(k) == self.visible_at(k),
    {
        CueTrack {
            carried: copy_held(&self.carried),
            visible: copy_held(&self.visible),
            overlay: copy_held(&self.overlay),
        }
    }
}

/// The visible value under `k` of a state given as a list.
pub open spec fn old_visible_at(visible: Seq<Held>, k: int) -> Option<u16> {
    held_at(map_of(visible), k)
}

/// A copy of a list of held values.
fn copy_held(v: &Vec<Held>) -> (r: Vec<Held>)
    ensures
        r@ == v@,
{
    let mut out: Vec<Held> = Vec::new();
    let mut i: usize = 0;
    while i < v.len()
        invariant
            0 <= i <= v@.len(),
            out@ == v@.subrange(0, i as int),
        decreases v@.len() - i,
    {
        out.push(v[i]);
        proof {
            assert(out@ =~= v@.subrange(0, i + 1));
        }
        i = i + 1;
    }
    proof {
        assert(out@ =~= v@);
    }
    out
}

/// The last part for each attribute a list of parts names, in key order.
pub fn last_parts(parts: &Vec<CuePart>) -> (r: Vec<CuePart>)
    ensures
        strictly_sorted(r@),
        forall|k: int|
            #[trigger] map_of(r@).contains_key(k) == last_part(parts@, k) is Some,
        forall|k: int| map_of(r@).contains_key(k) ==> Some(#[trigger] map_of(r@)[k]) == last_part(parts@, k),
{
    let mut here: Vec<CuePart> = Vec::new();
    let mut i: usize = 0;
    while i < parts.len()
        invariant
            0 <= i <= parts@.len(),
            strictly_sorted(here@),
            forall|k: int|
                #[trigger] map_of(here@).contains_key(k) == last_part(parts@.subrange(0, i as int), k) is Some,
            forall|k: int|
                map_of(here@).contains_key(k) ==> Some(#[trigger] map_of(here@)[k]) == last_part(parts@.subrange(0, i as int), k),
        decreases parts@.len() - i,
    {
        let part = parts[i];
        upsert(&mut here, part);
        proof {
            let s = parts@.subrange(0, i + 1);
            assert(s.drop_last() =~= parts@.subrange(0, i as int));
            assert(s.last() == part);
        }
        i = i + 1;
    }
    proof {
        assert(parts@.subrange(0, parts@.len() as int) =~= parts@);
    }
    here
}

/// The attributes that may move when a cue is entered: those the previous cue
/// held cue-only and those this cue names, in key order.
fn touched_keys(overlay: &Vec<Held>, here: &Vec<CuePart>) -> (r: Vec<Held>)
    requires
        strictly_sorted(overlay@),
        strictly_sorted(here@),
    ensures
        strictly_sorted(r@),
        forall|k: int|
            #[trigger] map_of(r@).contains_key(k) == (map_of(overlay@).contains_key(k) || map_of(here@).contains_key(k)),
{
    let mut out = copy_held(overlay);
    let mut j: usize = 0;
    while j < here.len()
        invariant
            0 <= j <= here@.len(),
            strictly_sorted(out@),
            forall|k: int|
                #[trigger] map_of(out@).contains_key(k) == (map_of(overlay@).contains_key(k) || exists|q: int| 0 <= q < j && here@[q].key_spec() == k),
        decreases here@.len() - j,
    {
        let part = here[j];
        upsert(&mut out, Held { fixture: part.fixture, attribute: part.attribute, value: part.value });
        proof {
            assert forall|k: int|
                #[trigger] map_of(out@).contains_key(k) == (map_of(overlay@).contains_key(k) || exists|q: int| 0 <= q < j + 1 && here@[q].key_spec() == k) by {
                if k == here@[j as int].key_spec() {
                    assert(here@[j as int].key_spec() == k);
                }
                if exists|q: int| 0 <= q < j + 1 && here@[q].key_spec() == k {
                    let q = choose|q: int| 0 <= q < j + 1 && here@[q].key_spec() == k;
                    if q == j {
                    }
                }
            }
        }
        j = j + 1;
    }
    out
}

/// What an operator is saying about a whole cue.
#[derive(Debug, Clone, Copy, PartialEq, Eq, Structural, Hash, Default)]
pub enum CueTrackingMode {
    /// Every value this cue holds carries forward.
    #[default]
    Track,
    /// Every value this cue holds is taken back when the list leaves it.
    CueOnly,
    /// The cue asserts everything: what it inherits is written into it, and
    /// every value it holds carries forward.
    Block,
}

/// A colour, eight bits a channel.
#[derive(Debug, Clone, Copy, PartialEq, Eq, Structural, Hash)]
pub struct RgbColor {
    /// Red.
    pub r: u8,
    /// Green.
    pub g: u8,
    /// Blue.
    pub b: u8,
}

/// A cue list, its cues in playback order.
#[derive(Debug, Clone, PartialEq, Eq)]
pub struct Sequence {
    /// Sequence number.
    pub id: SequenceId,
    /// Operator-facing name.
    pub name: String,
    /// Colour for the scribble strip, if one was chosen.
    pub color: Option<RgbColor>,
    /// The cues, in playback order.
    pub cues: Vec<Cue>,
    /// Whether an automatic chain of follows runs off the end and round again.
    pub looping: bool,
    /// The master level of this list's playback.
    pub master_level: u16,
    /// The rate this list plays at, in units of the speed unity.
    pub speed: u16,
    /// Whether this cue list is running.
    pub is_active: bool,
    /// Which cue this list's playback is standing on.
    pub current_cue_index: Option<u32>,
}

/// The cues a list of references points at.
pub open spec fn deref_seq(cues: Seq<&Cue>) -> Seq<Cue> {
    Seq::new(cues.len(), |i: int| *cues[i])
}

/// Whether `order` names each of the `n` cue positions exactly once: a
/// playback order for a list of `n` cues.
pub open spec fn is_order(order: Seq<usize>, n: int) -> bool {
    &&& order.len() == n
    &&& forall|i: int| 0 <= i < n ==> (#[trigger] order[i]) < n
    &&& forall|i: int, j: int| 0 <= i < j < n ==> #[trigger] order[i] != #[trigger] order[j]
}

/// The cues of a list taken in `order`.
pub open spec fn reordered(cues: Seq<Cue>, order: Seq<usize>) -> Seq<Cue> {
    Seq::new(order.len(), |i: int| cues[order[i] as int])
}

/// Whether `order` is a playback order for `n` cues.
fn check_order(order: &[usize], n: usize) -> (r: bool)
    ensures
        r == is_order(order@, n as int),
{
    if order.len() != n {
        return false;
    }
    let mut seen: Vec<bool> = Vec::new();
    let mut k: usize = 0;
    while k < n
        invariant
            0 <= k <= n,
            seen@.len() == k,
            forall|x: int| 0 <= x < k ==> !(#[trigger] seen@[x]),
        decreases n - k,
    {
        seen.push(false);
        k = k + 1;
    }
    let mut i: usize = 0;
    while i < n
        invariant
            0 <= i <= n,
            order@.len() == n,
            seen@.len() == n,
            forall|j: int| 0 <= j < i ==> (#[trigger] order@[j]) < n && seen@[order@[j] as int],
            forall|x: int| 0 <= x < n && #[trigger] seen@[x] ==> exists|j: int| 0 <= j < i && order@[j] == x,
            forall|a: int, b: int| 0 <= a < b < i ==> #[trigger] order@[a] != #[trigger] order@[b],
        decreases n - i,
    {
        let at = order[i];
        if at >= n {
            return false;
        }
        if seen[at] {
            proof {
                let j = choose|j: int| 0 <= j < i && order@[j] == at;
                assert(order@[j] == order@[i as int]);
            }
            return false;
        }
        seen.set(at, true);
        proof {
            assert forall|a: int, b: int| 0 <= a < b < i + 1 implies #[trigger] order@[a] != #[trigger] order@[b] by {
                if b == i {
                    assert(seen@[order@[a] as int]);
                }
            }
            assert forall|x: int| 0 <= x < n && #[trigger] seen@[x] implies exists|j: int| 0 <= j < i + 1 && order@[j] == x by {
                if x == at {
                    assert(order@[i as int] == x);
                }
            }
        }
        i = i + 1;
    }
    true
}

/// References to the cues of `sequence` in `order`.
fn in_order<'a>(sequence: &'a Sequence, order: &[usize]) -> (r: Vec<&'a Cue>)
    requires
        is_order(order@, sequence.cues@.len() as int),
    ensures
        deref_seq(r@) == reordered(sequence.cues@, order@),
{
    let mut ordered: Vec<&Cue> = Vec::new();
    let mut i: usize = 0;
    while i < order.len()
        invariant
            0 <= i <= order@.len(),
            is_order(order@, sequence.cues@.len() as int),
            ordered@.len() == i,
            forall|j: int| 0 <= j < i ==> *(#[trigger] ordered@[j]) == sequence.cues@[order@[j] as int],
        decreases order@.len() - i,
    {
        let at = order[i];
        ordered.push(&sequence.cues[at]);
        i = i + 1;
    }
    assert(deref_seq(ordered@) =~= reordered(sequence.cues@, order@));
    ordered
}

impl Sequence {
    /// The cues in the playback order `order` (`order[i]` is the position in
    /// the list of the cue played `i`th), or `None` when `order` does not name
    /// each cue exactly once. The order is the host's: it is the decimal order
    /// of the cue numbers, stable for equal numbers.
    pub fn ordered_cues(&self, order: &[usize]) -> (r: Option<Vec<&Cue>>)
        ensures
            r is Some <==> is_order(order@, self.cues@.len() as int),
            r matches Some(v) ==> deref_seq(v@) == reordered(self.cues@, order@),
    {
        if check_order(order, self.cues.len()) {
            Some(in_order(self, order))
        } else {
            None
        }
    }

    /// What the list holds at each cue, walked once from the first cue played
    /// in `order`: one tracking state per cue, each the state while that cue
    /// is played. `None` when `order` does not name each cue exactly once.
    pub fn tracking(&self, order: &[usize]) -> (r: Option<Vec<CueTrack>>)
        ensures
            r is Some <==> is_order(order@, self.cues@.len() as int),
            r matches Some(v) ==> {
                let cues = reordered(self.cues@, order@);
                &&& v@.len() == cues.len()
                &&& forall|i: int| 0 <= i < v@.len() ==> (#[trigger] v@[i]).wf()
                &&& forall|i: int, k: int|
                    0 <= i < v@.len() ==> #[trigger] v@[i].tracked_at(k) == walk_tracked(cues, i + 1, k)
                        && v@[i].overlay_at(k) == walk_overlay(cues, i + 1, k)
                        && v@[i].visible_at(k) == walk_visible(cues, i + 1, k)
            },
    {
        let ordered = match self.ordered_cues(order) {
            Some(ordered) => ordered,
            None => return None,
        };
        let ghost cues = deref_seq(ordered@);
        let mut track = CueTrack::new();
        let mut changes: Vec<CueChange> = Vec::new();
        let mut out: Vec<CueTrack> = Vec::new();
        let mut i: usize = 0;
        while i < ordered.len()
            invariant
                0 <= i <= ordered@.len(),
                cues == deref_seq(ordered@),
                track.wf(),
                out@.len() == i,
                forall|k: int| #[trigger] track.tracked_at(k) == walk_tracked(cues, i as int, k),
                forall|q: int| 0 <= q < i ==> (#[trigger] out@[q]).wf(),
                forall|q: int, k: int|
                    0 <= q < i ==> #[trigger] out@[q].tracked_at(k) == walk_tracked(cues, q + 1, k)
                        && out@[q].overlay_at(k) == walk_overlay(cues, q + 1, k)
                        && out@[q].visible_at(k) == walk_visible(cues, q + 1, k),
            decreases ordered@.len() - i,
        {
            assert(cues[i as int] == *ordered@[i as int]);
            track.enter(ordered[i], &mut changes);
            let snapshot = track.clone();
            out.push(snapshot);
            proof {
                assert forall|q: int, k: int|
                    0 <= q < i + 1 implies #[trigger] out@[q].tracked_at(k) == walk_tracked(cues, q + 1, k)
                        && out@[q].overlay_at(k) == walk_overlay(cues, q + 1, k)
                        && out@[q].visible_at(k) == walk_visible(cues, q + 1, k) by {
                    if q == i {
                        track.lemma_wf();
                    }
                }
            }
            i = i + 1;
        }
        Some(out)
    }
}

/// A value a cue does not name is carried: the tracked state after it is the
/// tracked state before it.
pub proof fn law_a_value_a_cue_does_not_name_is_carried(cues: Seq<Cue>, n: int, k: int)
    requires
        0 <= n < cues.len(),
        last_part(cues[n].parts@, k) is None,
    ensures
        walk_tracked(cues, n + 1, k) == walk_tracked(cues, n, k),
        walk_visible(cues, n + 1, k) == walk_tracked(cues, n, k),
{
}

/// A cue-only value never enters the tracked state, so it covers nothing and
/// leaving its cue needs no undo: the next cue that does not name the
/// attribute holds it at what was underneath, whatever cue-only cues came
/// between.
pub proof fn law_a_cue_only_value_is_handed_back_to_what_was_under_it(cues: Seq<Cue>, n: int, k: int)
    requires
        0 <= n < cues.len(),
        last_part(cues[n].parts@, k) matches Some(p) && p.tracking == CueTracking::CueOnly,
    ensures
        walk_tracked(cues, n + 1, k) == walk_tracked(cues, n, k),
        walk_visible(cues, n + 1, k) == Some(last_part(cues[n].parts@, k)->0.value),
        n + 1 < cues.len() && last_part(cues[n + 1].parts@, k) is None ==> walk_visible(cues, n + 2, k)
            == walk_tracked(cues, n, k),
{
}

/// A tracking value is asserted and carried forward: it is held from its cue
/// on until a later cue says otherwise.
pub proof fn law_a_tracking_value_stands_until_a_later_cue_names_it(cues: Seq<Cue>, n: int, m: int, k: int)
    requires
        0 <= n < m <= cues.len(),
        last_part(cues[n].parts@, k) matches Some(p) && p.tracking == CueTracking::Track,
        forall|q: int| n < q < m ==> last_part(#[trigger] cues[q].parts@, k) is None,
    ensures
        walk_tracked(cues, m, k) == Some(last_part(cues[n].parts@, k)->0.value),
        walk_visible(cues, m, k) == Some(last_part(cues[n].parts@, k)->0.value),
    decreases m - n,
{
    if m > n + 1 {
        law_a_tracking_value_stands_until_a_later_cue_names_it(cues, n, m - 1, k);
        assert(last_part(cues[m - 1].parts@, k) is None);
    }
}

} // verus!
