//! Attribute values to DMX channel bytes.
//!
//! A [`ChannelPlan`] is built once from the patch, and building it is where
//! every address is checked: a fixture running past channel 512, or patched
//! into a universe the frame does not carry, is refused there. What is left for
//! the tick is [`ChannelPlan::encode`], a walk over a precomputed target list.
use vstd::prelude::*;
use vstd::multiset::Multiset;
use vstd::string::StringExecFns;

use crate::fixture::{attribute_name, AttributeDef, AttributeType, Fixture, FixtureType};
use crate::frame::{DmxFrame, FrameLayout, UNIVERSE_CHANNELS};
use crate::ids::{FixtureId, UniverseId};
use crate::plan::{merge_error_text, MergeError, MergePlan};
use crate::slots::lemma_range_len;
use crate::sorted::{insert_sorted, lemma_key_unique, lemma_sorted_by_contents, strictly_sorted, Keyed};
use crate::text::{decimal, push_decimal, text_of};

verus! {

/// Mirrors a value: `65535 - value`.
pub open spec fn invert_spec(value: u16) -> u16 {
    (65535 - value) as u16
}

/// Mirrors a value: `65535 - value`, applied before the split, so an inverted
/// sixteen-bit attribute mirrors both of its bytes together.
pub fn invert(value: u16) -> (r: u16)
    ensures
        r == invert_spec(value),
{
    65535 - value
}

/// The high byte.
pub open spec fn coarse_spec(value: u16) -> u8 {
    (value / 256) as u8
}

/// The low byte.
pub open spec fn fine_spec(value: u16) -> u8 {
    (value % 256) as u8
}

/// The high byte: what an 8-bit channel gets, and the coarse half of a pair.
pub fn coarse_byte(value: u16) -> (r: u8)
    ensures
        r == coarse_spec(value),
{
    (value / 256) as u8
}

/// The low byte: the fine half of a sixteen-bit pair.
pub fn fine_byte(value: u16) -> (r: u8)
    ensures
        r == fine_spec(value),
{
    (value % 256) as u8
}

/// A split value reassembles into the value it came from, and inverting twice
/// is the identity.
pub proof fn law_split_and_invert(value: u16)
    ensures
        coarse_spec(value) as int * 256 + fine_spec(value) as int == value as int,
        invert_spec(invert_spec(value)) == value,
{
}

/// Why a patch cannot be encoded into a frame.
#[derive(Debug, Clone, Copy, PartialEq, Eq)]
pub enum PatchError {
    /// The patch could not be flattened into merge slots in the first place.
    Plan(MergeError),
    /// The fixture is patched into a universe the layout does not carry.
    UniverseNotPatched {
        /// The fixture.
        fixture: FixtureId,
        /// The universe it asks for.
        universe: UniverseId,
    },
    /// The footprint does not fit at the address: address 0, an empty
    /// footprint, or a range running past channel 512.
    AddressOutOfRange {
        /// The fixture.
        fixture: FixtureId,
        /// Its start address.
        address: u16,
        /// The footprint of its type.
        footprint: u16,
    },
    /// An attribute's coarse or fine offset lies outside its type's footprint.
    AttributeOutsideFootprint {
        /// The fixture.
        fixture: FixtureId,
        /// The attribute.
        attribute: AttributeType,
        /// The offending offset.
        offset: u16,
        /// The footprint it has to fit inside.
        footprint: u16,
    },
    /// The fixture defines an attribute the merge plan has no slot for.
    AttributeNotInPlan {
        /// The fixture.
        fixture: FixtureId,
        /// The attribute with no slot.
        attribute: AttributeType,
    },
    /// Two channel targets claim one merge slot.
    DuplicateTarget {
        /// The fixture the second target belongs to.
        fixture: FixtureId,
        /// The attribute claimed twice.
        attribute: AttributeType,
    },
    /// A channel plan was paired with a merge plan it was not built from.
    PlanMismatch {
        /// Slots in the merge plan.
        plan: usize,
        /// Slots the channel plan was built against.
        channels: usize,
    },
}

impl From<MergeError> for PatchError {
    /// A merge refusal, carried as a patch refusal.
    fn from(error: MergeError) -> (r: PatchError) {
        PatchError::Plan(error)
    }
}

impl vstd::std_specs::convert::FromSpecImpl<MergeError> for PatchError {
    open spec fn obeys_from_spec() -> bool {
        true
    }

    open spec fn from_spec(error: MergeError) -> PatchError {
        PatchError::Plan(error)
    }
}

impl PatchError {
    /// Whether this refusal has a merge refusal underneath it.
    pub fn source(&self) -> (r: Option<MergeError>)
        ensures
            r == match *self {
                PatchError::Plan(e) => Some(e),
                _ => None::<MergeError>,
            },
    {
        match *self {
            PatchError::Plan(e) => Some(e),
            _ => None,
        }
    }
}

/// What a refused patch is told, in words.
pub open spec fn patch_error_text(e: PatchError) -> Seq<char> {
    match e {
        PatchError::Plan(m) => merge_error_text(m),
        PatchError::UniverseNotPatched { fixture, universe } => "fixture "@ + decimal(
            fixture.0 as nat,
        ) + " is patched into universe "@ + decimal(universe.0 as nat)
            + ", which the frame layout does not carry"@,
        PatchError::AddressOutOfRange { fixture, address, footprint } => "fixture "@ + decimal(
            fixture.0 as nat,
        ) + " at address "@ + decimal(address as nat) + " needs "@ + decimal(footprint as nat)
            + " channels, which runs past channel 512"@,
        PatchError::AttributeOutsideFootprint { fixture, attribute, offset, footprint } =>
            "fixture "@ + decimal(fixture.0 as nat) + " puts the attribute "@ + attribute_name(
            attribute,
        ) + " at offset "@ + decimal(offset as nat) + " of a "@ + decimal(footprint as nat)
            + "-channel footprint"@,
        PatchError::AttributeNotInPlan { fixture, attribute } => "fixture "@ + decimal(
            fixture.0 as nat,
        ) + " defines the attribute "@ + attribute_name(attribute)
            + ", which the merge plan has no slot for"@,
        PatchError::DuplicateTarget { fixture, attribute } => "fixture "@ + decimal(
            fixture.0 as nat,
        ) + " has two channel targets for the attribute "@ + attribute_name(attribute),
        PatchError::PlanMismatch { plan, channels } => "the merge plan has "@ + decimal(
            plan as nat,
        ) + " slots and the channel plan was built for "@ + decimal(channels as nat),
    }
}

impl PatchError {
    /// The sentence an operator reads for this refusal.
    pub fn message(&self) -> (r: String)
        ensures
            r@ == patch_error_text(*self),
    {
        match *self {
            PatchError::Plan(m) => m.message(),
            PatchError::UniverseNotPatched { fixture, universe } => {
                let mut s = text_of("fixture ");
                push_decimal(&mut s, fixture.0 as u64);
                s.append(" is patched into universe ");
                push_decimal(&mut s, universe.0 as u64);
                s.append(", which the frame layout does not carry");
                s
            },
            PatchError::AddressOutOfRange { fixture, address, footprint } => {
                let mut s = text_of("fixture ");
                push_decimal(&mut s, fixture.0 as u64);
                s.append(" at address ");
                push_decimal(&mut s, address as u64);
                s.append(" needs ");
                push_decimal(&mut s, footprint as u64);
                s.append(" channels, which runs past channel 512");
                s
            },
            PatchError::AttributeOutsideFootprint { fixture, attribute, offset, footprint } => {
                let mut s = text_of("fixture ");
                push_decimal(&mut s, fixture.0 as u64);
                s.append(" puts the attribute ");
                s.append(attribute.name());
                s.append(" at offset ");
                push_decimal(&mut s, offset as u64);
                s.append(" of a ");
                push_decimal(&mut s, footprint as u64);
                s.append("-channel footprint");
                s
            },
            PatchError::AttributeNotInPlan { fixture, attribute } => {
                let mut s = text_of("fixture ");
                push_decimal(&mut s, fixture.0 as u64);
                s.append(" defines the attribute ");
                s.append(attribute.name());
                s.append(", which the merge plan has no slot for");
                s
            },
            PatchError::DuplicateTarget { fixture, attribute } => {
                let mut s = text_of("fixture ");
                push_decimal(&mut s, fixture.0 as u64);
                s.append(" has two channel targets for the attribute ");
                s.append(attribute.name());
                s
            },
            PatchError::PlanMismatch { plan, channels } => {
                let mut s = text_of("the merge plan has ");
                push_decimal(&mut s, plan as u64);
                s.append(" slots and the channel plan was built for ");
                push_decimal(&mut s, channels as u64);
                s
            },
        }
    }
}

/// One merge slot's channels, resolved down to flat frame positions.
#[derive(Debug, Clone, Copy, PartialEq, Eq)]
pub struct ChannelTarget {
    /// Index into the merged values.
    pub slot: u32,
    /// Frame position of the coarse channel.
    pub coarse: u32,
    /// Frame position of the fine channel, for a sixteen-bit attribute.
    pub fine: Option<u32>,
    /// Whether the value is mirrored before it is written.
    pub invert: bool,
}

impl Keyed for ChannelTarget {
    open spec fn key_spec(&self) -> int {
        self.slot as int
    }

    fn key(&self) -> (r: u64) {
        self.slot as u64
    }
}

impl ChannelTarget {
    /// The merge slot.
    pub open spec fn slot_spec(&self) -> int {
        self.slot as int
    }

    /// The coarse channel's frame position.
    pub open spec fn coarse_spec(&self) -> int {
        self.coarse as int
    }

    /// The fine channel's frame position, if there is one.
    pub open spec fn fine_spec(&self) -> Option<int> {
        match self.fine {
            Some(f) => Some(f as int),
            None => None,
        }
    }

    /// Whether the value is mirrored before it is written.
    pub open spec fn invert_spec(&self) -> bool {
        self.invert
    }

    /// Index into the merged values.
    pub fn slot(&self) -> (r: usize)
        ensures
            r as int == self.slot_spec(),
    {
        self.slot as usize
    }

    /// Position of the coarse channel in the frame.
    pub fn coarse(&self) -> (r: usize)
        ensures
            r as int == self.coarse_spec(),
    {
        self.coarse as usize
    }

    /// Position of the fine channel in the frame, if the attribute has one.
    pub fn fine(&self) -> (r: Option<usize>)
        ensures
            match r {
                Some(f) => self.fine_spec() == Some(f as int),
                None => self.fine_spec() is None,
            },
    {
        match self.fine {
            Some(f) => Some(f as usize),
            None => None,
        }
    }

    /// Whether this attribute occupies two channels.
    pub fn is_sixteen_bit(&self) -> (r: bool)
        ensures
            r == self.fine_spec() is Some,
    {
        self.fine.is_some()
    }

    /// Whether the value is mirrored before it is written: the attribute's own
    /// invert composed with the fixture's pan/tilt inversion.
    pub fn is_inverted(&self) -> (r: bool)
        ensures
            r == self.invert_spec(),
    {
        self.invert
    }
}

/// Whether the fixture's own inversion applies: pan and tilt only.
pub open spec fn fixture_invert_spec(fixture: Fixture, d: AttributeDef) -> bool {
    match d.attribute {
        AttributeType::Pan => fixture.invert_pan,
        AttributeType::Tilt => fixture.invert_tilt,
        _ => false,
    }
}

fn fixture_invert(fixture: &Fixture, def: &AttributeDef) -> (r: bool)
    ensures
        r == fixture_invert_spec(*fixture, *def),
{
    match def.attribute {
        AttributeType::Pan => fixture.invert_pan,
        AttributeType::Tilt => fixture.invert_tilt,
        _ => false,
    }
}

/// The slot of one fixture and attribute in a plan, if it has one.
pub open spec fn plan_index(plan: Seq<crate::plan::AttributeSlot>, f: FixtureId, a: AttributeType) -> Option<int> {
    if exists|i: int| 0 <= i < plan.len() && plan[i].fixture == f && plan[i].attribute == a {
        Some(choose|i: int| 0 <= i < plan.len() && plan[i].fixture == f && plan[i].attribute == a)
    } else {
        None
    }
}

/// The frame position of a universe, if the layout carries it.
pub open spec fn layout_index(layout: Seq<UniverseId>, u: UniverseId) -> Option<int> {
    if layout.contains(u) {
        Some(choose|i: int| 0 <= i < layout.len() && layout[i] == u)
    } else {
        None
    }
}

/// The target one definition becomes, with the fixture's first channel at
/// frame position `base`.
pub open spec fn target_of(slot: int, base: int, fixture: Fixture, d: AttributeDef) -> ChannelTarget {
    ChannelTarget {
        slot: slot as u32,
        coarse: (base + d.coarse_offset) as u32,
        fine: match d.fine_offset {
            Some(f) => Some((base + f) as u32),
            None => None,
        },
        invert: d.invert != fixture_invert_spec(fixture, d),
    }
}

/// Walks one fixture's definitions, stopping at the first refusal.
pub open spec fn fold_targets(
    plan: Seq<crate::plan::AttributeSlot>,
    fixture: Fixture,
    footprint: u16,
    base: int,
    defs: Seq<AttributeDef>,
    claimed: Set<int>,
    acc: Seq<ChannelTarget>,
) -> Result<(Seq<ChannelTarget>, Set<int>), PatchError>
    decreases defs.len(),
{
    if defs.len() == 0 {
        Ok((acc, claimed))
    } else {
        let d = defs[0];
        match plan_index(plan, fixture.id, d.attribute) {
            None => Err(PatchError::AttributeNotInPlan { fixture: fixture.id, attribute: d.attribute }),
            Some(slot) => if claimed.contains(slot) {
                Err(PatchError::DuplicateTarget { fixture: fixture.id, attribute: d.attribute })
            } else if d.coarse_offset >= footprint {
                Err(
                    PatchError::AttributeOutsideFootprint {
                        fixture: fixture.id,
                        attribute: d.attribute,
                        offset: d.coarse_offset,
                        footprint,
                    },
                )
            } else if (d.fine_offset matches Some(f) && f >= footprint) {
                Err(
                    PatchError::AttributeOutsideFootprint {
                        fixture: fixture.id,
                        attribute: d.attribute,
                        offset: d.fine_offset->0,
                        footprint,
                    },
                )
            } else {
                fold_targets(
                    plan,
                    fixture,
                    footprint,
                    base,
                    defs.skip(1),
                    claimed.insert(slot),
                    acc.push(target_of(slot, base, fixture, d)),
                )
            },
        }
    }
}

/// Walks the patch, stopping at the first refusal.
pub open spec fn fold_fixtures(
    plan: Seq<crate::plan::AttributeSlot>,
    layout: Seq<UniverseId>,
    entries: Seq<(Fixture, FixtureType)>,
    claimed: Set<int>,
    acc: Seq<ChannelTarget>,
) -> Result<Seq<ChannelTarget>, PatchError>
    decreases entries.len(),
{
    if entries.len() == 0 {
        Ok(acc)
    } else {
        let (fixture, fixture_type) = entries[0];
        match layout_index(layout, fixture.universe) {
            None => Err(
                PatchError::UniverseNotPatched { fixture: fixture.id, universe: fixture.universe },
            ),
            Some(position) => match crate::fixture::last_address_spec(
                fixture.address,
                fixture_type.footprint,
            ) {
                None => Err(
                    PatchError::AddressOutOfRange {
                        fixture: fixture.id,
                        address: fixture.address,
                        footprint: fixture_type.footprint,
                    },
                ),
                Some(_) => {
                    let base = position * 512 + fixture.address - 1;
                    match fold_targets(
                        plan,
                        fixture,
                        fixture_type.footprint,
                        base,
                        fixture_type.attributes@,
                        claimed,
                        acc,
                    ) {
                        Err(e) => Err(e),
                        Ok((next, now_claimed)) => fold_fixtures(
                            plan,
                            layout,
                            entries.skip(1),
                            now_claimed,
                            next,
                        ),
                    }
                },
            },
        }
    }
}

/// The fixtures a build is handed, as values.
pub open spec fn fixtures_view(fixtures: Seq<(&Fixture, &FixtureType)>) -> Seq<(Fixture, FixtureType)> {
    fixtures.map_values(|e: (&Fixture, &FixtureType)| (*e.0, *e.1))
}

/// Whether a frame position lies inside entry `k`'s footprint.
pub open spec fn inside_entry(
    layout: Seq<UniverseId>,
    entries: Seq<(Fixture, FixtureType)>,
    k: int,
    position: int,
) -> bool {
    &&& 0 <= k < entries.len()
    &&& layout_index(layout, entries[k].0.universe) matches Some(p)
    &&& {
        let base = p * 512 + entries[k].0.address - 1;
        base <= position < base + entries[k].1.footprint
    }
}

/// Whether a target writes only inside its own fixture's footprint: that of
/// a patched fixture with the number of the plan slot the target carries.
pub open spec fn target_inside(
    plan: Seq<crate::plan::AttributeSlot>,
    layout: Seq<UniverseId>,
    entries: Seq<(Fixture, FixtureType)>,
    t: ChannelTarget,
) -> bool {
    exists|k: int|
        #![trigger entries[k]]
        inside_entry(layout, entries, k, t.coarse as int) && 0 <= t.slot < plan.len()
            && entries[k].0.id == plan[t.slot as int].fixture && match t.fine {
            Some(f) => inside_entry(layout, entries, k, f as int),
            None => true,
        }
}

/// One target written into a frame.
pub open spec fn write_target(t: ChannelTarget, values: Seq<u16>, bytes: Seq<u8>) -> Seq<u8> {
    if t.slot as int >= values.len() {
        bytes
    } else {
        let v = if t.invert { invert_spec(values[t.slot as int]) } else { values[t.slot as int] };
        let b1 = if (t.coarse as int) < bytes.len() {
            bytes.update(t.coarse as int, coarse_spec(v))
        } else {
            bytes
        };
        match t.fine {
            Some(f) => if (f as int) < b1.len() {
                b1.update(f as int, fine_spec(v))
            } else {
                b1
            },
            None => b1,
        }
    }
}

/// Every target written into a frame, in order.
pub open spec fn encode_spec(targets: Seq<ChannelTarget>, values: Seq<u16>, bytes: Seq<u8>) -> Seq<
    u8,
>
    decreases targets.len(),
{
    if targets.len() == 0 {
        bytes
    } else {
        write_target(targets.last(), values, encode_spec(targets.drop_last(), values, bytes))
    }
}

/// The patch, flattened into channel writes, ordered by slot.
#[derive(Debug)]
pub struct ChannelPlan {
    targets: Vec<ChannelTarget>,
    slot_count: usize,
    channel_count: usize,
}

impl View for ChannelPlan {
    type V = Seq<ChannelTarget>;

    closed spec fn view(&self) -> Seq<ChannelTarget> {
        self.targets@
    }
}

impl Clone for ChannelPlan {
    fn clone(&self) -> (r: Self)
        ensures
            r@ == self@,
            r.slot_count_spec() == self.slot_count_spec(),
            r.channel_count_spec() == self.channel_count_spec(),
    {
        proof {
            use_type_invariant(self);
        }
        let targets = self.targets.clone();
        proof {
            assert(targets@ =~= self.targets@);
        }
        ChannelPlan { targets, slot_count: self.slot_count, channel_count: self.channel_count }
    }
}

impl ChannelPlan {
    #[verifier::type_invariant]
    closed spec fn wf(self) -> bool {
        strictly_sorted(self.targets@)
    }

    /// Slots in the merge plan this plan was built against.
    pub closed spec fn slot_count_spec(&self) -> usize {
        self.slot_count
    }

    /// Channels in a frame of the layout this plan was built against.
    pub closed spec fn channel_count_spec(&self) -> usize {
        self.channel_count
    }

    /// Resolves a patch into channel targets, validating every address.
    ///
    /// `fixtures` must be the patch `plan` was built from. Refused, with the
    /// first refusal in patch order, when a fixture is in a universe the layout
    /// does not carry, its footprint does not fit at its address, an attribute
    /// has no slot in the plan or sits outside the footprint, or two targets
    /// claim one slot. An accepted plan writes every target inside its own
    /// fixture's footprint.
    pub fn build(plan: &MergePlan, layout: &FrameLayout, fixtures: &[(&Fixture, &FixtureType)]) -> (r:
        Result<ChannelPlan, PatchError>)
        ensures
            match fold_fixtures(plan@, layout@, fixtures_view(fixtures@), Set::empty(), Seq::empty()) {
                Ok(collected) => r matches Ok(c) && strictly_sorted(c@) && c@.to_set()
                    == collected.to_set() && c@.len() == collected.len() && c.slot_count_spec()
                    == plan@.len() && c.channel_count_spec() == layout@.len() * UNIVERSE_CHANNELS
                    && c@.len() == patch_target_count(fixtures_view(fixtures@))
                    && forall|i: int|
                    0 <= i < c@.len() ==> target_inside(
                        plan@,
                        layout@,
                        fixtures_view(fixtures@),
                        #[trigger] c@[i],
                    ),
                Err(e) => r == Err::<ChannelPlan, PatchError>(e),
            },
    {
        let ghost entries = fixtures_view(fixtures@);
        let ghost pseq = plan@;
        let ghost lseq = layout@;
        let slot_total = plan.slot_count();
        let slot_view = plan.slots();
        let channel_total = layout.channel_count();
        let universe_total = layout.universe_count();
        let _all_universes = layout.universes();
        let mut targets: Vec<ChannelTarget> = Vec::new();
        let mut claimed: Vec<bool> = Vec::new();
        let mut c: usize = 0;
        while c < slot_total
            invariant
                0 <= c <= slot_total,
                claimed@.len() == c,
                forall|k: int| 0 <= k < c ==> !claimed@[k],
            decreases slot_total - c,
        {
            claimed.push(false);
            c = c + 1;
        }
        let ghost mut acc: Seq<ChannelTarget> = Seq::empty();
        let ghost mut claimed_set: Set<int> = Set::empty();
        let mut i: usize = 0;
        proof {
            assert(entries.skip(0) =~= entries);
        }
        while i < fixtures.len()
            invariant
                0 <= i <= fixtures.len(),
                entries == fixtures_view(fixtures@),
                pseq == plan@,
                lseq == layout@,
                slot_view@ == pseq,
                crate::plan::sorted_slots(pseq),
                slot_total == pseq.len(),
                slot_total <= crate::plan::MAX_SLOTS,
                0 < universe_total <= crate::frame::MAX_UNIVERSES,
                universe_total == lseq.len(),
                crate::frame::distinct_universes(lseq),
                fold_fixtures(pseq, lseq, entries, Set::empty(), Seq::empty()) == fold_fixtures(
                    pseq,
                    lseq,
                    entries.skip(i as int),
                    claimed_set,
                    acc,
                ),
                claimed@.len() == slot_total,
                forall|k: int| 0 <= k < slot_total ==> (claimed@[k] <==> claimed_set.contains(k)),
                forall|k: int| claimed_set.contains(k) ==> 0 <= k < slot_total,
                forall|k: int|
                    0 <= k < acc.len() ==> claimed_set.contains((#[trigger] acc[k]).slot as int),
                strictly_sorted(targets@),
                targets@.to_set() == acc.to_set(),
                targets@.len() == acc.len(),
                acc.len() <= claimed_set.len(),
                claimed_set.finite(),
                forall|k: int|
                    0 <= k < acc.len() ==> target_inside(pseq, lseq, entries, #[trigger] acc[k]),
            decreases fixtures.len() - i,
        {
            let (fixture, fixture_type) = fixtures[i];
            proof {
                assert(entries.skip(i as int)[0] == (*fixture, *fixture_type));
                assert(entries.skip(i as int).skip(1) =~= entries.skip(i as int + 1));
                assert(entries[i as int] == (*fixture, *fixture_type));
            }
            let footprint = fixture_type.footprint;
            let position = match layout.index_of(fixture.universe) {
                Some(p) => p,
                None => {
                    return Err(
                        PatchError::UniverseNotPatched {
                            fixture: fixture.id,
                            universe: fixture.universe,
                        },
                    );
                },
            };
            proof {
                layout_index_unique(lseq, position as int);
            }
            if fixture.last_address(footprint).is_none() {
                return Err(
                    PatchError::AddressOutOfRange {
                        fixture: fixture.id,
                        address: fixture.address,
                        footprint,
                    },
                );
            }
            let base: usize = position * UNIVERSE_CHANNELS + (fixture.address - 1) as usize;
            let defs = &fixture_type.attributes;
            let ghost defs_seq = defs@;
            let ghost entry_acc = acc;
            let ghost entry_claimed = claimed_set;
            let mut j: usize = 0;
            proof {
                assert(defs_seq.skip(0) =~= defs_seq);
            }
            while j < defs.len()
                invariant
                    0 <= j <= defs.len(),
                    defs@ == defs_seq,
                    defs_seq == fixture_type.attributes@,
                    entries == fixture_entries_fix(entries),
                    0 <= i < fixtures.len(),
                    entries == fixtures_view(fixtures@),
                    entries[i as int] == (*fixture, *fixture_type),
                    entries.skip(i as int).len() > 0,
                    entries.skip(i as int)[0] == (*fixture, *fixture_type),
                    layout_index(lseq, fixture.universe) == Some(position as int),
                    crate::fixture::last_address_spec(fixture.address, footprint) is Some,
                    base as int == position as int * 512 + fixture.address - 1,
                    position < universe_total,
                    0 < universe_total <= crate::frame::MAX_UNIVERSES,
                    fixture.address >= 1,
                    fixture.address as int + footprint as int - 1 <= 512,
                    footprint == fixture_type.footprint,
                    pseq == plan@,
                    lseq == layout@,
                    slot_view@ == pseq,
                    crate::plan::sorted_slots(pseq),
                    slot_total == pseq.len(),
                    slot_total <= crate::plan::MAX_SLOTS,
                    fold_fixtures(pseq, lseq, entries, Set::empty(), Seq::empty()) == fold_fixtures(
                        pseq,
                        lseq,
                        entries.skip(i as int),
                        entry_claimed,
                        entry_acc,
                    ),
                    fold_targets(
                        pseq,
                        *fixture,
                        footprint,
                        base as int,
                        defs_seq,
                        entry_claimed,
                        entry_acc,
                    ) == fold_targets(
                        pseq,
                        *fixture,
                        footprint,
                        base as int,
                        defs_seq.skip(j as int),
                        claimed_set,
                        acc,
                    ),
                    claimed@.len() == slot_total,
                    forall|k: int| 0 <= k < slot_total ==> (claimed@[k] <==> claimed_set.contains(k)),
                    forall|k: int| claimed_set.contains(k) ==> 0 <= k < slot_total,
                    forall|k: int|
                        0 <= k < acc.len() ==> claimed_set.contains((#[trigger] acc[k]).slot as int),
                    strictly_sorted(targets@),
                    targets@.to_set() == acc.to_set(),
                    targets@.len() == acc.len(),
                    acc.len() <= claimed_set.len(),
                    claimed_set.finite(),
                    forall|k: int|
                        0 <= k < acc.len() ==> target_inside(pseq, lseq, entries, #[trigger] acc[k]),
                decreases defs.len() - j,
            {
                let def = defs[j];
                proof {
                    assert(defs_seq.skip(j as int)[0] == def);
                    assert(defs_seq.skip(j as int).skip(1) =~= defs_seq.skip(j as int + 1));
                }
                let slot = match plan.index_of(fixture.id, def.attribute) {
                    Some(s) => s,
                    None => {
                        return Err(
                            PatchError::AttributeNotInPlan {
                                fixture: fixture.id,
                                attribute: def.attribute,
                            },
                        );
                    },
                };
                proof {
                    let q = choose|q: int|
                        0 <= q < pseq.len() && pseq[q].fixture == fixture.id && pseq[q].attribute
                            == def.attribute;
                    crate::plan::lemma_key_injective(
                        pseq[q].fixture,
                        pseq[q].attribute,
                        pseq[slot as int].fixture,
                        pseq[slot as int].attribute,
                    );
                    lemma_key_unique(pseq, q, slot as int);
                    assert(plan_index(pseq, fixture.id, def.attribute) == Some(slot as int));
                }
                if claimed[slot] {
                    return Err(
                        PatchError::DuplicateTarget { fixture: fixture.id, attribute: def.attribute },
                    );
                }
                if def.coarse_offset >= footprint {
                    return Err(
                        PatchError::AttributeOutsideFootprint {
                            fixture: fixture.id,
                            attribute: def.attribute,
                            offset: def.coarse_offset,
                            footprint,
                        },
                    );
                }
                let fine: Option<u32> = match def.fine_offset {
                    Some(offset) => {
                        if offset >= footprint {
                            return Err(
                                PatchError::AttributeOutsideFootprint {
                                    fixture: fixture.id,
                                    attribute: def.attribute,
                                    offset,
                                    footprint,
                                },
                            );
                        }
                        Some((base + offset as usize) as u32)
                    },
                    None => None,
                };
                proof {
                    assert(position as int * 512 + 512 <= 1024 * 512) by (nonlinear_arith)
                        requires position < universe_total, universe_total <= 1024;
                }
                let invert = def.invert != fixture_invert(fixture, &def);
                let target = ChannelTarget {
                    slot: slot as u32,
                    coarse: (base + def.coarse_offset as usize) as u32,
                    fine,
                    invert,
                };
                proof {
                    assert(target == target_of(slot as int, base as int, *fixture, def));
                    assert forall|k: int| 0 <= k < acc.len() implies (#[trigger] acc[k]).key_spec()
                        != target.key_spec() by {
                        assert(claimed_set.contains(acc[k].slot as int));
                    }
                    assert(inside_entry(lseq, entries, i as int, target.coarse as int));
                    assert(target_inside(pseq, lseq, entries, target));
                    lemma_range_len(slot_total as int);
                    assert(claimed_set.subset_of(Set::new(|k: int| 0 <= k < slot_total)));
                    vstd::set_lib::lemma_len_subset(claimed_set, Set::new(|k: int| 0 <= k < slot_total));
                    assert(def.coarse_offset < footprint);
                    assert(base as int + footprint as int <= position as int * 512 + 512);
                    assert(position < universe_total);
                    assert(position as int * 512 + 512 <= 1024 * 512) by (nonlinear_arith)
                        requires position < universe_total, universe_total <= 1024;
                }
                insert_sorted(&mut targets, target, Ghost(acc));
                claimed.set(slot, true);
                proof {
                    acc = acc.push(target);
                    claimed_set = claimed_set.insert(slot as int);
                    assert forall|k: int|
                        0 <= k < acc.len() implies target_inside(pseq, lseq, entries, #[trigger] acc[k]) by {
                        if k < acc.len() - 1 {
                        }
                    }
                }
                j = j + 1;
            }
            proof {
                assert(defs_seq.skip(j as int) =~= Seq::<AttributeDef>::empty());
            }
            i = i + 1;
        }
        proof {
            assert(entries.skip(i as int) =~= Seq::<(Fixture, FixtureType)>::empty());
            assert forall|m: int| 0 <= m < targets@.len() implies target_inside(
                pseq,
                lseq,
                entries,
                #[trigger] targets@[m],
            ) by {
                assert(targets@.to_set().contains(targets@[m]));
                assert(acc.to_set().contains(targets@[m]));
                let w = choose|w: int| 0 <= w < acc.len() && acc[w] == targets@[m];
                assert(target_inside(pseq, lseq, entries, acc[w]));
            }
        }
        proof {
            lemma_fold_fixtures_len(pseq, lseq, entries, Set::empty(), Seq::empty());
        }
        Ok(ChannelPlan { targets, slot_count: slot_total, channel_count: channel_total })
    }

    /// Every channel target, in slot order.
    pub fn targets(&self) -> (r: &[ChannelTarget])
        ensures
            r@ == self@,
            strictly_sorted(self@),
    {
        proof {
            use_type_invariant(self);
        }
        self.targets.as_slice()
    }

    /// How many attributes this plan writes.
    pub fn target_count(&self) -> (r: usize)
        ensures
            r == self@.len(),
    {
        self.targets.len()
    }

    /// Slots in the merge plan this plan was built against.
    pub fn slot_count(&self) -> (r: usize)
        ensures
            r == self.slot_count_spec(),
    {
        self.slot_count
    }

    /// Channels in a frame of the layout this plan was built against.
    pub fn channel_count(&self) -> (r: usize)
        ensures
            r == self.channel_count_spec(),
    {
        self.channel_count
    }

    /// Writes merged attribute values into a frame, target by target in slot
    /// order. A target whose value or channel is out of range writes nothing,
    /// and a channel no target names keeps what it had.
    pub fn encode(&self, values: &[u16], frame: &mut DmxFrame)
        ensures
            final(frame).bytes() == encode_spec(self@, values@, old(frame).bytes()),
            final(frame).sequence_spec() == old(frame).sequence_spec(),
    {
        let n = self.targets.len();
        let mut i: usize = 0;
        while i < n
            invariant
                0 <= i <= n,
                n == self.targets@.len(),
                frame.bytes() == encode_spec(self.targets@.subrange(0, i as int), values@, old(frame).bytes()),
                frame.sequence_spec() == old(frame).sequence_spec(),
            decreases n - i,
        {
            let target = self.targets[i];
            proof {
                assert(self.targets@.subrange(0, i as int + 1).drop_last() =~= self.targets@.subrange(0, i as int));
            }
            let slot = target.slot as usize;
            if slot < values.len() {
                let raw = values[slot];
                let value = if target.invert { invert(raw) } else { raw };
                frame.write_byte(target.coarse as usize, coarse_byte(value));
                match target.fine {
                    Some(f) => frame.write_byte(f as usize, fine_byte(value)),
                    None => {},
                }
            }
            i = i + 1;
        }
        proof {
            assert(self.targets@.subrange(0, n as int) =~= self.targets@);
        }
    }
}

/// The identity on a sequence of entries; it only names the invariant's term.
pub open spec fn fixture_entries_fix(e: Seq<(Fixture, FixtureType)>) -> Seq<(Fixture, FixtureType)> {
    e
}

/// A layout names each universe once, so a universe's position is unique.
proof fn layout_index_unique(layout: Seq<UniverseId>, p: int)
    requires
        0 <= p < layout.len(),
        crate::frame::distinct_universes(layout),
    ensures
        layout_index(layout, layout[p]) == Some(p),
{
    assert(layout.contains(layout[p]));
    let c = choose|i: int| 0 <= i < layout.len() && layout[i] == layout[p];
    if c != p {
        if c < p {
            assert(layout[c] != layout[p]);
        } else {
            assert(layout[p] != layout[c]);
        }
    }
}

/// Encoding touches only the channels its targets name: a position no target
/// names keeps the byte it had.
pub proof fn law_unclaimed_channels_are_left_alone(
    targets: Seq<ChannelTarget>,
    values: Seq<u16>,
    bytes: Seq<u8>,
    position: int,
)
    requires
        0 <= position < bytes.len(),
        forall|k: int|
            0 <= k < targets.len() ==> targets[k].coarse as int != position && match targets[k].fine {
                Some(f) => f as int != position,
                None => true,
            },
    ensures
        encode_spec(targets, values, bytes).len() == bytes.len(),
        encode_spec(targets, values, bytes)[position] == bytes[position],
    decreases targets.len(),
{
    if targets.len() > 0 {
        law_unclaimed_channels_are_left_alone(targets.drop_last(), values, bytes, position);
        assert(targets.last() == targets[targets.len() - 1]);
    }
}


/// How many targets a patch is encoded with: one per definition of each
/// fixture's type.
pub open spec fn patch_target_count(entries: Seq<(Fixture, FixtureType)>) -> int
    decreases entries.len(),
{
    if entries.len() == 0 {
        0
    } else {
        entries[0].1.attributes@.len() + patch_target_count(entries.skip(1))
    }
}

/// Walking a fixture's definitions adds one target per definition.
proof fn lemma_fold_targets_len(
    plan: Seq<crate::plan::AttributeSlot>,
    fixture: Fixture,
    footprint: u16,
    base: int,
    defs: Seq<AttributeDef>,
    claimed: Set<int>,
    acc: Seq<ChannelTarget>,
)
    requires
        fold_targets(plan, fixture, footprint, base, defs, claimed, acc) is Ok,
    ensures
        fold_targets(plan, fixture, footprint, base, defs, claimed, acc)->Ok_0.0.len() == acc.len() + defs.len(),
    decreases defs.len(),
{
    if defs.len() > 0 {
        let slot = plan_index(plan, fixture.id, defs[0].attribute)->0;
        lemma_fold_targets_len(plan, fixture, footprint, base, defs.skip(1), claimed.insert(slot), acc.push(target_of(slot, base, fixture, defs[0])));
    }
}

/// Walking the patch adds each fixture's targets.
proof fn lemma_fold_fixtures_len(
    plan: Seq<crate::plan::AttributeSlot>,
    layout: Seq<UniverseId>,
    entries: Seq<(Fixture, FixtureType)>,
    claimed: Set<int>,
    acc: Seq<ChannelTarget>,
)
    requires
        fold_fixtures(plan, layout, entries, claimed, acc) is Ok,
    ensures
        fold_fixtures(plan, layout, entries, claimed, acc)->Ok_0.len() == acc.len() + patch_target_count(entries),
    decreases entries.len(),
{
    if entries.len() > 0 {
        let (fixture, fixture_type) = entries[0];
        let base = layout_index(layout, fixture.universe)->0 * 512 + fixture.address - 1;
        let defs = fixture_type.attributes@;
        lemma_fold_targets_len(plan, fixture, fixture_type.footprint, base, defs, claimed, acc);
        let (next, now_claimed) = fold_targets(plan, fixture, fixture_type.footprint, base, defs, claimed, acc)->Ok_0;
        lemma_fold_fixtures_len(plan, layout, entries.skip(1), now_claimed, next);
    }
}

/// The target one definition of a patched fixture becomes.
pub open spec fn def_target(plan: Seq<crate::plan::AttributeSlot>, base: int, fixture: Fixture, d: AttributeDef) -> ChannelTarget {
    target_of(plan_index(plan, fixture.id, d.attribute)->0, base, fixture, d)
}

/// The targets one patched fixture contributes: one per definition of its
/// type, at its own address in its own universe.
pub open spec fn entry_targets(
    plan: Seq<crate::plan::AttributeSlot>,
    layout: Seq<UniverseId>,
    e: (Fixture, FixtureType),
) -> Set<ChannelTarget> {
    let base = layout_index(layout, e.0.universe)->0 * 512 + e.0.address - 1;
    Set::new(
        |t: ChannelTarget|
            exists|k: int| 0 <= k < e.1.attributes@.len() && t == def_target(plan, base, e.0, e.1.attributes@[k]),
    )
}

/// Walking a fixture's definitions adds exactly one target per definition.
#[verifier::spinoff_prover]
#[verifier::rlimit(40)]
proof fn lemma_fold_targets_set(
    plan: Seq<crate::plan::AttributeSlot>,
    fixture: Fixture,
    footprint: u16,
    base: int,
    defs: Seq<AttributeDef>,
    claimed: Set<int>,
    acc: Seq<ChannelTarget>,
)
    requires
        fold_targets(plan, fixture, footprint, base, defs, claimed, acc) is Ok,
    ensures
        forall|t: ChannelTarget|
            #[trigger] fold_targets(plan, fixture, footprint, base, defs, claimed, acc)->Ok_0.0.to_set().contains(t) <==> (
            acc.to_set().contains(t) || exists|k: int| 0 <= k < defs.len() && t == def_target(plan, base, fixture, defs[k])),
    decreases defs.len(),
{
    if defs.len() > 0 {
        let d = defs[0];
        let slot = plan_index(plan, fixture.id, d.attribute)->0;
        let next = acc.push(target_of(slot, base, fixture, d));
        lemma_fold_targets_set(plan, fixture, footprint, base, defs.skip(1), claimed.insert(slot), next);
        let r = fold_targets(plan, fixture, footprint, base, defs, claimed, acc)->Ok_0.0;
        assert(r == fold_targets(plan, fixture, footprint, base, defs.skip(1), claimed.insert(slot), next)->Ok_0.0);
        assert(next[acc.len() as int] == def_target(plan, base, fixture, defs[0]));
        assert forall|t: ChannelTarget| r.to_set().contains(t) implies (acc.to_set().contains(t)
            || exists|k: int| 0 <= k < defs.len() && t == def_target(plan, base, fixture, defs[k])) by {
            if next.to_set().contains(t) {
                let w = choose|w: int| 0 <= w < next.len() && next[w] == t;
                if w < acc.len() {
                    assert(acc[w] == t);
                    assert(acc.to_set().contains(t));
                } else {
                    assert(0 <= 0 < defs.len() && t == def_target(plan, base, fixture, defs[0]));
                }
            } else {
                let k = choose|k: int| 0 <= k < defs.skip(1).len() && t == def_target(plan, base, fixture, defs.skip(1)[k]);
                assert(defs.skip(1)[k] == defs[k + 1]);
                assert(0 <= k + 1 < defs.len() && t == def_target(plan, base, fixture, defs[k + 1]));
            }
        }
        assert forall|t: ChannelTarget| acc.to_set().contains(t) implies r.to_set().contains(t) by {
            let w = choose|w: int| 0 <= w < acc.len() && acc[w] == t;
            assert(next[w] == t);
            assert(next.to_set().contains(t));
        }
        assert forall|t: ChannelTarget, k: int| 0 <= k < defs.len() && t == def_target(plan, base, fixture, defs[k])
            implies r.to_set().contains(t) by {
            if k == 0 {
                assert(next[acc.len() as int] == t);
                assert(next.to_set().contains(t));
            } else {
                assert(defs.skip(1)[k - 1] == defs[k]);
                assert(0 <= k - 1 < defs.skip(1).len() && t == def_target(plan, base, fixture, defs.skip(1)[k - 1]));
            }
        }
    }
}

/// Walking the patch adds exactly the targets of each fixture.
#[verifier::spinoff_prover]
#[verifier::rlimit(40)]
proof fn lemma_fold_fixtures_set(
    plan: Seq<crate::plan::AttributeSlot>,
    layout: Seq<UniverseId>,
    entries: Seq<(Fixture, FixtureType)>,
    claimed: Set<int>,
    acc: Seq<ChannelTarget>,
)
    requires
        fold_fixtures(plan, layout, entries, claimed, acc) is Ok,
    ensures
        forall|t: ChannelTarget|
            #[trigger] fold_fixtures(plan, layout, entries, claimed, acc)->Ok_0.to_set().contains(t) <==> (acc.to_set().contains(t)
                || exists|i: int| 0 <= i < entries.len() && #[trigger] entry_targets(plan, layout, entries[i]).contains(t)),
    decreases entries.len(),
{
    if entries.len() > 0 {
        let (fixture, fixture_type) = entries[0];
        let position = layout_index(layout, fixture.universe)->0;
        let base = position * 512 + fixture.address - 1;
        let defs = fixture_type.attributes@;
        lemma_fold_targets_set(plan, fixture, fixture_type.footprint, base, defs, claimed, acc);
        let (next, now_claimed) = fold_targets(plan, fixture, fixture_type.footprint, base, defs, claimed, acc)->Ok_0;
        lemma_fold_fixtures_set(plan, layout, entries.skip(1), now_claimed, next);
        let r = fold_fixtures(plan, layout, entries, claimed, acc)->Ok_0;
        assert(r == fold_fixtures(plan, layout, entries.skip(1), now_claimed, next)->Ok_0);
        let own = Set::new(
            |t: ChannelTarget| exists|k: int| 0 <= k < defs.len() && t == def_target(plan, base, fixture, defs[k]),
        );
        assert(entry_targets(plan, layout, entries[0]) =~= own);
        assert forall|t: ChannelTarget| r.to_set().contains(t) <==> (acc.to_set().contains(t)
            || exists|i: int| 0 <= i < entries.len() && #[trigger] entry_targets(plan, layout, entries[i]).contains(t)) by {
            if r.to_set().contains(t) {
                if next.to_set().contains(t) {
                    if !acc.to_set().contains(t) {
                        assert(own.contains(t));
                        assert(entry_targets(plan, layout, entries[0]).contains(t));
                    }
                } else {
                    let i = choose|i: int| 0 <= i < entries.skip(1).len() && #[trigger] entry_targets(plan, layout, entries.skip(1)[i]).contains(t);
                    assert(entries.skip(1)[i] == entries[i + 1]);
                    assert(entry_targets(plan, layout, entries[i + 1]).contains(t));
                }
            }
            if exists|i: int| 0 <= i < entries.len() && #[trigger] entry_targets(plan, layout, entries[i]).contains(t) {
                let i = choose|i: int| 0 <= i < entries.len() && #[trigger] entry_targets(plan, layout, entries[i]).contains(t);
                if i == 0 {
                    assert(own.contains(t));
                    let k = choose|k: int| 0 <= k < defs.len() && t == def_target(plan, base, fixture, defs[k]);
                    assert(0 <= k < defs.len() && t == def_target(plan, base, fixture, defs[k]));
                    assert(next.to_set().contains(t));
                } else {
                    assert(entries.skip(1)[i - 1] == entries[i]);
                    assert(entry_targets(plan, layout, entries.skip(1)[i - 1]).contains(t));
                }
            }
        }
    }
}

/// The channel plan is a function of the patch and not of the order it
/// arrives in: two orders of the same fixtures that are both accepted give
/// the same targets, in the same slot order.
pub proof fn law_the_channel_plan_does_not_depend_on_the_order_of_the_patch(
    plan: Seq<crate::plan::AttributeSlot>,
    layout: Seq<UniverseId>,
    first: Seq<(Fixture, FixtureType)>,
    second: Seq<(Fixture, FixtureType)>,
    first_targets: Seq<ChannelTarget>,
    second_targets: Seq<ChannelTarget>,
)
    requires
        first.to_set() == second.to_set(),
        fold_fixtures(plan, layout, first, Set::empty(), Seq::empty()) is Ok,
        fold_fixtures(plan, layout, second, Set::empty(), Seq::empty()) is Ok,
        strictly_sorted(first_targets),
        strictly_sorted(second_targets),
        first_targets.to_set() == fold_fixtures(plan, layout, first, Set::empty(), Seq::empty())->Ok_0.to_set(),
        second_targets.to_set() == fold_fixtures(plan, layout, second, Set::empty(), Seq::empty())->Ok_0.to_set(),
    ensures
        first_targets == second_targets,
{
    lemma_fold_fixtures_set(plan, layout, first, Set::empty(), Seq::empty());
    lemma_fold_fixtures_set(plan, layout, second, Set::empty(), Seq::empty());
    assert forall|t: ChannelTarget| first_targets.to_set().contains(t) <==> second_targets.to_set().contains(t) by {
        assert(!Seq::<ChannelTarget>::empty().to_set().contains(t));
        if exists|i: int| 0 <= i < first.len() && #[trigger] entry_targets(plan, layout, first[i]).contains(t) {
            let i = choose|i: int| 0 <= i < first.len() && #[trigger] entry_targets(plan, layout, first[i]).contains(t);
            assert(first.to_set().contains(first[i]));
            assert(second.to_set().contains(first[i]));
            let j = choose|j: int| 0 <= j < second.len() && second[j] == first[i];
            assert(entry_targets(plan, layout, second[j]).contains(t));
        }
        if exists|i: int| 0 <= i < second.len() && #[trigger] entry_targets(plan, layout, second[i]).contains(t) {
            let i = choose|i: int| 0 <= i < second.len() && #[trigger] entry_targets(plan, layout, second[i]).contains(t);
            assert(second.to_set().contains(second[i]));
            assert(first.to_set().contains(second[i]));
            let j = choose|j: int| 0 <= j < first.len() && first[j] == second[i];
            assert(entry_targets(plan, layout, first[j]).contains(t));
        }
    }
    assert(first_targets.to_set() =~= second_targets.to_set());
    lemma_sorted_by_contents(first_targets, second_targets);
}


/// Whether one definition of a patched fixture can be written: it has a slot
/// in the plan and its channels lie inside the footprint.
pub open spec fn def_fits(plan: Seq<crate::plan::AttributeSlot>, fixture: Fixture, footprint: u16, d: AttributeDef) -> bool {
    &&& plan_index(plan, fixture.id, d.attribute) is Some
    &&& d.coarse_offset < footprint
    &&& d.fine_offset matches Some(f) ==> f < footprint
}

/// The slot a definition of a patched fixture claims.
pub open spec fn def_claim(plan: Seq<crate::plan::AttributeSlot>, fixture: Fixture, d: AttributeDef) -> int {
    plan_index(plan, fixture.id, d.attribute)->0
}

/// The slots a fixture's definitions claim, in order.
pub open spec fn def_claims(plan: Seq<crate::plan::AttributeSlot>, fixture: Fixture, defs: Seq<AttributeDef>) -> Seq<int> {
    defs.map_values(|d: AttributeDef| def_claim(plan, fixture, d))
}

/// The slots one patched fixture claims.
pub open spec fn entry_claims(plan: Seq<crate::plan::AttributeSlot>, e: (Fixture, FixtureType)) -> Seq<int> {
    def_claims(plan, e.0, e.1.attributes@)
}

/// The slots a patch claims, in patch order.
pub open spec fn patch_claims(plan: Seq<crate::plan::AttributeSlot>, entries: Seq<(Fixture, FixtureType)>) -> Seq<int>
    decreases entries.len(),
{
    if entries.len() == 0 {
        Seq::empty()
    } else {
        entry_claims(plan, entries[0]) + patch_claims(plan, entries.skip(1))
    }
}

/// Whether one patched fixture can be written: its universe is in the
/// layout, its footprint fits at its address, and each of its definitions
/// fits.
pub open spec fn entry_fits(plan: Seq<crate::plan::AttributeSlot>, layout: Seq<UniverseId>, e: (Fixture, FixtureType)) -> bool {
    &&& layout.contains(e.0.universe)
    &&& crate::fixture::last_address_spec(e.0.address, e.1.footprint) is Some
    &&& forall|k: int| 0 <= k < e.1.attributes@.len() ==> def_fits(plan, e.0, e.1.footprint, #[trigger] e.1.attributes@[k])
}

/// Whether a patch gives a channel plan: every fixture can be written and no
/// two definitions claim one slot.
pub open spec fn channel_patch_accepted(
    plan: Seq<crate::plan::AttributeSlot>,
    layout: Seq<UniverseId>,
    entries: Seq<(Fixture, FixtureType)>,
) -> bool {
    &&& forall|i: int| 0 <= i < entries.len() ==> entry_fits(plan, layout, #[trigger] entries[i])
    &&& patch_claims(plan, entries).no_duplicates()
}

/// Two lists put end to end repeat nothing exactly when neither does and they
/// share nothing.
proof fn lemma_no_duplicates_append(a: Seq<int>, b: Seq<int>)
    ensures
        (a + b).no_duplicates() <==> (a.no_duplicates() && b.no_duplicates() && forall|k: int|
            0 <= k < b.len() ==> !a.contains(#[trigger] b[k])),
{
    let c = a + b;
    if c.no_duplicates() {
        assert forall|i: int, j: int| 0 <= i < a.len() && 0 <= j < a.len() && i != j implies a[i] != a[j] by {
            assert(c[i] == a[i] && c[j] == a[j]);
        }
        assert forall|i: int, j: int| 0 <= i < b.len() && 0 <= j < b.len() && i != j implies b[i] != b[j] by {
            assert(c[a.len() + i] == b[i] && c[a.len() + j] == b[j]);
        }
        assert forall|k: int| 0 <= k < b.len() implies !a.contains(#[trigger] b[k]) by {
            if a.contains(b[k]) {
                let w = choose|w: int| 0 <= w < a.len() && a[w] == b[k];
                assert(c[w] == c[a.len() + k]);
            }
        }
    }
    if a.no_duplicates() && b.no_duplicates() && forall|k: int| 0 <= k < b.len() ==> !a.contains(#[trigger] b[k]) {
        assert forall|i: int, j: int| 0 <= i < c.len() && 0 <= j < c.len() && i != j implies c[i] != c[j] by {
            if i < a.len() && j < a.len() {
            } else if i >= a.len() && j >= a.len() {
                assert(c[i] == b[i - a.len()] && c[j] == b[j - a.len()]);
            } else if i < a.len() {
                assert(c[j] == b[j - a.len()]);
                assert(!a.contains(b[j - a.len()]));
                assert(a[i] == c[i]);
            } else {
                assert(c[i] == b[i - a.len()]);
                assert(!a.contains(b[i - a.len()]));
                assert(a[j] == c[j]);
            }
        }
    }
}

/// Walking a fixture's definitions succeeds exactly when each fits and their
/// slots are distinct and unclaimed; the slots are then claimed.
#[verifier::spinoff_prover]
proof fn lemma_fold_targets_ok(
    plan: Seq<crate::plan::AttributeSlot>,
    fixture: Fixture,
    footprint: u16,
    base: int,
    defs: Seq<AttributeDef>,
    claimed: Set<int>,
    acc: Seq<ChannelTarget>,
)
    ensures
        fold_targets(plan, fixture, footprint, base, defs, claimed, acc) is Ok <==> ({
            &&& forall|k: int| 0 <= k < defs.len() ==> def_fits(plan, fixture, footprint, #[trigger] defs[k])
            &&& def_claims(plan, fixture, defs).no_duplicates()
            &&& forall|k: int| 0 <= k < defs.len() ==> !claimed.contains(#[trigger] def_claims(plan, fixture, defs)[k])
        }),
        fold_targets(plan, fixture, footprint, base, defs, claimed, acc) is Ok ==> fold_targets(
            plan,
            fixture,
            footprint,
            base,
            defs,
            claimed,
            acc,
        )->Ok_0.1 == claimed + def_claims(plan, fixture, defs).to_set(),
    decreases defs.len(),
{
    let cs = def_claims(plan, fixture, defs);
    if defs.len() == 0 {
        assert(cs.to_set() =~= Set::empty());
        assert(claimed + cs.to_set() =~= claimed);
    } else {
        let d = defs[0];
        let rest = defs.skip(1);
        let c0 = def_claim(plan, fixture, d);
        let rs = def_claims(plan, fixture, rest);
        assert(cs =~= seq![c0] + rs);
        assert(cs[0] == c0);
        lemma_no_duplicates_append(seq![c0], rs);
        if def_fits(plan, fixture, footprint, d) && !claimed.contains(c0) {
            let more = claimed.insert(c0);
            lemma_fold_targets_ok(plan, fixture, footprint, base, rest, more, acc.push(target_of(c0, base, fixture, d)));
            assert forall|k: int| 0 <= k < rest.len() implies rest[k] == defs[k + 1] && rs[k] == cs[k + 1] by {}
            if forall|k: int| 0 <= k < defs.len() ==> def_fits(plan, fixture, footprint, #[trigger] defs[k]) {
                assert forall|k: int| 0 <= k < rest.len() implies def_fits(plan, fixture, footprint, #[trigger] rest[k]) by {
                    assert(def_fits(plan, fixture, footprint, defs[k + 1]));
                }
            }
            if forall|k: int| 0 <= k < rest.len() ==> def_fits(plan, fixture, footprint, #[trigger] rest[k]) {
                assert forall|k: int| 0 <= k < defs.len() implies def_fits(plan, fixture, footprint, #[trigger] defs[k]) by {
                    if k > 0 {
                        assert(def_fits(plan, fixture, footprint, rest[k - 1]));
                    }
                }
            }
            assert((forall|k: int| 0 <= k < defs.len() ==> !claimed.contains(#[trigger] cs[k]))
                && cs.no_duplicates() <==> (forall|k: int| 0 <= k < rest.len() ==> !more.contains(#[trigger] rs[k]))
                && rs.no_duplicates()) by {
                if (forall|k: int| 0 <= k < defs.len() ==> !claimed.contains(#[trigger] cs[k])) && cs.no_duplicates() {
                    assert forall|k: int| 0 <= k < rest.len() implies !more.contains(#[trigger] rs[k]) by {
                        assert(!claimed.contains(cs[k + 1]));
                        assert(!seq![c0].contains(rs[k]));
                    }
                }
                if (forall|k: int| 0 <= k < rest.len() ==> !more.contains(#[trigger] rs[k])) && rs.no_duplicates() {
                    assert forall|k: int| 0 <= k < defs.len() implies !claimed.contains(#[trigger] cs[k]) by {
                        if k > 0 {
                            assert(!more.contains(rs[k - 1]));
                        }
                    }
                    assert forall|k: int| 0 <= k < rs.len() implies !seq![c0].contains(#[trigger] rs[k]) by {
                        assert(!more.contains(rs[k]));
                        if seq![c0].contains(rs[k]) {
                            assert(seq![c0][0] == c0);
                        }
                    }
                }
            }
            if fold_targets(plan, fixture, footprint, base, defs, claimed, acc) is Ok {
                assert(cs.to_set() =~= rs.to_set().insert(c0)) by {
                    assert forall|x: int| cs.to_set().contains(x) implies rs.to_set().insert(c0).contains(x) by {
                        let w = choose|w: int| 0 <= w < cs.len() && cs[w] == x;
                        if w > 0 {
                            assert(rs[w - 1] == x);
                        }
                    }
                    assert forall|x: int| rs.to_set().insert(c0).contains(x) implies cs.to_set().contains(x) by {
                        if x != c0 {
                            let w = choose|w: int| 0 <= w < rs.len() && rs[w] == x;
                            assert(cs[w + 1] == x);
                        }
                    }
                }
                assert(claimed + cs.to_set() =~= more + rs.to_set());
            }
        } else if !def_fits(plan, fixture, footprint, d) {
            assert(!def_fits(plan, fixture, footprint, defs[0]));
        } else {
            assert(claimed.contains(cs[0]));
        }
    }
}


/// Walking the patch succeeds exactly when every fixture can be written and
/// the slots it claims are distinct and unclaimed.
#[verifier::spinoff_prover]
#[verifier::rlimit(40)]
proof fn lemma_fold_fixtures_ok(
    plan: Seq<crate::plan::AttributeSlot>,
    layout: Seq<UniverseId>,
    entries: Seq<(Fixture, FixtureType)>,
    claimed: Set<int>,
    acc: Seq<ChannelTarget>,
)
    ensures
        fold_fixtures(plan, layout, entries, claimed, acc) is Ok <==> ({
            &&& forall|i: int| 0 <= i < entries.len() ==> entry_fits(plan, layout, #[trigger] entries[i])
            &&& patch_claims(plan, entries).no_duplicates()
            &&& forall|k: int|
                0 <= k < patch_claims(plan, entries).len() ==> !claimed.contains(
                    #[trigger] patch_claims(plan, entries)[k],
                )
        }),
    decreases entries.len(),
{
    if entries.len() > 0 {
        let e = entries[0];
        let (fixture, fixture_type) = e;
        let rest = entries.skip(1);
        let own = entry_claims(plan, e);
        let later = patch_claims(plan, rest);
        let all = patch_claims(plan, entries);
        assert(all == own + later);
        lemma_no_duplicates_append(own, later);
        assert forall|i: int| 0 <= i < rest.len() implies rest[i] == entries[i + 1] by {}
        assert forall|k: int| 0 <= k < own.len() implies all[k] == own[k] by {}
        assert forall|k: int| 0 <= k < later.len() implies all[own.len() + k] == later[k] by {}
        let fits_all = forall|i: int| 0 <= i < entries.len() ==> entry_fits(plan, layout, #[trigger] entries[i]);
        let fits_rest = forall|i: int| 0 <= i < rest.len() ==> entry_fits(plan, layout, #[trigger] rest[i]);
        assert(fits_all <==> entry_fits(plan, layout, e) && fits_rest) by {
            if fits_all {
                assert forall|i: int| 0 <= i < rest.len() implies entry_fits(plan, layout, #[trigger] rest[i]) by {
                    assert(entry_fits(plan, layout, entries[i + 1]));
                }
            }
            if entry_fits(plan, layout, e) && fits_rest {
                assert forall|i: int| 0 <= i < entries.len() implies entry_fits(plan, layout, #[trigger] entries[i]) by {
                    if i > 0 {
                        assert(entry_fits(plan, layout, rest[i - 1]));
                    }
                }
            }
        }
        if layout.contains(fixture.universe) && crate::fixture::last_address_spec(fixture.address, fixture_type.footprint) is Some {
            let position = layout_index(layout, fixture.universe)->0;
            let base = position * 512 + fixture.address - 1;
            let defs = fixture_type.attributes@;
            lemma_fold_targets_ok(plan, fixture, fixture_type.footprint, base, defs, claimed, acc);
            let defs_fit = forall|k: int| 0 <= k < defs.len() ==> def_fits(plan, fixture, fixture_type.footprint, #[trigger] defs[k]);
            assert(entry_fits(plan, layout, e) <==> defs_fit);
            if fold_targets(plan, fixture, fixture_type.footprint, base, defs, claimed, acc) is Ok {
                let (next, now_claimed) = fold_targets(plan, fixture, fixture_type.footprint, base, defs, claimed, acc)->Ok_0;
                assert(now_claimed == claimed + own.to_set());
                lemma_fold_fixtures_ok(plan, layout, rest, now_claimed, next);
                let fresh_all = forall|k: int| 0 <= k < all.len() ==> !claimed.contains(#[trigger] all[k]);
                let fresh_later = forall|k: int| 0 <= k < later.len() ==> !now_claimed.contains(#[trigger] later[k]);
                let fresh_own = forall|k: int| 0 <= k < own.len() ==> !claimed.contains(#[trigger] own[k]);
                let apart = forall|k: int| 0 <= k < later.len() ==> !own.contains(#[trigger] later[k]);
                assert(fresh_later <==> (forall|k: int| 0 <= k < later.len() ==> !claimed.contains(#[trigger] later[k])) && apart) by {
                    if fresh_later {
                        assert forall|k: int| 0 <= k < later.len() implies !own.contains(#[trigger] later[k]) by {
                            assert(!now_claimed.contains(later[k]));
                            if own.contains(later[k]) {
                                assert(own.to_set().contains(later[k]));
                            }
                        }
                    }
                    if (forall|k: int| 0 <= k < later.len() ==> !claimed.contains(#[trigger] later[k])) && apart {
                        assert forall|k: int| 0 <= k < later.len() implies !now_claimed.contains(#[trigger] later[k]) by {
                            assert(!own.contains(later[k]));
                            assert(!claimed.contains(later[k]));
                        }
                    }
                }
                assert(fresh_all <==> fresh_own && (forall|k: int| 0 <= k < later.len() ==> !claimed.contains(#[trigger] later[k]))) by {
                    if fresh_all {
                        assert forall|k: int| 0 <= k < own.len() implies !claimed.contains(#[trigger] own[k]) by {
                            assert(!claimed.contains(all[k]));
                        }
                        assert forall|k: int| 0 <= k < later.len() implies !claimed.contains(#[trigger] later[k]) by {
                            assert(!claimed.contains(all[own.len() + k]));
                        }
                    }
                    if fresh_own && (forall|k: int| 0 <= k < later.len() ==> !claimed.contains(#[trigger] later[k])) {
                        assert forall|k: int| 0 <= k < all.len() implies !claimed.contains(#[trigger] all[k]) by {
                            if k < own.len() {
                                assert(!claimed.contains(own[k]));
                            } else {
                                assert(all[k] == later[k - own.len()]);
                                assert(!claimed.contains(later[k - own.len()]));
                            }
                        }
                    }
                }
            } else {
                if !defs_fit {
                    assert(!entry_fits(plan, layout, entries[0]));
                } else if !own.no_duplicates() {
                } else {
                    let k = choose|k: int| 0 <= k < defs.len() && claimed.contains(#[trigger] def_claims(plan, fixture, defs)[k]);
                    assert(claimed.contains(all[k]));
                }
            }
        } else {
            assert(!entry_fits(plan, layout, entries[0]));
            if layout.contains(fixture.universe) {
                assert(layout_index(layout, fixture.universe) is Some);
            }
        }
    }
}

/// A patch gives a channel plan exactly when every fixture's universe is in
/// the layout, its footprint fits at its address, each definition has a slot
/// in the plan and lies inside the footprint, and no two definitions claim
/// one slot.
pub proof fn law_a_patch_gives_a_channel_plan_exactly_when_every_fixture_fits(
    plan: Seq<crate::plan::AttributeSlot>,
    layout: Seq<UniverseId>,
    entries: Seq<(Fixture, FixtureType)>,
)
    ensures
        fold_fixtures(plan, layout, entries, Set::empty(), Seq::empty()) is Ok <==> channel_patch_accepted(
            plan,
            layout,
            entries,
        ),
{
    lemma_fold_fixtures_ok(plan, layout, entries, Set::empty(), Seq::empty());
}


/// The slots a patch claims, gathered from the right.
proof fn lemma_patch_claims_fold(plan: Seq<crate::plan::AttributeSlot>, entries: Seq<(Fixture, FixtureType)>)
    ensures
        patch_claims(plan, entries).to_multiset() == entries.fold_right(
            |e: (Fixture, FixtureType), m: Multiset<int>| entry_claims(plan, e).to_multiset().add(m),
            Multiset::empty(),
        ),
    decreases entries.len(),
{
    broadcast use vstd::seq_lib::group_to_multiset_ensures;

    let f = |e: (Fixture, FixtureType), m: Multiset<int>| entry_claims(plan, e).to_multiset().add(m);
    entries.lemma_fold_right_alt(f, Multiset::empty());
    if entries.len() == 0 {
        assert(patch_claims(plan, entries).to_multiset() =~= Multiset::empty());
    } else {
        lemma_patch_claims_fold(plan, entries.skip(1));
        entries.skip(1).lemma_fold_right_alt(f, Multiset::empty());
        assert(entries.skip(1) == entries.subrange(1, entries.len() as int));
        vstd::seq_lib::lemma_multiset_commutative(entry_claims(plan, entries[0]), patch_claims(plan, entries.skip(1)));
    }
}

/// A patch listed in another order gives a channel plan too, with the same
/// targets, which a build orders by slot into the same list
/// ([`crate::sorted::lemma_sorted_by_contents`]).
pub proof fn law_a_patch_listed_in_another_order_gives_a_channel_plan_too(
    plan: Seq<crate::plan::AttributeSlot>,
    layout: Seq<UniverseId>,
    first: Seq<(Fixture, FixtureType)>,
    second: Seq<(Fixture, FixtureType)>,
)
    requires
        first.to_multiset() == second.to_multiset(),
        fold_fixtures(plan, layout, first, Set::empty(), Seq::empty()) is Ok,
    ensures
        fold_fixtures(plan, layout, second, Set::empty(), Seq::empty()) is Ok,
        fold_fixtures(plan, layout, second, Set::empty(), Seq::empty())->Ok_0.to_set() == fold_fixtures(
            plan,
            layout,
            first,
            Set::empty(),
            Seq::empty(),
        )->Ok_0.to_set(),
{
    broadcast use vstd::seq_lib::group_to_multiset_ensures;

    lemma_fold_fixtures_ok(plan, layout, first, Set::empty(), Seq::empty());
    lemma_fold_fixtures_ok(plan, layout, second, Set::empty(), Seq::empty());
    assert forall|x: (Fixture, FixtureType)| second.contains(x) <==> first.contains(x) by {
        assert(second.contains(x) <==> second.to_multiset().count(x) > 0);
        assert(first.contains(x) <==> first.to_multiset().count(x) > 0);
    }
    assert forall|i: int| 0 <= i < second.len() implies entry_fits(plan, layout, #[trigger] second[i]) by {
        assert(second.contains(second[i]));
        let a = choose|a: int| 0 <= a < first.len() && first[a] == second[i];
        assert(entry_fits(plan, layout, first[a]));
    }
    let f = |e: (Fixture, FixtureType), m: Multiset<int>| entry_claims(plan, e).to_multiset().add(m);
    assert(vstd::seq_lib::commutative_foldr(f)) by {
        broadcast use vstd::multiset::group_multiset_axioms;

        assert forall|x: (Fixture, FixtureType), y: (Fixture, FixtureType), v: Multiset<int>| #[trigger] f(x, f(y, v)) == f(y, f(x, v)) by {
            assert(f(x, f(y, v)) =~= f(y, f(x, v)));
        }
    }
    vstd::seq_lib::lemma_fold_right_permutation(first, second, f, Multiset::empty());
    lemma_patch_claims_fold(plan, first);
    lemma_patch_claims_fold(plan, second);
    let a = patch_claims(plan, first);
    let b = patch_claims(plan, second);
    a.lemma_multiset_has_no_duplicates();
    b.lemma_multiset_has_no_duplicates_conv();
    lemma_fold_fixtures_set(plan, layout, first, Set::empty(), Seq::empty());
    lemma_fold_fixtures_set(plan, layout, second, Set::empty(), Seq::empty());
    let ft = fold_fixtures(plan, layout, first, Set::empty(), Seq::empty())->Ok_0;
    let st = fold_fixtures(plan, layout, second, Set::empty(), Seq::empty())->Ok_0;
    assert forall|t: ChannelTarget| st.to_set().contains(t) <==> ft.to_set().contains(t) by {
        assert(!Seq::<ChannelTarget>::empty().to_set().contains(t));
        if exists|i: int| 0 <= i < first.len() && #[trigger] entry_targets(plan, layout, first[i]).contains(t) {
            let i = choose|i: int| 0 <= i < first.len() && #[trigger] entry_targets(plan, layout, first[i]).contains(t);
            assert(first.contains(first[i]));
            let j = choose|j: int| 0 <= j < second.len() && second[j] == first[i];
            assert(entry_targets(plan, layout, second[j]).contains(t));
        }
        if exists|i: int| 0 <= i < second.len() && #[trigger] entry_targets(plan, layout, second[i]).contains(t) {
            let i = choose|i: int| 0 <= i < second.len() && #[trigger] entry_targets(plan, layout, second[i]).contains(t);
            assert(second.contains(second[i]));
            let j = choose|j: int| 0 <= j < first.len() && first[j] == second[i];
            assert(entry_targets(plan, layout, first[j]).contains(t));
        }
    }
    assert(st.to_set() =~= ft.to_set());
}


/// A target is mirrored by its definition's own invert flag composed, by
/// exclusive or, with the fixture's invert for that axis: a pan target with
/// the fixture's pan invert, a tilt target with the fixture's tilt invert,
/// and any other attribute with neither.
pub proof fn law_a_target_is_inverted_by_its_own_axis(slot: int, base: int, fixture: Fixture, d: AttributeDef)
    ensures
        d.attribute == AttributeType::Pan ==> target_of(slot, base, fixture, d).invert == (d.invert != fixture.invert_pan),
        d.attribute == AttributeType::Tilt ==> target_of(slot, base, fixture, d).invert == (d.invert != fixture.invert_tilt),
        d.attribute != AttributeType::Pan && d.attribute != AttributeType::Tilt ==> target_of(slot, base, fixture, d).invert
            == d.invert,
{
}

} // verus!
