//! The programmer: what the operator has touched but not yet stored.
//!
//! The programmer is **sparse**: an attribute that was never touched is absent,
//! not zero. The merge treats an absent attribute as "let the playbacks decide"
//! and a present one as an absolute override.
//!
//! [`ProgrammerState`] is the operator-facing state; [`ProgrammerLayer`] is
//! what of it reaches the tick, one optional value per merge-plan slot.
use vstd::prelude::*;

use crate::fixture::{AttributeType, FeatureGroup};
use crate::ids::{FixtureId, GroupId, PresetId};
use crate::merge::merge_programmer;
use crate::plan::{key_of, lemma_key_injective, sorted_slots, AttributeSlot, MergePlan};
use crate::sequence::attribute_key;
use crate::sorted::{find_key, lemma_key_unique, lemma_map_of_drop_last, lemma_map_of_index, map_of, remove_key, strictly_sorted, upsert, Keyed};
use crate::text::{decimal, push_decimal};

verus! {

/// Where a programmer value came from.
#[derive(Debug, Clone, Copy, PartialEq, Eq, Structural, PartialOrd, Ord, Hash, Default)]
pub enum ProgrammerValueSource {
    /// Set directly, by encoder or command line.
    #[default]
    Manual,
    /// Applied from a preset, and still linked to it.
    Preset,
    /// Pulled back out of a running playback.
    Recalled,
}

/// What the next press of Clear will do.
///
/// Read off the contents rather than counted: [`ClearStage::Nothing`] is a
/// programmer with nothing in it, and every other stage names the first thing
/// a press would take away. On the wire it is `0`, `1`, `2` or `3`.
#[derive(Debug, Clone, Copy, PartialEq, Eq, Structural, PartialOrd, Ord, Hash, Default)]
pub enum ClearStage {
    /// There is nothing to clear. A press does nothing and the key is dark.
    #[default]
    Nothing,
    /// The next press clears the values and keeps the selection.
    Values,
    /// The values are gone; the next press drops the selection.
    Selection,
    /// Values and selection are gone; the next press puts the feature group
    /// back to where a fresh programmer starts.
    All,
}

/// The wire number of a stage.
pub open spec fn stage_number(stage: ClearStage) -> u8 {
    match stage {
        ClearStage::Nothing => 0,
        ClearStage::Values => 1,
        ClearStage::Selection => 2,
        ClearStage::All => 3,
    }
}

/// The stage a wire number names, or the number refused.
pub open spec fn stage_of_number(value: u8) -> Result<ClearStage, InvalidClearStage> {
    if value == 0 {
        Ok(ClearStage::Nothing)
    } else if value == 1 {
        Ok(ClearStage::Values)
    } else if value == 2 {
        Ok(ClearStage::Selection)
    } else if value == 3 {
        Ok(ClearStage::All)
    } else {
        Err(InvalidClearStage(value))
    }
}

impl ClearStage {
    /// The wire number for this stage.
    pub fn as_u8(self) -> (r: u8)
        ensures
            r == stage_number(self),
    {
        match self {
            ClearStage::Nothing => 0,
            ClearStage::Values => 1,
            ClearStage::Selection => 2,
            ClearStage::All => 3,
        }
    }
}

impl From<ClearStage> for u8 {
    fn from(stage: ClearStage) -> (r: u8) {
        stage.as_u8()
    }
}

impl vstd::std_specs::convert::FromSpecImpl<ClearStage> for u8 {
    open spec fn obeys_from_spec() -> bool {
        true
    }

    open spec fn from_spec(stage: ClearStage) -> u8 {
        stage_number(stage)
    }
}

/// A wire value outside `0..=3` offered as a [`ClearStage`].
#[derive(Debug, Clone, Copy, PartialEq, Eq, Structural)]
pub struct InvalidClearStage(pub u8);

/// The sentence for a refused stage number.
pub open spec fn invalid_stage_text(e: InvalidClearStage) -> Seq<char> {
    "clear stage must be 0, 1, 2 or 3, got "@ + decimal(e.0 as nat)
}

impl InvalidClearStage {
    /// The sentence an operator or a log reads for this refusal.
    pub fn message(&self) -> (r: String)
        ensures
            r@ == invalid_stage_text(*self),
    {
        let mut s = String::new();
        s.append("clear stage must be 0, 1, 2 or 3, got ");
        push_decimal(&mut s, self.0 as u64);
        s
    }
}

impl TryFrom<u8> for ClearStage {
    type Error = InvalidClearStage;

    fn try_from(value: u8) -> (r: Result<ClearStage, InvalidClearStage>) {
        if value == 0 {
            Ok(ClearStage::Nothing)
        } else if value == 1 {
            Ok(ClearStage::Values)
        } else if value == 2 {
            Ok(ClearStage::Selection)
        } else if value == 3 {
            Ok(ClearStage::All)
        } else {
            Err(InvalidClearStage(value))
        }
    }
}

impl vstd::std_specs::convert::TryFromSpecImpl<u8> for ClearStage {
    open spec fn obeys_try_from_spec() -> bool {
        true
    }

    open spec fn try_from_spec(value: u8) -> Result<ClearStage, InvalidClearStage> {
        stage_of_number(value)
    }
}

/// A stage's wire number reads back as that stage, and only `0..=3` read as a
/// stage at all.
pub proof fn law_a_stage_survives_its_wire_number(stage: ClearStage, value: u8)
    ensures
        stage_of_number(stage_number(stage)) == Ok::<ClearStage, InvalidClearStage>(stage),
        stage_of_number(value) is Err <==> value > 3,
{
}

/// One value the operator has set but not yet stored.
#[derive(Debug, Clone, Copy, PartialEq, Eq, Structural)]
pub struct ProgrammerValue {
    /// The value, `0..=65535`.
    pub value: u16,
    /// How it got here.
    pub source: ProgrammerValueSource,
    /// The preset it came from, so a cue stored from the programmer keeps the
    /// reference.
    pub preset_ref: Option<PresetId>,
}

/// One touched value: a fixture, an attribute and what it was set to.
#[derive(Debug, Clone, Copy, PartialEq, Eq, Structural)]
pub struct ProgrammerEntry {
    /// The fixture the value belongs to.
    pub fixture: FixtureId,
    /// The attribute that was touched.
    pub attribute: AttributeType,
    /// The value.
    pub value: ProgrammerValue,
}

impl Keyed for ProgrammerEntry {
    open spec fn key_spec(&self) -> int {
        key_of(self.fixture, self.attribute)
    }

    fn key(&self) -> (r: u64) {
        attribute_key(self.fixture, self.attribute)
    }
}

/// The value a list of touched values holds for one fixture and attribute.
pub open spec fn touched(values: Seq<ProgrammerEntry>, fixture: FixtureId, attribute: AttributeType) -> Option<ProgrammerValue> {
    let k = key_of(fixture, attribute);
    if map_of(values).contains_key(k) {
        Some(map_of(values)[k].value)
    } else {
        None
    }
}

/// The programmer: the selection, where it came from, and the sparse set of
/// touched values.
#[derive(Debug, Clone, PartialEq)]
pub struct ProgrammerState {
    /// Selected fixtures, in selection order.
    pub selection: Vec<FixtureId>,
    /// Which groups are on, in the order they were pressed.
    pub selected_groups: Vec<GroupId>,
    /// The fixtures picked directly rather than through a group.
    pub manual_selection: Vec<FixtureId>,
    /// The encoder bank the operator is working in.
    pub active_feature_group: FeatureGroup,
    /// Touched values, one entry per fixture and attribute, in fixture then
    /// attribute order. Absent means untouched.
    pub values: Vec<ProgrammerEntry>,
    /// What the next press of Clear will do, as [`ProgrammerState::restage`]
    /// last worked it out.
    pub clear_stage: ClearStage,
}

/// What the next press of Clear would take away: values before selection, and
/// the feature group last.
pub open spec fn stage_spec(state: ProgrammerState) -> ClearStage {
    if state.values@.len() != 0 {
        ClearStage::Values
    } else if state.selection@.len() != 0 {
        ClearStage::Selection
    } else if state.active_feature_group == FeatureGroup::Dimmer {
        ClearStage::Nothing
    } else {
        ClearStage::All
    }
}

impl Default for ProgrammerState {
    /// An empty programmer in the intensity bank.
    fn default() -> (r: ProgrammerState)
        ensures
            r.selection@.len() == 0,
            r.selected_groups@.len() == 0,
            r.manual_selection@.len() == 0,
            r.active_feature_group == FeatureGroup::Dimmer,
            r.values@.len() == 0,
            r.clear_stage == ClearStage::Nothing,
            r.wf(),
    {
        ProgrammerState {
            selection: Vec::new(),
            selected_groups: Vec::new(),
            manual_selection: Vec::new(),
            active_feature_group: FeatureGroup::Dimmer,
            values: Vec::new(),
            clear_stage: ClearStage::Nothing,
        }
    }
}

impl ProgrammerState {
    /// The touched values are in fixture then attribute order, one entry each.
    pub open spec fn wf(&self) -> bool {
        strictly_sorted(self.values@)
    }

    /// Whether the operator has touched anything at all.
    pub fn is_empty(&self) -> (r: bool)
        ensures
            r == (self.selection@.len() == 0 && self.values@.len() == 0),
    {
        self.selection.len() == 0 && self.values.len() == 0
    }

    /// Drops the selection and the provenance behind it, together.
    pub fn clear_selection(&mut self)
        ensures
            final(self).selection@.len() == 0,
            final(self).selected_groups@.len() == 0,
            final(self).manual_selection@.len() == 0,
            final(self).active_feature_group == old(self).active_feature_group,
            final(self).values@ == old(self).values@,
            final(self).clear_stage == old(self).clear_stage,
    {
        self.selection.clear();
        self.selected_groups.clear();
        self.manual_selection.clear();
    }

    /// What the next press of Clear would take away.
    pub fn stage(&self) -> (r: ClearStage)
        ensures
            r == stage_spec(*self),
    {
        if self.values.len() != 0 {
            ClearStage::Values
        } else if self.selection.len() != 0 {
            ClearStage::Selection
        } else if self.active_feature_group == FeatureGroup::Dimmer {
            ClearStage::Nothing
        } else {
            ClearStage::All
        }
    }

    /// Brings [`ProgrammerState::clear_stage`] into line with the contents.
    pub fn restage(&mut self)
        ensures
            final(self).clear_stage == stage_spec(*old(self)),
            final(self).selection@ == old(self).selection@,
            final(self).selected_groups@ == old(self).selected_groups@,
            final(self).manual_selection@ == old(self).manual_selection@,
            final(self).active_feature_group == old(self).active_feature_group,
            final(self).values@ == old(self).values@,
    {
        self.clear_stage = self.stage();
    }

    /// The value for one fixture and attribute, if it has been touched.
    pub fn value(&self, fixture: FixtureId, attribute: AttributeType) -> (r: Option<ProgrammerValue>)
        requires
            self.wf(),
        ensures
            r == touched(self.values@, fixture, attribute),
    {
        match find_key(&self.values, attribute_key(fixture, attribute)) {
            Some(i) => {
                proof {
                    lemma_map_of_index(self.values@, i as int);
                }
                Some(self.values[i].value)
            },
            None => None,
        }
    }

    /// Records a touched value, replacing any previous one for the same fixture
    /// and attribute.
    pub fn set_value(&mut self, fixture: FixtureId, attribute: AttributeType, value: ProgrammerValue)
        requires
            old(self).wf(),
        ensures
            final(self).wf(),
            map_of(final(self).values@) == map_of(old(self).values@).insert(
                key_of(fixture, attribute),
                ProgrammerEntry { fixture, attribute, value },
            ),
            final(self).selection@ == old(self).selection@,
            final(self).selected_groups@ == old(self).selected_groups@,
            final(self).manual_selection@ == old(self).manual_selection@,
            final(self).active_feature_group == old(self).active_feature_group,
            final(self).clear_stage == old(self).clear_stage,
    {
        upsert(&mut self.values, ProgrammerEntry { fixture, attribute, value });
    }

    /// Forgets one touched value, returning it.
    pub fn clear_value(&mut self, fixture: FixtureId, attribute: AttributeType) -> (r: Option<ProgrammerValue>)
        requires
            old(self).wf(),
        ensures
            r == touched(old(self).values@, fixture, attribute),
            final(self).wf(),
            map_of(final(self).values@) == map_of(old(self).values@).remove(key_of(fixture, attribute)),
            final(self).selection@ == old(self).selection@,
            final(self).selected_groups@ == old(self).selected_groups@,
            final(self).manual_selection@ == old(self).manual_selection@,
            final(self).active_feature_group == old(self).active_feature_group,
            final(self).clear_stage == old(self).clear_stage,
    {
        let removed = self.value(fixture, attribute);
        remove_key(&mut self.values, attribute_key(fixture, attribute));
        removed
    }
}

/// What a value written to the programmer reads back as: the value set, for
/// that fixture and attribute, and every other fixture and attribute as it was.
pub proof fn law_a_set_value_reads_back(
    before: Seq<ProgrammerEntry>,
    after: Seq<ProgrammerEntry>,
    fixture: FixtureId,
    attribute: AttributeType,
    value: ProgrammerValue,
    other_fixture: FixtureId,
    other_attribute: AttributeType,
)
    requires
        map_of(after) == map_of(before).insert(
            key_of(fixture, attribute),
            ProgrammerEntry { fixture, attribute, value },
        ),
    ensures
        touched(after, fixture, attribute) == Some(value),
        !(other_fixture == fixture && other_attribute == attribute) ==> touched(after, other_fixture, other_attribute)
            == touched(before, other_fixture, other_attribute),
{
    if !(other_fixture == fixture && other_attribute == attribute) {
        if key_of(other_fixture, other_attribute) == key_of(fixture, attribute) {
            lemma_key_injective(other_fixture, other_attribute, fixture, attribute);
        }
    }
}

/// What clearing one value leaves: that fixture and attribute untouched, and
/// every other as it was.
pub proof fn law_a_cleared_value_is_untouched(
    before: Seq<ProgrammerEntry>,
    after: Seq<ProgrammerEntry>,
    fixture: FixtureId,
    attribute: AttributeType,
    other_fixture: FixtureId,
    other_attribute: AttributeType,
)
    requires
        map_of(after) == map_of(before).remove(key_of(fixture, attribute)),
    ensures
        touched(after, fixture, attribute) is None,
        !(other_fixture == fixture && other_attribute == attribute) ==> touched(after, other_fixture, other_attribute)
            == touched(before, other_fixture, other_attribute),
{
    if !(other_fixture == fixture && other_attribute == attribute) {
        if key_of(other_fixture, other_attribute) == key_of(fixture, attribute) {
            lemma_key_injective(other_fixture, other_attribute, fixture, attribute);
        }
    }
}

/// A fixture holds a value after a clear exactly when it held one for some
/// other attribute before: clearing a fixture's last value leaves nothing
/// filed under that fixture.
pub proof fn law_a_fixture_whose_last_value_is_cleared_holds_nothing(
    before: Seq<ProgrammerEntry>,
    after: Seq<ProgrammerEntry>,
    fixture: FixtureId,
    attribute: AttributeType,
    other_fixture: FixtureId,
)
    requires
        map_of(after) == map_of(before).remove(key_of(fixture, attribute)),
    ensures
        (exists|a: AttributeType| #[trigger] touched(after, other_fixture, a) is Some) <==> (exists|a: AttributeType|
            #[trigger] touched(before, other_fixture, a) is Some && !(other_fixture == fixture && a == attribute)),
{
    if exists|a: AttributeType| #[trigger] touched(after, other_fixture, a) is Some {
        let a = choose|a: AttributeType| #[trigger] touched(after, other_fixture, a) is Some;
        law_a_cleared_value_is_untouched(before, after, fixture, attribute, other_fixture, a);
        assert(touched(before, other_fixture, a) is Some && !(other_fixture == fixture && a == attribute));
    }
    if exists|a: AttributeType| #[trigger] touched(before, other_fixture, a) is Some && !(other_fixture == fixture && a == attribute) {
        let a = choose|a: AttributeType| #[trigger] touched(before, other_fixture, a) is Some && !(other_fixture == fixture && a == attribute);
        law_a_cleared_value_is_untouched(before, after, fixture, attribute, other_fixture, a);
        assert(touched(after, other_fixture, a) is Some);
    }
}

/// What the next Clear takes away comes in a fixed order: any touched value
/// first; with none, the selection; with neither, the bank, unless the bank
/// is already the intensity one, when there is nothing left to clear.
pub proof fn law_clear_takes_values_before_the_selection_and_the_bank_last(state: ProgrammerState)
    ensures
        state.values@.len() > 0 ==> stage_spec(state) == ClearStage::Values,
        state.values@.len() == 0 && state.selection@.len() > 0 ==> stage_spec(state) == ClearStage::Selection,
        stage_spec(state) == ClearStage::Nothing <==> (state.values@.len() == 0 && state.selection@.len() == 0
            && state.active_feature_group == FeatureGroup::Dimmer),
        stage_spec(state) == ClearStage::All <==> (state.values@.len() == 0 && state.selection@.len() == 0
            && state.active_feature_group != FeatureGroup::Dimmer),
{
}

/// How many slots hold a programmer value.
pub open spec fn held_count(held: Seq<Option<u16>>) -> nat
    decreases held.len(),
{
    if held.len() == 0 {
        0
    } else {
        held_count(held.drop_last()) + if held.last() is Some {
            1nat
        } else {
            0nat
        }
    }
}

/// A buffer of merged values with the programmer on top: where a slot holds a
/// value that value, and elsewhere the merge as it was.
pub open spec fn programmed(held: Seq<Option<u16>>, values: Seq<u16>) -> Seq<u16> {
    Seq::new(
        values.len(),
        |i: int|
            if i < held.len() && held[i] is Some {
                held[i]->0
            } else {
                values[i]
            },
    )
}

/// Whether a plan has a slot for this fixture and attribute.
pub open spec fn resolves(plan: Seq<AttributeSlot>, fixture: FixtureId, attribute: AttributeType) -> bool {
    exists|i: int| 0 <= i < plan.len() && plan[i].fixture == fixture && plan[i].attribute == attribute
}

/// The slot a plan has for this fixture and attribute.
pub open spec fn slot_index(plan: Seq<AttributeSlot>, fixture: FixtureId, attribute: AttributeType) -> int {
    choose|i: int| 0 <= i < plan.len() && plan[i].fixture == fixture && plan[i].attribute == attribute
}

/// `held` with the entries written into it in order, each at its slot of
/// `plan`; an entry the plan has no slot for, or whose slot lies past the end
/// of `held`, changes nothing.
pub open spec fn loaded(plan: Seq<AttributeSlot>, entries: Seq<ProgrammerEntry>, held: Seq<Option<u16>>) -> Seq<Option<u16>>
    decreases entries.len(),
{
    if entries.len() == 0 {
        held
    } else {
        let before = loaded(plan, entries.drop_last(), held);
        let e = entries.last();
        if resolves(plan, e.fixture, e.attribute) && slot_index(plan, e.fixture, e.attribute) < before.len() {
            before.update(slot_index(plan, e.fixture, e.attribute), Some(e.value.value))
        } else {
            before
        }
    }
}

/// How many entries name a fixture and attribute the plan has no slot for.
pub open spec fn unresolved(plan: Seq<AttributeSlot>, entries: Seq<ProgrammerEntry>) -> nat
    decreases entries.len(),
{
    if entries.len() == 0 {
        0
    } else {
        unresolved(plan, entries.drop_last()) + if resolves(plan, entries.last().fixture, entries.last().attribute) {
            0nat
        } else {
            1nat
        }
    }
}

/// The programmer as the tick holds it: one optional value per merge-plan
/// slot. `None` is untouched, which is a different fact from a value of zero.
#[derive(Debug, Clone)]
pub struct ProgrammerLayer {
    values: Vec<Option<u16>>,
}

impl View for ProgrammerLayer {
    type V = Seq<Option<u16>>;

    closed spec fn view(&self) -> Seq<Option<u16>> {
        self.values@
    }
}

impl ProgrammerLayer {
    /// An empty programmer over `plan`: one untouched slot per plan slot.
    pub fn new(plan: &MergePlan) -> (r: ProgrammerLayer)
        ensures
            r@.len() == plan@.len(),
            forall|i: int| 0 <= i < r@.len() ==> r@[i] is None,
    {
        let n = plan.slot_count();
        let mut values: Vec<Option<u16>> = Vec::with_capacity(n);
        let mut i: usize = 0;
        while i < n
            invariant
                0 <= i <= n,
                values@.len() == i,
                forall|k: int| 0 <= k < i ==> values@[k] is None,
            decreases n - i,
        {
            values.push(None);
            i = i + 1;
        }
        ProgrammerLayer { values }
    }

    /// How many slots the layer covers.
    pub fn slot_count(&self) -> (r: usize)
        ensures
            r == self@.len(),
    {
        self.values.len()
    }

    /// The value held for one slot, if any.
    pub fn get(&self, slot: usize) -> (r: Option<u16>)
        ensures
            r == if slot < self@.len() {
                self@[slot as int]
            } else {
                None
            },
    {
        if slot < self.values.len() {
            self.values[slot]
        } else {
            None
        }
    }

    /// How many slots hold a value.
    pub fn len(&self) -> (r: usize)
        ensures
            r == held_count(self@),
    {
        let mut count: usize = 0;
        let mut i: usize = 0;
        while i < self.values.len()
            invariant
                0 <= i <= self.values@.len(),
                count == held_count(self.values@.take(i as int)),
                count <= i,
            decreases self.values@.len() - i,
        {
            proof {
                assert(self.values@.take(i + 1).drop_last() =~= self.values@.take(i as int));
            }
            if self.values[i].is_some() {
                count = count + 1;
            }
            i = i + 1;
        }
        proof {
            assert(self.values@.take(i as int) =~= self.values@);
        }
        count
    }

    /// Whether no slot holds a value.
    pub fn is_empty(&self) -> (r: bool)
        ensures
            r == (held_count(self@) == 0),
    {
        self.len() == 0
    }

    /// Holds `value` in `slot`, overriding every playback there. A slot past
    /// the end of the plan is ignored.
    pub fn set(&mut self, slot: usize, value: u16)
        ensures
            final(self)@ == if slot < old(self)@.len() {
                old(self)@.update(slot as int, Some(value))
            } else {
                old(self)@
            },
    {
        if slot < self.values.len() {
            self.values.set(slot, Some(value));
        }
    }

    /// Lets go of one slot, so the playbacks decide it again. A slot past the
    /// end of the plan is ignored.
    pub fn clear(&mut self, slot: usize)
        ensures
            final(self)@ == if slot < old(self)@.len() {
                old(self)@.update(slot as int, None)
            } else {
                old(self)@
            },
    {
        if slot < self.values.len() {
            self.values.set(slot, None);
        }
    }

    /// Lets go of every slot.
    pub fn clear_all(&mut self)
        ensures
            final(self)@.len() == old(self)@.len(),
            forall|i: int| 0 <= i < final(self)@.len() ==> final(self)@[i] is None,
    {
        let n = self.values.len();
        let mut i: usize = 0;
        while i < n
            invariant
                0 <= i <= n,
                n == self.values@.len(),
                forall|k: int| 0 <= k < i ==> self.values@[k] is None,
            decreases n - i,
        {
            self.values.set(i, None);
            i = i + 1;
        }
    }

    /// Puts the programmer on top of a buffer of merged values. A buffer
    /// shorter than the layer is filled as far as it goes.
    pub fn apply(&self, values: &mut [u16])
        ensures
            final(values)@ == programmed(self@, old(values)@),
    {
        let n = if self.values.len() < values.len() {
            self.values.len()
        } else {
            values.len()
        };
        let mut i: usize = 0;
        while i < n
            invariant
                0 <= i <= n,
                n <= self.values@.len(),
                n <= values@.len(),
                values@.len() == old(values)@.len(),
                forall|k: int| 0 <= k < i ==> values@[k] == programmed(self.values@, old(values)@)[k],
                forall|k: int| i <= k < values@.len() ==> values@[k] == old(values)@[k],
            decreases n - i,
        {
            let merged = values[i];
            values[i] = merge_programmer(merged, self.values[i]);
            i = i + 1;
        }
        proof {
            assert(values@ =~= programmed(self.values@, old(values)@));
        }
    }

    /// Replaces the programmer with an operator-facing state resolved against
    /// `plan`, returning how many of its entries named a fixture and attribute
    /// the plan does not have.
    pub fn load(&mut self, plan: &MergePlan, state: &ProgrammerState) -> (r: usize)
        ensures
            final(self)@ == loaded(plan@, state.values@, Seq::new(old(self)@.len(), |i: int| None::<u16>)),
            r == unresolved(plan@, state.values@),
    {
        self.clear_all();
        let ghost start = self.values@;
        proof {
            assert(start =~= Seq::new(old(self)@.len(), |i: int| None::<u16>));
        }
        let slots = plan.slots();
        let mut missing: usize = 0;
        let mut e: usize = 0;
        while e < state.values.len()
            invariant
                0 <= e <= state.values@.len(),
                slots@ == plan@,
                sorted_slots(plan@),
                self.values@ == loaded(plan@, state.values@.take(e as int), start),
                missing == unresolved(plan@, state.values@.take(e as int)),
                missing <= e,
            decreases state.values@.len() - e,
        {
            let entry = state.values[e];
            let ghost before = state.values@.take(e as int);
            proof {
                assert(state.values@.take(e + 1).drop_last() =~= before);
                assert(state.values@.take(e + 1).last() == entry);
            }
            match plan.index_of(entry.fixture, entry.attribute) {
                Some(i) => {
                    proof {
                        assert(resolves(plan@, entry.fixture, entry.attribute));
                        let j = slot_index(plan@, entry.fixture, entry.attribute);
                        lemma_key_unique(plan@, i as int, j);
                    }
                    self.set(i, entry.value.value);
                },
                None => {
                    missing = missing + 1;
                },
            }
            e = e + 1;
        }
        proof {
            assert(state.values@.take(e as int) =~= state.values@);
        }
        missing
    }
}

/// A state loaded over a patch holds, in each slot, the value the state has
/// touched for that slot's fixture and attribute, and nothing where the state
/// has touched nothing.
pub proof fn law_a_loaded_programmer_holds_each_touched_value(
    plan: Seq<AttributeSlot>,
    entries: Seq<ProgrammerEntry>,
    slot: int,
)
    requires
        sorted_slots(plan),
        strictly_sorted(entries),
        0 <= slot < plan.len(),
    ensures
        loaded(plan, entries, Seq::new(plan.len(), |i: int| None::<u16>))[slot] == match touched(
            entries,
            plan[slot].fixture,
            plan[slot].attribute,
        ) {
            Some(v) => Some(v.value),
            None => None::<u16>,
        },
    decreases entries.len(),
{
    let empty = Seq::new(plan.len(), |i: int| None::<u16>);
    lemma_loaded_len(plan, entries, empty);
    if entries.len() == 0 {
        assert(!map_of(entries).contains_key(key_of(plan[slot].fixture, plan[slot].attribute)));
    } else {
        let rest = entries.drop_last();
        let e = entries.last();
        lemma_map_of_drop_last(entries);
        law_a_loaded_programmer_holds_each_touched_value(plan, rest, slot);
        lemma_loaded_len(plan, rest, empty);
        let f = plan[slot].fixture;
        let a = plan[slot].attribute;
        if e.fixture == f && e.attribute == a {
            assert(resolves(plan, f, a));
            let j = slot_index(plan, f, a);
            lemma_key_unique(plan, slot, j);
        } else {
            lemma_key_injective(e.fixture, e.attribute, f, a);
            if resolves(plan, e.fixture, e.attribute) {
                let j = slot_index(plan, e.fixture, e.attribute);
                assert(j != slot);
            }
        }
    }
}

/// Loading keeps the length of what it loads into.
pub proof fn lemma_loaded_len(plan: Seq<AttributeSlot>, entries: Seq<ProgrammerEntry>, held: Seq<Option<u16>>)
    ensures
        loaded(plan, entries, held).len() == held.len(),
    decreases entries.len(),
{
    if entries.len() > 0 {
        lemma_loaded_len(plan, entries.drop_last(), held);
    }
}

} // verus!
