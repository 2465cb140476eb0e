//! The home layer: the patch flattened into one slot per fixture and
//! attribute, ordered by fixture and then attribute, each carrying its merge
//! mode, its feature group and its home value.
use vstd::prelude::*;
use vstd::string::StringExecFns;

use crate::fixture::{
    attribute_code, attribute_name, AttributeDef, AttributeType, FeatureGroup, FixtureType,
    MergeMode,
};
use crate::ids::FixtureId;
use crate::sorted::{insert_sorted, strictly_sorted, Keyed};
use crate::text::{decimal, push_decimal, text_of};

verus! {

/// Upper bound on attributes in one plan.
pub const MAX_SLOTS: usize = 65536;

/// Upper bound on playback sources in one layer.
pub const MAX_SOURCES: usize = 1024;

/// Why a patch cannot be merged.
#[derive(Debug, Clone, Copy, PartialEq, Eq)]
pub enum MergeError {
    /// The same fixture number was patched twice.
    DuplicateFixture(FixtureId),
    /// A fixture type defines one attribute twice.
    DuplicateAttribute {
        /// The fixture the type was patched as.
        fixture: FixtureId,
        /// The attribute defined twice.
        attribute: AttributeType,
    },
    /// More attributes than [`MAX_SLOTS`]; carries the count the build had
    /// reached when it stopped, one past the limit.
    TooManySlots(usize),
    /// More playback sources than [`MAX_SOURCES`].
    TooManySources(usize),
}

/// What a refused patch is told, in words.
pub open spec fn merge_error_text(e: MergeError) -> Seq<char> {
    match e {
        MergeError::DuplicateFixture(id) => "fixture "@ + decimal(id.0 as nat) + " is patched twice"@,
        MergeError::DuplicateAttribute { fixture, attribute } => "fixture "@ + decimal(
            fixture.0 as nat,
        ) + " defines the attribute "@ + attribute_name(attribute) + " twice"@,
        MergeError::TooManySlots(count) => decimal(count as nat)
            + " attributes exceeds the limit of 65536"@,
        MergeError::TooManySources(count) => decimal(count as nat)
            + " playback sources exceeds the limit of 1024"@,
    }
}

impl MergeError {
    /// The sentence an operator reads for this refusal.
    pub fn message(&self) -> (r: String)
        ensures
            r@ == merge_error_text(*self),
    {
        match *self {
            MergeError::DuplicateFixture(id) => {
                let mut s = text_of("fixture ");
                push_decimal(&mut s, id.0 as u64);
                s.append(" is patched twice");
                s
            },
            MergeError::DuplicateAttribute { fixture, attribute } => {
                let mut s = text_of("fixture ");
                push_decimal(&mut s, fixture.0 as u64);
                s.append(" defines the attribute ");
                s.append(attribute.name());
                s.append(" twice");
                s
            },
            MergeError::TooManySlots(count) => {
                let mut s = String::new();
                push_decimal(&mut s, count as u64);
                s.append(" attributes exceeds the limit of 65536");
                s
            },
            MergeError::TooManySources(count) => {
                let mut s = String::new();
                push_decimal(&mut s, count as u64);
                s.append(" playback sources exceeds the limit of 1024");
                s
            },
        }
    }
}

/// One attribute of one fixture: the unit the merge resolves.
#[derive(Debug, Clone, Copy, PartialEq, Eq)]
pub struct AttributeSlot {
    /// Which fixture.
    pub fixture: FixtureId,
    /// Which attribute of it.
    pub attribute: AttributeType,
    /// How playbacks combine for it — from the attribute definition.
    pub merge_mode: MergeMode,
    /// Which encoder bank the definition files it under.
    pub feature_group: FeatureGroup,
    /// The value it takes when no source provides one.
    pub home: u16,
}

/// The order key of a slot: fixture number, then attribute order.
pub open spec fn key_of(fixture: FixtureId, attribute: AttributeType) -> int {
    fixture.0 as int * 65536 + attribute_code(attribute) as int
}

/// The order key of a slot.
pub open spec fn slot_key(s: AttributeSlot) -> int {
    key_of(s.fixture, s.attribute)
}

/// Keys strictly increasing.
pub open spec fn sorted_slots(s: Seq<AttributeSlot>) -> bool {
    strictly_sorted(s)
}

impl Keyed for AttributeSlot {
    open spec fn key_spec(&self) -> int {
        slot_key(*self)
    }

    fn key(&self) -> (r: u64) {
        self.fixture.0 as u64 * 65536 + self.attribute.code() as u64
    }
}

/// A key fits in 48 bits.
pub proof fn lemma_key_bounded(fixture: FixtureId, attribute: AttributeType)
    ensures
        0 <= key_of(fixture, attribute) < 0x1_0000_0000_0000,
{
    assert(attribute_code(attribute) < 65536);
    assert(fixture.0 as int * 65536 <= 0xffff_ffff * 65536) by (nonlinear_arith)
        requires
            fixture.0 <= 0xffff_ffff,
    ;
}

/// Two keys are equal exactly when fixture and attribute are.
pub proof fn lemma_key_injective(f1: FixtureId, a1: AttributeType, f2: FixtureId, a2: AttributeType)
    ensures
        key_of(f1, a1) == key_of(f2, a2) <==> (f1 == f2 && a1 == a2),
{
    assert(attribute_code(a1) < 65536);
    assert(attribute_code(a2) < 65536);
    if key_of(f1, a1) == key_of(f2, a2) {
        assert(f1.0 == f2.0) by (nonlinear_arith)
            requires
                f1.0 as int * 65536 + attribute_code(a1) as int == f2.0 as int * 65536
                    + attribute_code(a2) as int,
                0 <= attribute_code(a1) < 65536,
                0 <= attribute_code(a2) < 65536,
        ;
        crate::fixture::lemma_attribute_code_injective(a1, a2);
    }
}

impl AttributeSlot {
    /// Whether the masters may scale this slot: the definition files it under
    /// the intensity bank. Not its name and not its merge mode.
    pub open spec fn is_intensity_spec(&self) -> bool {
        self.feature_group == FeatureGroup::Dimmer
    }

    /// See [`Self::is_intensity_spec`].
    pub fn is_intensity(&self) -> (r: bool)
        ensures
            r == self.is_intensity_spec(),
    {
        self.feature_group == FeatureGroup::Dimmer
    }
}

/// The slot a definition contributes for a fixture.
pub open spec fn def_slot(fixture: FixtureId, d: AttributeDef) -> AttributeSlot {
    AttributeSlot {
        fixture,
        attribute: d.attribute,
        merge_mode: d.merge_mode,
        feature_group: d.feature_group,
        home: d.default_value,
    }
}

/// The intensity slot the desk supplies for a fixture with no dimmer of its
/// own: nought at home, filed under the intensity bank, merged HTP.
pub open spec fn supplied_dimmer(fixture: FixtureId) -> AttributeSlot {
    AttributeSlot {
        fixture,
        attribute: AttributeType::Dimmer,
        merge_mode: MergeMode::Htp,
        feature_group: FeatureGroup::Dimmer,
        home: 0,
    }
}

/// Walks one fixture type's definitions, collecting slots in order and
/// stopping at the first definition that repeats an attribute or would take the
/// plan past [`MAX_SLOTS`].
pub open spec fn fold_defs(
    fixture: FixtureId,
    defs: Seq<AttributeDef>,
    defined: Set<AttributeType>,
    acc: Seq<AttributeSlot>,
) -> Result<Seq<AttributeSlot>, MergeError>
    decreases defs.len(),
{
    if defs.len() == 0 {
        Ok(acc)
    } else if defined.contains(defs[0].attribute) {
        Err(MergeError::DuplicateAttribute { fixture, attribute: defs[0].attribute })
    } else if acc.len() >= MAX_SLOTS {
        Err(MergeError::TooManySlots((MAX_SLOTS + 1) as usize))
    } else {
        fold_defs(
            fixture,
            defs.skip(1),
            defined.insert(defs[0].attribute),
            acc.push(def_slot(fixture, defs[0])),
        )
    }
}

/// One patched fixture: its number, the type it instantiates, and whether the
/// desk supplies its intensity.
pub type PlanEntry<'a> = (FixtureId, &'a FixtureType, bool);

/// Walks the patch in order, collecting every slot and stopping at the first
/// refusal.
pub open spec fn fold_entries(
    entries: Seq<(FixtureId, FixtureType, bool)>,
    patched: Set<FixtureId>,
    acc: Seq<AttributeSlot>,
) -> Result<Seq<AttributeSlot>, MergeError>
    decreases entries.len(),
{
    if entries.len() == 0 {
        Ok(acc)
    } else {
        let (fixture, fixture_type, software_dimmer) = entries[0];
        if patched.contains(fixture) {
            Err(MergeError::DuplicateFixture(fixture))
        } else if software_dimmer && acc.len() >= MAX_SLOTS {
            Err(MergeError::TooManySlots((MAX_SLOTS + 1) as usize))
        } else {
            let defined = if software_dimmer {
                Set::empty().insert(AttributeType::Dimmer)
            } else {
                Set::empty()
            };
            let start = if software_dimmer {
                acc.push(supplied_dimmer(fixture))
            } else {
                acc
            };
            match fold_defs(fixture, fixture_type.attributes@, defined, start) {
                Ok(next) => fold_entries(entries.skip(1), patched.insert(fixture), next),
                Err(e) => Err(e),
            }
        }
    }
}

/// What a patch flattens to, before it is ordered: every slot in patch order,
/// or the first refusal.
pub open spec fn collect_slots(entries: Seq<(FixtureId, FixtureType, bool)>) -> Result<
    Seq<AttributeSlot>,
    MergeError,
> {
    fold_entries(entries, Set::empty(), Seq::empty())
}

/// The entries a build is handed, as values.
pub open spec fn entries_view(fixtures: Seq<PlanEntry>) -> Seq<(FixtureId, FixtureType, bool)> {
    fixtures.map_values(|e: PlanEntry| (e.0, *e.1, e.2))
}

/// The flattened patch the merge resolves against.
///
/// Slots are ordered by fixture and then by attribute, so a plan is a function
/// of the patch rather than of the order it was listed in.
#[derive(Debug)]
pub struct MergePlan {
    slots: Vec<AttributeSlot>,
}

impl View for MergePlan {
    type V = Seq<AttributeSlot>;

    closed spec fn view(&self) -> Seq<AttributeSlot> {
        self.slots@
    }
}

impl Clone for MergePlan {
    fn clone(&self) -> (r: Self)
        ensures
            r@ == self@,
    {
        proof {
            use_type_invariant(self);
        }
        let slots = self.slots.clone();
        proof {
            assert(slots@ =~= self.slots@);
        }
        MergePlan { slots }
    }
}

impl MergePlan {
    #[verifier::type_invariant]
    closed spec fn wf(self) -> bool {
        sorted_slots(self.slots@) && self.slots@.len() <= MAX_SLOTS
    }

    /// Flattens a patch into slots.
    ///
    /// Each entry is a patched fixture number, the type it instantiates, and
    /// whether the desk supplies that fixture's intensity — a slot resting at
    /// nought under the intensity bank, ahead of the type's own attributes.
    ///
    /// Refused, with the first refusal in patch order, when a fixture is
    /// patched twice, a type names an attribute twice, or the patch is larger
    /// than [`MAX_SLOTS`].
    pub fn build(fixtures: &[PlanEntry]) -> (r: Result<MergePlan, MergeError>)
        ensures
            match collect_slots(entries_view(fixtures@)) {
                Ok(collected) => r matches Ok(plan) && sorted_slots(plan@) && plan@.to_set()
                    == collected.to_set() && plan@.len() == collected.len(),
                Err(e) => r == Err::<MergePlan, MergeError>(e),
            },
    {
        let ghost entries = entries_view(fixtures@);
        let mut slots: Vec<AttributeSlot> = Vec::new();
        let mut patched: Vec<u32> = Vec::new();
        let ghost mut acc: Seq<AttributeSlot> = Seq::empty();
        let ghost mut patched_set: Set<FixtureId> = Set::empty();
        let mut i: usize = 0;
        proof {
            assert(entries.skip(0) =~= entries);
        }
        while i < fixtures.len()
            invariant
                0 <= i <= fixtures.len(),
                entries == entries_view(fixtures@),
                fold_entries(entries, Set::empty(), Seq::empty()) == fold_entries(
                    entries.skip(i as int),
                    patched_set,
                    acc,
                ),
                forall|f: FixtureId| patched_set.contains(f) <==> patched@.contains(f.0),
                sorted_slots(slots@),
                slots@.to_set() == acc.to_set(),
                slots@.len() == acc.len(),
                acc.len() <= MAX_SLOTS,
                forall|k: int| 0 <= k < acc.len() ==> patched_set.contains(#[trigger] acc[k].fixture),
            decreases fixtures.len() - i,
        {
            let (fixture, fixture_type, software_dimmer) = fixtures[i];
            let ghost old_patched = patched;
            proof {
                assert(entries.skip(i as int)[0] == (fixture, *fixture_type, software_dimmer));
                assert(entries.skip(i as int).skip(1) =~= entries.skip(i as int + 1));
            }
            if contains_u32(&patched, fixture.0) {
                proof {
                    assert(patched_set.contains(fixture));
                }
                return Err(MergeError::DuplicateFixture(fixture));
            }
            let mut defined: [bool; 24] = [false; 24];
            let ghost mut def_set: Set<AttributeType> = Set::empty();
            let ghost entry_start = acc;
            if software_dimmer {
                if slots.len() == MAX_SLOTS {
                    return Err(MergeError::TooManySlots(MAX_SLOTS + 1));
                }
                defined[0] = true;
                let slot = AttributeSlot {
                    fixture,
                    attribute: AttributeType::Dimmer,
                    merge_mode: AttributeType::Dimmer.default_merge_mode(),
                    feature_group: FeatureGroup::Dimmer,
                    home: 0,
                };
                proof {
                    assert forall|k: int| 0 <= k < acc.len() implies slot_key(
                        #[trigger] acc[k],
                    ) != slot_key(slot) by {
                        lemma_key_injective(acc[k].fixture, acc[k].attribute, fixture, slot.attribute);
                    }
                }
                insert_sorted(&mut slots, slot, Ghost(acc));
                proof {
                    acc = acc.push(slot);
                    def_set = def_set.insert(AttributeType::Dimmer);
                }
            }
            proof {
                assert(def_set == (if software_dimmer {
                    Set::empty().insert(AttributeType::Dimmer)
                } else {
                    Set::<AttributeType>::empty()
                }));
            }
            let defs = &fixture_type.attributes;
            let ghost defs_seq = defs@;
            let mut j: usize = 0;
            proof {
                assert(defs_seq.skip(0) =~= defs_seq);
            }
            while j < defs.len()
                invariant
                    0 <= j <= defs.len(),
                    entries == entries_view(fixtures@),
                    0 <= i < fixtures.len(),
                    entries.skip(i as int)[0] == (fixture, *fixture_type, software_dimmer),
                    entries.skip(i as int).len() > 0,
                    fold_entries(entries, Set::empty(), Seq::empty()) == fold_entries(
                        entries.skip(i as int),
                        patched_set,
                        entry_start,
                    ),
                    software_dimmer ==> entry_start.len() < MAX_SLOTS,
                    forall|f: FixtureId| patched_set.contains(f) <==> patched@.contains(f.0),
                    defs@ == defs_seq,
                    defs_seq == fixture_type.attributes@,
                    fold_defs(
                        fixture,
                        defs_seq,
                        if software_dimmer {
                            Set::empty().insert(AttributeType::Dimmer)
                        } else {
                            Set::<AttributeType>::empty()
                        },
                        if software_dimmer {
                            entry_start.push(supplied_dimmer(fixture))
                        } else {
                            entry_start
                        },
                    ) == fold_defs(fixture, defs_seq.skip(j as int), def_set, acc),
                    forall|a: AttributeType|
                        def_set.contains(a) <==> #[trigger] defined@[attribute_code(a) as int],
                    sorted_slots(slots@),
                    slots@.to_set() == acc.to_set(),
                    slots@.len() == acc.len(),
                    acc.len() <= MAX_SLOTS,
                    !patched_set.contains(fixture),
                    forall|k: int|
                        0 <= k < acc.len() ==> patched_set.contains(#[trigger] acc[k].fixture)
                            || acc[k].fixture == fixture,
                    forall|k: int|
                        0 <= k < acc.len() && acc[k].fixture == fixture ==> def_set.contains(
                            #[trigger] acc[k].attribute,
                        ),
                decreases defs.len() - j,
            {
                let def = defs[j];
                proof {
                    assert(defs_seq.skip(j as int)[0] == def);
                    assert(defs_seq.skip(j as int).skip(1) =~= defs_seq.skip(j as int + 1));
                }
                let code = def.attribute.code() as usize;
                if defined[code] {
                    return Err(
                        MergeError::DuplicateAttribute { fixture, attribute: def.attribute },
                    );
                }
                if slots.len() == MAX_SLOTS {
                    return Err(MergeError::TooManySlots(MAX_SLOTS + 1));
                }
                defined[code] = true;
                let slot = AttributeSlot {
                    fixture,
                    attribute: def.attribute,
                    merge_mode: def.merge_mode,
                    feature_group: def.feature_group,
                    home: def.default_value,
                };
                proof {
                    assert forall|k: int| 0 <= k < acc.len() implies slot_key(
                        #[trigger] acc[k],
                    ) != slot_key(slot) by {
                        lemma_key_injective(acc[k].fixture, acc[k].attribute, fixture, def.attribute);
                    }
                }
                insert_sorted(&mut slots, slot, Ghost(acc));
                proof {
                    acc = acc.push(slot);
                    def_set = def_set.insert(def.attribute);
                    assert forall|a: AttributeType|
                        def_set.contains(a) <==> #[trigger] defined@[attribute_code(a) as int] by {
                        crate::fixture::lemma_attribute_code_injective(a, def.attribute);
                    }
                }
                j = j + 1;
            }
            proof {
                assert(defs_seq.skip(j as int) =~= Seq::<AttributeDef>::empty());
                assert(entries.skip(i as int)[0].1.attributes@ == defs_seq);
                patched_set = patched_set.insert(fixture);
            }
            patched.push(fixture.0);
            proof {
                assert forall|f: FixtureId| patched_set.contains(f) <==> patched@.contains(f.0) by {
                    if f.0 == fixture.0 {
                        assert(patched@[patched@.len() - 1] == fixture.0);
                    }
                    if patched@.contains(f.0) {
                        let w = choose|w: int| 0 <= w < patched@.len() && patched@[w] == f.0;
                        if w < patched@.len() - 1 {
                            assert(old_patched@.contains(f.0)) by {
                                assert(old_patched@[w] == f.0);
                            }
                        }
                    }
                    if old_patched@.contains(f.0) {
                        let w = choose|w: int| 0 <= w < old_patched@.len() && old_patched@[w] == f.0;
                        assert(patched@[w] == f.0);
                    }
                }
            }
            i = i + 1;
        }
        proof {
            assert(entries.skip(i as int) =~= Seq::<(FixtureId, FixtureType, bool)>::empty());
        }
        Ok(MergePlan { slots })
    }

    /// How many attributes this plan resolves.
    pub fn slot_count(&self) -> (r: usize)
        ensures
            r == self@.len(),
            r <= MAX_SLOTS,
    {
        proof {
            use_type_invariant(self);
        }
        self.slots.len()
    }

    /// Whether nothing at all is patched.
    pub fn is_empty(&self) -> (r: bool)
        ensures
            r == (self@.len() == 0),
    {
        self.slots.len() == 0
    }

    /// Every slot, in resolve order.
    pub fn slots(&self) -> (r: &[AttributeSlot])
        ensures
            r@ == self@,
            sorted_slots(self@),
            self@.len() <= MAX_SLOTS,
    {
        proof {
            use_type_invariant(self);
        }
        self.slots.as_slice()
    }

    /// One slot by index.
    pub fn slot(&self, index: usize) -> (r: Option<&AttributeSlot>)
        ensures
            match r {
                Some(s) => index < self@.len() && *s == self@[index as int],
                None => index >= self@.len(),
            },
    {
        if index < self.slots.len() {
            Some(&self.slots[index])
        } else {
            None
        }
    }

    /// The slot index of one attribute of one fixture, if it is patched: a
    /// binary search over the ordered slots.
    pub fn index_of(&self, fixture: FixtureId, attribute: AttributeType) -> (r: Option<usize>)
        ensures
            match r {
                Some(i) => i < self@.len() && self@[i as int].fixture == fixture
                    && self@[i as int].attribute == attribute,
                None => forall|i: int|
                    0 <= i < self@.len() ==> !(self@[i].fixture == fixture && self@[i].attribute
                        == attribute),
            },
    {
        proof {
            use_type_invariant(self);
        }
        let target: u64 = fixture.0 as u64 * 65536 + attribute.code() as u64;
        let mut lo: usize = 0;
        let mut hi: usize = self.slots.len();
        while lo < hi
            invariant
                0 <= lo <= hi <= self.slots@.len(),
                sorted_slots(self.slots@),
                target as int == key_of(fixture, attribute),
                forall|i: int| 0 <= i < lo ==> slot_key(self.slots@[i]) < target,
                forall|i: int| hi <= i < self.slots@.len() ==> slot_key(self.slots@[i]) > target,
            decreases hi - lo,
        {
            let mid = lo + (hi - lo) / 2;
            let k = self.slots[mid].key();
            if k == target {
                proof {
                    lemma_key_injective(
                        self.slots@[mid as int].fixture,
                        self.slots@[mid as int].attribute,
                        fixture,
                        attribute,
                    );
                }
                return Some(mid);
            } else if k < target {
                lo = mid + 1;
            } else {
                hi = mid;
            }
        }
        proof {
            assert forall|i: int|
                0 <= i < self@.len() implies !(self@[i].fixture == fixture && self@[i].attribute
                == attribute) by {
                if self@[i].fixture == fixture && self@[i].attribute == attribute {
                    assert(slot_key(self.slots@[i]) == target);
                }
            }
        }
        None
    }
}

/// Whether a list of numbers holds `x`.
fn contains_u32(v: &Vec<u32>, x: u32) -> (r: bool)
    ensures
        r == v@.contains(x),
{
    let mut i: usize = 0;
    while i < v.len()
        invariant
            0 <= i <= v.len(),
            forall|k: int| 0 <= k < i ==> v@[k] != x,
        decreases v.len() - i,
    {
        if v[i] == x {
            return true;
        }
        i = i + 1;
    }
    false
}

/// A plan is a function of the slots it holds, not of the order the patch
/// arrived in: two ordered plans holding the same slots are the same plan.
pub proof fn law_a_plan_is_a_function_of_its_slots(p: Seq<AttributeSlot>, q: Seq<AttributeSlot>)
    requires
        sorted_slots(p),
        sorted_slots(q),
        p.to_set() == q.to_set(),
    ensures
        p == q,
    decreases p.len(),
{
    if p.len() == 0 {
        if q.len() > 0 {
            assert(q.to_set().contains(q[0]));
        }
        assert(q.len() == 0);
    } else {
        assert(p.to_set().contains(p[0]));
        assert(q.len() > 0) by {
            if q.len() == 0 {
                assert(q.to_set().contains(p[0]));
            }
        }
        assert(q.to_set().contains(q[0]));
        let j = choose|j: int| 0 <= j < q.len() && q[j] == p[0];
        let k = choose|k: int| 0 <= k < p.len() && p[k] == q[0];
        if j > 0 {
            assert(slot_key(q[0]) < slot_key(q[j]));
            if k > 0 {
                assert(slot_key(p[0]) < slot_key(p[k]));
            }
        }
        assert(p[0] == q[0]);
        let pr = p.drop_first();
        let qr = q.drop_first();
        assert forall|x: AttributeSlot| pr.to_set().contains(x) <==> qr.to_set().contains(x) by {
            if pr.to_set().contains(x) {
                let a = choose|a: int| 0 <= a < pr.len() && pr[a] == x;
                assert(p[a + 1] == x);
                assert(p.to_set().contains(x));
                let b = choose|b: int| 0 <= b < q.len() && q[b] == x;
                if b == 0 {
                    assert(slot_key(p[0]) < slot_key(p[a + 1]));
                }
                assert(qr[b - 1] == x);
            }
            if qr.to_set().contains(x) {
                let a = choose|a: int| 0 <= a < qr.len() && qr[a] == x;
                assert(q[a + 1] == x);
                assert(q.to_set().contains(x));
                let b = choose|b: int| 0 <= b < p.len() && p[b] == x;
                if b == 0 {
                    assert(slot_key(q[0]) < slot_key(q[a + 1]));
                }
                assert(pr[b - 1] == x);
            }
        }
        assert(pr.to_set() =~= qr.to_set());
        law_a_plan_is_a_function_of_its_slots(pr, qr);
        assert(p =~= seq![p[0]] + pr);
        assert(q =~= seq![q[0]] + qr);
    }
}

/// The slots one patched fixture contributes: the intensity the desk supplies,
/// if it does, and one slot per definition of its type.
pub open spec fn entry_slots(e: (FixtureId, FixtureType, bool)) -> Set<AttributeSlot> {
    let own = Set::new(
        |s: AttributeSlot| exists|k: int| 0 <= k < e.1.attributes@.len() && s == def_slot(e.0, e.1.attributes@[k]),
    );
    if e.2 {
        own.insert(supplied_dimmer(e.0))
    } else {
        own
    }
}

/// Walking a type's definitions adds exactly one slot per definition.
#[verifier::spinoff_prover]
proof fn lemma_fold_defs_slots(
    fixture: FixtureId,
    defs: Seq<AttributeDef>,
    defined: Set<AttributeType>,
    acc: Seq<AttributeSlot>,
)
    requires
        fold_defs(fixture, defs, defined, acc) is Ok,
    ensures
        forall|s: AttributeSlot|
            fold_defs(fixture, defs, defined, acc)->Ok_0.to_set().contains(s) <==> (acc.to_set().contains(s)
                || exists|k: int| 0 <= k < defs.len() && s == def_slot(fixture, defs[k])),
    decreases defs.len(),
{
    if defs.len() > 0 {
        let next = acc.push(def_slot(fixture, defs[0]));
        lemma_fold_defs_slots(fixture, defs.skip(1), defined.insert(defs[0].attribute), next);
        let r = fold_defs(fixture, defs, defined, acc)->Ok_0;
        assert(r == fold_defs(fixture, defs.skip(1), defined.insert(defs[0].attribute), next)->Ok_0);
        assert forall|s: AttributeSlot| r.to_set().contains(s) <==> (acc.to_set().contains(s)
            || exists|k: int| 0 <= k < defs.len() && s == def_slot(fixture, defs[k])) by {
            assert(r.to_set().contains(s) <==> (next.to_set().contains(s) || exists|k: int|
                0 <= k < defs.skip(1).len() && s == def_slot(fixture, defs.skip(1)[k])));
            if r.to_set().contains(s) {
                if next.to_set().contains(s) {
                    let w = choose|w: int| 0 <= w < next.len() && next[w] == s;
                    if w < acc.len() {
                        assert(acc[w] == s);
                        assert(acc.to_set().contains(s));
                    } else {
                        assert(s == def_slot(fixture, defs[0]));
                    }
                } else {
                    let k = choose|k: int| 0 <= k < defs.skip(1).len() && s == def_slot(fixture, defs.skip(1)[k]);
                    assert(defs[k + 1] == defs.skip(1)[k]);
                }
            }
            if acc.to_set().contains(s) {
                let w = choose|w: int| 0 <= w < acc.len() && acc[w] == s;
                assert(next[w] == s);
                assert(next.to_set().contains(s));
            }
            if exists|k: int| 0 <= k < defs.len() && s == def_slot(fixture, defs[k]) {
                let k = choose|k: int| 0 <= k < defs.len() && s == def_slot(fixture, defs[k]);
                if k == 0 {
                    assert(next[acc.len() as int] == s);
                    assert(next.to_set().contains(s));
                } else {
                    assert(defs.skip(1)[k - 1] == defs[k]);
                }
            }
        }
    }
}

/// Walking the patch collects exactly the slots every entry contributes.
proof fn lemma_fold_entries_slots(
    entries: Seq<(FixtureId, FixtureType, bool)>,
    patched: Set<FixtureId>,
    acc: Seq<AttributeSlot>,
)
    requires
        fold_entries(entries, patched, acc) is Ok,
    ensures
        forall|s: AttributeSlot|
            fold_entries(entries, patched, acc)->Ok_0.to_set().contains(s) <==> (acc.to_set().contains(s)
                || exists|i: int| 0 <= i < entries.len() && #[trigger] entry_slots(entries[i]).contains(s)),
    decreases entries.len(),
{
    if entries.len() > 0 {
        let (fixture, fixture_type, software_dimmer) = entries[0];
        let defined = if software_dimmer {
            Set::empty().insert(AttributeType::Dimmer)
        } else {
            Set::empty()
        };
        let start = if software_dimmer {
            acc.push(supplied_dimmer(fixture))
        } else {
            acc
        };
        lemma_fold_defs_slots(fixture, fixture_type.attributes@, defined, start);
        let next = fold_defs(fixture, fixture_type.attributes@, defined, start)->Ok_0;
        lemma_fold_entries_slots(entries.skip(1), patched.insert(fixture), next);
        let r = fold_entries(entries, patched, acc)->Ok_0;
        assert(r == fold_entries(entries.skip(1), patched.insert(fixture), next)->Ok_0);
        assert forall|s: AttributeSlot| r.to_set().contains(s) <==> (acc.to_set().contains(s)
            || exists|i: int| 0 <= i < entries.len() && #[trigger] entry_slots(entries[i]).contains(s)) by {
            if start.to_set().contains(s) && !acc.to_set().contains(s) {
                let w = choose|w: int| 0 <= w < start.len() && start[w] == s;
                if w < acc.len() {
                    assert(acc[w] == s);
                }
                assert(entry_slots(entries[0]).contains(s));
            }
            if acc.to_set().contains(s) {
                let w = choose|w: int| 0 <= w < acc.len() && acc[w] == s;
                assert(start[w] == s);
                assert(start.to_set().contains(s));
            }
            if exists|k: int| 0 <= k < fixture_type.attributes@.len() && s == def_slot(fixture, fixture_type.attributes@[k]) {
                let k = choose|k: int| 0 <= k < fixture_type.attributes@.len() && s == def_slot(fixture, fixture_type.attributes@[k]);
                assert(entry_slots(entries[0]).contains(s));
            }
            if exists|i: int| 0 <= i < entries.len() && #[trigger] entry_slots(entries[i]).contains(s) {
                let i = choose|i: int| 0 <= i < entries.len() && #[trigger] entry_slots(entries[i]).contains(s);
                if i == 0 {
                    if software_dimmer && s == supplied_dimmer(fixture) {
                        assert(start[acc.len() as int] == s);
                        assert(start.to_set().contains(s));
                    } else {
                        let k = choose|k: int| 0 <= k < fixture_type.attributes@.len() && s == def_slot(fixture, fixture_type.attributes@[k]);
                        assert(next.to_set().contains(s));
                    }
                } else {
                    assert(entries.skip(1)[i - 1] == entries[i]);
                }
            }
            if exists|i: int| 0 <= i < entries.skip(1).len() && #[trigger] entry_slots(entries.skip(1)[i]).contains(s) {
                let i = choose|i: int| 0 <= i < entries.skip(1).len() && #[trigger] entry_slots(entries.skip(1)[i]).contains(s);
                assert(entries[i + 1] == entries.skip(1)[i]);
            }
        }
    }
}

/// A plan does not depend on the order the patch arrives in: two patches
/// listing the same fixtures, each accepted, flatten to the same plan.
pub proof fn law_the_plan_does_not_depend_on_the_order_of_the_patch(
    first: Seq<(FixtureId, FixtureType, bool)>,
    second: Seq<(FixtureId, FixtureType, bool)>,
    first_plan: Seq<AttributeSlot>,
    second_plan: Seq<AttributeSlot>,
)
    requires
        first.to_set() == second.to_set(),
        collect_slots(first) is Ok,
        collect_slots(second) is Ok,
        sorted_slots(first_plan),
        sorted_slots(second_plan),
        first_plan.to_set() == collect_slots(first)->Ok_0.to_set(),
        second_plan.to_set() == collect_slots(second)->Ok_0.to_set(),
    ensures
        first_plan == second_plan,
{
    lemma_fold_entries_slots(first, Set::empty(), Seq::empty());
    lemma_fold_entries_slots(second, Set::empty(), Seq::empty());
    assert forall|s: AttributeSlot| first_plan.to_set().contains(s) <==> second_plan.to_set().contains(s) by {
        assert(!Seq::<AttributeSlot>::empty().to_set().contains(s));
        if exists|i: int| 0 <= i < first.len() && #[trigger] entry_slots(first[i]).contains(s) {
            let i = choose|i: int| 0 <= i < first.len() && #[trigger] entry_slots(first[i]).contains(s);
            assert(first.to_set().contains(first[i]));
            assert(second.to_set().contains(first[i]));
            let j = choose|j: int| 0 <= j < second.len() && second[j] == first[i];
            assert(entry_slots(second[j]).contains(s));
        }
        if exists|i: int| 0 <= i < second.len() && #[trigger] entry_slots(second[i]).contains(s) {
            let i = choose|i: int| 0 <= i < second.len() && #[trigger] entry_slots(second[i]).contains(s);
            assert(second.to_set().contains(second[i]));
            assert(first.to_set().contains(second[i]));
            let j = choose|j: int| 0 <= j < first.len() && first[j] == second[i];
            assert(entry_slots(first[j]).contains(s));
        }
    }
    assert(first_plan.to_set() =~= second_plan.to_set());
    law_a_plan_is_a_function_of_its_slots(first_plan, second_plan);
}


/// How many slots a patch flattens into: one per definition of each fixture's
/// type, and one more for each fixture whose intensity the desk supplies.
pub open spec fn patch_slot_count(entries: Seq<(FixtureId, FixtureType, bool)>) -> int
    decreases entries.len(),
{
    if entries.len() == 0 {
        0
    } else {
        entry_slot_count(entries[0]) + patch_slot_count(entries.skip(1))
    }
}

/// How many slots one patched fixture contributes.
pub open spec fn entry_slot_count(e: (FixtureId, FixtureType, bool)) -> int {
    e.1.attributes@.len() + if e.2 {
        1int
    } else {
        0int
    }
}

/// Walking a type's definitions adds one slot per definition.
proof fn lemma_fold_defs_len(fixture: FixtureId, defs: Seq<AttributeDef>, defined: Set<AttributeType>, acc: Seq<AttributeSlot>)
    requires
        fold_defs(fixture, defs, defined, acc) is Ok,
    ensures
        fold_defs(fixture, defs, defined, acc)->Ok_0.len() == acc.len() + defs.len(),
    decreases defs.len(),
{
    if defs.len() > 0 {
        lemma_fold_defs_len(fixture, defs.skip(1), defined.insert(defs[0].attribute), acc.push(def_slot(fixture, defs[0])));
    }
}

/// Walking the patch adds each fixture's slots.
proof fn lemma_fold_entries_len(entries: Seq<(FixtureId, FixtureType, bool)>, patched: Set<FixtureId>, acc: Seq<AttributeSlot>)
    requires
        fold_entries(entries, patched, acc) is Ok,
    ensures
        fold_entries(entries, patched, acc)->Ok_0.len() == acc.len() + patch_slot_count(entries),
    decreases entries.len(),
{
    if entries.len() > 0 {
        let (fixture, fixture_type, software_dimmer) = entries[0];
        let defined = if software_dimmer {
            Set::empty().insert(AttributeType::Dimmer)
        } else {
            Set::empty()
        };
        let start = if software_dimmer {
            acc.push(supplied_dimmer(fixture))
        } else {
            acc
        };
        lemma_fold_defs_len(fixture, fixture_type.attributes@, defined, start);
        let next = fold_defs(fixture, fixture_type.attributes@, defined, start)->Ok_0;
        lemma_fold_entries_len(entries.skip(1), patched.insert(fixture), next);
    }
}

/// What an accepted patch flattens into: one slot per definition of each
/// fixture's type and one per supplied intensity, and nothing else; each
/// definition's slot carries its merge mode, its bank and its default as the
/// home value, and a supplied intensity merges HTP from a home of nought.
pub proof fn law_a_plan_holds_one_slot_per_definition(
    entries: Seq<(FixtureId, FixtureType, bool)>,
    plan: Seq<AttributeSlot>,
)
    requires
        collect_slots(entries) is Ok,
        plan.to_set() == collect_slots(entries)->Ok_0.to_set(),
        plan.len() == collect_slots(entries)->Ok_0.len(),
    ensures
        plan.len() == patch_slot_count(entries),
        forall|s: AttributeSlot|
            plan.to_set().contains(s) <==> exists|i: int| 0 <= i < entries.len() && #[trigger] entry_slots(entries[i]).contains(s),
        forall|i: int, k: int|
            0 <= i < entries.len() && 0 <= k < entries[i].1.attributes@.len() ==> plan.to_set().contains(
                #[trigger] def_slot(entries[i].0, entries[i].1.attributes@[k]),
            ),
        forall|i: int|
            0 <= i < entries.len() && entries[i].2 ==> plan.to_set().contains(#[trigger] supplied_dimmer(entries[i].0)),
{
    lemma_fold_entries_len(entries, Set::empty(), Seq::empty());
    lemma_fold_entries_slots(entries, Set::empty(), Seq::empty());
    assert forall|s: AttributeSlot|
        plan.to_set().contains(s) <==> exists|i: int| 0 <= i < entries.len() && #[trigger] entry_slots(entries[i]).contains(s) by {
        assert(!Seq::<AttributeSlot>::empty().to_set().contains(s));
        assert(plan.to_set().contains(s) == fold_entries(entries, Set::empty(), Seq::empty())->Ok_0.to_set().contains(s));
    }
    assert forall|i: int, k: int|
        0 <= i < entries.len() && 0 <= k < entries[i].1.attributes@.len() implies plan.to_set().contains(
            #[trigger] def_slot(entries[i].0, entries[i].1.attributes@[k]),
        ) by {
        let s = def_slot(entries[i].0, entries[i].1.attributes@[k]);
        assert(entry_slots(entries[i]).contains(s));
        assert(!Seq::<AttributeSlot>::empty().to_set().contains(s));
        assert(fold_entries(entries, Set::empty(), Seq::empty())->Ok_0.to_set().contains(s));
    }
    assert forall|i: int| 0 <= i < entries.len() && entries[i].2 implies plan.to_set().contains(
        #[trigger] supplied_dimmer(entries[i].0),
    ) by {
        let s = supplied_dimmer(entries[i].0);
        assert(entry_slots(entries[i]).contains(s));
        assert(!Seq::<AttributeSlot>::empty().to_set().contains(s));
        assert(fold_entries(entries, Set::empty(), Seq::empty())->Ok_0.to_set().contains(s));
    }
}


/// Whether a type's definitions name each attribute once, and none that is
/// already `defined`.
pub open spec fn defs_fresh(defs: Seq<AttributeDef>, defined: Set<AttributeType>) -> bool {
    &&& forall|k: int| 0 <= k < defs.len() ==> !defined.contains(#[trigger] defs[k].attribute)
    &&& forall|k: int, l: int|
        0 <= k < l < defs.len() ==> #[trigger] defs[k].attribute != #[trigger] defs[l].attribute
}

/// The attributes a fixture's own definitions may not name: the intensity,
/// when the desk supplies it.
pub open spec fn supplied_attributes(e: (FixtureId, FixtureType, bool)) -> Set<AttributeType> {
    if e.2 {
        Set::empty().insert(AttributeType::Dimmer)
    } else {
        Set::empty()
    }
}

/// Whether one patched fixture can be flattened: its type names each
/// attribute once, and not the intensity when the desk supplies it.
pub open spec fn entry_accepted(e: (FixtureId, FixtureType, bool)) -> bool {
    defs_fresh(e.1.attributes@, supplied_attributes(e))
}

/// Whether a patch is accepted: no fixture number twice, every fixture
/// accepted, and no more than [`MAX_SLOTS`] slots in all.
pub open spec fn patch_accepted(entries: Seq<(FixtureId, FixtureType, bool)>) -> bool {
    &&& forall|i: int, j: int|
        0 <= i < j < entries.len() ==> #[trigger] entries[i].0 != #[trigger] entries[j].0
    &&& forall|i: int| 0 <= i < entries.len() ==> entry_accepted(#[trigger] entries[i])
    &&& patch_slot_count(entries) <= MAX_SLOTS
}

/// A patch never flattens into a negative number of slots.
proof fn lemma_patch_slot_count_nonnegative(entries: Seq<(FixtureId, FixtureType, bool)>)
    ensures
        patch_slot_count(entries) >= 0,
    decreases entries.len(),
{
    if entries.len() > 0 {
        lemma_patch_slot_count_nonnegative(entries.skip(1));
    }
}

/// Walking a type's definitions succeeds exactly when they are fresh and fit.
proof fn lemma_fold_defs_ok(
    fixture: FixtureId,
    defs: Seq<AttributeDef>,
    defined: Set<AttributeType>,
    acc: Seq<AttributeSlot>,
)
    requires
        acc.len() <= MAX_SLOTS,
    ensures
        fold_defs(fixture, defs, defined, acc) is Ok <==> (defs_fresh(defs, defined) && acc.len()
            + defs.len() <= MAX_SLOTS),
    decreases defs.len(),
{
    if defs.len() > 0 {
        let rest = defs.skip(1);
        let first = defs[0].attribute;
        let more = defined.insert(first);
        if !defined.contains(first) && acc.len() < MAX_SLOTS {
            lemma_fold_defs_ok(fixture, rest, more, acc.push(def_slot(fixture, defs[0])));
            if defs_fresh(defs, defined) {
                assert forall|k: int| 0 <= k < rest.len() implies !more.contains(#[trigger] rest[k].attribute) by {
                    assert(rest[k] == defs[k + 1]);
                }
                assert forall|k: int, l: int| 0 <= k < l < rest.len() implies #[trigger] rest[k].attribute
                    != #[trigger] rest[l].attribute by {
                    assert(rest[k] == defs[k + 1]);
                    assert(rest[l] == defs[l + 1]);
                }
            }
            if defs_fresh(rest, more) {
                assert forall|k: int| 0 <= k < defs.len() implies !defined.contains(#[trigger] defs[k].attribute) by {
                    if k > 0 {
                        assert(defs[k] == rest[k - 1]);
                    }
                }
                assert forall|k: int, l: int| 0 <= k < l < defs.len() implies #[trigger] defs[k].attribute
                    != #[trigger] defs[l].attribute by {
                    assert(defs[l] == rest[l - 1]);
                    if k > 0 {
                        assert(defs[k] == rest[k - 1]);
                    } else {
                        assert(!more.contains(rest[l - 1].attribute));
                    }
                }
            }
        }
    }
}

/// Walking the patch succeeds exactly when its numbers are new and distinct,
/// every fixture is accepted, and the slots fit.
proof fn lemma_fold_entries_ok(
    entries: Seq<(FixtureId, FixtureType, bool)>,
    patched: Set<FixtureId>,
    acc: Seq<AttributeSlot>,
)
    requires
        acc.len() <= MAX_SLOTS,
    ensures
        fold_entries(entries, patched, acc) is Ok <==> ({
            &&& forall|i: int| 0 <= i < entries.len() ==> !patched.contains(#[trigger] entries[i].0)
            &&& forall|i: int, j: int|
                0 <= i < j < entries.len() ==> #[trigger] entries[i].0 != #[trigger] entries[j].0
            &&& forall|i: int| 0 <= i < entries.len() ==> entry_accepted(#[trigger] entries[i])
            &&& acc.len() + patch_slot_count(entries) <= MAX_SLOTS
        }),
    decreases entries.len(),
{
    if entries.len() > 0 {
        let e = entries[0];
        let (fixture, fixture_type, software_dimmer) = e;
        let rest = entries.skip(1);
        let more = patched.insert(fixture);
        lemma_patch_slot_count_nonnegative(rest);
        let defined = if software_dimmer {
            Set::empty().insert(AttributeType::Dimmer)
        } else {
            Set::empty()
        };
        assert(defined == supplied_attributes(e));
        let start = if software_dimmer {
            acc.push(supplied_dimmer(fixture))
        } else {
            acc
        };
        if !patched.contains(fixture) && !(software_dimmer && acc.len() >= MAX_SLOTS) {
            lemma_fold_defs_ok(fixture, fixture_type.attributes@, defined, start);
            if fold_defs(fixture, fixture_type.attributes@, defined, start) is Ok {
                lemma_fold_defs_len(fixture, fixture_type.attributes@, defined, start);
                let next = fold_defs(fixture, fixture_type.attributes@, defined, start)->Ok_0;
                lemma_fold_entries_ok(rest, more, next);
                assert forall|i: int| 0 <= i < rest.len() implies rest[i] == entries[i + 1] by {}
                if forall|i: int, j: int|
                    0 <= i < j < entries.len() ==> #[trigger] entries[i].0 != #[trigger] entries[j].0 {
                    assert forall|i: int, j: int| 0 <= i < j < rest.len() implies #[trigger] rest[i].0
                        != #[trigger] rest[j].0 by {
                        assert(entries[i + 1].0 != entries[j + 1].0);
                    }
                    if forall|i: int| 0 <= i < entries.len() ==> !patched.contains(#[trigger] entries[i].0) {
                        assert forall|i: int| 0 <= i < rest.len() implies !more.contains(#[trigger] rest[i].0) by {
                            assert(entries[0].0 != entries[i + 1].0);
                            assert(!patched.contains(entries[i + 1].0));
                        }
                    }
                }
                if forall|i: int| 0 <= i < entries.len() ==> entry_accepted(#[trigger] entries[i]) {
                    assert forall|i: int| 0 <= i < rest.len() implies entry_accepted(#[trigger] rest[i]) by {
                        assert(entry_accepted(entries[i + 1]));
                    }
                }
                if forall|i: int| 0 <= i < rest.len() ==> !more.contains(#[trigger] rest[i].0) {
                    assert forall|i: int| 0 <= i < entries.len() implies !patched.contains(#[trigger] entries[i].0) by {
                        if i > 0 {
                            assert(!more.contains(rest[i - 1].0));
                        }
                    }
                    if forall|i: int, j: int| 0 <= i < j < rest.len() ==> #[trigger] rest[i].0 != #[trigger] rest[j].0 {
                        assert forall|i: int, j: int| 0 <= i < j < entries.len() implies #[trigger] entries[i].0
                            != #[trigger] entries[j].0 by {
                            assert(!more.contains(rest[j - 1].0));
                            if i > 0 {
                                assert(rest[i - 1].0 != rest[j - 1].0);
                            }
                        }
                    }
                }
                if forall|i: int| 0 <= i < rest.len() ==> entry_accepted(#[trigger] rest[i]) {
                    if entry_accepted(e) {
                        assert forall|i: int| 0 <= i < entries.len() implies entry_accepted(#[trigger] entries[i]) by {
                            if i > 0 {
                                assert(entry_accepted(rest[i - 1]));
                            }
                        }
                    }
                }
            } else {
                assert(!entry_accepted(entries[0]) || acc.len() + patch_slot_count(entries) > MAX_SLOTS);
            }
        } else if patched.contains(fixture) {
            assert(patched.contains(entries[0].0));
        }
    }
}

/// A patch is accepted exactly when no fixture number comes twice, every
/// fixture's type names each attribute once (and not the intensity where the
/// desk supplies it), and the slots fit in [`MAX_SLOTS`].
pub proof fn law_a_patch_is_accepted_exactly_when_it_is_well_formed(entries: Seq<(FixtureId, FixtureType, bool)>)
    ensures
        collect_slots(entries) is Ok <==> patch_accepted(entries),
{
    lemma_fold_entries_ok(entries, Set::empty(), Seq::empty());
}


/// The count of a patch's slots, summed from the right.
proof fn lemma_patch_slot_count_folds(entries: Seq<(FixtureId, FixtureType, bool)>)
    ensures
        patch_slot_count(entries) == entries.fold_right(
            |e: (FixtureId, FixtureType, bool), n: int| entry_slot_count(e) + n,
            0int,
        ),
    decreases entries.len(),
{
    let f = |e: (FixtureId, FixtureType, bool), n: int| entry_slot_count(e) + n;
    entries.lemma_fold_right_alt(f, 0int);
    if entries.len() > 0 {
        lemma_patch_slot_count_folds(entries.skip(1));
        entries.skip(1).lemma_fold_right_alt(f, 0int);
        assert(entries.skip(1) == entries.subrange(1, entries.len() as int));
    }
}

/// A patch listed in another order is accepted too, and flattens to the same
/// slots, which a build orders into the same plan
/// ([`law_a_plan_is_a_function_of_its_slots`]).
pub proof fn law_a_patch_listed_in_another_order_is_accepted_too(
    first: Seq<(FixtureId, FixtureType, bool)>,
    second: Seq<(FixtureId, FixtureType, bool)>,
)
    requires
        first.to_multiset() == second.to_multiset(),
        collect_slots(first) is Ok,
    ensures
        collect_slots(second) is Ok,
        collect_slots(second)->Ok_0.to_set() == collect_slots(first)->Ok_0.to_set(),
{
    broadcast use vstd::seq_lib::group_to_multiset_ensures;

    law_a_patch_is_accepted_exactly_when_it_is_well_formed(first);
    law_a_patch_is_accepted_exactly_when_it_is_well_formed(second);
    assert forall|x: (FixtureId, FixtureType, bool)| second.contains(x) <==> first.contains(x) by {
        assert(second.contains(x) <==> second.to_multiset().count(x) > 0);
        assert(first.contains(x) <==> first.to_multiset().count(x) > 0);
    }
    assert(first.no_duplicates()) by {
        assert forall|a: int, b: int| 0 <= a < first.len() && 0 <= b < first.len() && a != b implies first[a]
            != first[b] by {
            if a < b {
                assert(first[a].0 != first[b].0);
            } else {
                assert(first[b].0 != first[a].0);
            }
        }
    }
    first.lemma_multiset_has_no_duplicates();
    second.lemma_multiset_has_no_duplicates_conv();
    assert forall|i: int, j: int| 0 <= i < j < second.len() implies #[trigger] second[i].0 != #[trigger] second[j].0 by {
        assert(second.contains(second[i]));
        assert(second.contains(second[j]));
        let a = choose|a: int| 0 <= a < first.len() && first[a] == second[i];
        let b = choose|b: int| 0 <= b < first.len() && first[b] == second[j];
        assert(second[i] != second[j]);
        if a < b {
            assert(first[a].0 != first[b].0);
        } else {
            assert(first[b].0 != first[a].0);
        }
    }
    assert forall|i: int| 0 <= i < second.len() implies entry_accepted(#[trigger] second[i]) by {
        assert(second.contains(second[i]));
        let a = choose|a: int| 0 <= a < first.len() && first[a] == second[i];
        assert(entry_accepted(first[a]));
    }
    let f = |e: (FixtureId, FixtureType, bool), n: int| entry_slot_count(e) + n;
    assert(vstd::seq_lib::commutative_foldr(f));
    vstd::seq_lib::lemma_fold_right_permutation(first, second, f, 0int);
    lemma_patch_slot_count_folds(first);
    lemma_patch_slot_count_folds(second);
    lemma_fold_entries_slots(first, Set::empty(), Seq::empty());
    lemma_fold_entries_slots(second, Set::empty(), Seq::empty());
    assert forall|s: AttributeSlot| collect_slots(second)->Ok_0.to_set().contains(s) <==> collect_slots(first)->Ok_0.to_set().contains(s) by {
        assert(!Seq::<AttributeSlot>::empty().to_set().contains(s));
        if exists|i: int| 0 <= i < first.len() && #[trigger] entry_slots(first[i]).contains(s) {
            let i = choose|i: int| 0 <= i < first.len() && #[trigger] entry_slots(first[i]).contains(s);
            assert(first.contains(first[i]));
            let j = choose|j: int| 0 <= j < second.len() && second[j] == first[i];
            assert(entry_slots(second[j]).contains(s));
        }
        if exists|i: int| 0 <= i < second.len() && #[trigger] entry_slots(second[i]).contains(s) {
            let i = choose|i: int| 0 <= i < second.len() && #[trigger] entry_slots(second[i]).contains(s);
            assert(second.contains(second[i]));
            let j = choose|j: int| 0 <= j < first.len() && first[j] == second[i];
            assert(entry_slots(first[j]).contains(s));
        }
    }
    assert(collect_slots(second)->Ok_0.to_set() =~= collect_slots(first)->Ok_0.to_set());
}

} // verus!
