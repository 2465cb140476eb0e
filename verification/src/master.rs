//! The masters: the top of the stack, and the only layer that scales rather
//! than selects.
//!
//! Group masters scale intensity for the fixtures of a group, then the grand
//! master scales all intensity. Masters scale intensity only, as the attribute
//! definition decides it, and a master at full is exactly the identity. A
//! fixture in several groups is held down by the lowest of their masters.
use vstd::prelude::*;

use crate::fixture::Group;
use crate::ids::{FixtureId, GroupId};
use crate::merge::{apply_master, apply_master_spec, FULL};
use crate::plan::{AttributeSlot, MergePlan, MAX_SLOTS};
use crate::sorted::{find_key, sorted_distinct, strictly_sorted, Keyed};

verus! {

impl Keyed for GroupId {
    open spec fn key_spec(&self) -> int {
        self.0 as int
    }

    fn key(&self) -> (r: u64) {
        self.0 as u64
    }
}

/// The intensity slots among the first `n` slots of a plan, ascending.
pub open spec fn intensity_upto(plan: Seq<AttributeSlot>, n: int) -> Seq<u32>
    decreases n,
{
    if n <= 0 {
        Seq::empty()
    } else {
        let rest = intensity_upto(plan, n - 1);
        if plan[n - 1].is_intensity_spec() {
            rest.push((n - 1) as u32)
        } else {
            rest
        }
    }
}

/// The intensity slots of a plan, ascending.
pub open spec fn intensity_of(plan: Seq<AttributeSlot>) -> Seq<u32> {
    intensity_upto(plan, plan.len() as int)
}

/// Strictly increasing.
pub open spec fn increasing(s: Seq<u32>) -> bool {
    forall|i: int, j: int| 0 <= i < j < s.len() ==> s[i] < s[j]
}

/// The intensity slots of a plan are increasing, each one is an intensity slot
/// of the plan, and every intensity slot of the plan is among them.
pub proof fn lemma_intensity_upto(plan: Seq<AttributeSlot>, n: int)
    requires
        0 <= n <= plan.len(),
        plan.len() <= MAX_SLOTS,
    ensures
        increasing(intensity_upto(plan, n)),
        intensity_upto(plan, n).len() <= n,
        forall|k: int|
            0 <= k < intensity_upto(plan, n).len() ==> (#[trigger] intensity_upto(plan, n)[k]) < n
                && plan[intensity_upto(plan, n)[k] as int].is_intensity_spec(),
        forall|i: int|
            0 <= i < n && plan[i].is_intensity_spec() ==> intensity_upto(plan, n).contains(i as u32),
    decreases n,
{
    if n > 0 {
        lemma_intensity_upto(plan, n - 1);
        let rest = intensity_upto(plan, n - 1);
        if plan[n - 1].is_intensity_spec() {
            let r = rest.push((n - 1) as u32);
            assert forall|i: int| 0 <= i < n && plan[i].is_intensity_spec() implies r.contains(
                i as u32,
            ) by {
                if i < n - 1 {
                    let w = choose|w: int| 0 <= w < rest.len() && rest[w] == i as u32;
                    assert(r[w] == i as u32);
                } else {
                    assert(r[rest.len() as int] == i as u32);
                }
            }
        } else {
            assert forall|i: int| 0 <= i < n && plan[i].is_intensity_spec() implies rest.contains(
                i as u32,
            ) by {
                assert(i < n - 1);
            }
        }
    }
}

/// Whether a fixture belongs to the group with number `id`: some entry with
/// that number lists it.
pub open spec fn in_group(groups: Seq<Group>, id: GroupId, fixture: FixtureId) -> bool {
    exists|e: int| 0 <= e < groups.len() && groups[e].id == id && groups[e].fixtures@.contains(fixture)
}

/// The group numbers of a list of groups, in list order.
pub open spec fn group_numbers(groups: Seq<Group>) -> Seq<GroupId> {
    Seq::new(groups.len(), |e: int| groups[e].id)
}

/// The lowest of the levels the memberships point at, or full for none.
pub open spec fn lowest_level(levels: Seq<u16>, members: Seq<usize>) -> u16
    decreases members.len(),
{
    if members.len() == 0 {
        FULL
    } else {
        let rest = lowest_level(levels, members.drop_last());
        let level = levels[members.last() as int];
        if level < rest {
            level
        } else {
            rest
        }
    }
}

/// The lowest level is one of the levels, or full, and no level is lower.
pub proof fn lemma_lowest_level(levels: Seq<u16>, members: Seq<usize>)
    ensures
        forall|k: int|
            0 <= k < members.len() ==> lowest_level(levels, members) <= levels[#[trigger] members[k] as int],
        members.len() == 0 ==> lowest_level(levels, members) == FULL,
        members.len() > 0 ==> exists|k: int|
            0 <= k < members.len() && lowest_level(levels, members) == levels[members[k] as int],
    decreases members.len(),
{
    if members.len() > 0 {
        let rest = members.drop_last();
        lemma_lowest_level(levels, rest);
        assert forall|k: int| 0 <= k < members.len() implies lowest_level(levels, members)
            <= levels[#[trigger] members[k] as int] by {
            if k < members.len() - 1 {
                assert(rest[k] == members[k]);
            }
        }
        if rest.len() > 0 {
            let k = choose|k: int| 0 <= k < rest.len() && lowest_level(levels, rest) == levels[rest[k] as int];
            assert(members[k] == rest[k]);
            let last = members.len() - 1;
            if levels[members.last() as int] < lowest_level(levels, rest) {
                assert(lowest_level(levels, members) == levels[members[last] as int]);
            } else {
                assert(lowest_level(levels, members) == levels[members[k] as int]);
            }
        } else {
            assert(lowest_level(levels, members) == levels[members[0] as int]);
        }
    }
}

/// Where a slot stands among the intensity slots, if it is one.
pub open spec fn intensity_position(intensity: Seq<u32>, slot: int) -> Option<int> {
    if exists|p: int| 0 <= p < intensity.len() && intensity[p] as int == slot {
        Some(choose|p: int| 0 <= p < intensity.len() && intensity[p] as int == slot)
    } else {
        None
    }
}

/// In an increasing list, a slot stands in one place at most.
pub proof fn lemma_intensity_position(intensity: Seq<u32>, p: int)
    requires
        increasing(intensity),
        0 <= p < intensity.len(),
    ensures
        intensity_position(intensity, intensity[p] as int) == Some(p),
{
    let q = choose|q: int| 0 <= q < intensity.len() && intensity[q] as int == intensity[p] as int;
    if q < p {
        assert(intensity[q] < intensity[p]);
    } else if q > p {
        assert(intensity[p] < intensity[q]);
    }
}

/// What the masters are left as once the grand master is moved.
pub open spec fn grand_set(before: MasterLayer, after: MasterLayer, level: u16) -> bool {
    &&& after.grand_spec() == level
    &&& after.blackout_spec() == before.blackout_spec()
    &&& after.intensity_spec() == before.intensity_spec()
    &&& after.groups_spec() == before.groups_spec()
    &&& after.levels_spec() == before.levels_spec()
    &&& forall|p: int| after.members_spec(p) == before.members_spec(p)
}

/// What the masters are left as once blackout is engaged or released.
pub open spec fn blackout_set(before: MasterLayer, after: MasterLayer, on: bool) -> bool {
    &&& after.blackout_spec() == on
    &&& after.grand_spec() == before.grand_spec()
    &&& after.intensity_spec() == before.intensity_spec()
    &&& after.groups_spec() == before.groups_spec()
    &&& after.levels_spec() == before.levels_spec()
    &&& forall|p: int| after.members_spec(p) == before.members_spec(p)
}

/// What the masters are left as once the show's groups are put on them, each at full.
pub open spec fn groups_set(before: MasterLayer, after: MasterLayer, plan: MergePlan, groups: Seq<Group>) -> bool {
    &&& after.grand_spec() == before.grand_spec()
    &&& after.blackout_spec() == before.blackout_spec()
    &&& after.intensity_spec() == before.intensity_spec()
    &&& after.groups_spec().to_set() == group_numbers(groups).to_set()
    &&& after.groups_spec().len() == group_numbers(groups).to_set().len()
    &&& forall|g: int|
                0 <= g < after.levels_spec().len() ==> #[trigger] after.levels_spec()[g] == FULL
    &&& forall|p: int, g: usize|
                0 <= p < after.intensity_spec().len() && g < after.groups_spec().len() ==> (
                #[trigger] after.members_spec(p).contains(g) <==> (after.intensity_spec()[p]
                    < plan@.len() && in_group(
                    groups,
                    after.groups_spec()[g as int],
                    plan@[after.intensity_spec()[p] as int].fixture,
                )))
}

/// What the masters are left as once one group's master is moved; a group the layer does not have changes nothing.
pub open spec fn group_level_set(before: MasterLayer, after: MasterLayer, group: GroupId, level: u16) -> bool {
    &&& after.grand_spec() == before.grand_spec()
    &&& after.blackout_spec() == before.blackout_spec()
    &&& after.intensity_spec() == before.intensity_spec()
    &&& after.groups_spec() == before.groups_spec()
    &&& forall|p: int| after.members_spec(p) == before.members_spec(p)
    &&& !(before.level_of(group) is Some) ==> after.levels_spec() == before.levels_spec()
    &&& (before.level_of(group) is Some) ==> exists|g: int|
                0 <= g < before.groups_spec().len() && before.groups_spec()[g] == group
                    && after.levels_spec() == before.levels_spec().update(g, level)
    &&& after.level_of(group) == if before.level_of(group) is Some { Some(level) } else { None::<u16> }
}

/// The grand master, the blackout and the group masters, over one patch.
#[derive(Debug, Clone)]
pub struct MasterLayer {
    grand: u16,
    blackout: bool,
    intensity: Vec<u32>,
    groups: Vec<GroupId>,
    levels: Vec<u16>,
    members: Vec<Vec<usize>>,
}

impl MasterLayer {
    /// The tables agree with each other: the intensity slots ascend, the groups
    /// ascend with one level each, and each intensity slot has a membership
    /// list of group positions, ascending.
    pub closed spec fn wf(&self) -> bool {
        &&& increasing(self.intensity@)
        &&& strictly_sorted(self.groups@)
        &&& self.levels@.len() == self.groups@.len()
        &&& self.members@.len() == self.intensity@.len()
        &&& forall|p: int, k: int|
            0 <= p < self.members@.len() && 0 <= k < self.members@[p]@.len()
                ==> #[trigger] self.members@[p]@[k] < self.groups@.len()
        &&& forall|p: int, a: int, b: int|
            0 <= p < self.members@.len() && 0 <= a < b < self.members@[p]@.len()
                ==> #[trigger] self.members@[p]@[a] < #[trigger] self.members@[p]@[b]
    }

    /// The grand master level.
    pub closed spec fn grand_spec(&self) -> u16 {
        self.grand
    }

    /// Whether blackout is engaged.
    pub closed spec fn blackout_spec(&self) -> bool {
        self.blackout
    }

    /// The level the grand master actually multiplies by.
    pub open spec fn effective_grand_spec(&self) -> u16 {
        if self.blackout_spec() {
            0
        } else {
            self.grand_spec()
        }
    }

    /// The slots the masters may touch, ascending.
    pub closed spec fn intensity_spec(&self) -> Seq<u32> {
        self.intensity@
    }

    /// The groups with a master, ascending.
    pub closed spec fn groups_spec(&self) -> Seq<GroupId> {
        self.groups@
    }

    /// One level per group, in the order of the groups.
    pub closed spec fn levels_spec(&self) -> Seq<u16> {
        self.levels@
    }

    /// The positions, among the groups, of the groups the intensity slot at
    /// position `p` belongs to.
    pub closed spec fn members_spec(&self, p: int) -> Seq<usize> {
        self.members@[p]@
    }

    /// The lowest group master over the intensity slot at position `p`.
    pub open spec fn ceiling_spec(&self, p: int) -> u16 {
        lowest_level(self.levels_spec(), self.members_spec(p))
    }

    /// One group's level, if the layer has that group.
    pub open spec fn level_of(&self, group: GroupId) -> Option<u16> {
        if exists|g: int| 0 <= g < self.groups_spec().len() && self.groups_spec()[g] == group {
            Some(
                self.levels_spec()[choose|g: int|
                    0 <= g < self.groups_spec().len() && self.groups_spec()[g] == group],
            )
        } else {
            None
        }
    }

    /// What the masters make of a buffer of merged values: each intensity slot
    /// scaled by its lowest group master and then by the grand master, every
    /// other value as it was.
    pub open spec fn applied(&self, values: Seq<u16>) -> Seq<u16> {
        Seq::new(
            values.len(),
            |i: int|
                match intensity_position(self.intensity_spec(), i) {
                    Some(p) => apply_master_spec(
                        apply_master_spec(values[i], self.ceiling_spec(p)),
                        self.effective_grand_spec(),
                    ),
                    None => values[i],
                },
        )
    }

    /// What `wf` promises, for callers that cannot see it.
    pub proof fn lemma_wf(&self)
        requires
            self.wf(),
        ensures
            increasing(self.intensity_spec()),
            strictly_sorted(self.groups_spec()),
            self.levels_spec().len() == self.groups_spec().len(),
            forall|p: int, k: int|
                0 <= p < self.intensity_spec().len() && 0 <= k < self.members_spec(p).len()
                    ==> #[trigger] self.members_spec(p)[k] < self.groups_spec().len(),
    {
    }

    /// Masters over `plan` with no groups: grand master at full, blackout off.
    /// A desk in this state hands through exactly what the merge produced.
    pub fn new(plan: &MergePlan) -> (r: MasterLayer)
        ensures
            r.wf(),
            r.grand_spec() == FULL,
            !r.blackout_spec(),
            r.intensity_spec() == intensity_of(plan@),
            r.groups_spec().len() == 0,
            forall|p: int| 0 <= p < r.intensity_spec().len() ==> r.members_spec(p).len() == 0,
    {
        let slots = plan.slots();
        let n = slots.len();
        let mut intensity: Vec<u32> = Vec::new();
        let mut members: Vec<Vec<usize>> = Vec::new();
        let mut i: usize = 0;
        while i < n
            invariant
                0 <= i <= n,
                n == plan@.len(),
                n <= MAX_SLOTS,
                slots@ == plan@,
                intensity@ == intensity_upto(plan@, i as int),
                members@.len() == intensity@.len(),
                forall|p: int| 0 <= p < members@.len() ==> (#[trigger] members@[p])@.len() == 0,
            decreases n - i,
        {
            if slots[i].is_intensity() {
                intensity.push(i as u32);
                members.push(Vec::new());
            }
            i = i + 1;
        }
        proof {
            lemma_intensity_upto(plan@, n as int);
        }
        MasterLayer { grand: FULL, blackout: false, intensity, groups: Vec::new(), levels: Vec::new(), members }
    }

    /// Masters over `plan` with the show's groups on them, every group at full.
    pub fn for_groups(plan: &MergePlan, groups: &[Group]) -> (r: MasterLayer)
        ensures
            r.wf(),
            r.grand_spec() == FULL,
            !r.blackout_spec(),
            r.intensity_spec() == intensity_of(plan@),
            r.groups_spec().to_set() == group_numbers(groups@).to_set(),
            forall|g: int| 0 <= g < r.levels_spec().len() ==> #[trigger] r.levels_spec()[g] == FULL,
            forall|p: int, g: usize|
                0 <= p < r.intensity_spec().len() && g < r.groups_spec().len() ==> (
                #[trigger] r.members_spec(p).contains(g) <==> in_group(
                    groups@,
                    r.groups_spec()[g as int],
                    plan@[r.intensity_spec()[p] as int].fixture,
                )),
    {
        let mut layer = MasterLayer::new(plan);
        let count = plan.slot_count();
        proof {
            lemma_intensity_upto(plan@, count as int);
        }
        layer.set_groups(plan, groups);
        layer
    }

    /// Replaces the group table, keeping the grand master, the blackout and the
    /// intensity slots. Every group starts at full, so a reload does not darken
    /// the stage. A group naming a fixture the patch does not have still gets a
    /// master; it scales nothing. Two entries with one number are one group.
    pub fn set_groups(&mut self, plan: &MergePlan, groups: &[Group])
        requires
            old(self).wf(),
        ensures
            final(self).wf(),
            groups_set(*old(self), *final(self), *plan, groups@),
    {
        let mut numbers: Vec<GroupId> = Vec::new();
        let mut e: usize = 0;
        while e < groups.len()
            invariant
                0 <= e <= groups@.len(),
                numbers@ == group_numbers(groups@).subrange(0, e as int),
            decreases groups@.len() - e,
        {
            numbers.push(groups[e].id);
            e = e + 1;
        }
        proof {
            assert(numbers@ =~= group_numbers(groups@));
        }
        let ids = sorted_distinct(numbers.as_slice());

        let mut members: Vec<Vec<usize>> = Vec::new();
        let n = self.intensity.len();
        let mut p: usize = 0;
        while p < n
            invariant
                0 <= p <= n,
                n == self.intensity@.len(),
                members@.len() == p,
                strictly_sorted(ids@),
                forall|q: int, k: int|
                    0 <= q < p && 0 <= k < members@[q]@.len() ==> #[trigger] members@[q]@[k] < ids@.len(),
                forall|q: int, a: int, b: int|
                    0 <= q < p && 0 <= a < b < members@[q]@.len() ==> #[trigger] members@[q]@[a]
                        < #[trigger] members@[q]@[b],
                forall|q: int, g: usize|
                    0 <= q < p && g < ids@.len() ==> (#[trigger] members@[q]@.contains(g)
                        <==> (self.intensity@[q] < plan@.len() && in_group(
                        groups@,
                        ids@[g as int],
                        plan@[self.intensity@[q] as int].fixture,
                    ))),
            decreases n - p,
        {
            let mut list: Vec<usize> = Vec::new();
            match plan.slot(self.intensity[p] as usize) {
                Some(definition) => {
                    let fixture = definition.fixture;
                    let mut g: usize = 0;
                    while g < ids.len()
                        invariant
                            0 <= g <= ids@.len(),
                            forall|k: int| 0 <= k < list@.len() ==> #[trigger] list@[k] < g,
                            forall|a: int, b: int| 0 <= a < b < list@.len() ==> #[trigger] list@[a] < #[trigger] list@[b],
                            forall|h: usize| h < g ==> (#[trigger] list@.contains(h) <==> in_group(groups@, ids@[h as int], fixture)),
                        decreases ids@.len() - g,
                    {
                        let member = group_has(groups, ids[g], fixture);
                        let ghost before = list@;
                        if member {
                            list.push(g);
                        }
                        proof {
                            assert forall|h: usize| h < g + 1 implies (#[trigger] list@.contains(h) <==> in_group(groups@, ids@[h as int], fixture)) by {
                                if h < g {
                                    if before.contains(h) {
                                        let w = choose|w: int| 0 <= w < before.len() && before[w] == h;
                                        assert(list@[w] == h);
                                    }
                                    if list@.contains(h) {
                                        let w = choose|w: int| 0 <= w < list@.len() && list@[w] == h;
                                        if w < before.len() {
                                            assert(before[w] == h);
                                        }
                                    }
                                } else {
                                    if member {
                                        assert(list@[before.len() as int] == h);
                                    } else {
                                        if list@.contains(h) {
                                            let w = choose|w: int| 0 <= w < list@.len() && list@[w] == h;
                                            assert(before[w] < g);
                                        }
                                    }
                                }
                            }
                        }
                        g = g + 1;
                    }
                },
                None => {},
            }
            members.push(list);
            proof {
                assert forall|q: int, g: usize|
                    0 <= q < p + 1 && g < ids@.len() implies (#[trigger] members@[q]@.contains(g)
                        <==> (self.intensity@[q] < plan@.len() && in_group(
                        groups@,
                        ids@[g as int],
                        plan@[self.intensity@[q] as int].fixture,
                    ))) by {
                    if q == p && self.intensity@[q] >= plan@.len() {
                        assert(members@[q]@.len() == 0);
                    }
                }
            }
            p = p + 1;
        }

        let mut levels: Vec<u16> = Vec::new();
        let mut g: usize = 0;
        while g < ids.len()
            invariant
                0 <= g <= ids@.len(),
                levels@.len() == g,
                forall|h: int| 0 <= h < g ==> #[trigger] levels@[h] == FULL,
            decreases ids@.len() - g,
        {
            levels.push(FULL);
            g = g + 1;
        }
        self.levels = levels;
        self.groups = ids;
        self.members = members;
    }

    /// The grand master level.
    pub fn grand(&self) -> (r: u16)
        ensures
            r == self.grand_spec(),
    {
        self.grand
    }

    /// Moves the grand master.
    pub fn set_grand(&mut self, level: u16)
        requires
            old(self).wf(),
        ensures
            final(self).wf(),
            grand_set(*old(self), *final(self), level),
    {
        self.grand = level;
    }

    /// Whether blackout is engaged.
    pub fn blackout(&self) -> (r: bool)
        ensures
            r == self.blackout_spec(),
    {
        self.blackout
    }

    /// Engages or releases blackout. Blackout is a switch, not the grand master
    /// taken to zero: releasing it gives back the grand master as it was left.
    pub fn set_blackout(&mut self, on: bool)
        requires
            old(self).wf(),
        ensures
            final(self).wf(),
            blackout_set(*old(self), *final(self), on),
    {
        self.blackout = on;
    }

    /// The level the grand master actually multiplies by: the grand master, or
    /// zero while blackout is engaged.
    pub fn effective_grand(&self) -> (r: u16)
        ensures
            r == self.effective_grand_spec(),
    {
        if self.blackout {
            0
        } else {
            self.grand
        }
    }

    /// How many groups have a master.
    pub fn group_count(&self) -> (r: usize)
        ensures
            r == self.groups_spec().len(),
    {
        self.groups.len()
    }

    /// Every group with a master, ascending.
    pub fn groups(&self) -> (r: &[GroupId])
        ensures
            r@ == self.groups_spec(),
    {
        self.groups.as_slice()
    }

    /// The slots the masters may touch, ascending.
    pub fn intensity_slots(&self) -> (r: &[u32])
        ensures
            r@ == self.intensity_spec(),
    {
        self.intensity.as_slice()
    }

    /// One group's master level, if the layer knows that group.
    pub fn group_level(&self, group: GroupId) -> (r: Option<u16>)
        requires
            self.wf(),
        ensures
            r == self.level_of(group),
    {
        match find_key(&self.groups, group.key()) {
            Some(g) => {
                proof {
                    assert(self.groups_spec()[g as int] == group);
                    let c = choose|c: int| 0 <= c < self.groups_spec().len() && self.groups_spec()[c] == group;
                    crate::sorted::lemma_key_unique(self.groups@, c, g as int);
                }
                Some(self.levels[g])
            },
            None => {
                proof {
                    if exists|c: int| 0 <= c < self.groups@.len() && self.groups@[c] == group {
                        let c = choose|c: int| 0 <= c < self.groups@.len() && self.groups@[c] == group;
                        assert(self.groups@[c].key_spec() == group.key_spec());
                    }
                }
                None
            },
        }
    }

    /// Moves one group's master. Returns `false`, changing nothing, if the
    /// group is unknown: a stale command must not stop the tick.
    pub fn set_group_level(&mut self, group: GroupId, level: u16) -> (r: bool)
        requires
            old(self).wf(),
        ensures
            final(self).wf(),
            r == old(self).level_of(group) is Some,
            group_level_set(*old(self), *final(self), group, level),
    {
        match find_key(&self.groups, group.key()) {
            Some(g) => {
                proof {
                    assert(self.groups_spec()[g as int] == group);
                    let c = choose|c: int| 0 <= c < self.groups_spec().len() && self.groups_spec()[c] == group;
                    crate::sorted::lemma_key_unique(self.groups@, c, g as int);
                }
                self.levels.set(g, level);
                proof {
                    assert(self.groups_spec()[g as int] == group);
                    let c = choose|c: int| 0 <= c < self.groups_spec().len() && self.groups_spec()[c] == group;
                    crate::sorted::lemma_key_unique(self.groups@, c, g as int);
                }
                true
            },
            None => {
                proof {
                    if exists|c: int| 0 <= c < self.groups@.len() && self.groups@[c] == group {
                        let c = choose|c: int| 0 <= c < self.groups@.len() && self.groups@[c] == group;
                        assert(self.groups@[c].key_spec() == group.key_spec());
                    }
                }
                false
            },
        }
    }

    /// The lowest group master over the intensity slot at position `p`, or
    /// full if it is in no group.
    fn ceiling(&self, p: usize) -> (r: u16)
        requires
            self.wf(),
            p < self.intensity_spec().len(),
        ensures
            r == self.ceiling_spec(p as int),
    {
        let list = &self.members[p];
        let mut lowest: u16 = FULL;
        let mut k: usize = 0;
        while k < list.len()
            invariant
                0 <= k <= list@.len(),
                self.wf(),
                list@ == self.members_spec(p as int),
                p < self.members@.len(),
                lowest == lowest_level(self.levels@, list@.subrange(0, k as int)),
            decreases list@.len() - k,
        {
            let level = self.levels[list[k]];
            proof {
                assert(list@.subrange(0, k + 1).drop_last() =~= list@.subrange(0, k as int));
            }
            if level < lowest {
                lowest = level;
            }
            k = k + 1;
        }
        proof {
            assert(list@.subrange(0, list@.len() as int) =~= list@);
        }
        lowest
    }

    /// Scales every intensity value, group masters first and then the grand
    /// master, and leaves every other value alone. A buffer shorter than the
    /// plan is filled as far as it goes.
    pub fn apply(&self, values: &mut [u16])
        requires
            self.wf(),
        ensures
            final(values)@ == self.applied(old(values)@),
    {
        let grand = self.effective_grand();
        let n = self.intensity.len();
        let mut p: usize = 0;
        while p < n
            invariant
                0 <= p <= n,
                n == self.intensity@.len(),
                self.wf(),
                grand == self.effective_grand_spec(),
                values@.len() == old(values)@.len(),
                forall|i: int|
                    0 <= i < values@.len() ==> #[trigger] values@[i] == match intensity_position(self.intensity@, i) {
                        Some(q) => if q < p {
                            self.applied(old(values)@)[i]
                        } else {
                            old(values)@[i]
                        },
                        None => old(values)@[i],
                    },
            decreases n - p,
        {
            let slot = self.intensity[p] as usize;
            proof {
                lemma_intensity_position(self.intensity@, p as int);
            }
            if slot < values.len() {
                let ceiling = self.ceiling(p);
                let grouped = apply_master(values[slot], ceiling);
                values[slot] = apply_master(grouped, grand);
            }
            p = p + 1;
        }
        proof {
            assert(values@ =~= self.applied(old(values)@));
        }
    }
}

/// Whether the group with number `id` lists `fixture` in any of its entries.
fn group_has(groups: &[Group], id: GroupId, fixture: FixtureId) -> (r: bool)
    ensures
        r == in_group(groups@, id, fixture),
{
    let mut e: usize = 0;
    while e < groups.len()
        invariant
            0 <= e <= groups@.len(),
            forall|f: int| 0 <= f < e ==> !(groups@[f].id == id && groups@[f].fixtures@.contains(fixture)),
        decreases groups@.len() - e,
    {
        let entry = &groups[e];
        if entry.id == id {
            let mut k: usize = 0;
            while k < entry.fixtures.len()
                invariant
                    0 <= k <= entry.fixtures@.len(),
                    0 <= e < groups@.len(),
                    entry.fixtures@ == groups@[e as int].fixtures@,
                    groups@[e as int].id == id,
                    forall|j: int| 0 <= j < k ==> entry.fixtures@[j] != fixture,
                decreases entry.fixtures@.len() - k,
            {
                if entry.fixtures[k].0 == fixture.0 {
                    proof {
                        assert(groups@[e as int].fixtures@[k as int] == fixture);
                        assert(groups@[e as int].fixtures@.contains(fixture));
                    }
                    return true;
                }
                k = k + 1;
            }
        }
        e = e + 1;
    }
    false
}

/// With every master up and no blackout, the masters change nothing at all.
pub proof fn law_a_full_desk_changes_nothing(layer: MasterLayer, values: Seq<u16>)
    requires
        layer.wf(),
        layer.effective_grand_spec() == FULL,
        forall|g: int| 0 <= g < layer.levels_spec().len() ==> #[trigger] layer.levels_spec()[g] == FULL,
    ensures
        layer.applied(values) == values,
{
    assert forall|i: int| 0 <= i < values.len() implies #[trigger] layer.applied(values)[i] == values[i] by {
        if let Some(p) = intensity_position(layer.intensity_spec(), i) {
            let m = layer.members_spec(p);
            lemma_lowest_level(layer.levels_spec(), m);
            if m.len() > 0 {
                let k = choose|k: int| 0 <= k < m.len() && lowest_level(layer.levels_spec(), m) == layer.levels_spec()[m[k] as int];
                assert(m[k] < layer.groups_spec().len());
            }
            crate::merge::law_master_attenuates(values[i], FULL);
            crate::merge::law_master_attenuates(values[i], FULL);
        }
    }
    assert(layer.applied(values) =~= values);
}

/// The grand master at zero, or a blackout, forces every intensity value to
/// zero and leaves every other value exactly as it was.
pub proof fn law_the_grand_master_at_zero_zeroes_intensity_and_only_intensity(
    layer: MasterLayer,
    values: Seq<u16>,
)
    requires
        layer.wf(),
        layer.effective_grand_spec() == 0,
    ensures
        forall|i: int|
            0 <= i < values.len() ==> #[trigger] layer.applied(values)[i] == if intensity_position(
                layer.intensity_spec(),
                i,
            ) is Some {
                0
            } else {
                values[i]
            },
{
    assert forall|i: int| 0 <= i < values.len() implies #[trigger] layer.applied(values)[i] == if intensity_position(
        layer.intensity_spec(),
        i,
    ) is Some {
        0
    } else {
        values[i]
    } by {
        if let Some(p) = intensity_position(layer.intensity_spec(), i) {
            crate::merge::law_master_attenuates(
                apply_master_spec(values[i], layer.ceiling_spec(p)),
                0,
            );
        }
    }
}

/// A master only ever attenuates: no setting of any fader makes a value larger
/// than the merge produced.
pub proof fn law_the_masters_never_raise_a_value(layer: MasterLayer, values: Seq<u16>)
    requires
        layer.wf(),
    ensures
        layer.applied(values).len() == values.len(),
        forall|i: int| 0 <= i < values.len() ==> #[trigger] layer.applied(values)[i] <= values[i],
{
    assert forall|i: int| 0 <= i < values.len() implies #[trigger] layer.applied(values)[i] <= values[i] by {
        if let Some(p) = intensity_position(layer.intensity_spec(), i) {
            let grouped = apply_master_spec(values[i], layer.ceiling_spec(p));
            crate::merge::law_master_attenuates(values[i], layer.ceiling_spec(p));
            crate::merge::law_master_attenuates(grouped, layer.effective_grand_spec());
        }
    }
}

/// A fixture in several groups is held down by the lowest of their masters and
/// by nothing else; a fixture in no group is not held down at all.
pub proof fn law_the_lowest_group_master_is_the_one_that_applies(layer: MasterLayer, p: int)
    requires
        layer.wf(),
        0 <= p < layer.intensity_spec().len(),
    ensures
        forall|k: int|
            0 <= k < layer.members_spec(p).len() ==> layer.ceiling_spec(p) <= layer.levels_spec()[#[trigger] layer.members_spec(p)[k] as int],
        layer.members_spec(p).len() == 0 ==> layer.ceiling_spec(p) == FULL,
        layer.members_spec(p).len() > 0 ==> exists|k: int|
            0 <= k < layer.members_spec(p).len() && layer.ceiling_spec(p) == layer.levels_spec()[layer.members_spec(p)[k] as int],
{
    lemma_lowest_level(layer.levels_spec(), layer.members_spec(p));
}


/// A blackout darkens every intensity value whatever the grand master is at
/// and leaves every other value alone; without one, the grand master is what
/// scales intensity.
pub proof fn law_a_blackout_darkens_intensity_whatever_the_grand_master(layer: MasterLayer, values: Seq<u16>)
    requires
        layer.wf(),
    ensures
        layer.blackout_spec() ==> forall|i: int|
            0 <= i < values.len() ==> #[trigger] layer.applied(values)[i] == if intensity_position(
                layer.intensity_spec(),
                i,
            ) is Some {
                0
            } else {
                values[i]
            },
        !layer.blackout_spec() ==> layer.effective_grand_spec() == layer.grand_spec(),
{
    if layer.blackout_spec() {
        law_the_grand_master_at_zero_zeroes_intensity_and_only_intensity(layer, values);
    }
}

} // verus!
