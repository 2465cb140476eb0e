//! The playback layer: the source set, and resolving it into one value per
//! slot.
//!
//! Every playback that can contribute to the output is a [`PlaybackSource`]: a
//! master level, an activation stamp and a sparse set of attribute values.
//! [`PlaybackLayer::resolve`] turns the whole set into one value per slot,
//! applying HTP or LTP as each slot's merge mode says, and falling back to the
//! slot's home value where no active source provides one.
use vstd::prelude::*;

use crate::fixture::MergeMode;
use crate::ids::{ExecutorId, PlaybackId};
use crate::merge::{merge_playbacks_spec, SourceValue, FULL};
use crate::plan::{AttributeSlot, MergeError, MergePlan, MAX_SLOTS, MAX_SOURCES};
use crate::slots::{element_mut, lemma_distinct_below};
use crate::sorted::Keyed;

verus! {

/// One playback as the merge sees it: a master level, an activation stamp and
/// the attribute values it is currently providing.
///
/// The values are sparse but stored densely, with a list of the slots that
/// have been written, so setting a value is constant time and cannot create a
/// duplicate, while walking the contributions costs what the source holds.
#[derive(Debug)]
pub struct PlaybackSource {
    id: PlaybackId,
    activation: Option<u64>,
    master: u16,
    flash: Option<u16>,
    values: Vec<u16>,
    present: Vec<bool>,
    touched: Vec<u32>,
    count: usize,
}

impl PlaybackSource {
    /// The source's internal bookkeeping agrees with itself: every provided
    /// slot is listed once in the contribution order and nothing else is.
    pub closed spec fn wf(&self) -> bool {
        &&& self.values@.len() == self.present@.len()
        &&& self.touched@.len() == self.present@.len()
        &&& self.present@.len() <= MAX_SLOTS
        &&& self.count <= self.touched@.len()
        &&& forall|k: int|
            0 <= k < self.count ==> (#[trigger] self.touched@[k]) < self.present@.len()
                && self.present@[self.touched@[k] as int]
        &&& self.touched@.subrange(0, self.count as int).no_duplicates()
        &&& forall|s: int|
            0 <= s < self.present@.len() && #[trigger] self.present@[s] ==> self.touched@.subrange(
                0,
                self.count as int,
            ).contains(s as u32)
    }

    /// Which playback this source is.
    pub closed spec fn id_spec(&self) -> PlaybackId {
        self.id
    }

    /// When it was switched on, if it is on.
    pub closed spec fn activation_spec(&self) -> Option<u64> {
        self.activation
    }

    /// The stored master level.
    pub closed spec fn master_spec(&self) -> u16 {
        self.master
    }

    /// The level a held flash contributes at, if one is held.
    pub closed spec fn flash_spec(&self) -> Option<u16> {
        self.flash
    }

    /// The master the merge applies: the flash while one is held.
    pub open spec fn effective_master_spec(&self) -> u16 {
        match self.flash_spec() {
            Some(level) => level,
            None => self.master_spec(),
        }
    }

    /// How many slots the source was sized for.
    pub closed spec fn slot_len(&self) -> int {
        self.present@.len() as int
    }

    /// The value this source provides for a slot, if it provides one.
    pub closed spec fn get_spec(&self, slot: int) -> Option<u16> {
        if 0 <= slot < self.present@.len() && self.present@[slot] {
            Some(self.values@[slot])
        } else {
            None
        }
    }

    /// The slots this source provides, in the order they were first set.
    pub closed spec fn order_spec(&self) -> Seq<u32> {
        self.touched@.subrange(0, self.count as int)
    }

    /// A source for one playback over `slots` slots: switched off, its master
    /// at full, no flash, and providing nothing.
    pub(crate) fn new(id: PlaybackId, slots: usize) -> (r: PlaybackSource)
        requires
            slots <= MAX_SLOTS,
        ensures
            r.id_spec() == id,
            r.activation_spec() is None,
            r.master_spec() == FULL,
            r.flash_spec() is None,
            r.slot_len() == slots,
            r.order_spec().len() == 0,
            r.wf(),
            forall|s: int| r.get_spec(s) is None,
    {
        let mut values: Vec<u16> = Vec::new();
        let mut present: Vec<bool> = Vec::new();
        let mut touched: Vec<u32> = Vec::new();
        let mut i: usize = 0;
        while i < slots
            invariant
                0 <= i <= slots,
                values@.len() == i,
                present@.len() == i,
                touched@.len() == i,
                forall|k: int| 0 <= k < i ==> !present@[k],
            decreases slots - i,
        {
            values.push(0);
            present.push(false);
            touched.push(0);
            i = i + 1;
        }
        proof {
            assert(touched@.subrange(0, 0) =~= Seq::<u32>::empty());
        }
        PlaybackSource { id, activation: None, master: FULL, flash: None, values, present, touched, count: 0 }
    }

    /// Which playback this source is.
    pub fn id(&self) -> (r: PlaybackId)
        ensures
            r == self.id_spec(),
    {
        self.id
    }

    /// Whether this source takes part in the merge at all.
    pub fn is_active(&self) -> (r: bool)
        ensures
            r == self.activation_spec() is Some,
    {
        self.activation.is_some()
    }

    /// When this source was switched on, if it is on. Higher is more recent.
    pub fn activation(&self) -> (r: Option<u64>)
        ensures
            r == self.activation_spec(),
    {
        self.activation
    }

    /// The playback's stored master level.
    pub fn master(&self) -> (r: u16)
        ensures
            r == self.master_spec(),
    {
        self.master
    }

    /// The level a held flash contributes at, if one is held.
    pub fn flash(&self) -> (r: Option<u16>)
        ensures
            r == self.flash_spec(),
    {
        self.flash
    }

    /// The master the merge actually applies.
    pub fn effective_master(&self) -> (r: u16)
        ensures
            r == self.effective_master_spec(),
    {
        match self.flash {
            Some(level) => level,
            None => self.master,
        }
    }

    /// How many attributes this source provides.
    pub fn len(&self) -> (r: usize)
        requires
            self.wf(),
        ensures
            r == self.order_spec().len(),
    {
        self.count
    }

    /// Whether this source provides nothing.
    pub fn is_empty(&self) -> (r: bool)
        requires
            self.wf(),
        ensures
            r == (self.order_spec().len() == 0),
    {
        self.count == 0
    }

    /// The slots this source provides are exactly those in its order, each
    /// once.
    pub proof fn lemma_order_is_provided(&self)
        requires
            self.wf(),
        ensures
            self.order_spec().no_duplicates(),
            forall|k: int|
                0 <= k < self.order_spec().len() ==> self.get_spec(
                    #[trigger] self.order_spec()[k] as int,
                ) is Some,
            forall|s: int| #[trigger] self.get_spec(s) is Some ==> self.order_spec().contains(s as u32),
            self.order_spec().len() <= self.slot_len(),
    {
        assert forall|k: int| 0 <= k < self.order_spec().len() implies self.get_spec(
            #[trigger] self.order_spec()[k] as int,
        ) is Some by {
            assert(self.order_spec()[k] == self.touched@[k]);
        }
    }

    /// Provides a value for one slot, replacing whatever was there. Returns
    /// `false`, and changes nothing, if the slot is outside the plan.
    pub fn set(&mut self, slot: usize, value: u16) -> (r: bool)
        requires
            old(self).wf(),
        ensures
            r == (slot < old(self).slot_len()),
            final(self).wf(),
            final(self).id_spec() == old(self).id_spec(),
            final(self).activation_spec() == old(self).activation_spec(),
            final(self).master_spec() == old(self).master_spec(),
            final(self).flash_spec() == old(self).flash_spec(),
            final(self).slot_len() == old(self).slot_len(),
            forall|s: int|
                #![trigger final(self).get_spec(s)]
                final(self).get_spec(s) == if r && s == slot {
                    Some(value)
                } else {
                    old(self).get_spec(s)
                },
            final(self).order_spec() == if r && old(self).get_spec(slot as int) is None {
                old(self).order_spec().push(slot as u32)
            } else {
                old(self).order_spec()
            },
    {
        if slot >= self.values.len() {
            return false;
        }
        let ghost old_order = self.touched@.subrange(0, self.count as int);
        self.values.set(slot, value);
        if !self.present[slot] {
            proof {
                assert forall|k: int| 0 <= k < old_order.len() implies 0 <= #[trigger] old_order[k]
                    < self.present@.len() && old_order[k] != slot as u32 by {
                    assert(old_order[k] == self.touched@[k]);
                }
                lemma_distinct_below(old_order, self.present@.len() as int, slot as int);
            }
            self.present.set(slot, true);
            let c = self.count;
            self.touched.set(c, slot as u32);
            self.count = c + 1;
            proof {
                let new_order = self.touched@.subrange(0, self.count as int);
                assert(new_order =~= old_order.push(slot as u32));
                assert forall|i: int, j: int|
                    0 <= i < new_order.len() && 0 <= j < new_order.len() && i != j implies new_order[i]
                    != new_order[j] by {
                    if i < old_order.len() && j < old_order.len() {
                        assert(old_order[i] != old_order[j]);
                    } else if i == old_order.len() {
                        assert(old_order[j] == self.touched@[j]);
                    } else {
                        assert(old_order[i] == self.touched@[i]);
                    }
                }
                assert forall|s: int|
                    0 <= s < self.present@.len() && #[trigger] self.present@[s] implies new_order.contains(
                    s as u32,
                ) by {
                    if s != slot {
                        assert(old_order.contains(s as u32));
                        let w = choose|w: int| 0 <= w < old_order.len() && old_order[w] == s as u32;
                        assert(new_order[w] == s as u32);
                    } else {
                        assert(new_order[old_order.len() as int] == s as u32);
                    }
                }
                assert forall|k: int| 0 <= k < self.count implies (#[trigger] self.touched@[k])
                    < self.present@.len() && self.present@[self.touched@[k] as int] by {
                    if k < c {
                        assert(old_order[k] == self.touched@[k]);
                    }
                }
            }
        }
        true
    }

    /// The value this source provides for a slot, if it provides one.
    pub fn get(&self, slot: usize) -> (r: Option<u16>)
        requires
            self.wf(),
        ensures
            r == self.get_spec(slot as int),
    {
        if slot < self.present.len() && self.present[slot] {
            Some(self.values[slot])
        } else {
            None
        }
    }

    /// The slot at one position of the contribution order, and its value.
    pub fn contribution(&self, index: usize) -> (r: Option<(usize, u16)>)
        requires
            self.wf(),
        ensures
            match r {
                Some((slot, value)) => index < self.order_spec().len() && slot == self.order_spec()[index as int]
                    && self.get_spec(slot as int) == Some(value),
                None => index >= self.order_spec().len(),
            },
    {
        if index >= self.count {
            return None;
        }
        let slot = self.touched[index] as usize;
        proof {
            assert(self.order_spec()[index as int] == self.touched@[index as int]);
        }
        Some((slot, self.values[slot]))
    }

    /// Every value this source provides, in the order they were first set.
    pub fn contributions(&self) -> (r: Vec<(usize, u16)>)
        requires
            self.wf(),
        ensures
            r@.len() == self.order_spec().len(),
            forall|k: int|
                0 <= k < r@.len() ==> (#[trigger] r@[k]).0 == self.order_spec()[k] && self.get_spec(
                    r@[k].0 as int,
                ) == Some(r@[k].1),
    {
        let mut out: Vec<(usize, u16)> = Vec::new();
        let mut i: usize = 0;
        let n = self.len();
        while i < n
            invariant
                0 <= i <= n,
                n == self.order_spec().len(),
                self.wf(),
                out@.len() == i,
                forall|k: int|
                    0 <= k < i ==> (#[trigger] out@[k]).0 == self.order_spec()[k] && self.get_spec(
                        out@[k].0 as int,
                    ) == Some(out@[k].1),
            decreases n - i,
        {
            match self.contribution(i) {
                Some(pair) => out.push(pair),
                None => {},
            }
            i = i + 1;
        }
        out
    }

    /// Drops every value.
    pub fn clear(&mut self)
        requires
            old(self).wf(),
        ensures
            final(self).id_spec() == old(self).id_spec(),
            final(self).activation_spec() == old(self).activation_spec(),
            final(self).master_spec() == old(self).master_spec(),
            final(self).flash_spec() == old(self).flash_spec(),
            final(self).slot_len() == old(self).slot_len(),
            final(self).order_spec().len() == 0,
            final(self).wf(),
            forall|s: int| #[trigger] final(self).get_spec(s) is None,
    {
        let n = self.count;
        let ghost order = self.touched@.subrange(0, n as int);
        let mut i: usize = 0;
        proof {
            assert(order.subrange(0, n as int) =~= order);
        }
        while i < n
            invariant
                0 <= i <= n,
                n == self.count,
                n <= self.touched@.len(),
                self.touched@.len() == self.present@.len(),
                self.values@.len() == self.present@.len(),
                self.present@.len() <= MAX_SLOTS,
                self.id == old(self).id,
                self.activation == old(self).activation,
                self.master == old(self).master,
                self.flash == old(self).flash,
                self.touched@ == old(self).touched@,
                self.present@.len() == old(self).present@.len(),
                order == self.touched@.subrange(0, n as int),
                forall|k: int| 0 <= k < n ==> (#[trigger] self.touched@[k]) < self.present@.len(),
                forall|s: int|
                    0 <= s < self.present@.len() && #[trigger] self.present@[s] ==> exists|w: int|
                        i <= w < n && order[w] as int == s,
            decreases n - i,
        {
            let slot = self.touched[i] as usize;
            let ghost before = self.present@;
            self.present.set(slot, false);
            proof {
                assert(order[i as int] == self.touched@[i as int]);
                assert forall|s: int|
                    0 <= s < self.present@.len() && #[trigger] self.present@[s] implies exists|w: int|
                    i + 1 <= w < n && order[w] as int == s by {
                    assert(before[s]);
                    let w = choose|w: int| i <= w < n && order[w] as int == s;
                    assert(w != i);
                }
            }
            i = i + 1;
        }
        self.count = 0;
        proof {
            assert(self.touched@.subrange(0, 0) =~= Seq::<u32>::empty());
            assert forall|s: int| 0 <= s < self.present@.len() implies !self.present@[s] by {
                if self.present@[s] {
                    let w = choose|w: int| n <= w < n && order[w] as int == s;
                }
            }
        }
    }
}

impl Keyed for PlaybackId {
    open spec fn key_spec(&self) -> int {
        self.0 as int
    }

    fn key(&self) -> (r: u64) {
        self.0 as u64
    }
}

/// What one active source contributes to one slot, as the pure merge sees it.
pub open spec fn source_value(src: PlaybackSource, slot: int) -> SourceValue {
    SourceValue {
        activation: src.activation_spec()->0,
        executor: ExecutorId(src.id_spec().0),
        master: src.effective_master_spec(),
        value: src.get_spec(slot)->0,
    }
}

/// The active sources that provide `slot`, in source order.
pub open spec fn providers(sources: Seq<PlaybackSource>, slot: int) -> Seq<SourceValue>
    decreases sources.len(),
{
    if sources.len() == 0 {
        Seq::empty()
    } else {
        let rest = providers(sources.drop_last(), slot);
        let src = sources.last();
        if src.activation_spec() is Some && src.get_spec(slot) is Some {
            rest.push(source_value(src, slot))
        } else {
            rest
        }
    }
}

/// What the playback layer resolves one slot of the plan to.
pub open spec fn resolved(sources: Seq<PlaybackSource>, plan: Seq<AttributeSlot>, slot: int) -> u16 {
    merge_playbacks_spec(plan[slot].merge_mode, plan[slot].home, providers(sources, slot))
}

/// The winner so far for one slot.
#[derive(Debug, Clone, Copy)]
pub struct Accumulator {
    /// LTP ordering key of the winning source: activation, then playback.
    pub order: (u64, u64),
    /// The winning value: an LTP source's value, or the running HTP maximum.
    pub value: u16,
    /// Whether any source has contributed.
    pub covered: bool,
}

/// An accumulator that has seen exactly the contributions `vs`.
pub open spec fn acc_ok(a: Accumulator, mode: MergeMode, vs: Seq<SourceValue>) -> bool {
    &&& a.covered == (vs.len() > 0)
    &&& vs.len() > 0 ==> a.value == merge_playbacks_spec(mode, 0, vs)
    &&& (vs.len() > 0 && mode == MergeMode::Ltp) ==> a.order == (
        vs[crate::merge::ltp_winner(vs)].activation,
        vs[crate::merge::ltp_winner(vs)].executor.0 as u64,
    )
}

/// One contribution folded into an accumulator, as the resolve does it.
pub open spec fn acc_step(a: Accumulator, mode: MergeMode, sv: SourceValue) -> Accumulator {
    match mode {
        MergeMode::Htp => {
            let m = crate::merge::mastered_spec(sv);
            if !a.covered || m > a.value {
                Accumulator { value: m, covered: true, ..a }
            } else {
                Accumulator { covered: true, ..a }
            }
        },
        MergeMode::Ltp => {
            let key = (sv.activation, sv.executor.0 as u64);
            if !a.covered || a.order.0 < key.0 || (a.order.0 == key.0 && a.order.1 <= key.1) {
                Accumulator { order: key, value: sv.value, covered: true }
            } else {
                Accumulator { covered: true, ..a }
            }
        },
    }
}

/// Folding a contribution in keeps the accumulator honest.
pub proof fn lemma_acc_step(a: Accumulator, mode: MergeMode, vs: Seq<SourceValue>, sv: SourceValue)
    requires
        acc_ok(a, mode, vs),
    ensures
        acc_ok(acc_step(a, mode, sv), mode, vs.push(sv)),
{
    let t = vs.push(sv);
    assert(t.drop_last() =~= vs);
    assert(t.last() == sv);
    if vs.len() == 0 {
        assert(t.len() == 1);
        assert(t[0] == sv);
        assert(crate::merge::ltp_winner(t) == 0);
        assert(crate::merge::htp_over(t) == crate::merge::mastered_spec(sv) as int);
    } else {
        crate::merge::lemma_ltp_winner_is_latest(vs);
        crate::merge::lemma_htp_over_is_max(vs);
        let w = crate::merge::ltp_winner(vs);
        assert(t[w] == vs[w]);
        let i0 = choose|i: int| 0 <= i < vs.len() && crate::merge::htp_over(vs) == crate::merge::mastered_spec(vs[i]) as int;
        assert(0 <= crate::merge::htp_over(vs) <= 65535);
        assert(crate::merge::htp_over(t) == crate::merge::max_spec(crate::merge::htp_over(vs), crate::merge::mastered_spec(sv) as int));
        assert(crate::merge::ltp_winner(t) == if crate::merge::order_le(vs[w], sv) { vs.len() as int } else { w });
    }
}

/// What is left of a layer after one playback is switched on: it takes the
/// next activation stamp and nothing else moves. A playback the layer does not
/// have, or one already on, changes nothing.
pub open spec fn activated(before: PlaybackLayer, after: PlaybackLayer, id: PlaybackId) -> bool {
    if (before.position_of(id) matches Some(i) && before.sources_spec()[i].activation_spec() is None) {
        (before.position_of(id) matches Some(i) && {
                let stamp = before.next_activation_spec();
                let s = after.sources_spec()[i];
                &&& after.sources_spec().len() == before.sources_spec().len()
                &&& s.activation_spec() == Some(stamp)
                &&& s.id_spec() == before.sources_spec()[i].id_spec()
                &&& s.slot_len() == before.sources_spec()[i].slot_len()
                &&& s.master_spec() == before.sources_spec()[i].master_spec()
                &&& s.flash_spec() == before.sources_spec()[i].flash_spec()
                &&& forall|k: int| s.get_spec(k) == before.sources_spec()[i].get_spec(k)
                &&& s.order_spec() == before.sources_spec()[i].order_spec()
                &&& forall|k: int| 0 <= k < after.sources_spec().len() && k != i ==> after.sources_spec()[k] == before.sources_spec()[k]
                &&& after.next_activation_spec() == if stamp == u64::MAX { stamp } else { (stamp + 1) as u64 }
                &&& forall|k: int| 0 <= k < before.sources_spec().len() && (#[trigger] before.sources_spec()[k]).activation_spec() is Some ==> stamp_before(before.sources_spec()[k].activation_spec()->0, stamp)
            })
    } else {
        after == before
    }
}

/// What is left of a layer after one playback is switched off: it leaves the
/// merge and nothing else moves. A playback the layer does not have, or one
/// already off, changes nothing.
pub open spec fn deactivated(before: PlaybackLayer, after: PlaybackLayer, id: PlaybackId) -> bool {
    if (before.position_of(id) matches Some(i) && before.sources_spec()[i].activation_spec() is Some) {
        (before.position_of(id) matches Some(i) && after.sources_spec().len() == before.sources_spec().len()
                && after.sources_spec()[i].activation_spec() is None
                && after.sources_spec()[i].id_spec() == before.sources_spec()[i].id_spec()
                && after.sources_spec()[i].slot_len() == before.sources_spec()[i].slot_len()
                && after.sources_spec()[i].master_spec() == before.sources_spec()[i].master_spec()
                && after.sources_spec()[i].flash_spec() == before.sources_spec()[i].flash_spec()
                && (forall|k: int| after.sources_spec()[i].get_spec(k) == before.sources_spec()[i].get_spec(k))
                && after.sources_spec()[i].order_spec() == before.sources_spec()[i].order_spec()
                && (forall|k: int| 0 <= k < after.sources_spec().len() && k != i ==> after.sources_spec()[k] == before.sources_spec()[k])
                && after.next_activation_spec() == before.next_activation_spec())
    } else {
        after == before
    }
}

/// What is left of a layer after one playback is given a new master level:
/// nothing else moves, and a playback the layer does not have changes nothing.
pub open spec fn master_set(before: PlaybackLayer, after: PlaybackLayer, id: PlaybackId, level: u16) -> bool {
    if before.position_of(id) is Some {
        (before.position_of(id) matches Some(i) && after.sources_spec().len() == before.sources_spec().len()
                && after.sources_spec()[i].master_spec() == level
                && after.sources_spec()[i].activation_spec() == before.sources_spec()[i].activation_spec()
                && after.sources_spec()[i].id_spec() == before.sources_spec()[i].id_spec()
                && after.sources_spec()[i].flash_spec() == before.sources_spec()[i].flash_spec()
                && (forall|k: int| after.sources_spec()[i].get_spec(k) == before.sources_spec()[i].get_spec(k))
                && after.sources_spec()[i].order_spec() == before.sources_spec()[i].order_spec()
                && (forall|k: int| 0 <= k < after.sources_spec().len() && k != i ==> after.sources_spec()[k] == before.sources_spec()[k])
                && after.next_activation_spec() == before.next_activation_spec())
    } else {
        after == before
    }
}

/// What is left of a layer after one playback is given a new flash level:
/// nothing else moves, and a playback the layer does not have changes nothing.
pub open spec fn flash_set(before: PlaybackLayer, after: PlaybackLayer, id: PlaybackId, level: Option<u16>) -> bool {
    if before.position_of(id) is Some {
        (before.position_of(id) matches Some(i) && after.sources_spec().len() == before.sources_spec().len()
                && after.sources_spec()[i].flash_spec() == level
                && after.sources_spec()[i].master_spec() == before.sources_spec()[i].master_spec()
                && after.sources_spec()[i].activation_spec() == before.sources_spec()[i].activation_spec()
                && after.sources_spec()[i].id_spec() == before.sources_spec()[i].id_spec()
                && (forall|k: int| after.sources_spec()[i].get_spec(k) == before.sources_spec()[i].get_spec(k))
                && after.sources_spec()[i].order_spec() == before.sources_spec()[i].order_spec()
                && (forall|k: int| 0 <= k < after.sources_spec().len() && k != i ==> after.sources_spec()[k] == before.sources_spec()[k])
                && after.next_activation_spec() == before.next_activation_spec())
    } else {
        after == before
    }
}

/// A flash is a layer over a playback's master, not a write to it: holding a
/// flash, moving the master while it is held, and releasing it leaves the
/// master at the level it was moved to, and that level is what applies again.
pub proof fn law_releasing_a_flash_restores_the_master(
    l0: PlaybackLayer,
    l1: PlaybackLayer,
    l2: PlaybackLayer,
    l3: PlaybackLayer,
    id: PlaybackId,
    level: u16,
)
    requires
        l0.wf(),
        l1.wf(),
        l2.wf(),
        l3.wf(),
        l0.position_of(id) is Some,
        flash_set(l0, l1, id, Some(FULL)),
        master_set(l1, l2, id, level),
        flash_set(l2, l3, id, None),
    ensures
        l3.position_of(id) matches Some(i) && l3.sources_spec()[i].master_spec() == level
            && l3.sources_spec()[i].flash_spec() is None && l3.sources_spec()[i].effective_master_spec() == level,
{
    let i = l0.position_of(id)->0;
    l1.lemma_sorted();
    l2.lemma_sorted();
    l3.lemma_sorted();
    assert(l1.sources_spec()[i].id_spec() == id);
    assert(l1.position_of(id) == Some(i));
    assert(l2.sources_spec()[i].id_spec() == id);
    assert(l2.position_of(id) == Some(i));
    assert(l3.sources_spec()[i].id_spec() == id);
    assert(l3.position_of(id) == Some(i));
}

/// Holding and releasing a flash with nothing else in between gives the
/// source back its master, its place in the merge and its values.
pub proof fn law_a_flash_and_its_release_leave_the_source_as_it_was(
    l0: PlaybackLayer,
    l1: PlaybackLayer,
    l2: PlaybackLayer,
    id: PlaybackId,
)
    requires
        l0.wf(),
        l1.wf(),
        l2.wf(),
        l0.position_of(id) matches Some(i) && l0.sources_spec()[i].flash_spec() is None,
        flash_set(l0, l1, id, Some(FULL)),
        flash_set(l1, l2, id, None),
    ensures
        l2.sources_spec().len() == l0.sources_spec().len(),
        forall|k: int|
            0 <= k < l0.sources_spec().len() ==> {
                let a = #[trigger] l2.sources_spec()[k];
                let b = l0.sources_spec()[k];
                &&& a.id_spec() == b.id_spec()
                &&& a.activation_spec() == b.activation_spec()
                &&& a.master_spec() == b.master_spec()
                &&& a.flash_spec() == b.flash_spec()
                &&& a.order_spec() == b.order_spec()
                &&& forall|slot: int| a.get_spec(slot) == b.get_spec(slot)
            },
        l2.next_activation_spec() == l0.next_activation_spec(),
{
    let i = l0.position_of(id)->0;
    l1.lemma_sorted();
    assert(l1.sources_spec()[i].id_spec() == id);
    assert(l1.position_of(id) == Some(i));
}

/// Working memory for one resolve, sized from the plan and reused every tick.
#[derive(Debug, Clone)]
pub struct MergeScratch {
    accumulators: Vec<Accumulator>,
}

impl MergeScratch {
    /// How many slots this scratch was sized for.
    pub closed spec fn len_spec(&self) -> int {
        self.accumulators@.len() as int
    }

    /// Working memory for the given plan.
    pub fn new(plan: &MergePlan) -> (r: MergeScratch)
        ensures
            r.len_spec() == plan@.len(),
    {
        let n = plan.slot_count();
        let mut accumulators: Vec<Accumulator> = Vec::new();
        let mut i: usize = 0;
        while i < n
            invariant
                0 <= i <= n,
                accumulators@.len() == i,
            decreases n - i,
        {
            accumulators.push(Accumulator { order: (0, 0), value: 0, covered: false });
            i = i + 1;
        }
        MergeScratch { accumulators }
    }
}

/// A playback switched on goes to the top of the LTP order: its stamp is
/// later than that of every other playback that is on, as long as the
/// counter has not saturated. Switching on one that is already on changes
/// nothing, so it keeps its place.
pub proof fn law_a_new_activation_is_later_than_every_earlier_one(
    before: PlaybackLayer,
    after: PlaybackLayer,
    id: PlaybackId,
)
    requires
        before.wf(),
        activated(before, after, id),
    ensures
        before.position_of(id) matches Some(i) && before.sources_spec()[i].activation_spec() is Some
            ==> after == before,
        forall|i: int|
            before.position_of(id) == Some(i) && #[trigger] before.sources_spec()[i].activation_spec() is None
                && before.next_activation_spec() < u64::MAX ==> {
                &&& after.sources_spec()[i].activation_spec() == Some(before.next_activation_spec())
                &&& forall|k: int|
                    0 <= k < after.sources_spec().len() && k != i && (#[trigger] after.sources_spec()[k]).activation_spec() is Some
                        ==> after.sources_spec()[k].activation_spec()->0 < before.next_activation_spec()
            },
{
}

/// In a layer whose sources are ordered by playback, the source carrying a
/// playback is the one its position names.
pub proof fn lemma_position_by_id(l: PlaybackLayer, id: PlaybackId, j: int)
    requires
        sorted_by_playback(l.sources_spec()),
        0 <= j < l.sources_spec().len(),
        l.sources_spec()[j].id_spec() == id,
    ensures
        l.position_of(id) == Some(j),
{
    let k = choose|i: int| 0 <= i < l.sources_spec().len() && l.sources_spec()[i].id_spec() == id;
    if k < j {
        assert(l.sources_spec()[k].id_spec().0 < l.sources_spec()[j].id_spec().0);
    } else if k > j {
        assert(l.sources_spec()[j].id_spec().0 < l.sources_spec()[k].id_spec().0);
    }
}

/// Whether a stamp was handed out before the counter reached `next`: it is
/// smaller, or the counter has saturated and stands still.
pub open spec fn stamp_before(stamp: u64, next: u64) -> bool {
    stamp < next || next == u64::MAX
}

/// Whether a list of sources is ordered by playback, each playback once.
pub open spec fn sorted_by_playback(s: Seq<PlaybackSource>) -> bool {
    forall|i: int, j: int| 0 <= i < j < s.len() ==> s[i].id_spec().0 < s[j].id_spec().0
}

/// Every playback source in the show, and the merge over them.
#[derive(Debug)]
pub struct PlaybackLayer {
    sources: Vec<PlaybackSource>,
    next_activation: u64,
}

impl PlaybackLayer {
    /// Every source is well formed, the sources are ordered by playback, and
    /// every stamp handed out is earlier than the next one, until the counter
    /// saturates.
    pub closed spec fn wf(&self) -> bool {
        &&& forall|i: int| 0 <= i < self.sources@.len() ==> (#[trigger] self.sources@[i]).wf()
        &&& sorted_by_playback(self.sources@)
        &&& forall|i: int|
            0 <= i < self.sources@.len() && (#[trigger] self.sources@[i]).activation_spec() is Some
                ==> stamp_before(self.sources@[i].activation_spec()->0, self.next_activation)
    }

    /// The sources, in playback order.
    pub closed spec fn sources_spec(&self) -> Seq<PlaybackSource> {
        self.sources@
    }

    /// The stamp the next activation will get.
    pub closed spec fn next_activation_spec(&self) -> u64 {
        self.next_activation
    }

    /// The position of a playback's source, if the layer has one.
    pub open spec fn position_of(&self, id: PlaybackId) -> Option<int> {
        if exists|i: int| 0 <= i < self.sources_spec().len() && self.sources_spec()[i].id_spec() == id {
            Some(choose|i: int| 0 <= i < self.sources_spec().len() && self.sources_spec()[i].id_spec() == id)
        } else {
            None
        }
    }

    /// A layer with the same sources and stamp as a well-formed one is well
    /// formed.
    pub proof fn lemma_same_sources(a: &PlaybackLayer, b: &PlaybackLayer)
        requires
            a.wf(),
            b.sources_spec() == a.sources_spec(),
            b.next_activation_spec() == a.next_activation_spec(),
        ensures
            b.wf(),
    {
    }

    /// The sources of a well-formed layer are ordered by playback and each is
    /// well formed; a playback stands where its source is.
    pub proof fn lemma_sorted(&self)
        requires
            self.wf(),
        ensures
            sorted_by_playback(self.sources_spec()),
            forall|i: int| 0 <= i < self.sources_spec().len() ==> (#[trigger] self.sources_spec()[i]).wf(),
            forall|i: int|
                0 <= i < self.sources_spec().len() ==> self.position_of(#[trigger] self.sources_spec()[i].id_spec())
                    == Some(i),
    {
        assert forall|i: int| 0 <= i < self.sources_spec().len() implies self.position_of(
            #[trigger] self.sources_spec()[i].id_spec(),
        ) == Some(i) by {
            let id = self.sources_spec()[i].id_spec();
            let c = choose|c: int| 0 <= c < self.sources_spec().len() && self.sources_spec()[c].id_spec() == id;
            if c < i {
                assert(self.sources@[c].id_spec().0 < self.sources@[i].id_spec().0);
            }
            if c > i {
                assert(self.sources@[i].id_spec().0 < self.sources@[c].id_spec().0);
            }
        }
    }

    /// A layer is well formed after one of its sources is replaced by a
    /// well-formed source of the same playback with the same stamp.
    pub proof fn lemma_replace_source(a: &PlaybackLayer, b: &PlaybackLayer, i: int)
        requires
            a.wf(),
            0 <= i < a.sources_spec().len(),
            b.sources_spec() == a.sources_spec().update(i, b.sources_spec()[i]),
            b.sources_spec()[i].wf(),
            b.sources_spec()[i].id_spec() == a.sources_spec()[i].id_spec(),
            b.sources_spec()[i].activation_spec() == a.sources_spec()[i].activation_spec(),
            b.next_activation_spec() == a.next_activation_spec(),
        ensures
            b.wf(),
    {
        assert forall|k: int| 0 <= k < b.sources@.len() implies (#[trigger] b.sources@[k]).wf() by {
            if k != i {
                assert(b.sources@[k] == a.sources@[k]);
            }
        }
        assert forall|x: int, y: int|
            0 <= x < y < b.sources@.len() implies b.sources@[x].id_spec().0 < b.sources@[y].id_spec().0 by {
            assert(a.sources@[x].id_spec().0 < a.sources@[y].id_spec().0);
        }
        assert forall|k: int|
            0 <= k < b.sources@.len() && (#[trigger] b.sources@[k]).activation_spec() is Some implies stamp_before(b.sources@[k].activation_spec()->0, b.next_activation) by {
            assert(a.sources@[k].activation_spec() == b.sources@[k].activation_spec());
        }
    }

    /// One source per playback, none of them active, each with its master at
    /// full. A playback listed twice becomes one source.
    ///
    /// Refused with [`MergeError::TooManySources`], carrying the number of
    /// distinct playbacks, when there are more than [`MAX_SOURCES`].
    pub fn new(plan: &MergePlan, playbacks: &[PlaybackId]) -> (r: Result<PlaybackLayer, MergeError>)
        ensures
            playbacks@.to_set().len() > MAX_SOURCES <==> r is Err,
            r matches Err(e) ==> e == MergeError::TooManySources(playbacks@.to_set().len() as usize),
            r matches Ok(layer) ==> {
                &&& layer.wf()
                &&& layer.next_activation_spec() == 0
                &&& layer.sources_spec().len() == playbacks@.to_set().len()
                &&& forall|p: PlaybackId|
                    playbacks@.contains(p) <==> exists|i: int|
                        0 <= i < layer.sources_spec().len() && #[trigger] layer.sources_spec()[i].id_spec() == p
                &&& forall|i: int|
                    0 <= i < layer.sources_spec().len() ==> {
                        let s = #[trigger] layer.sources_spec()[i];
                        &&& s.activation_spec() is None
                        &&& s.master_spec() == FULL
                        &&& s.flash_spec() is None
                        &&& s.slot_len() == plan@.len()
                        &&& forall|k: int| s.get_spec(k) is None
                    }
            },
    {
        let mut ids: Vec<PlaybackId> = Vec::new();
        let ghost mut acc: Seq<PlaybackId> = Seq::empty();
        let mut i: usize = 0;
        while i < playbacks.len()
            invariant
                0 <= i <= playbacks.len(),
                crate::sorted::strictly_sorted(ids@),
                ids@.to_set() == playbacks@.subrange(0, i as int).to_set(),
                ids@.to_set() == acc.to_set(),
                ids@.len() == acc.len(),
                acc.len() <= i,
            decreases playbacks.len() - i,
        {
            let id = playbacks[i];
            let found = contains_playback(&ids, id);
            proof {
                assert(playbacks@.subrange(0, i as int + 1) =~= playbacks@.subrange(0, i as int).push(id));
            }
            if !found {
                proof {
                    assert forall|k: int| 0 <= k < acc.len() implies (#[trigger] acc[k]).key_spec() != id.key_spec() by {
                        assert(acc.to_set().contains(acc[k]));
                        assert(ids@.to_set().contains(acc[k]));
                    }
                }
                crate::sorted::insert_sorted(&mut ids, id, Ghost(acc));
                proof {
                    acc.lemma_push_to_set_commute(id);
                    playbacks@.subrange(0, i as int).lemma_push_to_set_commute(id);
                    acc = acc.push(id);
                    assert(ids@.to_set() =~= playbacks@.subrange(0, i as int + 1).to_set());
                }
            } else {
                proof {
                    playbacks@.subrange(0, i as int).lemma_push_to_set_commute(id);
                    assert(ids@.to_set().contains(id));
                    assert(ids@.to_set() =~= playbacks@.subrange(0, i as int + 1).to_set());
                }
            }
            i = i + 1;
        }
        proof {
            assert(playbacks@.subrange(0, playbacks@.len() as int) =~= playbacks@);
            assert(ids@.no_duplicates()) by {
                assert forall|x: int, y: int| 0 <= x < ids@.len() && 0 <= y < ids@.len() && x != y implies ids@[x] != ids@[y] by {
                    if x < y { assert(ids@[x].key_spec() < ids@[y].key_spec()); }
                    else { assert(ids@[y].key_spec() < ids@[x].key_spec()); }
                }
            }
            ids@.unique_seq_to_set();
        }
        if ids.len() > MAX_SOURCES {
            return Err(MergeError::TooManySources(ids.len()));
        }
        let slots = plan.slot_count();
        let mut sources: Vec<PlaybackSource> = Vec::new();
        let mut j: usize = 0;
        while j < ids.len()
            invariant
                0 <= j <= ids@.len(),
                sources@.len() == j,
                slots == plan@.len(),
                slots <= MAX_SLOTS,
                crate::sorted::strictly_sorted(ids@),
                forall|k: int| 0 <= k < j ==> (#[trigger] sources@[k]).id_spec() == ids@[k],
                forall|k: int|
                    0 <= k < j ==> {
                        let s = #[trigger] sources@[k];
                        &&& s.wf()
                        &&& s.activation_spec() is None
                        &&& s.master_spec() == FULL
                        &&& s.flash_spec() is None
                        &&& s.slot_len() == plan@.len()
                        &&& forall|q: int| s.get_spec(q) is None
                    },
            decreases ids@.len() - j,
        {
            sources.push(PlaybackSource::new(ids[j], slots));
            j = j + 1;
        }
        let layer = PlaybackLayer { sources, next_activation: 0 };
        proof {
            assert forall|p: PlaybackId|
                playbacks@.contains(p) <==> exists|x: int|
                    0 <= x < layer.sources_spec().len() && #[trigger] layer.sources_spec()[x].id_spec() == p by {
                if playbacks@.contains(p) {
                    assert(playbacks@.to_set().contains(p));
                    assert(ids@.to_set().contains(p));
                    let w = choose|w: int| 0 <= w < ids@.len() && ids@[w] == p;
                    assert(layer.sources_spec()[w].id_spec() == p);
                }
                if exists|x: int| 0 <= x < layer.sources_spec().len() && #[trigger] layer.sources_spec()[x].id_spec() == p {
                    let x = choose|x: int| 0 <= x < layer.sources_spec().len() && #[trigger] layer.sources_spec()[x].id_spec() == p;
                    assert(ids@[x] == p);
                    assert(ids@.to_set().contains(p));
                    assert(playbacks@.to_set().contains(p));
                }
            }
            assert forall|x: int, y: int| 0 <= x < y < layer.sources@.len() implies layer.sources@[x].id_spec().0 < layer.sources@[y].id_spec().0 by {
                assert(ids@[x].key_spec() < ids@[y].key_spec());
            }
        }
        Ok(layer)
    }

    /// How many sources this layer holds.
    pub fn source_count(&self) -> (r: usize)
        ensures
            r == self.sources_spec().len(),
    {
        self.sources.len()
    }

    /// Every source, in playback order.
    pub fn sources(&self) -> (r: &[PlaybackSource])
        ensures
            r@ == self.sources_spec(),
    {
        self.sources.as_slice()
    }

    /// The position of a playback's source: a binary search over the sources,
    /// which are ordered by playback.
    pub fn index_of(&self, id: PlaybackId) -> (r: Option<usize>)
        requires
            self.wf(),
        ensures
            r matches Some(i) ==> i < self.sources_spec().len() && self.sources_spec()[i as int].id_spec() == id,
            r is None ==> forall|i: int| 0 <= i < self.sources_spec().len() ==> self.sources_spec()[i].id_spec() != id,
            r matches Some(i) ==> self.position_of(id) == Some(i as int),
            r is None ==> self.position_of(id) is None,
    {
        let mut lo: usize = 0;
        let mut hi: usize = self.sources.len();
        while lo < hi
            invariant
                0 <= lo <= hi <= self.sources@.len(),
                sorted_by_playback(self.sources@),
                forall|i: int| 0 <= i < lo ==> self.sources@[i].id_spec().0 < id.0,
                forall|i: int| hi <= i < self.sources@.len() ==> self.sources@[i].id_spec().0 > id.0,
            decreases hi - lo,
        {
            let mid = lo + (hi - lo) / 2;
            let here = self.sources[mid].id();
            if here.0 == id.0 {
                proof {
                    assert(self.sources@[mid as int].id_spec() == id);
                    let c = choose|i: int| 0 <= i < self.sources_spec().len() && self.sources_spec()[i].id_spec() == id;
                    if c < mid { assert(self.sources@[c].id_spec().0 < self.sources@[mid as int].id_spec().0); }
                    if c > mid { assert(self.sources@[mid as int].id_spec().0 < self.sources@[c].id_spec().0); }
                }
                return Some(mid);
            } else if here.0 < id.0 {
                lo = mid + 1;
            } else {
                hi = mid;
            }
        }
        None
    }

    /// One source by playback.
    pub fn source(&self, id: PlaybackId) -> (r: Option<&PlaybackSource>)
        requires
            self.wf(),
        ensures
            match r {
                Some(s) => self.position_of(id) matches Some(i) && *s == self.sources_spec()[i],
                None => self.position_of(id) is None,
            },
    {
        match self.index_of(id) {
            Some(i) => Some(&self.sources[i]),
            None => None,
        }
    }

    /// One source by playback, for writing values into.
    pub fn source_mut(&mut self, id: PlaybackId) -> (r: Option<&mut PlaybackSource>)
        requires
            old(self).wf(),
        ensures
            final(self).next_activation_spec() == old(self).next_activation_spec(),
            match r {
                Some(s) => old(self).position_of(id) matches Some(i) && *s == old(self).sources_spec()[i]
                    && final(self).sources_spec() == old(self).sources_spec().update(i, *final(s)),
                None => old(self).position_of(id) is None && final(self).sources_spec() == old(self).sources_spec(),
            },
    {
        match self.index_of(id) {
            Some(i) => Some(element_mut(&mut self.sources, i)),
            None => None,
        }
    }

    /// Switches a source on and stamps it with the next activation counter.
    ///
    /// Returns `false`, changing nothing, if the playback is unknown or already
    /// active: a source that is on has not been turned on again and must not be
    /// reordered under the operator.
    pub fn activate(&mut self, id: PlaybackId) -> (r: bool)
        requires
            old(self).wf(),
        ensures
            final(self).wf(),
            r == (old(self).position_of(id) matches Some(i) && old(self).sources_spec()[i].activation_spec() is None),
            activated(*old(self), *final(self), id),
    {
        let stamp = self.next_activation;
        let i = match self.index_of(id) {
            Some(i) => i,
            None => return false,
        };
        if self.sources[i].activation.is_some() {
            return false;
        }
        let ghost before = *self;
        let src = element_mut(&mut self.sources, i);
        src.activation = Some(stamp);
        self.next_activation = if stamp == u64::MAX { stamp } else { stamp + 1 };
        proof {
            assert forall|k: int| 0 <= k < self.sources@.len() implies (#[trigger] self.sources@[k]).wf() by {
                if k != i { assert(self.sources@[k] == before.sources@[k]); }
            }
            assert forall|x: int, y: int| 0 <= x < y < self.sources@.len() implies self.sources@[x].id_spec().0 < self.sources@[y].id_spec().0 by {
                assert(before.sources@[x].id_spec().0 < before.sources@[y].id_spec().0);
            }
            assert forall|k: int| 0 <= k < self.sources@.len() && (#[trigger] self.sources@[k]).activation_spec() is Some implies stamp_before(self.sources@[k].activation_spec()->0, self.next_activation) by {
                if k != i { assert(self.sources@[k] == before.sources@[k]); }
            }
        }
        true
    }

    /// Switches a source off. Returns `false`, changing nothing, if it was
    /// unknown or already off.
    pub fn deactivate(&mut self, id: PlaybackId) -> (r: bool)
        requires
            old(self).wf(),
        ensures
            final(self).wf(),
            r == (old(self).position_of(id) matches Some(i) && old(self).sources_spec()[i].activation_spec() is Some),
            deactivated(*old(self), *final(self), id),
    {
        let i = match self.index_of(id) {
            Some(i) => i,
            None => return false,
        };
        if self.sources[i].activation.is_none() {
            return false;
        }
        let ghost before = *self;
        let src = element_mut(&mut self.sources, i);
        src.activation = None;
        proof {
            assert forall|k: int| 0 <= k < self.sources@.len() implies (#[trigger] self.sources@[k]).wf() by {
                if k != i { assert(self.sources@[k] == before.sources@[k]); }
            }
            assert forall|x: int, y: int| 0 <= x < y < self.sources@.len() implies self.sources@[x].id_spec().0 < self.sources@[y].id_spec().0 by {
                assert(before.sources@[x].id_spec().0 < before.sources@[y].id_spec().0);
            }
            assert forall|k: int| 0 <= k < self.sources@.len() && (#[trigger] self.sources@[k]).activation_spec() is Some implies stamp_before(self.sources@[k].activation_spec()->0, self.next_activation) by {
                if k != i { assert(self.sources@[k] == before.sources@[k]); }
            }
        }
        true
    }

    /// Sets a playback's stored master level, even while a flash is held.
    /// Returns `false`, changing nothing, if the playback is unknown.
    pub fn set_master(&mut self, id: PlaybackId, level: u16) -> (r: bool)
        requires
            old(self).wf(),
        ensures
            final(self).wf(),
            r == old(self).position_of(id) is Some,
            master_set(*old(self), *final(self), id, level),
    {
        let i = match self.index_of(id) {
            Some(i) => i,
            None => return false,
        };
        let ghost before = *self;
        let src = element_mut(&mut self.sources, i);
        src.master = level;
        proof {
            assert forall|k: int| 0 <= k < self.sources@.len() implies (#[trigger] self.sources@[k]).wf() by {
                if k != i { assert(self.sources@[k] == before.sources@[k]); }
            }
            assert forall|x: int, y: int| 0 <= x < y < self.sources@.len() implies self.sources@[x].id_spec().0 < self.sources@[y].id_spec().0 by {
                assert(before.sources@[x].id_spec().0 < before.sources@[y].id_spec().0);
            }
            assert forall|k: int| 0 <= k < self.sources@.len() && (#[trigger] self.sources@[k]).activation_spec() is Some implies stamp_before(self.sources@[k].activation_spec()->0, self.next_activation) by {
                if k != i { assert(self.sources@[k] == before.sources@[k]); }
            }
        }
        true
    }

    /// Holds (`Some(level)`) or releases (`None`) a flash over a playback's
    /// master. The stored master is never written, so a release restores it
    /// exactly. Returns `false`, changing nothing, if the playback is unknown.
    pub fn set_flash(&mut self, id: PlaybackId, level: Option<u16>) -> (r: bool)
        requires
            old(self).wf(),
        ensures
            final(self).wf(),
            r == old(self).position_of(id) is Some,
            flash_set(*old(self), *final(self), id, level),
    {
        let i = match self.index_of(id) {
            Some(i) => i,
            None => return false,
        };
        let ghost before = *self;
        let src = element_mut(&mut self.sources, i);
        src.flash = level;
        proof {
            assert forall|k: int| 0 <= k < self.sources@.len() implies (#[trigger] self.sources@[k]).wf() by {
                if k != i { assert(self.sources@[k] == before.sources@[k]); }
            }
            assert forall|x: int, y: int| 0 <= x < y < self.sources@.len() implies self.sources@[x].id_spec().0 < self.sources@[y].id_spec().0 by {
                assert(before.sources@[x].id_spec().0 < before.sources@[y].id_spec().0);
            }
            assert forall|k: int| 0 <= k < self.sources@.len() && (#[trigger] self.sources@[k]).activation_spec() is Some implies stamp_before(self.sources@[k].activation_spec()->0, self.next_activation) by {
                if k != i { assert(self.sources@[k] == before.sources@[k]); }
            }
        }
        true
    }
    /// Resolves every slot of the plan into `out`: HTP slots take the largest
    /// mastered contribution of the active sources, LTP slots the value of the
    /// most recently activated source that provides them, and a slot no active
    /// source provides takes its home value.
    ///
    /// Writes as far as the shortest of the plan, the scratch and `out` go and
    /// leaves the rest of `out` alone. The result depends on the plan and the
    /// source set only: the scratch is working memory, reset on entry.
    #[verifier::rlimit(30)]
    pub fn resolve(&self, plan: &MergePlan, scratch: &mut MergeScratch, out: &mut [u16])
        requires
            self.wf(),
        ensures
            final(scratch).len_spec() == old(scratch).len_spec(),
            final(out)@.len() == old(out)@.len(),
            forall|s: int|
                0 <= s < resolve_span(plan@.len() as int, old(scratch).len_spec(), old(out)@.len() as int)
                    ==> #[trigger] final(out)@[s] == resolved(self.sources_spec(), plan@, s),
            forall|s: int|
                resolve_span(plan@.len() as int, old(scratch).len_spec(), old(out)@.len() as int) <= s
                    < old(out)@.len() ==> #[trigger] final(out)@[s] == old(out)@[s],
    {
        let slots = plan.slots();
        let n_plan = slots.len();
        let n_acc = scratch.accumulators.len();
        let n = if n_plan < n_acc { n_plan } else { n_acc };

        let mut i: usize = 0;
        while i < n_acc
            invariant
                0 <= i <= n_acc,
                scratch.accumulators@.len() == n_acc,
                forall|s: int| 0 <= s < i ==> !(#[trigger] scratch.accumulators@[s]).covered,
            decreases n_acc - i,
        {
            scratch.accumulators.set(i, Accumulator { order: (0, 0), value: 0, covered: false });
            i = i + 1;
        }
        proof {
            assert forall|s: int| 0 <= s < n implies acc_ok(
                #[trigger] scratch.accumulators@[s],
                plan@[s].merge_mode,
                providers(self.sources@.subrange(0, 0), s),
            ) by {
                assert(self.sources@.subrange(0, 0).len() == 0);
            }
        }

        let ns = self.sources.len();
        let mut j: usize = 0;
        while j < ns
            invariant
                0 <= j <= ns,
                ns == self.sources@.len(),
                self.wf(),
                scratch.accumulators@.len() == n_acc,
                n <= n_acc,
                n <= n_plan,
                n_plan == plan@.len(),
                slots@ == plan@,
                n <= MAX_SLOTS,
                forall|s: int|
                    0 <= s < n ==> acc_ok(
                        #[trigger] scratch.accumulators@[s],
                        plan@[s].merge_mode,
                        providers(self.sources@.subrange(0, j as int), s),
                    ),
            decreases ns - j,
        {
            let src = &self.sources[j];
            proof {
                assert(src.wf());
                src.lemma_order_is_provided();
                assert forall|s: int| 0 <= s < n implies providers(self.sources@.subrange(0, j + 1), s)
                    == if src.activation_spec() is Some && src.get_spec(s) is Some {
                    providers(self.sources@.subrange(0, j as int), s).push(source_value(*src, s))
                } else {
                    providers(self.sources@.subrange(0, j as int), s)
                } by {
                    lemma_providers_step(self.sources@, j as int, s);
                }
            }
            match src.activation {
                None => {},
                Some(activation) => {
                    let master = src.effective_master();
                    let executor = ExecutorId(src.id.0);
                    let count = src.count;
                    let ghost order = src.order_spec();
                    let mut k: usize = 0;
                    while k < count
                        invariant
                            0 <= k <= count,
                            count == order.len(),
                            order == src.order_spec(),
                            src.wf(),
                            src == self.sources@[j as int],
                            src.activation_spec() == Some(activation),
                            master == src.effective_master_spec(),
                            executor == ExecutorId(src.id_spec().0),
                            order.no_duplicates(),
                            forall|q: int| 0 <= q < order.len() ==> src.get_spec(#[trigger] order[q] as int) is Some,
                            scratch.accumulators@.len() == n_acc,
                            n <= n_acc,
                            n <= n_plan,
                            n_plan == plan@.len(),
                            slots@ == plan@,
                            n <= MAX_SLOTS,
                            forall|s: int| 0 <= s < n ==> providers(self.sources@.subrange(0, j + 1), s)
                                == if src.get_spec(s) is Some {
                                providers(self.sources@.subrange(0, j as int), s).push(source_value(*src, s))
                            } else {
                                providers(self.sources@.subrange(0, j as int), s)
                            },
                            forall|s: int|
                                0 <= s < n ==> acc_ok(
                                    #[trigger] scratch.accumulators@[s],
                                    plan@[s].merge_mode,
                                    if order.subrange(0, k as int).contains(s as u32) {
                                        providers(self.sources@.subrange(0, j + 1), s)
                                    } else {
                                        providers(self.sources@.subrange(0, j as int), s)
                                    },
                                ),
                        decreases count - k,
                    {
                        let ghost before = scratch.accumulators@;
                        match src.contribution(k) {
                            Some((slot, value)) => {
                                proof {
                                    assert(order.subrange(0, k + 1) =~= order.subrange(0, k as int).push(order[k as int]));
                                    assert(!order.subrange(0, k as int).contains(order[k as int])) by {
                                        if order.subrange(0, k as int).contains(order[k as int]) {
                                            let w = choose|w: int| 0 <= w < k && order.subrange(0, k as int)[w] == order[k as int];
                                            assert(order[w] == order[k as int]);
                                        }
                                    }
                                }
                                if slot < n {
                                    let sv = SourceValue { activation, executor, master, value };
                                    let mode = slots[slot].merge_mode;
                                    let a = scratch.accumulators[slot];
                                    let next = fold_into(a, mode, &sv);
                                    proof {
                                        assert(sv == source_value(*src, slot as int));
                                        lemma_acc_step(
                                            a,
                                            mode,
                                            providers(self.sources@.subrange(0, j as int), slot as int),
                                            sv,
                                        );
                                    }
                                    scratch.accumulators.set(slot, next);
                                }
                                proof {
                                    assert forall|s: int| 0 <= s < n implies acc_ok(
                                        #[trigger] scratch.accumulators@[s],
                                        plan@[s].merge_mode,
                                        if order.subrange(0, k + 1).contains(s as u32) {
                                            providers(self.sources@.subrange(0, j + 1), s)
                                        } else {
                                            providers(self.sources@.subrange(0, j as int), s)
                                        },
                                    ) by {
                                        if s != slot {
                                            assert(s as u32 != slot as u32);
                                            assert(order.subrange(0, k + 1).contains(s as u32) == order.subrange(0, k as int).contains(s as u32));
                                            assert(scratch.accumulators@[s] == before[s]);
                                        } else {
                                            assert(order.subrange(0, k + 1).contains(s as u32)) by {
                                                assert(order.subrange(0, k + 1)[k as int] == s as u32);
                                            }
                                        }
                                    }
                                }
                            },
                            None => {},
                        }
                        k = k + 1;
                    }
                    proof {
                        assert(order.subrange(0, count as int) =~= order);
                    }
                },
            }
            proof {
                assert forall|s: int| 0 <= s < n implies acc_ok(
                    #[trigger] scratch.accumulators@[s],
                    plan@[s].merge_mode,
                    providers(self.sources@.subrange(0, j + 1), s),
                ) by {
                    if src.activation_spec() is Some && src.get_spec(s) is Some {
                        assert(src.order_spec().contains(s as u32));
                    }
                }
            }
            j = j + 1;
        }
        proof {
            assert(self.sources@.subrange(0, ns as int) =~= self.sources@);
        }

        let n_out = out.len();
        let m = if n < n_out { n } else { n_out };
        let mut s: usize = 0;
        while s < m
            invariant
                0 <= s <= m,
                m <= n,
                m <= n_out,
                n_out == out@.len(),
                out@.len() == old(out)@.len(),
                m == resolve_span(plan@.len() as int, n_acc as int, n_out as int),
                scratch.accumulators@.len() == n_acc,
                n <= n_acc,
                n <= n_plan,
                n_plan == plan@.len(),
                slots@ == plan@,
                forall|t: int|
                    0 <= t < n ==> acc_ok(
                        #[trigger] scratch.accumulators@[t],
                        plan@[t].merge_mode,
                        providers(self.sources_spec(), t),
                    ),
                forall|t: int| 0 <= t < s ==> #[trigger] out@[t] == resolved(self.sources_spec(), plan@, t),
                forall|t: int| s <= t < n_out ==> #[trigger] out@[t] == old(out)@[t],
            decreases m - s,
        {
            let a = scratch.accumulators[s];
            let home = slots[s].home;
            proof {
                assert(acc_ok(scratch.accumulators@[s as int], plan@[s as int].merge_mode, providers(self.sources_spec(), s as int)));
            }
            out[s] = if a.covered { a.value } else { home };
            s = s + 1;
        }
    }
}

/// The smallest of three lengths: how far a resolve writes.
pub open spec fn resolve_span(plan: int, scratch: int, out: int) -> int {
    let a = if plan < scratch { plan } else { scratch };
    if a < out { a } else { out }
}

/// Taking one more source into account adds its contribution, if it is active
/// and provides the slot, and changes nothing otherwise.
pub proof fn lemma_providers_step(sources: Seq<PlaybackSource>, j: int, slot: int)
    requires
        0 <= j < sources.len(),
    ensures
        providers(sources.subrange(0, j + 1), slot) == if sources[j].activation_spec() is Some
            && sources[j].get_spec(slot) is Some {
            providers(sources.subrange(0, j), slot).push(source_value(sources[j], slot))
        } else {
            providers(sources.subrange(0, j), slot)
        },
{
    let t = sources.subrange(0, j + 1);
    assert(t.drop_last() =~= sources.subrange(0, j));
    assert(t.last() == sources[j]);
}

/// One contribution folded into an accumulator.
fn fold_into(a: Accumulator, mode: MergeMode, sv: &SourceValue) -> (r: Accumulator)
    ensures
        r == acc_step(a, mode, *sv),
{
    match mode {
        MergeMode::Htp => {
            // The master is applied before the maximum, not to the winner.
            let mastered = sv.mastered();
            if !a.covered || mastered > a.value {
                Accumulator { order: a.order, value: mastered, covered: true }
            } else {
                Accumulator { order: a.order, value: a.value, covered: true }
            }
        },
        MergeMode::Ltp => {
            // No master: half a pan position is not a position.
            let key: (u64, u64) = (sv.activation, sv.executor.0 as u64);
            if !a.covered || a.order.0 < key.0 || (a.order.0 == key.0 && a.order.1 <= key.1) {
                Accumulator { order: key, value: sv.value, covered: true }
            } else {
                Accumulator { order: a.order, value: a.value, covered: true }
            }
        },
    }
}

fn contains_playback(ids: &Vec<PlaybackId>, id: PlaybackId) -> (r: bool)
    ensures
        r == ids@.contains(id),
{
    let mut i: usize = 0;
    while i < ids.len()
        invariant
            0 <= i <= ids@.len(),
            forall|k: int| 0 <= k < i ==> ids@[k] != id,
        decreases ids@.len() - i,
    {
        if ids[i].0 == id.0 {
            return true;
        }
        i = i + 1;
    }
    false
}

} // verus!
