//! Cues, compiled into the form the output loop can run.
//!
//! A cue list is compiled once, off the loop: fixtures and attributes become
//! slot indices into the [`MergePlan`], and what is left is flat and indexed.
//! A compiled sequence holds one entry per plan slot the whole list touches,
//! its cues in playback order each naming a range of parts, and the tracking
//! table: for every slot, the cues at which the value a walk from the top of
//! the list leaves it at changes.
use vstd::prelude::*;
use vstd::string::StringExecFns;

use crate::fixture::AttributeType;
use crate::ids::{FixtureId, PlaybackId, SequenceId};
use crate::plan::{key_of, slot_key, AttributeSlot, MergePlan, MAX_SLOTS};
use crate::sequence::{deref_seq, is_order, last_part, reordered, walk_visible, Cue, CueChange, CuePart, CueTrack, CueTrigger, Sequence};
use crate::sorted::{find_key, map_of, strictly_sorted, upsert, Keyed};
use crate::text::{decimal, push_decimal};

verus! {

/// Upper bound on cues in one sequence.
pub const MAX_CUES: usize = 10000;

/// Upper bound on the total number of resolved parts in one sequence.
pub const MAX_CUE_PARTS: usize = 1048576;

/// Why a sequence cannot be compiled or loaded.
#[derive(Debug, Clone, Copy, PartialEq, Eq)]
pub enum CueError {
    /// More cues than [`MAX_CUES`].
    TooManyCues(usize),
    /// More parts than [`MAX_CUE_PARTS`].
    TooManyParts(usize),
    /// The sequence was loaded onto a playback this engine does not have.
    UnknownPlayback(PlaybackId),
    /// The playback order handed in does not name each of this many cues
    /// exactly once.
    NotAnOrder(usize),
}

/// What a refused sequence is told, in words.
pub open spec fn cue_error_text(e: CueError) -> Seq<char> {
    match e {
        CueError::TooManyCues(count) => decimal(count as nat) + " cues exceeds the limit of 10000"@,
        CueError::TooManyParts(count) => decimal(count as nat)
            + " cue parts exceeds the limit of 1048576"@,
        CueError::UnknownPlayback(playback) => "sequence "@ + decimal(playback.0 as nat)
            + " is not in this patch"@,
        CueError::NotAnOrder(count) => "the playback order does not name each of the "@ + decimal(
            count as nat,
        ) + " cues exactly once"@,
    }
}

impl CueError {
    /// The sentence an operator reads for this refusal.
    pub fn message(&self) -> (r: String)
        ensures
            r@ == cue_error_text(*self),
    {
        match *self {
            CueError::TooManyCues(count) => {
                let mut s = String::new();
                push_decimal(&mut s, count as u64);
                s.append(" cues exceeds the limit of 10000");
                s
            },
            CueError::TooManyParts(count) => {
                let mut s = String::new();
                push_decimal(&mut s, count as u64);
                s.append(" cue parts exceeds the limit of 1048576");
                s
            },
            CueError::UnknownPlayback(playback) => {
                let mut s = String::new();
                s.append("sequence ");
                push_decimal(&mut s, playback.0 as u64);
                s.append(" is not in this patch");
                s
            },
            CueError::NotAnOrder(count) => {
                let mut s = String::new();
                s.append("the playback order does not name each of the ");
                push_decimal(&mut s, count as u64);
                s.append(" cues exactly once");
                s
            },
        }
    }
}

/// Where a fade has got to: `from` at the start, `to` once `duration` ticks
/// have passed, and the truncated straight line between.
pub open spec fn interpolate_spec(from: u16, to: u16, elapsed: u64, duration: u64) -> u16 {
    if elapsed >= duration {
        to
    } else if to >= from {
        (from + (to - from) * elapsed / (duration as int)) as u16
    } else {
        (from - (from - to) * elapsed / (duration as int)) as u16
    }
}

proof fn lemma_moved_below_span(span: int, elapsed: int, duration: int)
    requires
        0 <= span,
        0 <= elapsed < duration,
    ensures
        0 <= span * elapsed / duration <= span,
        span * elapsed / duration < span || span == 0,
{
    assert(0 <= span * elapsed) by (nonlinear_arith)
        requires
            0 <= span,
            0 <= elapsed,
    ;
    assert(span * elapsed <= span * duration) by (nonlinear_arith)
        requires
            0 <= span,
            elapsed < duration,
    ;
    assert(span * elapsed / duration <= span) by (nonlinear_arith)
        requires
            0 <= span * elapsed <= span * duration,
            0 < duration,
    ;
    if span > 0 {
        assert(span * elapsed < span * duration) by (nonlinear_arith)
            requires
                0 < span,
                elapsed < duration,
        ;
        assert(span * elapsed / duration < span) by (nonlinear_arith)
            requires
                0 <= span * elapsed < span * duration,
                0 < duration,
        ;
    }
    assert(0 <= span * elapsed / duration) by (nonlinear_arith)
        requires
            0 <= span * elapsed,
            0 < duration,
    ;
}

/// Where a fade has got to: `from` at `elapsed` 0, `to` from `duration` on.
/// Sixteen-bit throughout. A duration of zero is a fade that is already over.
pub fn interpolate(from: u16, to: u16, elapsed: u64, duration: u64) -> (r: u16)
    ensures
        r == interpolate_spec(from, to, elapsed, duration),
{
    if elapsed >= duration {
        return to;
    }
    let span: u128 = if to >= from {
        (to - from) as u128
    } else {
        (from - to) as u128
    };
    proof {
        lemma_moved_below_span(span as int, elapsed as int, duration as int);
        assert(span * (elapsed as u128) <= 65535 * 0xffff_ffff_ffff_ffff) by (nonlinear_arith)
            requires
                span <= 65535,
                elapsed <= 0xffff_ffff_ffff_ffff,
        ;
    }
    let moved = span * (elapsed as u128) / (duration as u128);
    if to >= from {
        from + moved as u16
    } else {
        from - moved as u16
    }
}

/// A fade never leaves the interval it is fading across.
pub proof fn law_a_fade_never_leaves_its_interval(from: u16, to: u16, elapsed: u64, duration: u64)
    ensures
        (if from < to { from } else { to }) <= interpolate_spec(from, to, elapsed, duration),
        interpolate_spec(from, to, elapsed, duration) <= (if from < to { to } else { from }),
{
    if elapsed < duration {
        if to >= from {
            lemma_moved_below_span((to - from) as int, elapsed as int, duration as int);
        } else {
            lemma_moved_below_span((from - to) as int, elapsed as int, duration as int);
        }
    }
}

/// Part way through, a fade has moved its share of the distance, `elapsed /
/// duration` of the way from `from` towards `to`, dropping what is left under
/// one step.
pub proof fn law_a_fade_moves_its_share_of_the_distance(from: u16, to: u16, elapsed: u64, duration: u64)
    requires
        elapsed < duration,
    ensures
        ({
            let r = interpolate_spec(from, to, elapsed, duration) as int;
            let span: int = if to >= from { to - from } else { from - to };
            let moved: int = if to >= from { r - from } else { from - r };
            &&& 0 <= moved
            &&& moved * duration <= span * elapsed
            &&& span * elapsed < (moved + 1) * duration
        }),
{
    let span: int = if to >= from { to - from } else { from - to };
    lemma_moved_below_span(span, elapsed as int, duration as int);
    let q = span * elapsed as int / duration as int;
    assert(q * duration <= span * elapsed < (q + 1) * duration) by (nonlinear_arith)
        requires
            span * elapsed >= 0,
            duration > 0,
            q == span * elapsed / duration as int,
    ;
}

/// A fade starts where it starts and ends where it is going, and stays there.
pub proof fn law_a_fade_starts_at_its_start_and_ends_at_its_target(
    from: u16,
    to: u16,
    elapsed: u64,
    duration: u64,
)
    ensures
        duration > 0 ==> interpolate_spec(from, to, 0, duration) == from,
        elapsed >= duration ==> interpolate_spec(from, to, elapsed, duration) == to,
{
    if duration > 0 {
        lemma_moved_below_span(if to >= from { (to - from) as int } else { (from - to) as int }, 0, duration as int);
        assert((if to >= from { (to - from) as int } else { (from - to) as int }) * 0 == 0);
    }
}

/// A fade only ever moves towards its target as time passes.
pub proof fn law_a_fade_is_monotone_in_time(from: u16, to: u16, earlier: u64, later: u64, duration: u64)
    requires
        earlier <= later,
    ensures
        to >= from ==> interpolate_spec(from, to, earlier, duration) <= interpolate_spec(from, to, later, duration),
        to < from ==> interpolate_spec(from, to, earlier, duration) >= interpolate_spec(from, to, later, duration),
{
    let span: int = if to >= from { (to - from) as int } else { (from - to) as int };
    if earlier < duration {
        lemma_moved_below_span(span, earlier as int, duration as int);
        if later < duration {
            lemma_moved_below_span(span, later as int, duration as int);
            assert(span * earlier <= span * later) by (nonlinear_arith)
                requires
                    0 <= span,
                    earlier <= later,
            ;
            assert(span * earlier / (duration as int) <= span * later / (duration as int)) by (nonlinear_arith)
                requires
                    span * earlier <= span * later,
                    0 < duration,
            ;
        }
    }
}

/// One plan slot a sequence touches, with what the player needs about it.
#[derive(Debug, Clone, Copy, PartialEq, Eq, Structural)]
pub struct CueSlot {
    /// Index into the merge plan this sequence was compiled against.
    pub slot: usize,
    /// The value this attribute falls back to: where a release fades it to.
    pub home: u16,
    /// Whether the attribute merges HTP. Only an intensity is faded out on
    /// release.
    pub htp: bool,
}

impl Keyed for CueSlot {
    open spec fn key_spec(&self) -> int {
        self.slot as int
    }

    fn key(&self) -> (r: u64) {
        self.slot as u64
    }
}

/// One value a cue provides.
#[derive(Debug, Clone, Copy, PartialEq, Eq, Structural)]
pub struct CueValue {
    /// Index into the sequence's own slots, not into the merge plan.
    pub slot: u32,
    /// The value to fade to.
    pub value: u16,
}

impl Keyed for CueValue {
    open spec fn key_spec(&self) -> int {
        self.slot as int
    }

    fn key(&self) -> (r: u64) {
        self.slot as u64
    }
}

/// Where a slot's tracked value changes, and what it changes to. `None` is not
/// held at all, which is a different thing from held at zero.
#[derive(Debug, Clone, Copy, PartialEq, Eq, Structural)]
pub struct TrackPoint {
    /// The cue, by playback index, from which the value is in force.
    pub cue: u32,
    /// What the list holds the slot at from that cue on.
    pub value: Option<u16>,
}

/// One cue, compiled: times in ticks, parts as a range.
#[derive(Debug, Clone, PartialEq, Eq)]
pub struct CuePlan {
    number: String,
    fade_in: u64,
    fade_out: u64,
    delay: u64,
    trigger: CueTrigger,
    trigger_ticks: Option<u64>,
    first: usize,
    len: usize,
}

/// Ticks from a cue's start until it has finished fading, saturating.
pub open spec fn transition_spec(delay: u64, fade_in: u64) -> u64 {
    if delay + fade_in > u64::MAX {
        u64::MAX
    } else {
        (delay + fade_in) as u64
    }
}

impl CuePlan {
    /// The cue number as typed.
    pub closed spec fn number_spec(&self) -> Seq<char> {
        self.number@
    }

    /// Fade-in in ticks.
    pub closed spec fn fade_in_spec(&self) -> u64 {
        self.fade_in
    }

    /// Fade-out in ticks.
    pub closed spec fn fade_out_spec(&self) -> u64 {
        self.fade_out
    }

    /// Delay in ticks.
    pub closed spec fn delay_spec(&self) -> u64 {
        self.delay
    }

    /// What starts the cue.
    pub closed spec fn trigger_spec(&self) -> CueTrigger {
        self.trigger
    }

    /// Trigger time in ticks.
    pub closed spec fn trigger_ticks_spec(&self) -> Option<u64> {
        self.trigger_ticks
    }

    /// How many parts the cue has.
    pub closed spec fn len_spec(&self) -> int {
        self.len as int
    }

    /// The cue number as the operator typed it.
    pub fn number(&self) -> (r: &str)
        ensures
            r@ == self.number_spec(),
    {
        self.number.as_str()
    }

    /// Fade-in time in ticks: how long this cue takes to reach its values.
    pub fn fade_in(&self) -> (r: u64)
        ensures
            r == self.fade_in_spec(),
    {
        self.fade_in
    }

    /// Fade-out time in ticks: how long this cue's intensities take to go away
    /// when the playback is switched off.
    pub fn fade_out(&self) -> (r: u64)
        ensures
            r == self.fade_out_spec(),
    {
        self.fade_out
    }

    /// Delay in ticks before the fade starts.
    pub fn delay(&self) -> (r: u64)
        ensures
            r == self.delay_spec(),
    {
        self.delay
    }

    /// What starts this cue.
    pub fn trigger(&self) -> (r: CueTrigger)
        ensures
            r == self.trigger_spec(),
    {
        self.trigger
    }

    /// Trigger time in ticks, for a timed cue.
    pub fn trigger_ticks(&self) -> (r: Option<u64>)
        ensures
            r == self.trigger_ticks_spec(),
    {
        self.trigger_ticks
    }

    /// Ticks from this cue's start to the moment it has finished fading: its
    /// delay and its fade-in, saturating.
    pub fn transition_ticks(&self) -> (r: u64)
        ensures
            r == transition_spec(self.delay_spec(), self.fade_in_spec()),
    {
        self.delay.saturating_add(self.fade_in)
    }
}

/// Which way a Go steps.
#[derive(Debug, Clone, Copy, PartialEq, Eq, Structural, Hash)]
pub enum GoDirection {
    /// Forward, to the next cue.
    Next,
    /// Back, to the previous cue.
    Prev,
}

/// Where a Go from `current` lands in a list of `count` cues: a stopped list
/// enters at its first cue going forward and at its last going back, and a Go
/// always comes round at either end.
pub open spec fn step_spec(count: int, current: Option<usize>, direction: GoDirection) -> Option<usize> {
    if count == 0 {
        None
    } else {
        let last = count - 1;
        match current {
            None => match direction {
                GoDirection::Next => Some(0usize),
                GoDirection::Prev => Some(last as usize),
            },
            Some(c) => {
                let c = if c < last { c as int } else { last };
                match direction {
                    GoDirection::Next => if c < last { Some((c + 1) as usize) } else { Some(0usize) },
                    GoDirection::Prev => if c > 0 { Some((c - 1) as usize) } else { Some(last as usize) },
                }
            },
        }
    }
}

/// Where an automatic trigger from `current` goes: on to the next cue, round to
/// the first from the last only when the list loops, and nowhere otherwise.
pub open spec fn follow_step_spec(count: int, looping: bool, current: usize) -> Option<usize> {
    if count == 0 {
        None
    } else {
        let last = count - 1;
        let c = if current < last { current as int } else { last };
        if c < last {
            Some((c + 1) as usize)
        } else if looping {
            Some(0usize)
        } else {
            None
        }
    }
}

/// Whether some slot of the plan is the attribute a part names.
pub open spec fn resolves(plan: Seq<AttributeSlot>, p: CuePart) -> bool {
    exists|i: int| 0 <= i < plan.len() && slot_key(plan[i]) == p.key_spec()
}

/// How many parts of a list name something the plan has.
pub open spec fn resolved_in(plan: Seq<AttributeSlot>, parts: Seq<CuePart>) -> nat
    decreases parts.len(),
{
    if parts.len() == 0 {
        0
    } else {
        resolved_in(plan, parts.drop_last()) + if resolves(plan, parts.last()) { 1nat } else { 0nat }
    }
}

/// How many parts of a list name something the plan does not have.
pub open spec fn unresolved_in(plan: Seq<AttributeSlot>, parts: Seq<CuePart>) -> nat
    decreases parts.len(),
{
    if parts.len() == 0 {
        0
    } else {
        unresolved_in(plan, parts.drop_last()) + if resolves(plan, parts.last()) { 0nat } else { 1nat }
    }
}

/// How many parts of the first `n` cues name something the plan has.
pub open spec fn resolved_total(plan: Seq<AttributeSlot>, cues: Seq<Cue>, n: int) -> nat
    decreases n,
{
    if n <= 0 {
        0
    } else {
        resolved_total(plan, cues, n - 1) + resolved_in(plan, cues[n - 1].parts@)
    }
}

/// How many parts of the first `n` cues name something the plan does not have.
pub open spec fn unresolved_total(plan: Seq<AttributeSlot>, cues: Seq<Cue>, n: int) -> nat
    decreases n,
{
    if n <= 0 {
        0
    } else {
        unresolved_total(plan, cues, n - 1) + unresolved_in(plan, cues[n - 1].parts@)
    }
}

/// Whether one of the first `m` parts names plan slot `i`.
pub open spec fn part_names(plan: Seq<AttributeSlot>, parts: Seq<CuePart>, m: int, i: int) -> bool {
    exists|q: int| 0 <= q < m && #[trigger] parts[q].key_spec() == slot_key(plan[i])
}

/// Whether one of the first `n` cues names plan slot `i`.
pub open spec fn cues_name(plan: Seq<AttributeSlot>, cues: Seq<Cue>, n: int, i: int) -> bool {
    exists|c: int| 0 <= c < n && part_names(plan, #[trigger] cues[c].parts@, cues[c].parts@.len() as int, i)
}

/// Every plan slot the cues name has an entry.
pub open spec fn slots_cover(plan: Seq<AttributeSlot>, cues: Seq<Cue>, found: Seq<CueSlot>) -> bool {
    forall|i: int|
        0 <= i < plan.len() && #[trigger] cues_name(plan, cues, cues.len() as int, i) ==> exists|j: int|
            0 <= j < found.len() && (#[trigger] found[j]).slot == i
}

/// The compiled entry for plan slot `i`.
pub open spec fn cue_slot_of(plan: Seq<AttributeSlot>, i: int) -> CueSlot {
    CueSlot { slot: i as usize, home: plan[i].home, htp: plan[i].merge_mode == crate::fixture::MergeMode::Htp }
}

/// A number that saturates at the largest `usize`.
pub open spec fn saturated(n: nat) -> usize {
    if n > usize::MAX {
        usize::MAX
    } else {
        n as usize
    }
}

/// Every slot a list of cues touches, once, in plan order, and how many parts
/// named nothing the plan has; refused once the resolved parts pass the limit.
fn collect_cue_slots(plan: &MergePlan, cues: &Vec<&Cue>) -> (r: Result<(Vec<CueSlot>, usize), CueError>)
    ensures
        resolved_total(plan@, deref_seq(cues@), deref_seq(cues@).len() as int) > MAX_CUE_PARTS <==> r is Err,
        r matches Err(e) ==> e == CueError::TooManyParts((MAX_CUE_PARTS + 1) as usize),
        r matches Ok((found, _)) ==> strictly_sorted(found@),
        r matches Ok((_, unresolved_count)) ==> unresolved_count == saturated(unresolved_total(plan@, deref_seq(cues@), deref_seq(cues@).len() as int)),
        r matches Ok((found, _)) ==> forall|j: int|
            0 <= j < found@.len() ==> (#[trigger] found@[j]).slot < plan@.len() && found@[j]
                == cue_slot_of(plan@, found@[j].slot as int) && cues_name(
                plan@,
                deref_seq(cues@),
                deref_seq(cues@).len() as int,
                found@[j].slot as int,
            ),
        r matches Ok((found, _)) ==> slots_cover(plan@, deref_seq(cues@), found@),
{
    let table = plan.slots();
    let mut slots: Vec<CueSlot> = Vec::new();
    let mut unresolved: usize = 0;
    let mut resolved: usize = 0;
    let mut c: usize = 0;
    while c < cues.len()
        invariant
            0 <= c <= deref_seq(cues@).len(),
            table@ == plan@,
            crate::plan::sorted_slots(plan@),
            plan@.len() <= MAX_SLOTS,
            strictly_sorted(slots@),
            resolved == resolved_total(plan@, deref_seq(cues@), c as int),
            resolved <= MAX_CUE_PARTS,
            unresolved == saturated(unresolved_total(plan@, deref_seq(cues@), c as int)),
            forall|j: int|
                0 <= j < slots@.len() ==> (#[trigger] slots@[j]).slot < plan@.len() && slots@[j]
                    == cue_slot_of(plan@, slots@[j].slot as int) && cues_name(plan@, deref_seq(cues@), c as int, slots@[j].slot as int),
            forall|i: int|
                0 <= i < plan@.len() && #[trigger] cues_name(plan@, deref_seq(cues@), c as int, i) ==> exists|j: int|
                    0 <= j < slots@.len() && (#[trigger] slots@[j]).slot == i,
        decreases deref_seq(cues@).len() - c,
    {
        let parts = &cues[c].parts;
        let mut q: usize = 0;
        while q < parts.len()
            invariant
                0 <= c < deref_seq(cues@).len(),
                parts@ == deref_seq(cues@)[c as int].parts@,
                0 <= q <= parts@.len(),
                table@ == plan@,
                crate::plan::sorted_slots(plan@),
                plan@.len() <= MAX_SLOTS,
                strictly_sorted(slots@),
                resolved == resolved_total(plan@, deref_seq(cues@), c as int) + resolved_in(plan@, parts@.subrange(0, q as int)),
                resolved <= MAX_CUE_PARTS,
                unresolved == saturated(unresolved_total(plan@, deref_seq(cues@), c as int) + unresolved_in(plan@, parts@.subrange(0, q as int))),
                forall|j: int|
                    0 <= j < slots@.len() ==> (#[trigger] slots@[j]).slot < plan@.len() && slots@[j]
                        == cue_slot_of(plan@, slots@[j].slot as int) && (cues_name(plan@, deref_seq(cues@), c as int, slots@[j].slot as int)
                        || part_names(plan@, parts@, q as int, slots@[j].slot as int)),
                forall|i: int|
                    0 <= i < plan@.len() && #[trigger] cues_name(plan@, deref_seq(cues@), c as int, i)
                        ==> exists|j: int| 0 <= j < slots@.len() && (#[trigger] slots@[j]).slot == i,
                forall|i: int|
                    0 <= i < plan@.len() && #[trigger] part_names(plan@, parts@, q as int, i)
                        ==> exists|j: int| 0 <= j < slots@.len() && (#[trigger] slots@[j]).slot == i,
            decreases parts@.len() - q,
        {
            let part = parts[q];
            proof {
                let t = parts@.subrange(0, q + 1);
                assert(t.drop_last() =~= parts@.subrange(0, q as int));
                assert(t.last() == part);
            }
            match plan.index_of(part.fixture, part.attribute) {
                None => {
                    proof {
                        assert(!resolves(plan@, part)) by {
                            if resolves(plan@, part) {
                                let i = choose|i: int| 0 <= i < plan@.len() && slot_key(plan@[i]) == part.key_spec();
                                crate::plan::lemma_key_injective(plan@[i].fixture, plan@[i].attribute, part.fixture, part.attribute);
                            }
                        }
                    }
                    unresolved = unresolved.saturating_add(1);
                    proof {
                        assert forall|i: int|
                            0 <= i < plan@.len() && #[trigger] part_names(plan@, parts@, q + 1, i)
                                implies exists|j: int| 0 <= j < slots@.len() && (#[trigger] slots@[j]).slot == i by {
                            if !part_names(plan@, parts@, q as int, i) {
                                assert(parts@[q as int].key_spec() == slot_key(plan@[i]));
                                assert(resolves(plan@, part));
                            }
                        }
                        assert forall|j: int|
                            0 <= j < slots@.len() implies (#[trigger] slots@[j]).slot < plan@.len() && slots@[j]
                                == cue_slot_of(plan@, slots@[j].slot as int) && (cues_name(plan@, deref_seq(cues@), c as int, slots@[j].slot as int)
                                || part_names(plan@, parts@, q + 1, slots@[j].slot as int)) by {
                            if part_names(plan@, parts@, q as int, slots@[j].slot as int) {
                                let w = choose|w: int| 0 <= w < q && #[trigger] parts@[w].key_spec() == slot_key(plan@[slots@[j].slot as int]);
                            }
                        }
                    }
                },
                Some(index) => {
                    proof {
                        assert(resolves(plan@, part)) by {
                            crate::plan::lemma_key_injective(plan@[index as int].fixture, plan@[index as int].attribute, part.fixture, part.attribute);
                        }
                    }
                    if resolved >= MAX_CUE_PARTS {
                        proof {
                            lemma_resolved_total_grows(plan@, deref_seq(cues@), (c + 1) as int, deref_seq(cues@).len() as int);
                            lemma_resolved_in_grows(plan@, parts@, (q + 1) as int);
                        }
                        return Err(CueError::TooManyParts(resolved + 1));
                    }
                    resolved = resolved + 1;
                    let entry = CueSlot { slot: index, home: table[index].home, htp: table[index].merge_mode == crate::fixture::MergeMode::Htp };
                    let ghost before = slots@;
                    upsert(&mut slots, entry);
                    proof {
                        crate::plan::lemma_key_injective(plan@[index as int].fixture, plan@[index as int].attribute, part.fixture, part.attribute);
                        assert(parts@[q as int].key_spec() == slot_key(plan@[index as int]));
                        assert forall|j: int|
                            0 <= j < slots@.len() implies (#[trigger] slots@[j]).slot < plan@.len() && slots@[j]
                                == cue_slot_of(plan@, slots@[j].slot as int) && (cues_name(plan@, deref_seq(cues@), c as int, slots@[j].slot as int)
                                || part_names(plan@, parts@, q + 1, slots@[j].slot as int)) by {
                            crate::sorted::lemma_map_of_index(slots@, j);
                            let k = slots@[j].key_spec();
                            if k == index as int {
                                assert(slots@[j] == entry);
                            } else {
                                assert(map_of(before).contains_key(k));
                                let w = choose|w: int| 0 <= w < before.len() && before[w].key_spec() == k;
                                crate::sorted::lemma_map_of_index(before, w);
                                if part_names(plan@, parts@, q as int, slots@[j].slot as int) {
                                    let v = choose|v: int| 0 <= v < q && #[trigger] parts@[v].key_spec() == slot_key(plan@[slots@[j].slot as int]);
                                }
                            }
                        }
                        assert forall|i: int|
                            0 <= i < plan@.len() && #[trigger] part_names(plan@, parts@, q + 1, i)
                                implies exists|j: int| 0 <= j < slots@.len() && (#[trigger] slots@[j]).slot == i by {
                            if i == index as int {
                                assert(map_of(slots@).contains_key(i));
                                let j = choose|j: int| 0 <= j < slots@.len() && slots@[j].key_spec() == i;
                                assert(slots@[j].slot == i);
                            } else {
                                let v = choose|v: int| 0 <= v < q + 1 && #[trigger] parts@[v].key_spec() == slot_key(plan@[i]);
                                if v == q {
                                    crate::plan::lemma_key_injective(plan@[index as int].fixture, plan@[index as int].attribute, plan@[i].fixture, plan@[i].attribute);
                                    crate::sorted::lemma_key_unique(plan@, i, index as int);
                                }
                                assert(part_names(plan@, parts@, q as int, i));
                                let j0 = choose|j: int| 0 <= j < before.len() && (#[trigger] before[j]).slot == i;
                                crate::sorted::lemma_map_of_index(before, j0);
                                assert(map_of(slots@).contains_key(i));
                                let j = choose|j: int| 0 <= j < slots@.len() && slots@[j].key_spec() == i;
                                assert(slots@[j].slot == i);
                            }
                        }
                        assert forall|i: int|
                            0 <= i < plan@.len() && #[trigger] cues_name(plan@, deref_seq(cues@), c as int, i)
                                implies exists|j: int| 0 <= j < slots@.len() && (#[trigger] slots@[j]).slot == i by {
                            let j0 = choose|j: int| 0 <= j < before.len() && (#[trigger] before[j]).slot == i;
                            crate::sorted::lemma_map_of_index(before, j0);
                            assert(map_of(slots@).contains_key(i));
                            let j = choose|j: int| 0 <= j < slots@.len() && slots@[j].key_spec() == i;
                            assert(slots@[j].slot == i);
                        }
                    }
                },
            }
            q = q + 1;
        }
        proof {
            assert(parts@.subrange(0, parts@.len() as int) =~= parts@);
            assert forall|i: int|
                0 <= i < plan@.len() implies (cues_name(plan@, deref_seq(cues@), c + 1, i) <==> (cues_name(plan@, deref_seq(cues@), c as int, i)
                    || part_names(plan@, parts@, parts@.len() as int, i))) by {
                if cues_name(plan@, deref_seq(cues@), c + 1, i) {
                    let w = choose|w: int| 0 <= w < c + 1 && part_names(plan@, #[trigger] deref_seq(cues@)[w].parts@, deref_seq(cues@)[w].parts@.len() as int, i);
                    if w < c {
                        assert(cues_name(plan@, deref_seq(cues@), c as int, i));
                    }
                }
                if cues_name(plan@, deref_seq(cues@), c as int, i) {
                    let w = choose|w: int| 0 <= w < c && part_names(plan@, #[trigger] deref_seq(cues@)[w].parts@, deref_seq(cues@)[w].parts@.len() as int, i);
                    assert(part_names(plan@, deref_seq(cues@)[w].parts@, deref_seq(cues@)[w].parts@.len() as int, i));
                }
                if part_names(plan@, parts@, parts@.len() as int, i) {
                    assert(part_names(plan@, deref_seq(cues@)[c as int].parts@, deref_seq(cues@)[c as int].parts@.len() as int, i));
                }
            }
            assert forall|i: int|
                0 <= i < plan@.len() && #[trigger] cues_name(plan@, deref_seq(cues@), c + 1, i) implies exists|j: int|
                    0 <= j < slots@.len() && (#[trigger] slots@[j]).slot == i by {
                if cues_name(plan@, deref_seq(cues@), c as int, i) {
                } else {
                    assert(part_names(plan@, parts@, parts@.len() as int, i));
                }
            }
        }
        c = c + 1;
    }
    proof {
        assert(strictly_sorted(slots@));
        assert(unresolved == saturated(unresolved_total(plan@, deref_seq(cues@), deref_seq(cues@).len() as int)));
        assert(forall|j: int|
                0 <= j < slots@.len() ==> (#[trigger] slots@[j]).slot < plan@.len() && slots@[j]
                    == cue_slot_of(plan@, slots@[j].slot as int) && cues_name(
                    plan@,
                    deref_seq(cues@),
                    deref_seq(cues@).len() as int,
                    slots@[j].slot as int,
                ));
        assert(slots_cover(plan@, deref_seq(cues@), slots@));
    }
    Ok((slots, unresolved))
}

proof fn lemma_resolved_in_grows(plan: Seq<AttributeSlot>, parts: Seq<CuePart>, m: int)
    requires
        0 <= m <= parts.len(),
    ensures
        resolved_in(plan, parts.subrange(0, m)) <= resolved_in(plan, parts),
    decreases parts.len() - m,
{
    if m < parts.len() {
        lemma_resolved_in_grows(plan, parts, m + 1);
        let t = parts.subrange(0, m + 1);
        assert(t.drop_last() =~= parts.subrange(0, m));
    } else {
        assert(parts.subrange(0, m) =~= parts);
    }
}

proof fn lemma_resolved_total_grows(plan: Seq<AttributeSlot>, cues: Seq<Cue>, n: int, m: int)
    requires
        0 <= n <= m,
    ensures
        resolved_total(plan, cues, n) <= resolved_total(plan, cues, m),
    decreases m - n,
{
    if n < m {
        lemma_resolved_total_grows(plan, cues, n, m - 1);
    }
}

/// The value a cue gives the attribute of the sequence slot at `p`: that of
/// the last part naming it.
pub open spec fn value_at(plan: Seq<AttributeSlot>, slots: Seq<CueSlot>, parts: Seq<CuePart>, p: int) -> Option<u16> {
    match last_part(parts, slot_key(plan[slots[p].slot as int])) {
        Some(q) => Some(q.value),
        None => None,
    }
}

/// A cue's values as compiled: in slot order, one per sequence slot the cue
/// names, each the value of the last part naming it.
pub open spec fn values_match(
    plan: Seq<AttributeSlot>,
    slots: Seq<CueSlot>,
    parts: Seq<CuePart>,
    values: Seq<CueValue>,
) -> bool {
    &&& strictly_sorted(values)
    &&& forall|j: int|
        0 <= j < values.len() ==> (#[trigger] values[j]).slot < slots.len() && value_at(
            plan,
            slots,
            parts,
            values[j].slot as int,
        ) == Some(values[j].value)
    &&& forall|p: int|
        0 <= p < slots.len() && (#[trigger] value_at(plan, slots, parts, p)) is Some ==> exists|j: int|
            0 <= j < values.len() && values[j].slot == p
}

/// The slots of a sequence, well formed against a plan: ascending, inside
/// the plan, and within the plan's size.
pub open spec fn slots_fit(plan: Seq<AttributeSlot>, slots: Seq<CueSlot>) -> bool {
    &&& strictly_sorted(slots)
    &&& strictly_sorted(plan)
    &&& plan.len() <= MAX_SLOTS
    &&& slots.len() <= plan.len()
    &&& forall|j: int| 0 <= j < slots.len() ==> (#[trigger] slots[j]).slot < plan.len()
}

/// Ascending slot numbers below `m` number at most `m`.
proof fn lemma_ascending_slots_fit(slots: Seq<CueSlot>, m: int)
    requires
        0 <= m,
        strictly_sorted(slots),
        forall|j: int| 0 <= j < slots.len() ==> (#[trigger] slots[j]).slot < m,
    ensures
        slots.len() <= m,
{
    assert forall|k: int| 0 <= k < slots.len() implies (#[trigger] slots[k]).slot >= k by {
        lemma_ascending_from(slots, k);
    }
    if slots.len() > 0 {
        let last = slots.len() - 1;
        assert(slots[last].slot >= last);
        assert(slots[last].slot < m);
        assert(last < m);
    }
}

proof fn lemma_ascending_from(slots: Seq<CueSlot>, k: int)
    requires
        strictly_sorted(slots),
        0 <= k < slots.len(),
    ensures
        slots[k].slot >= k,
    decreases k,
{
    if k > 0 {
        lemma_ascending_from(slots, k - 1);
        assert(slots[k - 1].key_spec() < slots[k].key_spec());
    }
}

/// In a well-formed slot table, the attribute key picks out one position.
proof fn lemma_slot_positions_distinct(plan: Seq<AttributeSlot>, slots: Seq<CueSlot>, a: int, b: int)
    requires
        slots_fit(plan, slots),
        0 <= a < slots.len(),
        0 <= b < slots.len(),
        slot_key(plan[slots[a].slot as int]) == slot_key(plan[slots[b].slot as int]),
    ensures
        a == b,
{
    crate::sorted::lemma_key_unique(plan, slots[a].slot as int, slots[b].slot as int);
    crate::sorted::lemma_key_unique(slots, a, b);
}

/// Where an attribute lands in a sequence's slots, if it lands anywhere.
fn position_of_key(plan: &MergePlan, slots: &Vec<CueSlot>, fixture: FixtureId, attribute: AttributeType) -> (r: Option<usize>)
    requires
        slots_fit(plan@, slots@),
    ensures
        r matches Some(p) ==> p < slots@.len() && slot_key(plan@[slots@[p as int].slot as int]) == key_of(fixture, attribute),
        r is None ==> forall|p: int| 0 <= p < slots@.len() ==> slot_key(plan@[slots@[p].slot as int]) != key_of(fixture, attribute),
{
    match plan.index_of(fixture, attribute) {
        Some(index) => {
            proof {
                crate::plan::lemma_key_injective(plan@[index as int].fixture, plan@[index as int].attribute, fixture, attribute);
            }
            match find_key(slots, index as u64) {
                Some(p) => Some(p),
                None => {
                    proof {
                        assert forall|p: int| 0 <= p < slots@.len() implies slot_key(plan@[slots@[p].slot as int]) != key_of(fixture, attribute) by {
                            if slot_key(plan@[slots@[p].slot as int]) == key_of(fixture, attribute) {
                                crate::sorted::lemma_key_unique(plan@, slots@[p].slot as int, index as int);
                                assert(slots@[p].key_spec() == index as int);
                            }
                        }
                    }
                    None
                },
            }
        },
        None => {
            proof {
                assert forall|p: int| 0 <= p < slots@.len() implies slot_key(plan@[slots@[p].slot as int]) != key_of(fixture, attribute) by {
                    let i = slots@[p].slot as int;
                    crate::plan::lemma_key_injective(plan@[i].fixture, plan@[i].attribute, fixture, attribute);
                }
            }
            None
        },
    }
}

/// One cue's values, compiled: each resolved part as a position in the
/// sequence's slots, the last part for each slot winning.
fn cue_values(plan: &MergePlan, slots: &Vec<CueSlot>, parts: &Vec<CuePart>) -> (r: Vec<CueValue>)
    requires
        slots_fit(plan@, slots@),
    ensures
        values_match(plan@, slots@, parts@, r@),
{
    let mut values: Vec<CueValue> = Vec::new();
    let mut q: usize = 0;
    while q < parts.len()
        invariant
            0 <= q <= parts@.len(),
            slots_fit(plan@, slots@),
            strictly_sorted(values@),
            forall|k: int| #[trigger] map_of(values@).contains_key(k) ==> 0 <= k < slots@.len(),
            forall|p: int|
                0 <= p < slots@.len() ==> (#[trigger] map_of(values@).contains_key(p)) == (value_at(
                    plan@,
                    slots@,
                    parts@.subrange(0, q as int),
                    p,
                ) is Some),
            forall|p: int|
                0 <= p < slots@.len() && map_of(values@).contains_key(p) ==> Some(
                    (#[trigger] map_of(values@)[p]).value,
                ) == value_at(plan@, slots@, parts@.subrange(0, q as int), p),
        decreases parts@.len() - q,
    {
        let part = parts[q];
        let ghost before = values@;
        proof {
            let t = parts@.subrange(0, q + 1);
            assert(t.drop_last() =~= parts@.subrange(0, q as int));
            assert(t.last() == part);
        }
        match position_of_key(plan, slots, part.fixture, part.attribute) {
            Some(p) => {
                proof {
                    assert(p < MAX_SLOTS);
                }
                upsert(&mut values, CueValue { slot: p as u32, value: part.value });
                proof {
                    assert forall|x: int| 0 <= x < slots@.len() && x != p implies slot_key(plan@[slots@[x].slot as int]) != part.key_spec() by {
                        if slot_key(plan@[slots@[x].slot as int]) == part.key_spec() {
                            lemma_slot_positions_distinct(plan@, slots@, x, p as int);
                        }
                    }
                }
            },
            None => {},
        }
        q = q + 1;
    }
    proof {
        assert(parts@.subrange(0, parts@.len() as int) =~= parts@);
        assert forall|j: int| 0 <= j < values@.len() implies (#[trigger] values@[j]).slot < slots@.len() && value_at(
            plan@,
            slots@,
            parts@,
            values@[j].slot as int,
        ) == Some(values@[j].value) by {
            crate::sorted::lemma_map_of_index(values@, j);
        }
        assert forall|p: int|
            0 <= p < slots@.len() && (#[trigger] value_at(plan@, slots@, parts@, p)) is Some implies exists|j: int|
                0 <= j < values@.len() && values@[j].slot == p by {
            assert(map_of(values@).contains_key(p));
            let j = choose|j: int| 0 <= j < values@.len() && values@[j].key_spec() == p;
        }
    }
    values
}

/// The value of the last point of a run at or before cue `x`, or nothing.
pub open spec fn run_lookup(run: Seq<TrackPoint>, x: int) -> Option<u16>
    decreases run.len(),
{
    if run.len() == 0 {
        None
    } else if run.last().cue as int <= x {
        run.last().value
    } else {
        run_lookup(run.drop_last(), x)
    }
}

/// A run's points ascend by cue, all below `n`.
pub open spec fn run_ordered(run: Seq<TrackPoint>, n: int) -> bool {
    &&& forall|a: int, b: int| 0 <= a < b < run.len() ==> run[a].cue < run[b].cue
    &&& forall|a: int| 0 <= a < run.len() ==> (#[trigger] run[a]).cue < n
}

/// The attribute key of the sequence slot at `p`.
pub open spec fn position_key(plan: Seq<AttributeSlot>, slots: Seq<CueSlot>, p: int) -> int {
    slot_key(plan[slots[p].slot as int])
}

/// Looking past every point of a run finds its last point.
proof fn lemma_run_lookup_past_end(run: Seq<TrackPoint>, n: int, x: int)
    requires
        run_ordered(run, n),
        x >= n - 1,
    ensures
        run_lookup(run, x) == if run.len() == 0 { None } else { run.last().value },
{
    if run.len() > 0 {
        assert(run[run.len() - 1].cue < n);
    }
}

/// A binary search's boundary in an ascending run is what a lookup finds.
proof fn lemma_run_lookup_boundary(run: Seq<TrackPoint>, n: int, x: int, f: int)
    requires
        run_ordered(run, n),
        0 <= f <= run.len(),
        forall|i: int| 0 <= i < f ==> (#[trigger] run[i]).cue as int <= x,
        forall|i: int| f <= i < run.len() ==> (#[trigger] run[i]).cue as int > x,
    ensures
        run_lookup(run, x) == if f == 0 { None } else { run[f - 1].value },
    decreases run.len(),
{
    if run.len() > 0 {
        if f < run.len() {
            let t = run.drop_last();
            assert(run[run.len() - 1].cue as int > x);
            assert forall|a: int, b: int| 0 <= a < b < t.len() implies t[a].cue < t[b].cue by {
                assert(run[a].cue < run[b].cue);
            }
            assert forall|a: int| 0 <= a < t.len() implies (#[trigger] t[a]).cue < n by {
                assert(run[a].cue < n);
            }
            assert forall|i: int| 0 <= i < f implies (#[trigger] t[i]).cue as int <= x by {
                assert(t[i] == run[i]);
            }
            assert forall|i: int| f <= i < t.len() implies (#[trigger] t[i]).cue as int > x by {
                assert(t[i] == run[i]);
            }
            lemma_run_lookup_boundary(t, n, x, f);
            if f > 0 {
                assert(t[f - 1] == run[f - 1]);
            }
        } else {
            assert(run[run.len() - 1].cue as int <= x);
        }
    }
}

/// The tracking table of a list of cues, one run per sequence slot: the cues
/// at which the value a walk from the top leaves the slot at changes, and what
/// it changes to.
#[verifier::rlimit(40)]
fn track_runs(plan: &MergePlan, slots: &Vec<CueSlot>, cues: &Vec<&Cue>) -> (r: Vec<Vec<TrackPoint>>)
    requires
        slots_fit(plan@, slots@),
        deref_seq(cues@).len() <= MAX_CUES,
    ensures
        r@.len() == slots@.len(),
        forall|p: int|
            0 <= p < r@.len() ==> run_ordered((#[trigger] r@[p])@, deref_seq(cues@).len() as int) && r@[p]@.len()
                <= deref_seq(cues@).len(),
        forall|p: int, x: int|
            0 <= p < r@.len() && 0 <= x < deref_seq(cues@).len() ==> #[trigger] run_lookup(r@[p]@, x) == walk_visible(
                deref_seq(cues@),
                x + 1,
                position_key(plan@, slots@, p),
            ),
{
    let mut runs: Vec<Vec<TrackPoint>> = Vec::new();
    let mut p: usize = 0;
    while p < slots.len()
        invariant
            0 <= p <= slots@.len(),
            runs@.len() == p,
            forall|q: int| 0 <= q < p ==> (#[trigger] runs@[q])@.len() == 0,
        decreases slots@.len() - p,
    {
        runs.push(Vec::new());
        p = p + 1;
    }
    let mut walk = CueTrack::new();
    let mut changes: Vec<CueChange> = Vec::new();
    let mut c: usize = 0;
    while c < cues.len()
        invariant
            0 <= c <= deref_seq(cues@).len(),
            deref_seq(cues@).len() <= MAX_CUES,
            slots_fit(plan@, slots@),
            runs@.len() == slots@.len(),
            walk.wf(),
            forall|k: int|
                #[trigger] walk.tracked_at(k) == crate::sequence::walk_tracked(deref_seq(cues@), c as int, k)
                    && walk.overlay_at(k) == crate::sequence::walk_overlay(deref_seq(cues@), c as int, k),
            forall|q: int|
                0 <= q < runs@.len() ==> run_ordered((#[trigger] runs@[q])@, c as int) && runs@[q]@.len() <= c,
            forall|q: int, x: int|
                0 <= q < runs@.len() && 0 <= x < c ==> #[trigger] run_lookup(runs@[q]@, x) == walk_visible(
                    deref_seq(cues@),
                    x + 1,
                    position_key(plan@, slots@, q),
                ),
            forall|q: int|
                0 <= q < runs@.len() ==> run_lookup((#[trigger] runs@[q])@, c as int) == walk_visible(
                    deref_seq(cues@),
                    c as int,
                    position_key(plan@, slots@, q),
                ),
        decreases deref_seq(cues@).len() - c,
    {
        let ghost before_walk = walk;
        proof {
            before_walk.lemma_wf();
        }
        walk.enter(cues[c], &mut changes);
        proof {
            walk.lemma_wf();
        }
        let ghost old_runs = runs@;
        let mut j: usize = 0;
        while j < changes.len()
            invariant
                0 <= j <= changes@.len(),
                c < deref_seq(cues@).len(),
                deref_seq(cues@).len() <= MAX_CUES,
                slots_fit(plan@, slots@),
                runs@.len() == slots@.len(),
                old_runs.len() == slots@.len(),
                strictly_sorted(changes@),
                forall|i: int|
                    0 <= i < changes@.len() ==> (#[trigger] changes@[i]).value == walk_visible(
                        deref_seq(cues@),
                        c + 1,
                        changes@[i].key_spec(),
                    ),
                forall|q: int|
                    0 <= q < runs@.len() ==> (#[trigger] runs@[q])@ == if exists|i: int|
                        0 <= i < j && changes@[i].key_spec() == position_key(plan@, slots@, q) {
                        old_runs[q]@.push(TrackPoint { cue: c as u32, value: walk_visible(deref_seq(cues@), c + 1, position_key(plan@, slots@, q)) })
                    } else {
                        old_runs[q]@
                    },
            decreases changes@.len() - j,
        {
            let change = changes[j];
            match position_of_key(plan, slots, change.fixture, change.attribute) {
                Some(q) => {
                    let ghost before = runs@;
                    let run = crate::slots::element_mut(&mut runs, q);
                    run.push(TrackPoint { cue: c as u32, value: change.value });
                    proof {
                        assert forall|x: int| 0 <= x < runs@.len() implies (#[trigger] runs@[x])@ == if exists|i: int|
                            0 <= i < j + 1 && changes@[i].key_spec() == position_key(plan@, slots@, x) {
                            old_runs[x]@.push(TrackPoint { cue: c as u32, value: walk_visible(deref_seq(cues@), c + 1, position_key(plan@, slots@, x)) })
                        } else {
                            old_runs[x]@
                        } by {
                            if x == q {
                                if exists|i: int| 0 <= i < j && changes@[i].key_spec() == position_key(plan@, slots@, x) {
                                    let i = choose|i: int| 0 <= i < j && changes@[i].key_spec() == position_key(plan@, slots@, x);
                                    assert(changes@[i].key_spec() < changes@[j as int].key_spec());
                                }
                                assert(changes@[j as int].key_spec() == position_key(plan@, slots@, x));
                            } else {
                                assert(before[x] == runs@[x]);
                                if exists|i: int| 0 <= i < j + 1 && changes@[i].key_spec() == position_key(plan@, slots@, x) {
                                    let i = choose|i: int| 0 <= i < j + 1 && changes@[i].key_spec() == position_key(plan@, slots@, x);
                                    if i == j {
                                        lemma_slot_positions_distinct(plan@, slots@, x, q as int);
                                    }
                                }
                            }
                        }
                    }
                },
                None => {
                    proof {
                        assert forall|x: int| 0 <= x < runs@.len() implies (#[trigger] runs@[x])@ == if exists|i: int|
                            0 <= i < j + 1 && changes@[i].key_spec() == position_key(plan@, slots@, x) {
                            old_runs[x]@.push(TrackPoint { cue: c as u32, value: walk_visible(deref_seq(cues@), c + 1, position_key(plan@, slots@, x)) })
                        } else {
                            old_runs[x]@
                        } by {
                            if exists|i: int| 0 <= i < j + 1 && changes@[i].key_spec() == position_key(plan@, slots@, x) {
                                let i = choose|i: int| 0 <= i < j + 1 && changes@[i].key_spec() == position_key(plan@, slots@, x);
                                assert(i != j);
                            }
                        }
                    }
                },
            }
            j = j + 1;
        }
        proof {
            assert forall|q: int| 0 <= q < runs@.len() implies {
                &&& run_ordered((#[trigger] runs@[q])@, c + 1)
                &&& runs@[q]@.len() <= c + 1
                &&& forall|x: int| 0 <= x < c + 1 ==> #[trigger] run_lookup(runs@[q]@, x) == walk_visible(deref_seq(cues@), x + 1, position_key(plan@, slots@, q))
                &&& run_lookup(runs@[q]@, c + 1) == walk_visible(deref_seq(cues@), c + 1, position_key(plan@, slots@, q))
            } by {
                let k = position_key(plan@, slots@, q);
                let run0 = old_runs[q]@;
                let changed = exists|i: int| 0 <= i < changes@.len() && changes@[i].key_spec() == k;
                assert(changed == map_of(changes@).contains_key(k));
                assert(walk.visible_at(k) == walk_visible(deref_seq(cues@), c + 1, k));
                assert(before_walk.visible_at(k) == walk_visible(deref_seq(cues@), c as int, k));
                lemma_run_lookup_past_end(run0, c as int, c as int);
                if changed {
                    let pt = TrackPoint { cue: c as u32, value: walk_visible(deref_seq(cues@), c + 1, k) };
                    let run1 = run0.push(pt);
                    assert(runs@[q]@ == run1);
                    assert(run1.drop_last() =~= run0);
                    assert forall|a: int, b: int| 0 <= a < b < run1.len() implies run1[a].cue < run1[b].cue by {
                        if b < run0.len() {
                            assert(run0[a].cue < run0[b].cue);
                        } else {
                            assert(run0[a].cue < c);
                        }
                    }
                    assert forall|a: int| 0 <= a < run1.len() implies (#[trigger] run1[a]).cue < c + 1 by {
                        if a < run0.len() {
                            assert(run0[a].cue < c);
                        }
                    }
                    assert forall|x: int| 0 <= x < c + 1 implies #[trigger] run_lookup(run1, x) == walk_visible(deref_seq(cues@), x + 1, k) by {
                        if x < c {
                            assert(run_lookup(run0, x) == walk_visible(deref_seq(cues@), x + 1, k));
                        }
                    }
                } else {
                    assert(runs@[q]@ == run0);
                    assert(walk.visible_at(k) == before_walk.visible_at(k));
                    assert forall|x: int| 0 <= x < c + 1 implies #[trigger] run_lookup(run0, x) == walk_visible(deref_seq(cues@), x + 1, k) by {
                        if x < c {
                            assert(run_lookup(run0, x) == walk_visible(deref_seq(cues@), x + 1, k));
                        } else {
                            lemma_run_lookup_past_end(run0, c as int, x);
                        }
                    }
                    lemma_run_lookup_past_end(run0, c as int, c + 1);
                    assert forall|a: int| 0 <= a < run0.len() implies (#[trigger] run0[a]).cue < c + 1 by {
                        assert(run0[a].cue < c);
                    }
                }
            }
        }
        c = c + 1;
    }
    runs
}

/// The runs laid end to end, with where each one starts: one more start than
/// there are runs, the last being the table's length.
fn flatten_runs(runs: &Vec<Vec<TrackPoint>>) -> (r: (Vec<TrackPoint>, Vec<u32>))
    requires
        runs@.len() <= MAX_SLOTS,
        forall|p: int| 0 <= p < runs@.len() ==> (#[trigger] runs@[p])@.len() <= MAX_CUES,
    ensures
        r.1@.len() == runs@.len() + 1,
        r.1@[0] == 0,
        r.1@[runs@.len() as int] == r.0@.len(),
        forall|p: int| 0 <= p <= runs@.len() ==> #[trigger] r.1@[p] <= r.0@.len(),
        forall|p: int| 0 <= p < runs@.len() ==> #[trigger] r.1@[p] <= r.1@[p + 1],
        forall|p: int|
            0 <= p < runs@.len() ==> r.0@.subrange(r.1@[p] as int, r.1@[p + 1] as int) == (#[trigger] runs@[p])@,
{
    let mut track: Vec<TrackPoint> = Vec::new();
    let mut index: Vec<u32> = Vec::new();
    let mut p: usize = 0;
    while p < runs.len()
        invariant
            0 <= p <= runs@.len(),
            runs@.len() <= MAX_SLOTS,
            forall|q: int| 0 <= q < runs@.len() ==> (#[trigger] runs@[q])@.len() <= MAX_CUES,
            index@.len() == p,
            track@.len() <= p * MAX_CUES,
            p > 0 ==> index@[0] == 0,
            forall|q: int| 0 <= q < p ==> #[trigger] index@[q] <= track@.len(),
            forall|q: int| 0 <= q < p - 1 ==> #[trigger] index@[q] <= index@[q + 1],
            forall|q: int| 0 <= q < p - 1 ==> track@.subrange(index@[q] as int, index@[q + 1] as int) == (#[trigger] runs@[q])@,
            p > 0 ==> track@.subrange(index@[p - 1] as int, track@.len() as int) == runs@[p - 1]@,
        decreases runs@.len() - p,
    {
        let start = track.len();
        proof {
            assert(track@.len() <= p * MAX_CUES);
            assert(p * MAX_CUES <= MAX_SLOTS * MAX_CUES) by (nonlinear_arith)
                requires
                    p <= MAX_SLOTS,
            ;
        }
        let ghost before = track@;
        index.push(start as u32);
        let run = &runs[p];
        let mut i: usize = 0;
        while i < run.len()
            invariant
                0 <= i <= run@.len(),
                run@ == runs@[p as int]@,
                run@.len() <= MAX_CUES,
                track@ == before + run@.subrange(0, i as int),
            decreases run@.len() - i,
        {
            track.push(run[i]);
            proof {
                assert(before + run@.subrange(0, i + 1) =~= (before + run@.subrange(0, i as int)).push(run@[i as int]));
            }
            i = i + 1;
        }
        proof {
            assert(run@.subrange(0, run@.len() as int) =~= run@);
            assert(track@.subrange(start as int, track@.len() as int) =~= run@);
            assert forall|q: int| 0 <= q < p implies track@.subrange(index@[q] as int, index@[q + 1] as int) == (#[trigger] runs@[q])@ by {
                if q < p - 1 {
                    assert(track@.subrange(index@[q] as int, index@[q + 1] as int) =~= before.subrange(index@[q] as int, index@[q + 1] as int));
                } else {
                    assert(track@.subrange(index@[q] as int, index@[q + 1] as int) =~= before.subrange(index@[q] as int, before.len() as int));
                }
            }
            assert((p + 1) * MAX_CUES == p * MAX_CUES + MAX_CUES);
        }
        p = p + 1;
    }
    let end = track.len();
    proof {
        assert(track@.len() <= p * MAX_CUES);
        assert(p * MAX_CUES <= MAX_SLOTS * MAX_CUES) by (nonlinear_arith)
            requires
                p <= MAX_SLOTS,
        ;
    }
    let ghost before_index = index@;
    index.push(end as u32);
    proof {
        if p > 0 {
            assert(track@.subrange(index@[p - 1] as int, index@[p as int] as int) =~= track@.subrange(before_index[p - 1] as int, track@.len() as int));
        }
    }
    (track, index)
}


/// Every cue of a list, compiled: its times and trigger as they are, and its
/// values as positions in the sequence's slots, laid end to end.
fn compile_cues(plan: &MergePlan, slots: &Vec<CueSlot>, cues: &Vec<&Cue>) -> (r: (Vec<CuePlan>, Vec<CueValue>))
    requires
        slots_fit(plan@, slots@),
        deref_seq(cues@).len() <= MAX_CUES,
    ensures
        r.0@.len() == deref_seq(cues@).len(),
        forall|j: int| 0 <= j < r.1@.len() ==> (#[trigger] r.1@[j]).slot < slots@.len(),
        forall|q: int| 0 <= q < deref_seq(cues@).len() ==> (#[trigger] r.0@[q]).first + r.0@[q].len <= r.1@.len(),
        forall|q: int|
            0 <= q < deref_seq(cues@).len() ==> {
                let e = #[trigger] r.0@[q];
                &&& e.number@ == deref_seq(cues@)[q].number@
                &&& e.fade_in == deref_seq(cues@)[q].fade_in
                &&& e.fade_out == deref_seq(cues@)[q].fade_out
                &&& e.delay == deref_seq(cues@)[q].delay
                &&& e.trigger == deref_seq(cues@)[q].trigger
                &&& e.trigger_ticks == deref_seq(cues@)[q].trigger_time
                &&& values_match(plan@, slots@, deref_seq(cues@)[q].parts@, r.1@.subrange(e.first as int, e.first + e.len))
            },
{
    let mut compiled: Vec<CuePlan> = Vec::new();
    let mut parts: Vec<CueValue> = Vec::new();
    let mut c: usize = 0;
    while c < cues.len()
        invariant
            0 <= c <= deref_seq(cues@).len(),
            deref_seq(cues@).len() <= MAX_CUES,
            slots_fit(plan@, slots@),
            compiled@.len() == c,
            forall|j: int| 0 <= j < parts@.len() ==> (#[trigger] parts@[j]).slot < slots@.len(),
            forall|q: int| 0 <= q < c ==> (#[trigger] compiled@[q]).first + compiled@[q].len <= parts@.len(),
            forall|q: int|
                0 <= q < c ==> {
                    let e = #[trigger] compiled@[q];
                    &&& e.number@ == deref_seq(cues@)[q].number@
                    &&& e.fade_in == deref_seq(cues@)[q].fade_in
                    &&& e.fade_out == deref_seq(cues@)[q].fade_out
                    &&& e.delay == deref_seq(cues@)[q].delay
                    &&& e.trigger == deref_seq(cues@)[q].trigger
                    &&& e.trigger_ticks == deref_seq(cues@)[q].trigger_time
                    &&& values_match(plan@, slots@, deref_seq(cues@)[q].parts@, parts@.subrange(e.first as int, e.first + e.len))
                },
        decreases deref_seq(cues@).len() - c,
    {
        let cue = cues[c];
        let values = cue_values(plan, &slots, &cue.parts);
        let first = parts.len();
        let ghost before = parts@;
        let mut i: usize = 0;
        while i < values.len()
            invariant
                0 <= i <= values@.len(),
                first == before.len(),
                parts@ == before + values@.subrange(0, i as int),
                values_match(plan@, slots@, cue.parts@, values@),
                forall|j: int| 0 <= j < before.len() ==> (#[trigger] before[j]).slot < slots@.len(),
                forall|j: int| 0 <= j < parts@.len() ==> (#[trigger] parts@[j]).slot < slots@.len(),
            decreases values@.len() - i,
        {
            parts.push(values[i]);
            proof {
                assert(before + values@.subrange(0, i + 1) =~= (before + values@.subrange(0, i as int)).push(values@[i as int]));
            }
            i = i + 1;
        }
        proof {
            assert(values@.subrange(0, values@.len() as int) =~= values@);
            assert(parts@.subrange(first as int, first + values@.len()) =~= values@);
            assert forall|q: int| 0 <= q < c implies {
                let e = #[trigger] compiled@[q];
                values_match(plan@, slots@, deref_seq(cues@)[q].parts@, parts@.subrange(e.first as int, e.first + e.len))
            } by {
                let e = compiled@[q];
                assert(parts@.subrange(e.first as int, e.first + e.len) =~= before.subrange(e.first as int, e.first + e.len));
            }
        }
        compiled.push(CuePlan {
            number: cue.number.clone(),
            fade_in: cue.fade_in,
            fade_out: cue.fade_out,
            delay: cue.delay,
            trigger: cue.trigger,
            trigger_ticks: cue.trigger_time,
            first,
            len: values.len(),
        });
        c = c + 1;
    }

    (compiled, parts)
}

/// A cue list, compiled against one patch.
#[derive(Debug)]
pub struct SequencePlan {
    id: SequenceId,
    slots: Vec<CueSlot>,
    cues: Vec<CuePlan>,
    parts: Vec<CueValue>,
    track: Vec<TrackPoint>,
    track_index: Vec<u32>,
    looping: bool,
    unresolved: usize,
}

impl SequencePlan {
    /// The tables agree: every cue's parts lie inside the part list, and the
    /// tracking table has one ascending run per slot.
    #[verifier::type_invariant]
    spec fn inv(self) -> bool {
        &&& self.slots@.len() <= MAX_SLOTS
        &&& forall|c: int|
            0 <= c < self.cues@.len() ==> (#[trigger] self.cues@[c]).first + self.cues@[c].len
                <= self.parts@.len()
        &&& forall|c: int|
            0 <= c < self.cues@.len() ==> strictly_sorted(
                #[trigger] self.parts@.subrange(self.cues@[c].first as int, self.cues@[c].first + self.cues@[c].len),
            )
        &&& forall|j: int| 0 <= j < self.parts@.len() ==> (#[trigger] self.parts@[j]).slot < self.slots@.len()
        &&& strictly_sorted(self.slots@)
        &&& self.track_index@.len() == self.slots@.len() + 1
        &&& forall|p: int|
            0 <= p < self.slots@.len() ==> #[trigger] self.track_index@[p] <= self.track_index@[p + 1]
        &&& forall|p: int| 0 <= p <= self.slots@.len() ==> #[trigger] self.track_index@[p] <= self.track@.len()
        &&& forall|p: int|
            0 <= p < self.slots@.len() ==> run_ordered(
                #[trigger] self.track@.subrange(self.track_index@[p] as int, self.track_index@[p + 1] as int),
                self.cues@.len() as int,
            )
    }

    /// Which sequence this is.
    pub closed spec fn id_spec(&self) -> SequenceId {
        self.id
    }

    /// Whether an automatic chain of follows runs round.
    pub closed spec fn looping_spec(&self) -> bool {
        self.looping
    }

    /// How many parts named something the patch does not have.
    pub closed spec fn unresolved_spec(&self) -> usize {
        self.unresolved
    }

    /// The slots the sequence touches, in plan order.
    pub closed spec fn slots_spec(&self) -> Seq<CueSlot> {
        self.slots@
    }

    /// The cues, in playback order.
    pub closed spec fn cues_spec(&self) -> Seq<CuePlan> {
        self.cues@
    }

    /// How many entries the tracking table holds.
    pub closed spec fn track_len_spec(&self) -> int {
        self.track@.len() as int
    }

    /// The values one cue provides, in slot order; nothing for a cue that is
    /// not there.
    pub closed spec fn parts_spec(&self, index: int) -> Seq<CueValue> {
        if 0 <= index < self.cues@.len() {
            self.parts@.subrange(
                self.cues@[index].first as int,
                self.cues@[index].first + self.cues@[index].len,
            )
        } else {
            Seq::empty()
        }
    }

    /// What a walk down to cue `cue` leaves the slot at `position` at, as the
    /// table holds it.
    pub closed spec fn tracked_spec(&self, position: int, cue: int) -> Option<u16> {
        if 0 <= position && position + 1 < self.track_index@.len() {
            run_lookup(
                self.track@.subrange(
                    self.track_index@[position] as int,
                    self.track_index@[position + 1] as int,
                ),
                cue,
            )
        } else {
            None
        }
    }
}

/// A sequence compiled against a plan: its identity, its slots, its cues with
/// their times and values, and a tracking table that answers the tracking rule.
pub open spec fn compiled_from(plan: Seq<AttributeSlot>, sequence: Sequence, order: Seq<usize>, sp: SequencePlan) -> bool {
    compiled_cues(plan, sequence.id, sequence.looping, reordered(sequence.cues@, order), sp)
}

/// A list of cues, in playback order, compiled against a plan.
pub open spec fn compiled_cues(plan: Seq<AttributeSlot>, id: SequenceId, looping: bool, cues: Seq<Cue>, sp: SequencePlan) -> bool {
    let slots = sp.slots_spec();
    &&& sp.id_spec() == id
    &&& sp.looping_spec() == looping
    &&& sp.unresolved_spec() == saturated(unresolved_total(plan, cues, cues.len() as int))
    &&& strictly_sorted(slots)
    &&& forall|j: int|
        0 <= j < slots.len() ==> (#[trigger] slots[j]).slot < plan.len() && slots[j] == cue_slot_of(
            plan,
            slots[j].slot as int,
        ) && cues_name(plan, cues, cues.len() as int, slots[j].slot as int)
    &&& slots_cover(plan, cues, slots)
    &&& sp.cues_spec().len() == cues.len()
    &&& forall|c: int|
        0 <= c < cues.len() ==> {
            let compiled = #[trigger] sp.cues_spec()[c];
            &&& compiled.number_spec() == cues[c].number@
            &&& compiled.fade_in_spec() == cues[c].fade_in
            &&& compiled.fade_out_spec() == cues[c].fade_out
            &&& compiled.delay_spec() == cues[c].delay
            &&& compiled.trigger_spec() == cues[c].trigger
            &&& compiled.trigger_ticks_spec() == cues[c].trigger_time
        }
    &&& forall|c: int| 0 <= c < cues.len() ==> values_match(plan, slots, cues[c].parts@, #[trigger] sp.parts_spec(c))
    &&& forall|p: int, x: int|
        0 <= p < slots.len() && 0 <= x < cues.len() ==> #[trigger] sp.tracked_spec(p, x) == walk_visible(
            cues,
            x + 1,
            position_key(plan, slots, p),
        )
    &&& forall|p: int, x: int|
        0 <= p < slots.len() && x >= cues.len() && cues.len() > 0 ==> #[trigger] sp.tracked_spec(p, x)
            == sp.tracked_spec(p, cues.len() - 1)
    &&& forall|p: int, x: int| !(0 <= p < slots.len()) ==> #[trigger] sp.tracked_spec(p, x) is None
}

impl SequencePlan {
    /// Compiles a sequence against a patch, its cues taken in `order`: the
    /// playback order, by decimal cue number, that the host worked out
    /// (`order[i]` is the position in the list of the cue played `i`th).
    ///
    /// A part naming a fixture or attribute this patch does not have is
    /// dropped and counted in [`Self::unresolved`].
    ///
    /// Refused with [`CueError::TooManyCues`] when the list has more than
    /// [`MAX_CUES`] cues, with [`CueError::NotAnOrder`] when `order` does not
    /// name each cue exactly once, and with [`CueError::TooManyParts`] as soon
    /// as the resolved parts pass [`MAX_CUE_PARTS`].
    #[verifier::rlimit(80)]
    pub fn build(plan: &MergePlan, sequence: &Sequence, order: &[usize]) -> (r: Result<SequencePlan, CueError>)
        ensures
            sequence.cues@.len() > MAX_CUES ==> r == Err::<SequencePlan, CueError>(CueError::TooManyCues(sequence.cues@.len() as usize)),
            sequence.cues@.len() <= MAX_CUES && !is_order(order@, sequence.cues@.len() as int)
                ==> r == Err::<SequencePlan, CueError>(CueError::NotAnOrder(sequence.cues@.len() as usize)),
            sequence.cues@.len() <= MAX_CUES && is_order(order@, sequence.cues@.len() as int)
                && resolved_total(plan@, reordered(sequence.cues@, order@), sequence.cues@.len() as int) > MAX_CUE_PARTS
                ==> r == Err::<SequencePlan, CueError>(CueError::TooManyParts((MAX_CUE_PARTS + 1) as usize)),
            r is Ok <==> (sequence.cues@.len() <= MAX_CUES && is_order(order@, sequence.cues@.len() as int)
                && resolved_total(plan@, reordered(sequence.cues@, order@), sequence.cues@.len() as int) <= MAX_CUE_PARTS),
            r matches Ok(sp) ==> compiled_from(plan@, *sequence, order@, sp),
    {
        if sequence.cues.len() > MAX_CUES {
            return Err(CueError::TooManyCues(sequence.cues.len()));
        }
        let ordered = match sequence.ordered_cues(order) {
            Some(ordered) => ordered,
            None => return Err(CueError::NotAnOrder(sequence.cues.len())),
        };
        let cues = &ordered;
        let count = plan.slot_count();
        let table = plan.slots();
        let (slots, unresolved) = match collect_cue_slots(plan, cues) {
            Ok(found) => found,
            Err(e) => return Err(e),
        };
        proof {
            assert forall|j: int| 0 <= j < slots@.len() implies (#[trigger] slots@[j]).slot < plan@.len() by {}
            lemma_ascending_slots_fit(slots@, plan@.len() as int);
        }

        let (compiled, parts) = compile_cues(plan, &slots, cues);
        let runs = track_runs(plan, &slots, cues);
        let (track, track_index) = flatten_runs(&runs);
        proof {
            assert forall|q: int| 0 <= q < compiled@.len() implies strictly_sorted(
                #[trigger] parts@.subrange(compiled@[q].first as int, compiled@[q].first + compiled@[q].len),
            ) by {
                let e = compiled@[q];
                assert(values_match(plan@, slots@, deref_seq(cues@)[q].parts@, parts@.subrange(e.first as int, e.first + e.len)));
            }
            assert forall|p: int| 0 <= p < slots@.len() implies run_ordered(
                #[trigger] track@.subrange(track_index@[p] as int, track_index@[p + 1] as int),
                compiled@.len() as int,
            ) by {
                assert(track@.subrange(track_index@[p] as int, track_index@[p + 1] as int) == runs@[p]@);
            }
        }
        let result = SequencePlan {
            id: sequence.id,
            slots,
            cues: compiled,
            parts,
            track,
            track_index,
            looping: sequence.looping,
            unresolved,
        };
        proof {
            let sp = result;
            assert forall|p: int, x: int|
                0 <= p < sp.slots@.len() && 0 <= x < deref_seq(cues@).len() implies #[trigger] sp.tracked_spec(p, x) == walk_visible(
                    deref_seq(cues@),
                    x + 1,
                    position_key(plan@, sp.slots@, p),
                ) by {
                assert(sp.track@.subrange(sp.track_index@[p] as int, sp.track_index@[p + 1] as int) == runs@[p]@);
            }
            assert forall|p: int, x: int|
                0 <= p < sp.slots@.len() && x >= deref_seq(cues@).len() && deref_seq(cues@).len() > 0 implies #[trigger] sp.tracked_spec(p, x)
                    == sp.tracked_spec(p, deref_seq(cues@).len() - 1) by {
                assert(sp.track@.subrange(sp.track_index@[p] as int, sp.track_index@[p + 1] as int) == runs@[p]@);
                lemma_run_lookup_past_end(runs@[p]@, deref_seq(cues@).len() as int, x);
                lemma_run_lookup_past_end(runs@[p]@, deref_seq(cues@).len() as int, deref_seq(cues@).len() - 1);
            }
            assert forall|c: int| 0 <= c < deref_seq(cues@).len() implies values_match(plan@, sp.slots@, deref_seq(cues@)[c].parts@, #[trigger] sp.parts_spec(c)) by {
                let e = sp.cues@[c];
            }
        }
        Ok(result)
    }

    /// What a walk from the first cue down to `cue` leaves the slot at
    /// `position` at: `None` where the list does not hold it at all. A cue
    /// past the end reads as the last cue; a position that is not there is
    /// `None`. A binary search over one slot's run, allocating nothing.
    pub fn tracked_value(&self, position: usize, cue: usize) -> (r: Option<u16>)
        ensures
            r == self.tracked_spec(position as int, cue as int),
    {
        proof {
            use_type_invariant(self);
        }
        if position >= self.slots.len() {
            return None;
        }
        let from = self.track_index[position] as usize;
        let to = self.track_index[position + 1] as usize;
        let ghost run = self.track@.subrange(from as int, to as int);
        let mut lo: usize = from;
        let mut hi: usize = to;
        while lo < hi
            invariant
                from <= lo <= hi <= to <= self.track@.len(),
                run == self.track@.subrange(from as int, to as int),
                run_ordered(run, self.cues@.len() as int),
                forall|i: int| from <= i < lo ==> (#[trigger] self.track@[i]).cue as int <= cue,
                forall|i: int| hi <= i < to ==> (#[trigger] self.track@[i]).cue as int > cue,
            decreases hi - lo,
        {
            let mid = lo + (hi - lo) / 2;
            if self.track[mid].cue as usize <= cue {
                proof {
                    assert forall|i: int| from <= i < mid implies (#[trigger] self.track@[i]).cue <= self.track@[mid as int].cue by {
                        assert(run[i - from].cue < run[mid - from].cue);
                    }
                }
                lo = mid + 1;
            } else {
                proof {
                    assert forall|i: int| mid < i < to implies (#[trigger] self.track@[i]).cue >= self.track@[mid as int].cue by {
                        assert(run[mid - from].cue < run[i - from].cue);
                    }
                }
                hi = mid;
            }
        }
        proof {
            assert forall|i: int| 0 <= i < lo - from implies (#[trigger] run[i]).cue as int <= cue by {
                assert(run[i] == self.track@[i + from]);
            }
            assert forall|i: int| lo - from <= i < run.len() implies (#[trigger] run[i]).cue as int > cue by {
                assert(run[i] == self.track@[i + from]);
            }
            lemma_run_lookup_boundary(run, self.cues@.len() as int, cue as int, lo - from);
        }
        if lo == from {
            None
        } else {
            proof {
                assert(run[lo - from - 1] == self.track@[lo - 1]);
            }
            self.track[lo - 1].value
        }
    }

    /// How many entries the tracking table holds: the number of changes, not
    /// cues times slots.
    pub fn track_len(&self) -> (r: usize)
        ensures
            r == self.track_len_spec(),
    {
        self.track.len()
    }

    /// Which sequence this is.
    pub fn id(&self) -> (r: SequenceId)
        ensures
            r == self.id_spec(),
    {
        self.id
    }

    /// Whether an automatic chain of follows runs off the end and round again.
    /// Not whether a Go wraps: a Go always does.
    pub fn looping(&self) -> (r: bool)
        ensures
            r == self.looping_spec(),
    {
        self.looping
    }

    /// How many cue parts named something this patch does not have.
    pub fn unresolved(&self) -> (r: usize)
        ensures
            r == self.unresolved_spec(),
    {
        self.unresolved
    }

    /// How many cues this sequence has.
    pub fn cue_count(&self) -> (r: usize)
        ensures
            r == self.cues_spec().len(),
    {
        self.cues.len()
    }

    /// One cue, by playback position.
    pub fn cue(&self, index: usize) -> (r: Option<&CuePlan>)
        ensures
            match r {
                Some(c) => index < self.cues_spec().len() && *c == self.cues_spec()[index as int],
                None => index >= self.cues_spec().len(),
            },
    {
        if index < self.cues.len() {
            Some(&self.cues[index])
        } else {
            None
        }
    }

    /// How many distinct plan slots the whole sequence touches.
    pub fn slot_count(&self) -> (r: usize)
        ensures
            r == self.slots_spec().len(),
    {
        self.slots.len()
    }

    /// Every slot the sequence touches, in merge-plan order.
    pub fn slots(&self) -> (r: &[CueSlot])
        ensures
            r@ == self.slots_spec(),
            strictly_sorted(r@),
    {
        proof {
            use_type_invariant(self);
        }
        self.slots.as_slice()
    }

    /// Where plan slot `slot` stands among the sequence's slots, if the
    /// sequence touches it: a binary search.
    pub fn position_of(&self, slot: usize) -> (r: Option<usize>)
        ensures
            r matches Some(p) ==> p < self.slots_spec().len() && self.slots_spec()[p as int].slot == slot,
            r is None ==> forall|p: int| 0 <= p < self.slots_spec().len() ==> self.slots_spec()[p].slot != slot,
            strictly_sorted(self.slots_spec()),
    {
        proof {
            use_type_invariant(self);
        }
        find_key(&self.slots, slot as u64)
    }

    /// One slot by its index within this sequence.
    pub fn slot(&self, index: usize) -> (r: Option<&CueSlot>)
        ensures
            match r {
                Some(s) => index < self.slots_spec().len() && *s == self.slots_spec()[index as int],
                None => index >= self.slots_spec().len(),
            },
    {
        if index < self.slots.len() {
            Some(&self.slots[index])
        } else {
            None
        }
    }

    /// The values one cue provides, in slot order. Empty for a cue that is not
    /// there, so a caller cannot index past the list.
    pub fn parts_of(&self, index: usize) -> (r: &[CueValue])
        ensures
            r@ == self.parts_spec(index as int),
            strictly_sorted(r@),
            forall|j: int| 0 <= j < r@.len() ==> (#[trigger] r@[j]).slot < self.slots_spec().len(),
    {
        proof {
            use_type_invariant(self);
        }
        if index >= self.cues.len() {
            return &[];
        }
        let first = self.cues[index].first;
        let len = self.cues[index].len;
        let total = self.parts.len();
        proof {
            assert(self.cues@[index as int].first + self.cues@[index as int].len <= self.parts@.len());
            assert(first + len <= total);
            assert(strictly_sorted(self.parts@.subrange(self.cues@[index as int].first as int, self.cues@[index as int].first + self.cues@[index as int].len)));
            assert forall|j: int| 0 <= j < len implies (#[trigger] self.parts@.subrange(first as int, first + len)[j]).slot < self.slots@.len() by {
                assert(self.parts@.subrange(first as int, first + len)[j] == self.parts@[first + j]);
            }
        }
        vstd::slice::slice_subrange(self.parts.as_slice(), first, first + len)
    }

    /// Where a Go from `current` lands: a stopped list enters at the first cue
    /// going forward and the last going back, and a Go always comes round.
    /// `None` only for a list with no cues. An index past the end reads as the
    /// end.
    pub fn step(&self, current: Option<usize>, direction: GoDirection) -> (r: Option<usize>)
        ensures
            r == step_spec(self.cues_spec().len() as int, current, direction),
    {
        if self.cues.len() == 0 {
            return None;
        }
        let last = self.cues.len() - 1;
        match current {
            None => match direction {
                GoDirection::Next => Some(0),
                GoDirection::Prev => Some(last),
            },
            Some(current) => {
                let current = if current < last { current } else { last };
                match direction {
                    GoDirection::Next => if current < last { Some(current + 1) } else { Some(0) },
                    GoDirection::Prev => if current > 0 { Some(current - 1) } else { Some(last) },
                }
            },
        }
    }

    /// Where an automatic trigger from `current` goes: `None` where the chain
    /// ends, at the last cue of a list that does not loop or on a list with no
    /// cues. A one-cue looping list follows itself.
    pub fn follow_step(&self, current: usize) -> (r: Option<usize>)
        ensures
            r == follow_step_spec(self.cues_spec().len() as int, self.looping_spec(), current),
    {
        if self.cues.len() == 0 {
            return None;
        }
        let last = self.cues.len() - 1;
        let current = if current < last { current } else { last };
        if current < last {
            Some(current + 1)
        } else if self.looping {
            Some(0)
        } else {
            None
        }
    }
}


/// A Go forward lands on the next cue and a Go back on the one before, each
/// coming round at its end of the list, so a Go back undoes a Go forward and
/// a Go forward undoes a Go back.
pub proof fn law_go_forward_and_go_back_undo_each_other(count: usize, c: usize)
    requires
        c < count,
    ensures
        step_spec(count as int, Some(c), GoDirection::Next) == Some(if c + 1 < count { (c + 1) as usize } else { 0usize }),
        step_spec(count as int, Some(c), GoDirection::Prev) == Some(if c > 0 { (c - 1) as usize } else { (count - 1) as usize }),
        step_spec(count as int, step_spec(count as int, Some(c), GoDirection::Next), GoDirection::Prev) == Some(c),
        step_spec(count as int, step_spec(count as int, Some(c), GoDirection::Prev), GoDirection::Next) == Some(c),
        step_spec(count as int, None, GoDirection::Next) == Some(0usize),
        step_spec(count as int, None, GoDirection::Prev) == Some((count - 1) as usize),
{
}

/// An automatic trigger moves on to the next cue, and from the last comes
/// round to the first only when the list loops.
pub proof fn law_a_follow_moves_on_by_one_cue(count: usize, looping: bool, c: usize)
    requires
        c < count,
    ensures
        c + 1 < count ==> follow_step_spec(count as int, looping, c) == Some((c + 1) as usize),
        c + 1 == count ==> follow_step_spec(count as int, looping, c) == if looping { Some(0usize) } else { None },
{
}

} // verus!
