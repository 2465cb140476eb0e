//! The merge, as arithmetic: HTP, LTP, the executor master and the programmer
//! override. Pure functions with no state and no clock, so the merge laws are
//! stated here as algebra and proved as algebra.
use vstd::prelude::*;

use crate::fixture::MergeMode;
use crate::ids::ExecutorId;

verus! {

/// Full scale for every internal value: attribute values, master levels and the
/// grand master are all `0..=65535`.
pub const FULL: u16 = 65535;

/// The larger of two integers.
pub open spec fn max_spec(a: int, b: int) -> int {
    if a > b { a } else { b }
}

/// Highest takes precedence: the larger of two contributions.
pub fn merge_htp(a: u16, b: u16) -> (r: u16)
    ensures
        r == max_spec(a as int, b as int),
{
    if a > b { a } else { b }
}

/// Latest takes precedence: the later of two contributions.
pub open spec fn merge_ltp_spec(earlier: u16, later: u16) -> u16 {
    later
}

/// Latest takes precedence: the later contribution, whatever the earlier was.
pub fn merge_ltp(earlier: u16, later: u16) -> (r: u16)
    ensures
        r == merge_ltp_spec(earlier, later),
{
    let _ = earlier;
    later
}

/// A value scaled by a master level, truncating.
pub open spec fn apply_master_spec(value: u16, master: u16) -> u16 {
    ((value as int * master as int) / (FULL as int)) as u16
}

/// Scales a value by an executor's master level, truncating: a master at
/// [`FULL`] is exactly the identity and a master at zero is a blackout.
pub fn apply_master(value: u16, master: u16) -> (r: u16)
    ensures
        r == apply_master_spec(value, master),
        r <= value,
{
    proof {
        lemma_apply_master_bounded(value, master);
    }
    let scaled: u32 = (value as u32 * master as u32) / (FULL as u32);
    scaled as u16
}

/// The programmer sitting on top of the playbacks: where it holds a value that
/// value is the output, and where it does not the merge stands.
pub fn merge_programmer(merged: u16, programmer: Option<u16>) -> (r: u16)
    ensures
        r == match programmer {
            Some(v) => v,
            None => merged,
        },
{
    match programmer {
        Some(value) => value,
        None => merged,
    }
}

/// What one playback source offers for one attribute.
#[derive(Debug, Clone, Copy, PartialEq, Eq)]
pub struct SourceValue {
    /// When this source was activated. Higher is more recent.
    pub activation: u64,
    /// Which executor this source is. Only ever a tie-break.
    pub executor: ExecutorId,
    /// The executor's master level. HTP only.
    pub master: u16,
    /// The value the source provides.
    pub value: u16,
}

/// Whether `a` comes no later than `b` in LTP order: activation first, then
/// executor number as a tie-break, so the order is total.
pub open spec fn order_le(a: SourceValue, b: SourceValue) -> bool {
    a.activation < b.activation || (a.activation == b.activation && a.executor.0 <= b.executor.0)
}

/// The HTP contribution of a source: its value with its master applied.
pub open spec fn mastered_spec(s: SourceValue) -> u16 {
    apply_master_spec(s.value, s.master)
}

impl SourceValue {
    /// The key LTP orders by.
    pub fn order(&self) -> (r: (u64, u32))
        ensures
            r == (self.activation, self.executor.0),
    {
        (self.activation, self.executor.0)
    }

    /// The contribution this source makes to an HTP maximum.
    pub fn mastered(&self) -> (r: u16)
        ensures
            r == mastered_spec(*self),
    {
        apply_master(self.value, self.master)
    }
}

/// The largest mastered contribution of a non-empty source set.
pub open spec fn htp_over(s: Seq<SourceValue>) -> int
    decreases s.len(),
{
    if s.len() == 0 {
        0
    } else if s.len() == 1 {
        mastered_spec(s[0]) as int
    } else {
        max_spec(htp_over(s.drop_last()), mastered_spec(s.last()) as int)
    }
}

/// The index of the latest source of a non-empty set: the last one among those
/// with the greatest order key.
pub open spec fn ltp_winner(s: Seq<SourceValue>) -> int
    decreases s.len(),
{
    if s.len() <= 1 {
        0
    } else {
        let w = ltp_winner(s.drop_last());
        if order_le(s[w], s.last()) { s.len() - 1 } else { w }
    }
}

/// The playback layer for one attribute: HTP takes the largest mastered
/// contribution, LTP the value of the latest source, and no source at all
/// falls back to `home`.
pub open spec fn merge_playbacks_spec(mode: MergeMode, home: u16, s: Seq<SourceValue>) -> u16 {
    if s.len() == 0 {
        home
    } else {
        match mode {
            MergeMode::Htp => htp_over(s) as u16,
            MergeMode::Ltp => s[ltp_winner(s)].value,
        }
    }
}

/// `order_le` is a total preorder.
pub proof fn lemma_order_total(a: SourceValue, b: SourceValue, c: SourceValue)
    ensures
        order_le(a, b) || order_le(b, a),
        order_le(a, a),
        order_le(a, b) && order_le(b, c) ==> order_le(a, c),
{
}

/// The HTP maximum is attained by some source and bounds every source.
pub proof fn lemma_htp_over_is_max(s: Seq<SourceValue>)
    requires
        s.len() > 0,
    ensures
        exists|i: int| 0 <= i < s.len() && htp_over(s) == mastered_spec(s[i]) as int,
        forall|i: int| 0 <= i < s.len() ==> mastered_spec(s[i]) as int <= htp_over(s),
    decreases s.len(),
{
    if s.len() == 1 {
        assert(htp_over(s) == mastered_spec(s[0]) as int);
    } else {
        let t = s.drop_last();
        lemma_htp_over_is_max(t);
        let i0 = choose|i: int| 0 <= i < t.len() && htp_over(t) == mastered_spec(t[i]) as int;
        assert(t[i0] == s[i0]);
        if htp_over(t) >= mastered_spec(s.last()) as int {
            assert(htp_over(s) == mastered_spec(s[i0]) as int);
        } else {
            assert(htp_over(s) == mastered_spec(s[s.len() - 1]) as int);
        }
        assert forall|i: int| 0 <= i < s.len() implies mastered_spec(s[i]) as int <= htp_over(s) by {
            if i < s.len() - 1 {
                assert(t[i] == s[i]);
            }
        }
    }
}

/// The LTP winner is a member of the set whose key no other source exceeds.
pub proof fn lemma_ltp_winner_is_latest(s: Seq<SourceValue>)
    requires
        s.len() > 0,
    ensures
        0 <= ltp_winner(s) < s.len(),
        forall|i: int| 0 <= i < s.len() ==> order_le(s[i], s[ltp_winner(s)]),
    decreases s.len(),
{
    if s.len() > 1 {
        let t = s.drop_last();
        lemma_ltp_winner_is_latest(t);
        let w = ltp_winner(t);
        assert(t[w] == s[w]);
        assert forall|i: int| 0 <= i < s.len() implies order_le(s[i], s[ltp_winner(s)]) by {
            if i < s.len() - 1 {
                assert(t[i] == s[i]);
                lemma_order_total(s[i], s[w], s.last());
            }
        }
    }
}

/// The playback layer for one attribute.
///
/// HTP takes the maximum of the mastered contributions, LTP the value of the
/// most recently activated source, and an empty source set falls back to
/// `home`. The result does not depend on the order of `sources`.
pub fn merge_playbacks(mode: MergeMode, home: u16, sources: &[SourceValue]) -> (r: u16)
    ensures
        r == merge_playbacks_spec(mode, home, sources@),
{
    let n = sources.len();
    if n == 0 {
        return home;
    }
    match mode {
        MergeMode::Htp => {
            let mut best: u16 = sources[0].mastered();
            let mut i: usize = 1;
            while i < n
                invariant
                    1 <= i <= n,
                    n == sources@.len(),
                    best as int == htp_over(sources@.subrange(0, i as int)),
                decreases n - i,
            {
                let m = sources[i].mastered();
                proof {
                    let t = sources@.subrange(0, i as int + 1);
                    assert(t.drop_last() =~= sources@.subrange(0, i as int));
                }
                best = merge_htp(best, m);
                i = i + 1;
            }
            proof {
                assert(sources@.subrange(0, n as int) =~= sources@);
            }
            best
        },
        MergeMode::Ltp => {
            let mut w: usize = 0;
            let mut i: usize = 1;
            while i < n
                invariant
                    1 <= i <= n,
                    n == sources@.len(),
                    w as int == ltp_winner(sources@.subrange(0, i as int)),
                    w < i,
                decreases n - i,
            {
                proof {
                    let t = sources@.subrange(0, i as int + 1);
                    assert(t.drop_last() =~= sources@.subrange(0, i as int));
                    lemma_ltp_winner_is_latest(sources@.subrange(0, i as int));
                }
                let a = &sources[w];
                let b = &sources[i];
                if a.activation < b.activation || (a.activation == b.activation && a.executor.0
                    <= b.executor.0) {
                    w = i;
                }
                i = i + 1;
            }
            proof {
                assert(sources@.subrange(0, n as int) =~= sources@);
            }
            sources[w].value
        },
    }
}

/// A scaled value never exceeds the value, and is a `u16` again.
pub proof fn lemma_apply_master_bounded(value: u16, master: u16)
    ensures
        (value as int * master as int) / (FULL as int) <= value as int,
        0 <= (value as int * master as int) / (FULL as int),
{
    assert(value as int * master as int <= value as int * FULL as int) by (nonlinear_arith)
        requires
            master <= FULL,
            0 <= value,
    ;
    assert((value as int * master as int) / (FULL as int) <= (value as int * FULL as int) / (
    FULL as int)) by (nonlinear_arith)
        requires
            value as int * master as int <= value as int * FULL as int,
    ;
    assert((value as int * FULL as int) / (FULL as int) == value as int) by (nonlinear_arith);
    assert(0 <= (value as int * master as int) / (FULL as int)) by (nonlinear_arith);
}

/// HTP is commutative, associative and idempotent, and zero is its identity.
pub proof fn law_htp_is_a_commutative_idempotent_monoid(a: int, b: int, c: int)
    requires
        0 <= a,
        0 <= b,
        0 <= c,
    ensures
        max_spec(a, b) == max_spec(b, a),
        max_spec(max_spec(a, b), c) == max_spec(a, max_spec(b, c)),
        max_spec(a, a) == a,
        max_spec(a, 0) == a,
        max_spec(0, a) == a,
{
}

/// HTP is monotone: raising one argument never lowers the result.
pub proof fn law_htp_is_monotone(a: int, raised: int, b: int)
    requires
        a <= raised,
    ensures
        max_spec(a, b) <= max_spec(raised, b),
{
}

/// LTP is not commutative, and it is not a maximum: of two different values it
/// keeps the later one even when it is darker.
pub proof fn law_ltp_is_not_commutative(a: u16, b: u16)
    requires
        a != b,
    ensures
        merge_ltp_spec(a, b) != merge_ltp_spec(b, a),
        a > b ==> merge_ltp_spec(a, b) as int != max_spec(a as int, b as int),
{
}

/// A master only ever attenuates, a master at full is the identity and a master
/// at zero is a blackout.
pub proof fn law_master_attenuates(value: u16, master: u16)
    ensures
        apply_master_spec(value, master) <= value,
        apply_master_spec(value, FULL) == value,
        apply_master_spec(value, 0) == 0,
{
    lemma_apply_master_bounded(value, master);
    assert((value as int * FULL as int) / (FULL as int) == value as int) by (nonlinear_arith);
}

/// A master scales a value by the fraction `master / FULL` and drops what is
/// left under one step: the result is the largest level whose full-scale
/// multiple does not pass `value * master`.
pub proof fn law_a_master_scales_by_its_fraction_and_truncates(value: u16, master: u16)
    ensures
        (apply_master_spec(value, master) as int) * (FULL as int) <= (value as int) * (master as int),
        (value as int) * (master as int) < (apply_master_spec(value, master) as int + 1) * (FULL as int),
{
    lemma_apply_master_bounded(value, master);
    let p = (value as int) * (master as int);
    assert(p / (FULL as int) * (FULL as int) <= p && p < (p / (FULL as int) + 1) * (FULL as int)) by (nonlinear_arith)
        requires
            p >= 0,
    ;
}

/// A master is monotone in both arguments, so a fader move cannot invert a
/// merge.
pub proof fn law_master_is_monotone(value: u16, brighter: u16, master: u16, higher: u16)
    requires
        value <= brighter,
        master <= higher,
    ensures
        apply_master_spec(value, master) <= apply_master_spec(value, higher),
        apply_master_spec(value, master) <= apply_master_spec(brighter, master),
{
    lemma_apply_master_bounded(value, master);
    lemma_apply_master_bounded(value, higher);
    lemma_apply_master_bounded(brighter, master);
    assert((value as int * master as int) / (FULL as int) <= (value as int * higher as int) / (
    FULL as int)) by (nonlinear_arith)
        requires
            value <= brighter,
            master <= higher,
            0 <= value,
    ;
    assert((value as int * master as int) / (FULL as int) <= (brighter as int * master as int) / (
    FULL as int)) by (nonlinear_arith)
        requires
            value <= brighter,
            0 <= master,
    ;
}

/// HTP over a source set is the largest mastered contribution, whatever order
/// the set is listed in: two listings with the same members merge the same.
pub proof fn law_htp_ignores_the_order(home: u16, s1: Seq<SourceValue>, s2: Seq<SourceValue>)
    requires
        s1.to_set() == s2.to_set(),
    ensures
        merge_playbacks_spec(MergeMode::Htp, home, s1) == merge_playbacks_spec(
            MergeMode::Htp,
            home,
            s2,
        ),
{
    if s1.len() == 0 {
        if s2.len() > 0 {
            assert(s2.to_set().contains(s2[0]));
            assert(s1.to_set().contains(s2[0]));
        }
    } else {
        assert(s1.to_set().contains(s1[0]));
        assert(s2.to_set().contains(s1[0]));
        lemma_htp_over_is_max(s1);
        lemma_htp_over_is_max(s2);
        let i1 = choose|i: int| 0 <= i < s1.len() && htp_over(s1) == mastered_spec(s1[i]) as int;
        let i2 = choose|i: int| 0 <= i < s2.len() && htp_over(s2) == mastered_spec(s2[i]) as int;
        assert(s1.to_set().contains(s1[i1]));
        assert(s2.to_set().contains(s1[i1]));
        let j2 = choose|j: int| 0 <= j < s2.len() && s2[j] == s1[i1];
        assert(s2.to_set().contains(s2[i2]));
        assert(s1.to_set().contains(s2[i2]));
        let j1 = choose|j: int| 0 <= j < s1.len() && s1[j] == s2[i2];
        assert(htp_over(s1) == htp_over(s2));
    }
}

/// LTP over a source set is the value of the most recently activated source,
/// whatever order the set is listed in, as long as no two different sources
/// share an order key — which activation stamps guarantee by construction.
pub proof fn law_ltp_ignores_the_order(home: u16, s1: Seq<SourceValue>, s2: Seq<SourceValue>)
    requires
        s1.to_set() == s2.to_set(),
        forall|i: int, j: int|
            0 <= i < s1.len() && 0 <= j < s1.len() && order_le(s1[i], s1[j]) && order_le(
                s1[j],
                s1[i],
            ) ==> s1[i] == s1[j],
    ensures
        merge_playbacks_spec(MergeMode::Ltp, home, s1) == merge_playbacks_spec(
            MergeMode::Ltp,
            home,
            s2,
        ),
{
    if s1.len() == 0 {
        if s2.len() > 0 {
            assert(s2.to_set().contains(s2[0]));
            assert(s1.to_set().contains(s2[0]));
        }
    } else {
        assert(s1.to_set().contains(s1[0]));
        assert(s2.to_set().contains(s1[0]));
        lemma_ltp_winner_is_latest(s1);
        lemma_ltp_winner_is_latest(s2);
        let w1 = ltp_winner(s1);
        let w2 = ltp_winner(s2);
        assert(s1.to_set().contains(s1[w1]));
        assert(s2.to_set().contains(s1[w1]));
        let j2 = choose|j: int| 0 <= j < s2.len() && s2[j] == s1[w1];
        assert(s2.to_set().contains(s2[w2]));
        assert(s1.to_set().contains(s2[w2]));
        let j1 = choose|j: int| 0 <= j < s1.len() && s1[j] == s2[w2];
        assert(order_le(s1[j1], s1[w1]));
        assert(order_le(s2[j2], s2[w2]));
        assert(s1[w1] == s1[j1]);
    }
}

/// Taking the winning LTP source out hands the attribute to the next most
/// recently activated source: what is left merges to the latest of the rest.
pub proof fn law_ltp_falls_back_to_the_next_source(s: Seq<SourceValue>)
    requires
        s.len() > 1,
    ensures
        ({
            let rest = s.remove(ltp_winner(s));
            let w = ltp_winner(rest);
            &&& forall|i: int| 0 <= i < rest.len() ==> order_le(rest[i], rest[w])
            &&& forall|i: int| 0 <= i < s.len() ==> order_le(s[i], s[ltp_winner(s)])
        }),
{
    lemma_ltp_winner_is_latest(s);
    lemma_ltp_winner_is_latest(s.remove(ltp_winner(s)));
}


/// Latest takes precedence: an LTP attribute takes the value of the source
/// switched on most recently, the higher executor number breaking a tie,
/// whatever the masters are; with no source it rests at home.
pub proof fn law_ltp_takes_the_most_recently_activated_source(home: u16, s: Seq<SourceValue>)
    ensures
        s.len() == 0 ==> merge_playbacks_spec(MergeMode::Ltp, home, s) == home,
        s.len() > 0 ==> exists|w: int|
            0 <= w < s.len() && merge_playbacks_spec(MergeMode::Ltp, home, s) == s[w].value && forall|i: int|
                0 <= i < s.len() ==> (#[trigger] s[i]).activation < s[w].activation || (s[i].activation
                    == s[w].activation && s[i].executor.0 <= s[w].executor.0),
{
    if s.len() > 0 {
        lemma_ltp_winner_is_latest(s);
        let w = ltp_winner(s);
        assert(forall|i: int| 0 <= i < s.len() ==> order_le(#[trigger] s[i], s[w]));
    }
}


/// Highest takes precedence: an HTP attribute takes the brightest of its
/// sources, each first scaled by its own master; with no source it rests at
/// home.
pub proof fn law_htp_takes_the_brightest_mastered_source(home: u16, s: Seq<SourceValue>)
    ensures
        s.len() == 0 ==> merge_playbacks_spec(MergeMode::Htp, home, s) == home,
        s.len() > 0 ==> exists|w: int|
            0 <= w < s.len() && merge_playbacks_spec(MergeMode::Htp, home, s) == apply_master_spec(s[w].value, s[w].master)
                && forall|i: int|
                0 <= i < s.len() ==> apply_master_spec((#[trigger] s[i]).value, s[i].master) <= merge_playbacks_spec(
                    MergeMode::Htp,
                    home,
                    s,
                ),
{
    if s.len() > 0 {
        lemma_htp_over_is_max(s);
        let w = choose|i: int| 0 <= i < s.len() && htp_over(s) == mastered_spec(s[i]) as int;
        assert forall|i: int| 0 <= i < s.len() implies apply_master_spec((#[trigger] s[i]).value, s[i].master) <= merge_playbacks_spec(
            MergeMode::Htp, home, s) by {
            assert(mastered_spec(s[i]) as int <= htp_over(s));
        }
    }
}

} // verus!
