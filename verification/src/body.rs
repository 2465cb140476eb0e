//! The whole pipeline the tick runs: playbacks, merge, programmer, masters and
//! the DMX encoding.
//!
//! [`MergeBody`] owns a [`MergePlan`], the [`PlaybackLayer`] over it, the cue
//! players, the programmer, the masters and the buffers the resolve needs. A
//! tick runs, in order:
//!
//! 1. the playbacks are advanced and evaluated ([`CueLayer::advance`]);
//! 2. the source set is merged ([`PlaybackLayer::resolve`]);
//! 3. the programmer overrides it ([`ProgrammerLayer::apply`]);
//! 4. the masters scale what is left ([`MasterLayer::apply`]);
//! 5. the result is encoded into the frame ([`ChannelPlan::encode`]).
//!
//! Steps 3 and 4 are not interchangeable: the programmer sits below the
//! masters, so a grand master at zero blacks out an intensity the operator is
//! holding in the programmer as surely as one a cue is holding.
use vstd::prelude::*;

use crate::command::TickCommand;
use crate::sequence::{is_order, reordered, Sequence};
use crate::cue::{compiled_from, resolved_total, CueError, SequencePlan, MAX_CUES, MAX_CUE_PARTS};
use crate::encode::{encode_spec, fixtures_view, fold_fixtures, ChannelPlan, PatchError};
use crate::fixture::{Fixture, FixtureType, Group};
use crate::frame::{DmxFrame, FrameLayout, UNIVERSE_CHANNELS};
use crate::ids::PlaybackId;
use crate::master::{blackout_set, grand_set, group_level_set, groups_set, intensity_position, MasterLayer};
use crate::merge::FULL;
use crate::plan::{
    collect_slots, entries_view, sorted_slots, AttributeSlot, MergeError, MergePlan, PlanEntry,
    MAX_SOURCES,
};
use crate::playback::{
    activated, deactivated, flash_set, lemma_position_by_id, master_set, resolved, sorted_by_playback,
    MergeScratch, PlaybackLayer, PlaybackSource,
};
use crate::player::{
    crossfade_moved, cues_advanced, flash_marked, flashed_off, flashed_on, gone_to, sequence_loaded,
    speed_set, switched_off, switched_on, tapped, went, CueLayer, CuePlayer,
};
use crate::programmer::{loaded, programmed, unresolved, ProgrammerLayer, ProgrammerState};
use crate::sorted::strictly_sorted;

verus! {

/// The playback merge of every slot of a plan.
pub open spec fn merged_values(plan: Seq<AttributeSlot>, sources: Seq<PlaybackSource>) -> Seq<u16> {
    Seq::new(plan.len(), |s: int| resolved(sources, plan, s))
}

/// What the stack makes of a plan: the playbacks merged, the programmer on
/// top, and the masters over both.
pub open spec fn stack_output(
    plan: Seq<AttributeSlot>,
    sources: Seq<PlaybackSource>,
    held: Seq<Option<u16>>,
    masters: MasterLayer,
) -> Seq<u16> {
    masters.applied(programmed(held, merged_values(plan, sources)))
}

/// One player of a layer moved as `step` says and every other left alone; a
/// playback the layer has no player for changes nothing.
pub open spec fn player_stepped(
    before: CueLayer,
    after: CueLayer,
    id: PlaybackId,
    step: spec_fn(CuePlayer, CuePlayer) -> bool,
) -> bool {
    match before.player_position(id) {
        Some(i) => after.players_spec() == before.players_spec().update(i, after.players_spec()[i])
            && step(before.players_spec()[i], after.players_spec()[i]),
        None => after.players_spec() == before.players_spec(),
    }
}

/// Whether the layer has a player for this playback with a sequence on it.
pub open spec fn has_loaded_player(cues: CueLayer, id: PlaybackId) -> bool {
    cues.player_position(id) matches Some(i) && cues.players_spec()[i].sequence_spec() is Some
}

/// The player step a player command asks for; the others ask for none.
pub open spec fn player_command_step(command: TickCommand) -> spec_fn(CuePlayer, CuePlayer) -> bool {
    match command {
        TickCommand::SetExecutorSpeed { speed, .. } => |b: CuePlayer, a: CuePlayer| speed_set(b, a, speed),
        TickCommand::TapExecutorSpeed { .. } => |b: CuePlayer, a: CuePlayer| tapped(b, a),
        TickCommand::SetExecutorCrossfade { position, .. } => |b: CuePlayer, a: CuePlayer| crossfade_moved(b, a, position),
        TickCommand::Go { direction, .. } => |b: CuePlayer, a: CuePlayer| went(b, a, direction),
        TickCommand::GotoCue { cue_index, .. } => |b: CuePlayer, a: CuePlayer| gone_to(b, a, cue_index as usize),
        _ => |b: CuePlayer, a: CuePlayer| a == b,
    }
}

/// Whether switching a playback on in `layer` takes: it is there, and off.
pub open spec fn activates(layer: PlaybackLayer, id: PlaybackId) -> bool {
    layer.position_of(id) matches Some(i) && layer.sources_spec()[i].activation_spec() is None
}

/// What switching an executor on or off does: on one with a sequence it
/// starts or stops the sequence; on one without, it puts the source into the
/// merge or takes it out.
pub open spec fn activation_applied(before: MergeBody, after: MergeBody, executor: PlaybackId, on: bool) -> bool {
    if has_loaded_player(before.cues_spec(), executor) {
        &&& player_stepped(
            before.cues_spec(),
            after.cues_spec(),
            executor,
            if on {
                |b: CuePlayer, a: CuePlayer| switched_on(b, a)
            } else {
                |b: CuePlayer, a: CuePlayer| switched_off(b, a)
            },
        )
        &&& after.layer_spec() == before.layer_spec()
    } else {
        &&& if on {
            activated(before.layer_spec(), after.layer_spec(), executor)
        } else {
            deactivated(before.layer_spec(), after.layer_spec(), executor)
        }
        &&& after.cues_spec().players_spec() == before.cues_spec().players_spec()
    }
}

/// The flash level a held flash puts on a source, and a release takes off.
pub open spec fn flash_level(on: bool) -> Option<u16> {
    if on {
        Some(FULL)
    } else {
        None
    }
}

/// What a flash does. The flash level goes onto the source, full while held
/// and gone when released; then a playback with a sequence starts or stops as
/// a flash does, and one without is put into the merge while the flash is
/// held, and taken out on release only if the flash is what put it there.
pub open spec fn flash_applied(before: MergeBody, after: MergeBody, executor: PlaybackId, on: bool) -> bool {
    exists|mid: PlaybackLayer| #[trigger] flash_through(before, after, executor, on, mid)
}

/// A flash taken through `mid`, the layer with the flash level set and
/// nothing else changed yet.
pub open spec fn flash_through(before: MergeBody, after: MergeBody, executor: PlaybackId, on: bool, mid: PlaybackLayer) -> bool {
        {
            &&& flash_set(before.layer_spec(), mid, executor, flash_level(on))
            &&& match before.cues_spec().player_position(executor) {
                Some(i) => {
                    let p = before.cues_spec().players_spec()[i];
                    if p.sequence_spec() is Some {
                        &&& after.layer_spec() == mid
                        &&& player_stepped(
                            before.cues_spec(),
                            after.cues_spec(),
                            executor,
                            if on {
                                |b: CuePlayer, a: CuePlayer| flashed_on(b, a)
                            } else {
                                |b: CuePlayer, a: CuePlayer| flashed_off(b, a)
                            },
                        )
                    } else if on {
                        &&& activated(mid, after.layer_spec(), executor)
                        &&& if activates(mid, executor) {
                            player_stepped(before.cues_spec(), after.cues_spec(), executor, |b: CuePlayer, a: CuePlayer| flash_marked(b, a, true))
                        } else {
                            after.cues_spec().players_spec() == before.cues_spec().players_spec()
                        }
                    } else if p.flashed_spec() {
                        &&& deactivated(mid, after.layer_spec(), executor)
                        &&& player_stepped(before.cues_spec(), after.cues_spec(), executor, |b: CuePlayer, a: CuePlayer| flash_marked(b, a, false))
                    } else {
                        &&& after.layer_spec() == mid
                        &&& after.cues_spec().players_spec() == before.cues_spec().players_spec()
                    }
                },
                None => {
                    &&& after.layer_spec() == mid
                    &&& after.cues_spec().players_spec() == before.cues_spec().players_spec()
                },
            }
        }
}

/// What one command does to a body. Each command moves one part and leaves
/// the others as they were; the values are not touched until the next
/// resolve.
pub open spec fn tick_applied(before: MergeBody, after: MergeBody, command: TickCommand) -> bool {
    let layer_kept = after.layer_spec() == before.layer_spec();
    let cues_kept = after.cues_spec().players_spec() == before.cues_spec().players_spec();
    let programmer_kept = after.programmer_spec() == before.programmer_spec();
    let masters_kept = after.masters_spec() == before.masters_spec();
    let held = before.programmer_spec();
    match command {
        TickCommand::SetGrandMaster(level) => grand_set(before.masters_spec(), after.masters_spec(), level)
            && layer_kept && cues_kept && programmer_kept,
        TickCommand::SetBlackout(on) => blackout_set(before.masters_spec(), after.masters_spec(), on) && layer_kept
            && cues_kept && programmer_kept,
        TickCommand::SetGroupMaster { group, level } => group_level_set(
            before.masters_spec(),
            after.masters_spec(),
            group,
            level,
        ) && layer_kept && cues_kept && programmer_kept,
        TickCommand::SetProgrammerValue { slot, value } => after.programmer_spec() == (if slot < held.len() {
            held.update(slot as int, Some(value))
        } else {
            held
        }) && layer_kept && cues_kept && masters_kept,
        TickCommand::ClearProgrammerValue { slot } => after.programmer_spec() == (if slot < held.len() {
            held.update(slot as int, None)
        } else {
            held
        }) && layer_kept && cues_kept && masters_kept,
        TickCommand::ClearProgrammer => after.programmer_spec() == Seq::new(held.len(), |i: int| None::<u16>)
            && layer_kept && cues_kept && masters_kept,
        TickCommand::SetExecutorLevel { executor, level } => master_set(
            before.layer_spec(),
            after.layer_spec(),
            executor,
            level,
        ) && cues_kept && programmer_kept && masters_kept,
        TickCommand::SetExecutorActive { executor, on } => activation_applied(before, after, executor, on)
            && programmer_kept && masters_kept,
        TickCommand::SetExecutorFlash { executor, on } => flash_applied(before, after, executor, on)
            && programmer_kept && masters_kept,
        TickCommand::SetExecutorSpeed { executor, .. } | TickCommand::TapExecutorSpeed { executor }
        | TickCommand::SetExecutorCrossfade { executor, .. } | TickCommand::Go { executor, .. }
        | TickCommand::GotoCue { executor, .. } => player_stepped(
            before.cues_spec(),
            after.cues_spec(),
            executor,
            player_command_step(command),
        ) && layer_kept && programmer_kept && masters_kept,
    }
}

/// A body as it is built: well formed, every playback a source of its own,
/// off, at full, holding nothing, every player unloaded, the programmer
/// empty, the masters up with no groups, and the values resolved.
pub open spec fn fresh(body: MergeBody, playbacks: Seq<PlaybackId>) -> bool {
    let plan = body.plan_spec();
    let sources = body.layer_spec().sources_spec();
    let players = body.cues_spec().players_spec();
    &&& body.wf()
    &&& body.layer_spec().next_activation_spec() == 0
    &&& sources.len() == playbacks.to_set().len()
    &&& forall|p: PlaybackId|
        playbacks.contains(p) <==> exists|i: int| 0 <= i < sources.len() && #[trigger] sources[i].id_spec() == p
    &&& forall|i: int|
        0 <= i < sources.len() ==> {
            let s = #[trigger] sources[i];
            &&& s.activation_spec() is None
            &&& s.master_spec() == FULL
            &&& s.flash_spec() is None
            &&& s.slot_len() == plan.len()
            &&& forall|k: int| s.get_spec(k) is None
        }
    &&& players.len() == sources.len()
    &&& forall|i: int|
        0 <= i < players.len() ==> {
            let p = #[trigger] players[i];
            &&& p.playback_spec() == sources[i].id_spec()
            &&& p.sequence_spec() is None
            &&& p.current_spec() is None
        }
    &&& forall|i: int| 0 <= i < body.programmer_spec().len() ==> body.programmer_spec()[i] is None
    &&& body.masters_spec().grand_spec() == FULL
    &&& !body.masters_spec().blackout_spec()
    &&& body.masters_spec().groups_spec().len() == 0
    &&& body.values_spec() == body.output_spec()
}

/// The patch as the merge plan reads it: each fixture's number and type, with
/// no intensity supplied by the desk.
pub open spec fn patch_entries(fixtures: Seq<(Fixture, FixtureType)>) -> Seq<(crate::ids::FixtureId, FixtureType, bool)> {
    fixtures.map_values(|e: (Fixture, FixtureType)| (e.0.id, e.1, false))
}

/// The programmer overrides every playback and clearing it hands the slot
/// back: on a slot the masters do not scale, the stack gives the programmer's
/// value where it holds one, and the playback merge where it does not.
pub proof fn law_the_programmer_overrides_the_playbacks_and_clearing_hands_back(
    plan: Seq<AttributeSlot>,
    sources: Seq<PlaybackSource>,
    held: Seq<Option<u16>>,
    masters: MasterLayer,
    slot: int,
)
    requires
        0 <= slot < plan.len(),
        held.len() == plan.len(),
        intensity_position(masters.intensity_spec(), slot) is None,
    ensures
        stack_output(plan, sources, held, masters)[slot] == match held[slot] {
            Some(v) => v,
            None => resolved(sources, plan, slot),
        },
{
}

/// The programmer sits below the masters: with the grand master at zero, or
/// a blackout, every intensity slot is dark whatever the programmer holds.
pub proof fn law_the_programmer_sits_below_the_masters(
    plan: Seq<AttributeSlot>,
    sources: Seq<PlaybackSource>,
    held: Seq<Option<u16>>,
    masters: MasterLayer,
    slot: int,
)
    requires
        0 <= slot < plan.len(),
        intensity_position(masters.intensity_spec(), slot) is Some,
        masters.effective_grand_spec() == 0,
    ensures
        stack_output(plan, sources, held, masters)[slot] == 0,
{
}

/// What one playback is doing, as a screen reads it.
#[derive(Debug, Clone, Copy, PartialEq, Eq, Structural)]
pub struct PlaybackState {
    /// The playback.
    pub playback: PlaybackId,
    /// Whether it is running: a cue in force for a playback with a sequence,
    /// and in the merge for one without.
    pub is_active: bool,
    /// The cue in force, by index, if any.
    pub cue_index: Option<u32>,
}

/// What a player is doing, read against the layer its source is in.
pub open spec fn state_of_spec(player: CuePlayer, layer: PlaybackLayer) -> PlaybackState {
    let cue_index = match player.current_spec() {
        Some(c) => if c <= u32::MAX {
            Some(c as u32)
        } else {
            None
        },
        None => None,
    };
    PlaybackState {
        playback: player.playback_spec(),
        is_active: if player.sequence_spec() is Some {
            cue_index is Some
        } else {
            layer.position_of(player.playback_spec()) matches Some(i)
                && layer.sources_spec()[i].activation_spec() is Some
        },
        cue_index,
    }
}

/// What one player is doing, read against the layer its source is in.
fn state_of(player: &CuePlayer, layer: &PlaybackLayer) -> (r: PlaybackState)
    requires
        layer.wf(),
    ensures
        r == state_of_spec(*player, *layer),
{
    let cue_index = match player.current_cue() {
        Some(c) => if c <= u32::MAX as usize {
            Some(c as u32)
        } else {
            None
        },
        None => None,
    };
    let is_active = if player.is_loaded() {
        cue_index.is_some()
    } else {
        match layer.source(player.playback()) {
            Some(source) => source.is_active(),
            None => false,
        }
    };
    PlaybackState { playback: player.playback(), is_active, cue_index }
}

/// The whole pipeline, wired into the tick.
#[derive(Debug)]
pub struct MergeBody {
    plan: MergePlan,
    channels: ChannelPlan,
    layer: PlaybackLayer,
    cues: CueLayer,
    programmer: ProgrammerLayer,
    masters: MasterLayer,
    scratch: MergeScratch,
    values: Vec<u16>,
}

/// A body with nothing to play, for the cases that are about the patch alone.
pub const NO_PLAYBACKS: [PlaybackId; 0] = [];

impl MergeBody {
    /// The patch, flattened.
    pub closed spec fn plan_spec(&self) -> Seq<AttributeSlot> {
        self.plan@
    }

    /// The channel plan.
    pub closed spec fn channels_spec(&self) -> ChannelPlan {
        self.channels
    }

    /// The playback sources.
    pub closed spec fn layer_spec(&self) -> PlaybackLayer {
        self.layer
    }

    /// The cue players.
    pub closed spec fn cues_spec(&self) -> CueLayer {
        self.cues
    }

    /// The programmer, one optional value per slot.
    pub closed spec fn programmer_spec(&self) -> Seq<Option<u16>> {
        self.programmer@
    }

    /// The masters.
    pub closed spec fn masters_spec(&self) -> MasterLayer {
        self.masters
    }

    /// The resolved values, one per slot, as the last resolve left them.
    pub closed spec fn values_spec(&self) -> Seq<u16> {
        self.values@
    }

    /// How many slots the merge scratch covers.
    pub closed spec fn scratch_len(&self) -> int {
        self.scratch.len_spec()
    }

    /// The parts agree: every layer is well formed, every per-slot buffer is
    /// as long as the plan, and the cue layer has one player for each source
    /// of the playback layer, in the same order.
    pub open spec fn wf(&self) -> bool {
        &&& self.layer_spec().wf()
        &&& self.cues_spec().wf()
        &&& self.masters_spec().wf()
        &&& self.programmer_spec().len() == self.plan_spec().len()
        &&& self.scratch_len() == self.plan_spec().len()
        &&& self.values_spec().len() == self.plan_spec().len()
        &&& self.channels_spec().slot_count_spec() == self.plan_spec().len()
        &&& self.cues_spec().players_spec().len() == self.layer_spec().sources_spec().len()
        &&& forall|i: int|
            0 <= i < self.cues_spec().players_spec().len() ==> (#[trigger] self.cues_spec().players_spec()[i]).playback_spec()
                == self.layer_spec().sources_spec()[i].id_spec()
    }

    /// What the stack makes of the body as it stands.
    pub open spec fn output_spec(&self) -> Seq<u16> {
        stack_output(self.plan_spec(), self.layer_spec().sources_spec(), self.programmer_spec(), self.masters_spec())
    }

    /// Builds the merge and the encoder for a patch and a set of playbacks,
    /// and resolves once, so a body read before its first tick describes the
    /// rig at home rather than a blackout.
    ///
    /// Refused with [`PatchError::PlanMismatch`] when the two plans were built
    /// against patches of different sizes, and with
    /// [`MergeError::TooManySources`] when there are more playbacks than
    /// [`MAX_SOURCES`].
    pub fn new(plan: MergePlan, channels: ChannelPlan, playbacks: &[PlaybackId]) -> (r: Result<MergeBody, PatchError>)
        ensures
            channels.slot_count_spec() != plan@.len() ==> r == Err::<MergeBody, PatchError>(
                PatchError::PlanMismatch { plan: plan@.len() as usize, channels: channels.slot_count_spec() },
            ),
            channels.slot_count_spec() == plan@.len() && playbacks@.to_set().len() > MAX_SOURCES
                ==> r == Err::<MergeBody, PatchError>(
                PatchError::Plan(MergeError::TooManySources(playbacks@.to_set().len() as usize)),
            ),
            r is Ok <==> channels.slot_count_spec() == plan@.len() && playbacks@.to_set().len() <= MAX_SOURCES,
            r matches Ok(body) ==> body.plan_spec() == plan@ && body.channels_spec() == channels && fresh(
                body,
                playbacks@,
            ),
    {
        if channels.slot_count() != plan.slot_count() {
            return Err(PatchError::PlanMismatch { plan: plan.slot_count(), channels: channels.slot_count() });
        }
        let layer = match PlaybackLayer::new(&plan, playbacks) {
            Ok(layer) => layer,
            Err(e) => return Err(PatchError::Plan(e)),
        };
        let cues = CueLayer::for_layer(&layer);
        let programmer = ProgrammerLayer::new(&plan);
        let masters = MasterLayer::new(&plan);
        let scratch = MergeScratch::new(&plan);
        let n = plan.slot_count();
        let mut values: Vec<u16> = Vec::with_capacity(n);
        let mut i: usize = 0;
        while i < n
            invariant
                0 <= i <= n,
                values@.len() == i,
            decreases n - i,
        {
            values.push(0);
            i = i + 1;
        }
        let mut body = MergeBody { plan, channels, layer, cues, programmer, masters, scratch, values };
        body.resolve();
        Ok(body)
    }

    /// Runs the stack: merge the playbacks, override with the programmer,
    /// scale by the masters.
    pub fn resolve(&mut self)
        requires
            old(self).wf(),
        ensures
            final(self).wf(),
            final(self).values_spec() == old(self).output_spec(),
            final(self).plan_spec() == old(self).plan_spec(),
            final(self).channels_spec() == old(self).channels_spec(),
            final(self).layer_spec() == old(self).layer_spec(),
            final(self).cues_spec() == old(self).cues_spec(),
            final(self).programmer_spec() == old(self).programmer_spec(),
            final(self).masters_spec() == old(self).masters_spec(),
    {
        let ghost before = self.values@;
        self.layer.resolve(&self.plan, &mut self.scratch, self.values.as_mut_slice());
        proof {
            assert(self.values@ =~= merged_values(self.plan@, self.layer.sources_spec()));
        }
        self.programmer.apply(self.values.as_mut_slice());
        self.masters.apply(self.values.as_mut_slice());
    }

    /// Acts on one command from the queue. A command naming a playback, group
    /// or slot this body does not have changes nothing: a stale command must
    /// not stop the tick. The values move on the next resolve.
    pub fn apply(&mut self, command: TickCommand)
        requires
            old(self).wf(),
        ensures
            final(self).wf(),
            final(self).plan_spec() == old(self).plan_spec(),
            final(self).channels_spec() == old(self).channels_spec(),
            final(self).values_spec() == old(self).values_spec(),
            final(self).scratch_len() == old(self).scratch_len(),
            tick_applied(*old(self), *final(self), command),
    {
        match command {
            TickCommand::SetGrandMaster(level) => self.masters.set_grand(level),
            TickCommand::SetBlackout(on) => self.masters.set_blackout(on),
            TickCommand::SetGroupMaster { group, level } => {
                self.masters.set_group_level(group, level);
            },
            TickCommand::SetProgrammerValue { slot, value } => {
                self.programmer.set(slot as usize, value);
            },
            TickCommand::ClearProgrammerValue { slot } => {
                self.programmer.clear(slot as usize);
            },
            TickCommand::ClearProgrammer => {
                self.programmer.clear_all();
                proof {
                    assert(self.programmer@ =~= Seq::new(old(self).programmer@.len(), |i: int| None::<u16>));
                }
            },
            TickCommand::SetExecutorLevel { executor, level } => {
                self.layer.set_master(executor, level);
            },
            TickCommand::SetExecutorActive { executor, on } => self.apply_activation(executor, on),
            TickCommand::SetExecutorFlash { executor, on } => self.apply_flash(executor, on),
            TickCommand::SetExecutorSpeed { .. } | TickCommand::TapExecutorSpeed { .. }
            | TickCommand::SetExecutorCrossfade { .. } | TickCommand::Go { .. } | TickCommand::GotoCue { .. } => {
                self.apply_to_player(command);
            },
        }
    }

    /// Switches an executor on or off.
    fn apply_activation(&mut self, executor: PlaybackId, on: bool)
        requires
            old(self).wf(),
        ensures
            final(self).wf(),
            final(self).plan_spec() == old(self).plan_spec(),
            final(self).channels_spec() == old(self).channels_spec(),
            final(self).values_spec() == old(self).values_spec(),
            final(self).scratch_len() == old(self).scratch_len(),
            final(self).programmer_spec() == old(self).programmer_spec(),
            final(self).masters_spec() == old(self).masters_spec(),
            activation_applied(*old(self), *final(self), executor, on),
    {
        let ghost cues_before = self.cues;
        let loaded = match self.cues.player(executor) {
            Some(player) => player.is_loaded(),
            None => false,
        };
        if loaded {
            match self.cues.player_mut(executor) {
                Some(player) => {
                    if on {
                        player.on();
                    } else {
                        player.off();
                    }
                },
                None => {},
            }
            proof {
                let i = cues_before.player_position(executor)->0;
                CueLayer::lemma_replace_keeps_wf(cues_before, self.cues, i);
            }
        } else {
            if on {
                self.layer.activate(executor);
            } else {
                self.layer.deactivate(executor);
            }
        }
    }

    /// Holds or releases a flash over an executor.
    fn apply_flash(&mut self, executor: PlaybackId, on: bool)
        requires
            old(self).wf(),
        ensures
            final(self).wf(),
            final(self).plan_spec() == old(self).plan_spec(),
            final(self).channels_spec() == old(self).channels_spec(),
            final(self).values_spec() == old(self).values_spec(),
            final(self).scratch_len() == old(self).scratch_len(),
            final(self).programmer_spec() == old(self).programmer_spec(),
            final(self).masters_spec() == old(self).masters_spec(),
            flash_applied(*old(self), *final(self), executor, on),
    {
        let ghost cues_before = self.cues;
        let level = if on { Some(FULL) } else { None };
        self.layer.set_flash(executor, level);
        let ghost mid = self.layer;
        proof {
            assert(level == flash_level(on));
            assert(flash_set(old(self).layer_spec(), mid, executor, flash_level(on)));
        }
        let present = self.cues.player(executor).is_some();
        match present {
            true => {
                let ghost i = cues_before.player_position(executor)->0;
                let player = match self.cues.player_mut(executor) {
                    Some(player) => player,
                    None => return,
                };
                let ghost p = *player;
                if player.is_loaded() {
                    if on {
                        player.flash_on();
                    } else {
                        player.flash_off();
                    }
                } else if on {
                    if self.layer.activate(executor) {
                        player.mark_flashed(true);
                    } else {
                        proof {
                            assert(activated(mid, self.layer, executor));
                        }
                    }
                } else if player.is_flashed() {
                    player.mark_flashed(false);
                    self.layer.deactivate(executor);
                }
                proof {
                    CueLayer::lemma_replace_keeps_wf(cues_before, self.cues, i);
                    if !(p.sequence_spec() is Some) && on && !activates(mid, executor) {
                        assert(self.cues.players_spec() =~= cues_before.players_spec());
                    }
                    if !(p.sequence_spec() is Some) && !on && !p.flashed_spec() {
                        assert(self.cues.players_spec() =~= cues_before.players_spec());
                    }
                }
            },
            false => {
                proof {
                    assert(cues_before.player_position(executor) is None);
                }
            },
        }
        proof {
            assert(flash_set(old(self).layer_spec(), mid, executor, flash_level(on)));
            assert(flash_through(*old(self), *self, executor, on, mid));
        }
    }

    /// Hands a speed, tap, crossfade, Go or Goto to the executor's player.
    fn apply_to_player(&mut self, command: TickCommand)
        requires
            old(self).wf(),
            command is SetExecutorSpeed || command is TapExecutorSpeed || command is SetExecutorCrossfade
                || command is Go || command is GotoCue,
        ensures
            final(self).wf(),
            final(self).plan_spec() == old(self).plan_spec(),
            final(self).channels_spec() == old(self).channels_spec(),
            final(self).values_spec() == old(self).values_spec(),
            final(self).scratch_len() == old(self).scratch_len(),
            final(self).programmer_spec() == old(self).programmer_spec(),
            final(self).masters_spec() == old(self).masters_spec(),
            final(self).layer_spec() == old(self).layer_spec(),
            tick_applied(*old(self), *final(self), command),
    {
        let ghost cues_before = self.cues;
        let executor = match command {
            TickCommand::SetExecutorSpeed { executor, .. } => executor,
            TickCommand::TapExecutorSpeed { executor } => executor,
            TickCommand::SetExecutorCrossfade { executor, .. } => executor,
            TickCommand::Go { executor, .. } => executor,
            TickCommand::GotoCue { executor, .. } => executor,
            _ => return,
        };
        match self.cues.player_mut(executor) {
            Some(player) => {
                match command {
                    TickCommand::SetExecutorSpeed { speed, .. } => player.set_speed(speed),
                    TickCommand::TapExecutorSpeed { .. } => player.tap(),
                    TickCommand::SetExecutorCrossfade { position, .. } => player.set_crossfade(position),
                    TickCommand::Go { direction, .. } => {
                        player.go(direction);
                    },
                    TickCommand::GotoCue { cue_index, .. } => {
                        player.goto(cue_index as usize);
                    },
                    _ => {},
                }
            },
            None => {},
        }
        proof {
            match cues_before.player_position(executor) {
                Some(i) => {
                    CueLayer::lemma_replace_keeps_wf(cues_before, self.cues, i);
                },
                None => {
                    CueLayer::lemma_same_players(cues_before, self.cues);
                },
            }
        }
    }

    /// The merge plan itself.
    pub closed spec fn merge_plan(&self) -> MergePlan {
        self.plan
    }

    /// Builds both plans from one patch and then the body over them.
    ///
    /// Refused with the merge plan's refusal when the patch cannot be merged
    /// (a fixture patched twice, a type naming an attribute twice), with the
    /// channel plan's when it cannot be encoded (an address that does not fit,
    /// a universe the layout does not carry), and with
    /// [`MergeError::TooManySources`] when there are too many playbacks.
    pub fn for_patch(layout: &FrameLayout, fixtures: &[(&Fixture, &FixtureType)], playbacks: &[PlaybackId]) -> (r:
        Result<MergeBody, PatchError>)
        ensures
            match collect_slots(patch_entries(fixtures_view(fixtures@))) {
                Err(e) => r == Err::<MergeBody, PatchError>(PatchError::Plan(e)),
                Ok(collected) => exists|p: Seq<AttributeSlot>|
                    #![trigger fold_fixtures(p, layout@, fixtures_view(fixtures@), Set::empty(), Seq::empty())]
                    {
                        &&& sorted_slots(p)
                        &&& p.to_set() == collected.to_set()
                        &&& p.len() == collected.len()
                        &&& match fold_fixtures(p, layout@, fixtures_view(fixtures@), Set::empty(), Seq::empty()) {
                            Err(e) => r == Err::<MergeBody, PatchError>(e),
                            Ok(targets) => {
                                &&& playbacks@.to_set().len() > MAX_SOURCES ==> r == Err::<MergeBody, PatchError>(
                                    PatchError::Plan(MergeError::TooManySources(playbacks@.to_set().len() as usize)),
                                )
                                &&& r is Ok <==> playbacks@.to_set().len() <= MAX_SOURCES
                                &&& r matches Ok(body) ==> {
                                    &&& body.plan_spec() == p
                                    &&& strictly_sorted(body.channels_spec()@)
                                    &&& body.channels_spec()@.to_set() == targets.to_set()
                                    &&& body.channels_spec()@.len() == targets.len()
                                    &&& body.channels_spec().channel_count_spec() == layout@.len() * UNIVERSE_CHANNELS
                                    &&& fresh(body, playbacks@)
                                }
                            },
                        }
                    },
            },
    {
        let mut entries: Vec<PlanEntry> = Vec::new();
        let mut i: usize = 0;
        while i < fixtures.len()
            invariant
                0 <= i <= fixtures@.len(),
                entries_view(entries@) == patch_entries(fixtures_view(fixtures@)).take(i as int),
            decreases fixtures@.len() - i,
        {
            let (fixture, fixture_type) = fixtures[i];
            let ghost before = entries@;
            entries.push((fixture.id, fixture_type, false));
            proof {
                let whole = patch_entries(fixtures_view(fixtures@));
                assert(whole.len() == fixtures@.len());
                assert(entries_view(before).len() == before.len());
                assert(before.len() == i);
                assert(fixtures_view(fixtures@)[i as int] == (*fixture, *fixture_type));
                assert(whole[i as int] == (fixture.id, *fixture_type, false));
                assert(entries@ == before.push((fixture.id, fixture_type, false)));
                assert forall|k: int| 0 <= k < i + 1 implies entries_view(entries@)[k] == whole.take(i + 1)[k] by {
                    if k < i {
                        assert(entries_view(before)[k] == whole.take(i as int)[k]);
                        assert(entries@[k] == before[k]);
                    }
                }
                assert(entries_view(entries@) =~= whole.take(i + 1));
            }
            i = i + 1;
        }
        proof {
            assert(patch_entries(fixtures_view(fixtures@)).take(i as int) =~= patch_entries(fixtures_view(fixtures@)));
        }
        let plan = match MergePlan::build(entries.as_slice()) {
            Ok(plan) => plan,
            Err(e) => return Err(PatchError::Plan(e)),
        };
        let ghost p = plan@;
        let channels = match ChannelPlan::build(&plan, layout, fixtures) {
            Ok(channels) => channels,
            Err(e) => {
                proof {
                    assert(fold_fixtures(p, layout@, fixtures_view(fixtures@), Set::empty(), Seq::empty()) is Err);
                }
                return Err(e);
            },
        };
        proof {
            assert(fold_fixtures(p, layout@, fixtures_view(fixtures@), Set::empty(), Seq::empty()) is Ok);
        }
        MergeBody::new(plan, channels, playbacks)
    }

    /// Puts the show's groups onto the group masters, each at full.
    pub fn load_groups(&mut self, groups: &[Group])
        requires
            old(self).wf(),
        ensures
            final(self).wf(),
            groups_set(old(self).masters_spec(), final(self).masters_spec(), old(self).merge_plan(), groups@),
            final(self).plan_spec() == old(self).plan_spec(),
            final(self).channels_spec() == old(self).channels_spec(),
            final(self).layer_spec() == old(self).layer_spec(),
            final(self).cues_spec() == old(self).cues_spec(),
            final(self).programmer_spec() == old(self).programmer_spec(),
            final(self).values_spec() == old(self).values_spec(),
            final(self).scratch_len() == old(self).scratch_len(),
    {
        self.masters.set_groups(&self.plan, groups);
    }

    /// Resolves an operator-facing programmer state against this body's own
    /// patch and installs it in place of what the programmer held, returning
    /// how many of its entries named something the patch does not have.
    pub fn load_programmer(&mut self, state: &ProgrammerState) -> (r: usize)
        requires
            old(self).wf(),
        ensures
            final(self).wf(),
            final(self).programmer_spec() == loaded(
                old(self).plan_spec(),
                state.values@,
                Seq::new(old(self).programmer_spec().len(), |i: int| None::<u16>),
            ),
            r == unresolved(old(self).plan_spec(), state.values@),
            final(self).plan_spec() == old(self).plan_spec(),
            final(self).channels_spec() == old(self).channels_spec(),
            final(self).layer_spec() == old(self).layer_spec(),
            final(self).cues_spec() == old(self).cues_spec(),
            final(self).masters_spec() == old(self).masters_spec(),
            final(self).values_spec() == old(self).values_spec(),
            final(self).scratch_len() == old(self).scratch_len(),
    {
        let r = self.programmer.load(&self.plan, state);
        proof {
            crate::programmer::lemma_loaded_len(self.plan@, state.values@, Seq::new(old(self).programmer@.len(), |i: int| None::<u16>));
        }
        r
    }

    /// Compiles a cue list against this body's own patch, its cues taken in
    /// the playback order `order`, and puts it on a playback, stopped.
    ///
    /// Refused with [`CueError::UnknownPlayback`] when this body has no such
    /// playback, and otherwise as [`SequencePlan::build`] refuses; a refusal
    /// changes nothing.
    pub fn load_sequence(&mut self, playback: PlaybackId, sequence: &Sequence, order: &[usize]) -> (r: Result<(), CueError>)
        requires
            old(self).wf(),
        ensures
            final(self).wf(),
            final(self).plan_spec() == old(self).plan_spec(),
            final(self).channels_spec() == old(self).channels_spec(),
            final(self).layer_spec() == old(self).layer_spec(),
            final(self).programmer_spec() == old(self).programmer_spec(),
            final(self).masters_spec() == old(self).masters_spec(),
            final(self).values_spec() == old(self).values_spec(),
            final(self).scratch_len() == old(self).scratch_len(),
            old(self).cues_spec().player_position(playback) is None ==> r == Err::<(), CueError>(
                CueError::UnknownPlayback(playback),
            ),
            old(self).cues_spec().player_position(playback) is Some && sequence.cues@.len() > MAX_CUES ==> r
                == Err::<(), CueError>(CueError::TooManyCues(sequence.cues@.len() as usize)),
            old(self).cues_spec().player_position(playback) is Some && sequence.cues@.len() <= MAX_CUES
                && !is_order(order@, sequence.cues@.len() as int) ==> r == Err::<(), CueError>(
                CueError::NotAnOrder(sequence.cues@.len() as usize),
            ),
            old(self).cues_spec().player_position(playback) is Some && sequence.cues@.len() <= MAX_CUES
                && is_order(order@, sequence.cues@.len() as int)
                && resolved_total(old(self).plan_spec(), reordered(sequence.cues@, order@), sequence.cues@.len() as int) > MAX_CUE_PARTS
                ==> r == Err::<(), CueError>(CueError::TooManyParts((MAX_CUE_PARTS + 1) as usize)),
            r is Ok <==> (old(self).cues_spec().player_position(playback) is Some && sequence.cues@.len() <= MAX_CUES
                && is_order(order@, sequence.cues@.len() as int)
                && resolved_total(old(self).plan_spec(), reordered(sequence.cues@, order@), sequence.cues@.len() as int)
                <= MAX_CUE_PARTS),
            r is Err ==> final(self).cues_spec().players_spec() == old(self).cues_spec().players_spec(),
            r is Ok ==> exists|sp: SequencePlan|
                #[trigger] compiled_from(old(self).plan_spec(), *sequence, order@, sp) && player_stepped(
                    old(self).cues_spec(),
                    final(self).cues_spec(),
                    playback,
                    |b: CuePlayer, a: CuePlayer| sequence_loaded(b, a, sp),
                ),
    {
        let ghost cues_before = self.cues;
        if self.cues.player(playback).is_none() {
            return Err(CueError::UnknownPlayback(playback));
        }
        let compiled = match SequencePlan::build(&self.plan, sequence, order) {
            Ok(compiled) => compiled,
            Err(e) => return Err(e),
        };
        let ghost sp = compiled;
        match self.cues.player_mut(playback) {
            Some(player) => player.load(compiled),
            None => {},
        }
        proof {
            let i = cues_before.player_position(playback)->0;
            CueLayer::lemma_replace_keeps_wf(cues_before, self.cues, i);
            assert(compiled_from(old(self).plan_spec(), *sequence, order@, sp));
        }
        Ok(())
    }

    /// One tick: every playback is advanced to tick `tick` and written into
    /// its source, the stack is resolved, and the values are encoded into
    /// `frame`.
    pub fn render(&mut self, tick: u64, frame: &mut DmxFrame)
        requires
            old(self).wf(),
        ensures
            final(self).wf(),
            cues_advanced(
                old(self).cues_spec(),
                final(self).cues_spec(),
                old(self).layer_spec(),
                final(self).layer_spec(),
                tick,
            ),
            final(self).values_spec() == final(self).output_spec(),
            final(self).plan_spec() == old(self).plan_spec(),
            final(self).channels_spec() == old(self).channels_spec(),
            final(self).programmer_spec() == old(self).programmer_spec(),
            final(self).masters_spec() == old(self).masters_spec(),
            final(self).scratch_len() == old(self).scratch_len(),
            final(frame).bytes() == encode_spec(final(self).channels_spec()@, final(self).values_spec(), old(frame).bytes()),
            final(frame).sequence_spec() == old(frame).sequence_spec(),
    {
        self.cues.advance(tick, &mut self.layer);
        self.resolve();
        self.channels.encode(self.values.as_slice(), frame);
    }

    /// The patch this body merges over.
    pub fn plan(&self) -> (r: &MergePlan)
        ensures
            r@ == self.plan_spec(),
    {
        &self.plan
    }

    /// The channels this body writes, and where.
    pub fn channels(&self) -> (r: &ChannelPlan)
        ensures
            *r == self.channels_spec(),
    {
        &self.channels
    }

    /// The playback sources.
    pub fn layer(&self) -> (r: &PlaybackLayer)
        ensures
            *r == self.layer_spec(),
    {
        &self.layer
    }

    /// The playback sources, to change by hand. A source whose player has a
    /// sequence on it is rewritten by that player on the next tick.
    pub fn layer_mut(&mut self) -> (r: &mut PlaybackLayer)
        ensures
            *r == old(self).layer_spec(),
            final(self).layer_spec() == *final(r),
            final(self).plan_spec() == old(self).plan_spec(),
            final(self).channels_spec() == old(self).channels_spec(),
            final(self).cues_spec() == old(self).cues_spec(),
            final(self).programmer_spec() == old(self).programmer_spec(),
            final(self).masters_spec() == old(self).masters_spec(),
            final(self).values_spec() == old(self).values_spec(),
            final(self).scratch_len() == old(self).scratch_len(),
    {
        &mut self.layer
    }

    /// The cue players, one per playback.
    pub fn cues(&self) -> (r: &CueLayer)
        ensures
            *r == self.cues_spec(),
    {
        &self.cues
    }

    /// The cue players, to change by hand.
    pub fn cues_mut(&mut self) -> (r: &mut CueLayer)
        ensures
            *r == old(self).cues_spec(),
            final(self).cues_spec() == *final(r),
            final(self).plan_spec() == old(self).plan_spec(),
            final(self).channels_spec() == old(self).channels_spec(),
            final(self).layer_spec() == old(self).layer_spec(),
            final(self).programmer_spec() == old(self).programmer_spec(),
            final(self).masters_spec() == old(self).masters_spec(),
            final(self).values_spec() == old(self).values_spec(),
            final(self).scratch_len() == old(self).scratch_len(),
    {
        &mut self.cues
    }

    /// The programmer: the operator's absolute override, above every playback.
    pub fn programmer(&self) -> (r: &ProgrammerLayer)
        ensures
            r@ == self.programmer_spec(),
    {
        &self.programmer
    }

    /// The programmer, to set up by hand before the tick runs.
    pub fn programmer_mut(&mut self) -> (r: &mut ProgrammerLayer)
        ensures
            r@ == old(self).programmer_spec(),
            final(self).programmer_spec() == final(r)@,
            final(self).plan_spec() == old(self).plan_spec(),
            final(self).channels_spec() == old(self).channels_spec(),
            final(self).layer_spec() == old(self).layer_spec(),
            final(self).cues_spec() == old(self).cues_spec(),
            final(self).masters_spec() == old(self).masters_spec(),
            final(self).values_spec() == old(self).values_spec(),
            final(self).scratch_len() == old(self).scratch_len(),
    {
        &mut self.programmer
    }

    /// The grand master, the blackout and the group masters.
    pub fn masters(&self) -> (r: &MasterLayer)
        ensures
            *r == self.masters_spec(),
    {
        &self.masters
    }

    /// The masters, to change by hand.
    pub fn masters_mut(&mut self) -> (r: &mut MasterLayer)
        ensures
            *r == old(self).masters_spec(),
            final(self).masters_spec() == *final(r),
            final(self).plan_spec() == old(self).plan_spec(),
            final(self).channels_spec() == old(self).channels_spec(),
            final(self).layer_spec() == old(self).layer_spec(),
            final(self).cues_spec() == old(self).cues_spec(),
            final(self).programmer_spec() == old(self).programmer_spec(),
            final(self).values_spec() == old(self).values_spec(),
            final(self).scratch_len() == old(self).scratch_len(),
    {
        &mut self.masters
    }

    /// The fully resolved values, one per slot of the plan: the output of the
    /// whole stack as the last resolve left it.
    pub fn values(&self) -> (r: &[u16])
        ensures
            r@ == self.values_spec(),
    {
        self.values.as_slice()
    }

    /// What one playback is doing, or nothing for a playback this body does
    /// not have.
    pub fn playback_state(&self, playback: PlaybackId) -> (r: Option<PlaybackState>)
        requires
            self.wf(),
        ensures
            r == match self.cues_spec().player_position(playback) {
                Some(i) => Some(state_of_spec(self.cues_spec().players_spec()[i], self.layer_spec())),
                None => None::<PlaybackState>,
            },
    {
        match self.cues.player(playback) {
            Some(player) => Some(state_of(player, &self.layer)),
            None => None,
        }
    }
}


/// A flash on a playback with no cue list takes out only what it put in:
/// held, moved to a new level, and released, the playback's master stands at
/// the level it was moved to, the flash level is gone, and the playback is in
/// the merge exactly when it was before the flash.
pub proof fn law_a_flash_on_a_playback_with_no_cue_list_takes_out_only_what_it_put_in(
    b0: MergeBody,
    b1: MergeBody,
    b2: MergeBody,
    b3: MergeBody,
    executor: PlaybackId,
    level: u16,
)
    requires
        b0.wf(),
        b1.wf(),
        b2.wf(),
        b0.cues_spec().player_position(executor) matches Some(i) && b0.cues_spec().players_spec()[i].sequence_spec() is None
            && !b0.cues_spec().players_spec()[i].flashed_spec(),
        tick_applied(b0, b1, TickCommand::SetExecutorFlash { executor, on: true }),
        tick_applied(b1, b2, TickCommand::SetExecutorLevel { executor, level }),
        tick_applied(b2, b3, TickCommand::SetExecutorFlash { executor, on: false }),
    ensures
        forall|j: int|
            b0.layer_spec().position_of(executor) == Some(j) ==> {
                let before = b0.layer_spec().sources_spec()[j];
                let after = #[trigger] b3.layer_spec().sources_spec()[j];
                &&& after.id_spec() == executor
                &&& after.master_spec() == level
                &&& after.flash_spec() is None
                &&& (after.activation_spec() is Some) == (before.activation_spec() is Some)
            },
{
    let i = b0.cues_spec().player_position(executor)->0;
    lemma_a_player_has_a_source(b0, executor);
    let j = b0.layer_spec().position_of(executor)->0;
    b0.layer_spec().lemma_sorted();
    b1.layer_spec().lemma_sorted();
    b2.layer_spec().lemma_sorted();
    let a0 = b0.layer_spec().sources_spec()[j].activation_spec() is Some;
    assert(b0.layer_spec().sources_spec()[j].id_spec() == executor);
    assert(b0.cues_spec().players_spec()[i].playback_spec() == executor);

    // The flash is held.
    let mid1 = choose|mid: PlaybackLayer| #[trigger] flash_through(b0, b1, executor, true, mid);
    assert(flash_through(b0, b1, executor, true, mid1));
    assert(sorted_by_playback(mid1.sources_spec())) by {
        assert forall|x: int, y: int| 0 <= x < y < mid1.sources_spec().len() implies mid1.sources_spec()[x].id_spec().0
            < mid1.sources_spec()[y].id_spec().0 by {
            assert(b0.layer_spec().sources_spec()[x].id_spec().0 < b0.layer_spec().sources_spec()[y].id_spec().0);
        }
    }
    lemma_position_by_id(mid1, executor, j);
    assert(b1.layer_spec().sources_spec()[j].id_spec() == executor);
    assert(b1.layer_spec().sources_spec()[j].flash_spec() == Some(FULL));
    assert((b1.layer_spec().sources_spec()[j].activation_spec() is Some));
    assert(b1.cues_spec().players_spec()[i].playback_spec() == executor);
    assert(b1.cues_spec().players_spec()[i].sequence_spec() is None);
    assert(b1.cues_spec().players_spec()[i].flashed_spec() == !a0);

    // The level moves while it is held.
    assert(b1.layer_spec().position_of(executor) == Some(j));
    assert(b2.layer_spec().sources_spec()[j].master_spec() == level);
    assert(b2.layer_spec().sources_spec()[j].flash_spec() == Some(FULL));
    assert(b2.layer_spec().sources_spec()[j].id_spec() == executor);
    assert(b2.layer_spec().sources_spec()[j].activation_spec() == b1.layer_spec().sources_spec()[j].activation_spec());
    assert(b2.cues_spec().players_spec() == b1.cues_spec().players_spec());

    // The flash is released.
    CueLayer::lemma_player_at(b2.cues_spec(), executor, i);
    let mid3 = choose|mid: PlaybackLayer| #[trigger] flash_through(b2, b3, executor, false, mid);
    assert(flash_through(b2, b3, executor, false, mid3));
    assert(b2.layer_spec().position_of(executor) == Some(j));
    assert(sorted_by_playback(mid3.sources_spec())) by {
        assert forall|x: int, y: int| 0 <= x < y < mid3.sources_spec().len() implies mid3.sources_spec()[x].id_spec().0
            < mid3.sources_spec()[y].id_spec().0 by {
            assert(b2.layer_spec().sources_spec()[x].id_spec().0 < b2.layer_spec().sources_spec()[y].id_spec().0);
        }
    }
    lemma_position_by_id(mid3, executor, j);
}


/// In a well-formed body a playback with a player has a source, and one
/// with no player has none.
pub proof fn lemma_a_player_has_a_source(body: MergeBody, executor: PlaybackId)
    requires
        body.wf(),
    ensures
        (body.cues_spec().player_position(executor) is Some) == (body.layer_spec().position_of(executor) is Some),
{
    let players = body.cues_spec().players_spec();
    let sources = body.layer_spec().sources_spec();
    if body.cues_spec().player_position(executor) is Some {
        let i = body.cues_spec().player_position(executor)->0;
        assert(players[i].playback_spec() == sources[i].id_spec());
    }
    if body.layer_spec().position_of(executor) is Some {
        let i = body.layer_spec().position_of(executor)->0;
        assert(players[i].playback_spec() == sources[i].id_spec());
    }
}

/// Whether a command names a playback, a group or a slot the body does not
/// have.
pub open spec fn names_nothing_here(body: MergeBody, command: TickCommand) -> bool {
    match command {
        TickCommand::SetGroupMaster { group, .. } => body.masters_spec().level_of(group) is None,
        TickCommand::SetProgrammerValue { slot, .. } => slot >= body.programmer_spec().len(),
        TickCommand::ClearProgrammerValue { slot } => slot >= body.programmer_spec().len(),
        TickCommand::SetExecutorLevel { executor, .. } | TickCommand::SetExecutorActive { executor, .. }
        | TickCommand::SetExecutorFlash { executor, .. } | TickCommand::SetExecutorSpeed { executor, .. }
        | TickCommand::TapExecutorSpeed { executor } | TickCommand::SetExecutorCrossfade { executor, .. }
        | TickCommand::Go { executor, .. } | TickCommand::GotoCue { executor, .. } => body.cues_spec().player_position(
            executor,
        ) is None,
        _ => false,
    }
}

/// A command for a playback, a group or a slot the body does not have is
/// ignored: the playbacks, the players, the programmer and what the masters
/// do are as they were, so the next resolve gives the same values.
pub proof fn law_a_command_for_something_the_body_does_not_have_is_ignored(
    before: MergeBody,
    after: MergeBody,
    command: TickCommand,
)
    requires
        before.wf(),
        tick_applied(before, after, command),
        names_nothing_here(before, command),
        after.plan_spec() == before.plan_spec(),
    ensures
        after.layer_spec() == before.layer_spec(),
        after.cues_spec().players_spec() == before.cues_spec().players_spec(),
        after.programmer_spec() == before.programmer_spec(),
        forall|v: Seq<u16>| #[trigger] after.masters_spec().applied(v) == before.masters_spec().applied(v),
        after.output_spec() == before.output_spec(),
{
    match command {
        TickCommand::SetGroupMaster { group, level } => {
            assert(after.masters_spec().levels_spec() == before.masters_spec().levels_spec());
            assert forall|v: Seq<u16>| #[trigger] after.masters_spec().applied(v) == before.masters_spec().applied(v) by {
                assert(after.masters_spec().applied(v) =~= before.masters_spec().applied(v));
            }
        },
        TickCommand::SetProgrammerValue { .. } | TickCommand::ClearProgrammerValue { .. } => {},
        TickCommand::SetGrandMaster(..) | TickCommand::SetBlackout(..) | TickCommand::ClearProgrammer => {},
        TickCommand::SetExecutorFlash { executor, on } => {
            lemma_a_player_has_a_source(before, executor);
            let mid = choose|mid: PlaybackLayer| #[trigger] flash_through(before, after, executor, on, mid);
            assert(flash_through(before, after, executor, on, mid));
        },
        TickCommand::SetExecutorLevel { executor, .. } | TickCommand::SetExecutorActive { executor, .. }
        | TickCommand::SetExecutorSpeed { executor, .. } | TickCommand::TapExecutorSpeed { executor }
        | TickCommand::SetExecutorCrossfade { executor, .. } | TickCommand::Go { executor, .. }
        | TickCommand::GotoCue { executor, .. } => {
            lemma_a_player_has_a_source(before, executor);
        },
    }
}


/// An executor with no cue list is reported running exactly as it was last
/// switched: on after it is switched on, off after it is switched off.
pub proof fn law_an_executor_without_a_cue_list_reports_what_it_was_switched_to(
    before: MergeBody,
    after: MergeBody,
    executor: PlaybackId,
    on: bool,
)
    requires
        before.wf(),
        after.wf(),
        before.cues_spec().player_position(executor) matches Some(i) && before.cues_spec().players_spec()[i].sequence_spec()
            is None,
        tick_applied(before, after, TickCommand::SetExecutorActive { executor, on }),
    ensures
        after.cues_spec().player_position(executor) matches Some(j) && state_of_spec(
            after.cues_spec().players_spec()[j],
            after.layer_spec(),
        ).is_active == on,
{
    let i = before.cues_spec().player_position(executor)->0;
    lemma_a_player_has_a_source(before, executor);
    before.layer_spec().lemma_sorted();
    after.layer_spec().lemma_sorted();
    let players = before.cues_spec().players_spec();
    assert(players[i].playback_spec() == executor);
    assert(before.layer_spec().sources_spec()[i].id_spec() == executor);
    lemma_position_by_id(before.layer_spec(), executor, i);
    assert(after.cues_spec().players_spec() == players);
    assert(after.layer_spec().sources_spec()[i].id_spec() == executor);
    lemma_position_by_id(after.layer_spec(), executor, i);
    assert(after.cues_spec().player_position(executor) == Some(i));
}

} // verus!
