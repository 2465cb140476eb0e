use prismdmx::fixture::{AttributeDef, AttributeType, FeatureGroup, FixtureType};
use prismdmx::ids::{FixtureId, PlaybackId, SequenceId};
use prismdmx::merge::FULL;
use prismdmx::plan::{MergeError, MergePlan, MAX_SOURCES};
use prismdmx::playback::{MergeScratch, PlaybackLayer};

fn moving_head() -> FixtureType {
    let def = |attribute: AttributeType, default_value: u16, coarse_offset: u16, group| AttributeDef {
        attribute,
        coarse_offset,
        fine_offset: None,
        default_value,
        merge_mode: attribute.default_merge_mode(),
        feature_group: group,
        invert: false,
    };
    FixtureType {
        id: "test.movinghead".to_owned(),
        footprint: 2,
        attributes: vec![
            def(AttributeType::Dimmer, 0, 0, FeatureGroup::Dimmer),
            def(AttributeType::Pan, 32_768, 1, FeatureGroup::Position),
        ],
    }
}

/// Three moving heads: six slots, alternating HTP dimmer and LTP pan.
fn plan() -> MergePlan {
    let head = moving_head();
    let entries: Vec<(FixtureId, &FixtureType, bool)> =
        (1..=3).map(|id| (FixtureId::new(id), &head, false)).collect();
    MergePlan::build(&entries).unwrap()
}

fn seq(id: u32) -> PlaybackId {
    SequenceId::new(id).into()
}

fn layer(plan: &MergePlan, sources: u32) -> PlaybackLayer {
    let ids: Vec<PlaybackId> = (1..=sources).map(seq).collect();
    PlaybackLayer::new(plan, &ids).unwrap()
}

fn resolved(plan: &MergePlan, layer: &PlaybackLayer) -> Vec<u16> {
    let mut scratch = MergeScratch::new(plan);
    let mut out = vec![0u16; plan.slot_count()];
    layer.resolve(plan, &mut scratch, &mut out);
    out
}

fn slot(plan: &MergePlan, fixture: u32, attribute: AttributeType) -> usize {
    plan.index_of(FixtureId::new(fixture), attribute).unwrap()
}

#[test]
fn nothing_active_resolves_to_the_home_layer() {
    let plan = plan();
    let layer = layer(&plan, 4);
    let values = resolved(&plan, &layer);
    let homes: Vec<u16> = plan.slots().iter().map(|slot| slot.home).collect();
    assert_eq!(values, homes);
    assert_eq!(values.len(), 6);
}

#[test]
fn a_source_that_is_not_active_contributes_nothing_however_full_its_values_are() {
    let plan = plan();
    let mut layer = layer(&plan, 2);
    let pan = slot(&plan, 1, AttributeType::Pan);
    assert!(layer.source_mut(seq(1)).unwrap().set(pan, 60_000));
    assert_eq!(resolved(&plan, &layer)[pan], 32_768);
    layer.activate(seq(1));
    assert_eq!(resolved(&plan, &layer)[pan], 60_000);
}

#[test]
fn activation_stamps_increase_and_an_already_active_source_keeps_its_place() {
    let plan = plan();
    let mut layer = layer(&plan, 3);
    assert!(layer.activate(seq(1)));
    assert!(layer.activate(seq(2)));
    let first = layer.source(seq(1)).unwrap().activation();
    let second = layer.source(seq(2)).unwrap().activation();
    assert!(first < second);

    assert!(!layer.activate(seq(1)));
    assert_eq!(layer.source(seq(1)).unwrap().activation(), first);
}

#[test]
fn switching_a_source_off_and_on_again_moves_it_to_the_front() {
    let plan = plan();
    let mut layer = layer(&plan, 2);
    let pan = slot(&plan, 2, AttributeType::Pan);
    layer.source_mut(seq(1)).unwrap().set(pan, 100);
    layer.source_mut(seq(2)).unwrap().set(pan, 200);
    layer.activate(seq(1));
    layer.activate(seq(2));
    assert_eq!(resolved(&plan, &layer)[pan], 200);

    assert!(layer.deactivate(seq(1)));
    assert!(layer.activate(seq(1)));
    assert_eq!(resolved(&plan, &layer)[pan], 100);
}

#[test]
fn deactivating_a_source_that_is_already_off_changes_nothing() {
    let plan = plan();
    let mut layer = layer(&plan, 1);
    assert!(!layer.deactivate(seq(1)));
    assert!(!layer.source(seq(1)).unwrap().is_active());
    assert_eq!(layer.source(seq(1)).unwrap().activation(), None);
}

#[test]
fn the_fallback_chain_runs_all_the_way_down_to_home() {
    let plan = plan();
    let mut layer = layer(&plan, 3);
    let pan = slot(&plan, 1, AttributeType::Pan);
    for (executor, value) in [(1u32, 10_000u16), (2, 20_000), (3, 30_000)] {
        layer.source_mut(seq(executor)).unwrap().set(pan, value);
        layer.activate(seq(executor));
    }
    assert_eq!(resolved(&plan, &layer)[pan], 30_000);
    layer.deactivate(seq(3));
    assert_eq!(resolved(&plan, &layer)[pan], 20_000);
    layer.deactivate(seq(2));
    assert_eq!(resolved(&plan, &layer)[pan], 10_000);
    layer.deactivate(seq(1));
    assert_eq!(resolved(&plan, &layer)[pan], 32_768);
}

#[test]
fn the_master_scales_an_htp_slot_and_leaves_an_ltp_slot_alone() {
    let plan = plan();
    let mut layer = layer(&plan, 1);
    let dimmer = slot(&plan, 1, AttributeType::Dimmer);
    let pan = slot(&plan, 1, AttributeType::Pan);
    {
        let source = layer.source_mut(seq(1)).unwrap();
        source.set(dimmer, FULL);
        source.set(pan, 45_000);
    }
    layer.activate(seq(1));
    assert!(layer.set_master(seq(1), 32_767));

    let values = resolved(&plan, &layer);
    assert_eq!(values[dimmer], 32_767);
    assert_eq!(values[pan], 45_000);
}

#[test]
fn the_master_is_applied_before_the_maximum_not_after() {
    let plan = plan();
    let mut layer = layer(&plan, 2);
    let dimmer = slot(&plan, 1, AttributeType::Dimmer);
    layer.source_mut(seq(1)).unwrap().set(dimmer, FULL);
    layer.source_mut(seq(2)).unwrap().set(dimmer, 40_000);
    layer.activate(seq(1));
    layer.activate(seq(2));
    layer.set_master(seq(1), 32_767);
    assert_eq!(resolved(&plan, &layer)[dimmer], 40_000);
}

#[test]
fn an_executor_fading_out_cannot_darken_what_another_one_is_holding_up() {
    let plan = plan();
    let mut layer = layer(&plan, 2);
    let dimmer = slot(&plan, 1, AttributeType::Dimmer);
    layer.source_mut(seq(1)).unwrap().set(dimmer, FULL);
    layer.source_mut(seq(2)).unwrap().set(dimmer, FULL);
    layer.activate(seq(1));
    layer.activate(seq(2));
    for level in [FULL, 40_000, 20_000, 0] {
        layer.set_master(seq(2), level);
        assert_eq!(resolved(&plan, &layer)[dimmer], FULL, "master {level}");
    }
}

#[test]
fn contributions_are_sparse_and_a_second_write_replaces_the_first() {
    let plan = plan();
    let mut layer = layer(&plan, 1);
    let pan = slot(&plan, 1, AttributeType::Pan);
    let other = slot(&plan, 2, AttributeType::Pan);
    let source = layer.source_mut(seq(1)).unwrap();
    assert!(source.is_empty());
    assert!(source.set(pan, 111));
    assert!(source.set(pan, 222));
    assert_eq!(source.len(), 1);
    assert_eq!(source.get(pan), Some(222));
    assert_eq!(source.get(other), None);
    assert_eq!(source.contributions(), [(pan, 222)]);
}

#[test]
fn clearing_a_source_removes_every_contribution_it_had() {
    let plan = plan();
    let mut layer = layer(&plan, 1);
    let pan = slot(&plan, 1, AttributeType::Pan);
    let other = slot(&plan, 2, AttributeType::Pan);
    let source = layer.source_mut(seq(1)).unwrap();
    source.set(pan, 60_000);
    source.set(other, 60_000);
    source.clear();
    assert!(source.is_empty());
    assert_eq!(source.get(pan), None);
    layer.activate(seq(1));
    assert_eq!(resolved(&plan, &layer)[pan], 32_768);
}

#[test]
fn a_slot_outside_the_plan_is_refused_rather_than_written() {
    let plan = plan();
    let mut layer = layer(&plan, 1);
    let source = layer.source_mut(seq(1)).unwrap();
    assert!(!source.set(plan.slot_count(), 1));
    assert!(!source.set(usize::MAX, 1));
    assert!(source.is_empty());
    assert_eq!(source.get(plan.slot_count()), None);
}

#[test]
fn an_executor_the_layer_does_not_know_about_is_ignored() {
    let plan = plan();
    let mut layer = layer(&plan, 2);
    assert!(layer.source(seq(9)).is_none());
    assert!(layer.source_mut(seq(9)).is_none());
    assert!(!layer.activate(seq(9)));
    assert!(!layer.deactivate(seq(9)));
    assert!(!layer.set_master(seq(9), 100));
}

#[test]
fn an_executor_listed_twice_becomes_one_source() {
    let plan = plan();
    let ids = [1u32, 5, 1, 5, 5].map(seq);
    let layer = PlaybackLayer::new(&plan, &ids).unwrap();
    assert_eq!(layer.source_count(), 2);
    assert!(layer.source(seq(1)).is_some());
    assert!(layer.source(seq(5)).is_some());
}

#[test]
fn a_new_source_starts_off_at_full_master() {
    let plan = plan();
    let layer = layer(&plan, 1);
    let source = layer.source(seq(1)).unwrap();
    assert_eq!(source.master(), FULL);
    assert!(!source.is_active());
    assert_eq!(source.id(), SequenceId::new(1).into());
}

#[test]
fn an_absurd_number_of_sources_is_rejected_rather_than_allocated() {
    let plan = plan();
    let ids: Vec<PlaybackId> = (0..=MAX_SOURCES as u32).map(seq).collect();
    assert_eq!(
        PlaybackLayer::new(&plan, &ids).unwrap_err(),
        MergeError::TooManySources(MAX_SOURCES + 1)
    );
}

#[test]
fn a_layer_over_an_empty_plan_resolves_to_nothing() {
    let nothing: [(FixtureId, &FixtureType, bool); 0] = [];
    let plan = MergePlan::build(&nothing).unwrap();
    let mut layer = PlaybackLayer::new(&plan, &[seq(1)]).unwrap();
    layer.activate(seq(1));
    assert!(resolved(&plan, &layer).is_empty());
}

#[test]
fn resolving_into_a_short_buffer_fills_what_it_can_and_does_not_panic() {
    let plan = plan();
    let layer = layer(&plan, 1);
    let mut scratch = MergeScratch::new(&plan);
    let mut out = [0u16; 2];
    layer.resolve(&plan, &mut scratch, &mut out);
    assert_eq!(out, [0, 32_768]);
}

#[test]
fn a_scratch_built_for_a_smaller_plan_degrades_instead_of_panicking() {
    let plan = plan();
    let head = moving_head();
    let smaller = MergePlan::build(&[(FixtureId::new(1), &head, false)]).unwrap();
    let mut layer = layer(&plan, 1);
    let last = slot(&plan, 3, AttributeType::Pan);
    layer.source_mut(seq(1)).unwrap().set(last, 999);
    layer.activate(seq(1));

    let mut scratch = MergeScratch::new(&smaller);
    let mut out = vec![7u16; plan.slot_count()];
    layer.resolve(&plan, &mut scratch, &mut out);
    assert_eq!(out, [0, 32_768, 7, 7, 7, 7]);
}

#[test]
fn resolving_twice_gives_the_same_answer() {
    let plan = plan();
    let mut layer = layer(&plan, 2);
    let dimmer = slot(&plan, 1, AttributeType::Dimmer);
    layer.source_mut(seq(1)).unwrap().set(dimmer, 40_000);
    layer.activate(seq(1));
    let mut scratch = MergeScratch::new(&plan);
    let mut first = vec![0u16; plan.slot_count()];
    let mut second = vec![0u16; plan.slot_count()];
    layer.resolve(&plan, &mut scratch, &mut first);
    layer.resolve(&plan, &mut scratch, &mut second);
    assert_eq!(first, second);
    assert_eq!(first[dimmer], 40_000);
}
