use prismdmx::fixture::{AttributeDef, AttributeType, FeatureGroup, FixtureType};
use prismdmx::ids::{FixtureId, GroupId, PresetId};
use prismdmx::plan::MergePlan;
use prismdmx::programmer::{
    ClearStage, InvalidClearStage, ProgrammerLayer, ProgrammerState, ProgrammerValue,
    ProgrammerValueSource,
};

fn state() -> ProgrammerState {
    let mut state = ProgrammerState {
        selection: vec![FixtureId::new(1), FixtureId::new(2)],
        selected_groups: vec![GroupId::new(3)],
        manual_selection: vec![FixtureId::new(2)],
        active_feature_group: FeatureGroup::Color,
        values: Vec::new(),
        clear_stage: ClearStage::Nothing,
    };
    state.set_value(
        FixtureId::new(1),
        AttributeType::Blue,
        ProgrammerValue {
            value: 65535,
            source: ProgrammerValueSource::Preset,
            preset_ref: Some(PresetId::new(4)),
        },
    );
    state
}

fn manual(value: u16) -> ProgrammerValue {
    ProgrammerValue {
        value,
        source: ProgrammerValueSource::Manual,
        preset_ref: None,
    }
}

#[test]
fn an_empty_programmer_holds_no_values_at_all() {
    let empty = ProgrammerState::default();
    assert!(empty.is_empty());
    assert!(empty.selection.is_empty());
    assert_eq!(empty.clear_stage, ClearStage::Nothing);
    assert!(!state().is_empty());
}

#[test]
fn a_touched_attribute_is_present_and_an_untouched_one_is_absent() {
    let state = state();
    assert!(
        state
            .value(FixtureId::new(1), AttributeType::Blue)
            .is_some()
    );
    assert!(state.value(FixtureId::new(1), AttributeType::Red).is_none());
    assert!(
        state
            .value(FixtureId::new(2), AttributeType::Blue)
            .is_none()
    );
}

#[test]
fn clearing_the_last_attribute_prunes_the_fixture() {
    let mut state = state();
    assert_eq!(
        state
            .clear_value(FixtureId::new(1), AttributeType::Blue)
            .map(|value| value.value),
        Some(65535)
    );
    assert!(state.values.is_empty());
    assert!(
        state
            .clear_value(FixtureId::new(1), AttributeType::Blue)
            .is_none()
    );
}

#[test]
fn setting_a_value_replaces_the_previous_one() {
    let mut state = ProgrammerState::default();
    let manual = ProgrammerValue {
        value: 100,
        source: ProgrammerValueSource::Manual,
        preset_ref: None,
    };
    state.set_value(FixtureId::new(1), AttributeType::Dimmer, manual);
    state.set_value(
        FixtureId::new(1),
        AttributeType::Dimmer,
        ProgrammerValue {
            value: 200,
            ..manual
        },
    );
    assert_eq!(
        state
            .value(FixtureId::new(1), AttributeType::Dimmer)
            .map(|value| value.value),
        Some(200)
    );
    assert_eq!(state.values.len(), 1);
}

#[test]
fn the_stage_is_the_first_thing_there_is_to_clear() {
    let mut state = ProgrammerState::default();
    assert_eq!(state.stage(), ClearStage::Nothing);

    state.active_feature_group = FeatureGroup::Color;
    assert_eq!(state.stage(), ClearStage::All);

    state.selection.push(FixtureId::new(1));
    assert_eq!(state.stage(), ClearStage::Selection);

    state.set_value(
        FixtureId::new(1),
        AttributeType::Dimmer,
        ProgrammerValue {
            value: 100,
            source: ProgrammerValueSource::Manual,
            preset_ref: None,
        },
    );
    assert_eq!(state.stage(), ClearStage::Values);

    state.restage();
    assert_eq!(state.clear_stage, ClearStage::Values);
}

#[test]
fn the_clear_stage_is_a_number_from_zero_to_three() {
    for (stage, number) in [
        (ClearStage::Nothing, 0u8),
        (ClearStage::Values, 1),
        (ClearStage::Selection, 2),
        (ClearStage::All, 3),
    ] {
        assert_eq!(stage.as_u8(), number);
        assert_eq!(u8::from(stage), number);
        assert_eq!(ClearStage::try_from(stage.as_u8()).unwrap(), stage);
    }
    assert_eq!(ClearStage::try_from(4), Err(InvalidClearStage(4)));
    assert_eq!(
        InvalidClearStage(4).message(),
        "clear stage must be 0, 1, 2 or 3, got 4"
    );
    assert_eq!(
        InvalidClearStage(255).message(),
        "clear stage must be 0, 1, 2 or 3, got 255"
    );
}

#[test]
fn clearing_the_selection_drops_its_provenance_and_keeps_the_values() {
    let mut state = state();
    state.clear_selection();
    assert!(state.selection.is_empty());
    assert!(state.selected_groups.is_empty());
    assert!(state.manual_selection.is_empty());
    assert_eq!(state.values.len(), 1);
    assert_eq!(state.active_feature_group, FeatureGroup::Color);
    assert_eq!(state.stage(), ClearStage::Values);
}

#[test]
fn values_are_kept_in_fixture_then_attribute_order() {
    let mut state = ProgrammerState::default();
    state.set_value(FixtureId::new(2), AttributeType::Dimmer, manual(1));
    state.set_value(FixtureId::new(1), AttributeType::Pan, manual(2));
    state.set_value(FixtureId::new(1), AttributeType::Dimmer, manual(3));
    let order: Vec<(u32, AttributeType)> = state
        .values
        .iter()
        .map(|entry| (entry.fixture.get(), entry.attribute))
        .collect();
    assert_eq!(
        order,
        vec![
            (1, AttributeType::Dimmer),
            (1, AttributeType::Pan),
            (2, AttributeType::Dimmer)
        ]
    );
    assert_eq!(
        state.value(FixtureId::new(1), AttributeType::Pan).map(|v| v.value),
        Some(2)
    );
}

fn moving_head() -> FixtureType {
    let def = |attribute: AttributeType, default_value: u16, coarse_offset: u16, group| AttributeDef {
        attribute,
        coarse_offset,
        fine_offset: None,
        default_value,
        merge_mode: attribute.default_merge_mode(),
        feature_group: group,
        invert: false,
    };
    FixtureType {
        id: "test.movinghead".to_owned(),
        footprint: 2,
        attributes: vec![
            def(AttributeType::Dimmer, 0, 0, FeatureGroup::Dimmer),
            def(AttributeType::Pan, 32_768, 1, FeatureGroup::Position),
        ],
    }
}

fn plan(fixtures: u32) -> MergePlan {
    let head = moving_head();
    let entries: Vec<(FixtureId, &FixtureType, bool)> = (1..=fixtures)
        .map(|id| (FixtureId::new(id), &head, false))
        .collect();
    MergePlan::build(&entries).unwrap()
}

#[test]
fn a_programmer_layer_overrides_only_the_slots_it_holds() {
    let plan = plan(1);
    let mut layer = ProgrammerLayer::new(&plan);
    assert_eq!(layer.slot_count(), 2);
    assert!(layer.is_empty());
    layer.set(1, 0);
    assert_eq!(layer.len(), 1);
    let mut values = [40_000u16, 20_000];
    layer.apply(&mut values);
    assert_eq!(values, [40_000, 0], "zero is a value, not an absence");
    layer.clear(1);
    let mut values = [40_000u16, 20_000];
    layer.apply(&mut values);
    assert_eq!(values, [40_000, 20_000]);
    layer.set(7, 1);
    assert!(layer.is_empty(), "a slot past the plan is ignored");
    layer.set(0, 9);
    layer.set(1, 9);
    layer.clear_all();
    assert!(layer.is_empty());
    assert_eq!(layer.get(0), None);
}

#[test]
fn a_loaded_state_lands_on_the_slots_of_its_own_fixtures() {
    let plan = plan(2);
    let mut layer = ProgrammerLayer::new(&plan);
    layer.set(3, 5);
    let mut state = ProgrammerState::default();
    state.set_value(FixtureId::new(2), AttributeType::Dimmer, manual(1_000));
    state.set_value(FixtureId::new(1), AttributeType::Pan, manual(2_000));
    state.set_value(FixtureId::new(9), AttributeType::Pan, manual(3_000));
    state.set_value(FixtureId::new(1), AttributeType::Tilt, manual(4_000));
    assert_eq!(layer.load(&plan, &state), 2, "fixture 9 and a tilt are not patched");
    assert_eq!(layer.get(0), None);
    assert_eq!(layer.get(1), Some(2_000));
    assert_eq!(layer.get(2), Some(1_000));
    assert_eq!(layer.get(3), None, "loading replaces what was held");
    assert_eq!(layer.len(), 2);
}
