use prismdmx::fixture::{AttributeDef, AttributeType, FeatureGroup, FixtureType, Group};
use prismdmx::ids::{FixtureId, GroupId};
use prismdmx::master::MasterLayer;
use prismdmx::merge::{apply_master, FULL};
use prismdmx::plan::MergePlan;

fn attribute_def(attribute: AttributeType, coarse_offset: u16) -> AttributeDef {
    AttributeDef {
        attribute,
        coarse_offset,
        fine_offset: None,
        default_value: 0,
        merge_mode: attribute.default_merge_mode(),
        feature_group: FeatureGroup::Control,
        invert: false,
    }
}

fn moving_head() -> FixtureType {
    FixtureType {
        id: "test.movinghead".to_owned(),
        footprint: 2,
        attributes: vec![
            AttributeDef {
                feature_group: FeatureGroup::Dimmer,
                ..attribute_def(AttributeType::Dimmer, 0)
            },
            AttributeDef {
                default_value: 32_768,
                feature_group: FeatureGroup::Position,
                ..attribute_def(AttributeType::Pan, 1)
            },
        ],
    }
}

/// Three moving heads: six slots, alternating HTP dimmer and LTP pan.
fn plan() -> MergePlan {
    let head = moving_head();
    let entries: Vec<(FixtureId, &FixtureType, bool)> =
        (1..=3).map(|id| (FixtureId::new(id), &head, false)).collect();
    MergePlan::build(&entries).unwrap()
}

fn slot(plan: &MergePlan, fixture: u32, attribute: AttributeType) -> usize {
    plan.index_of(FixtureId::new(fixture), attribute).unwrap()
}

fn group(id: u32, fixtures: &[u32]) -> Group {
    Group {
        id: GroupId::new(id),
        name: format!("Group {id}"),
        fixtures: fixtures.iter().map(|id| FixtureId::new(*id)).collect(),
    }
}

fn full() -> Vec<u16> {
    vec![FULL; 6]
}

#[test]
fn a_fresh_master_layer_is_exactly_transparent() {
    let plan = plan();
    let masters = MasterLayer::new(&plan);
    assert_eq!(masters.grand(), FULL);
    assert!(!masters.blackout());
    assert_eq!(masters.group_count(), 0);

    let mut values = vec![1u16, 2, 3, 4, 5, 6];
    masters.apply(&mut values);
    assert_eq!(values, [1, 2, 3, 4, 5, 6]);
}

#[test]
fn only_the_intensity_slots_are_visible_to_the_masters() {
    let plan = plan();
    let masters = MasterLayer::new(&plan);
    let expected: Vec<u32> = (1..=3)
        .map(|fixture| slot(&plan, fixture, AttributeType::Dimmer) as u32)
        .collect();
    assert_eq!(masters.intensity_slots(), expected.as_slice());
}

#[test]
fn the_grand_master_at_zero_zeroes_intensity_and_leaves_everything_else_alone() {
    let plan = plan();
    let mut masters = MasterLayer::new(&plan);
    masters.set_grand(0);

    let mut values = full();
    masters.apply(&mut values);
    for (index, value) in values.iter().enumerate() {
        let intensity = plan.slot(index).unwrap().is_intensity();
        let expected = if intensity { 0 } else { FULL };
        assert_eq!(*value, expected, "slot {index}");
    }
}

#[test]
fn the_grand_master_at_half_halves_intensity_only() {
    let plan = plan();
    let mut masters = MasterLayer::new(&plan);
    masters.set_grand(32_767);

    let mut values = vec![40_000u16; 6];
    masters.apply(&mut values);
    for (index, value) in values.iter().enumerate() {
        let expected = if plan.slot(index).unwrap().is_intensity() {
            apply_master(40_000, 32_767)
        } else {
            40_000
        };
        assert_eq!(*value, expected, "slot {index}");
    }
}

#[test]
fn blackout_zeroes_intensity_and_releasing_it_gives_the_fader_back() {
    let plan = plan();
    let mut masters = MasterLayer::new(&plan);
    masters.set_grand(32_767);
    masters.set_blackout(true);
    assert!(masters.blackout());
    assert_eq!(masters.effective_grand(), 0);

    let dimmer = slot(&plan, 1, AttributeType::Dimmer);
    let pan = slot(&plan, 1, AttributeType::Pan);
    let mut values = full();
    masters.apply(&mut values);
    assert_eq!(values.get(dimmer).copied(), Some(0));
    assert_eq!(values.get(pan).copied(), Some(FULL), "blackout moved a pan");

    masters.set_blackout(false);
    assert_eq!(masters.grand(), 32_767);
    let mut values = full();
    masters.apply(&mut values);
    assert_eq!(values.get(dimmer).copied(), Some(apply_master(FULL, 32_767)));
}

#[test]
fn a_group_master_scales_only_the_fixtures_in_that_group() {
    let plan = plan();
    let mut masters = MasterLayer::for_groups(&plan, &[group(4, &[1, 3])]);
    assert_eq!(masters.group_count(), 1);
    assert_eq!(masters.groups(), [GroupId::new(4)]);
    assert_eq!(masters.group_level(GroupId::new(4)), Some(FULL));
    assert!(masters.set_group_level(GroupId::new(4), 32_767));

    let mut values = full();
    masters.apply(&mut values);
    let halved = apply_master(FULL, 32_767);
    assert_eq!(values.get(slot(&plan, 1, AttributeType::Dimmer)).copied(), Some(halved));
    assert_eq!(values.get(slot(&plan, 3, AttributeType::Dimmer)).copied(), Some(halved));
    assert_eq!(values.get(slot(&plan, 2, AttributeType::Dimmer)).copied(), Some(FULL));
    assert_eq!(values.get(slot(&plan, 1, AttributeType::Pan)).copied(), Some(FULL));
}

#[test]
fn a_fixture_in_two_groups_is_held_down_by_the_lower_master() {
    let plan = plan();
    let mut masters =
        MasterLayer::for_groups(&plan, &[group(1, &[1, 2]), group(2, &[1]), group(3, &[])]);
    assert_eq!(masters.group_count(), 3);
    masters.set_group_level(GroupId::new(1), 32_767);
    masters.set_group_level(GroupId::new(2), 16_000);

    let mut values = full();
    masters.apply(&mut values);
    assert_eq!(
        values.get(slot(&plan, 1, AttributeType::Dimmer)).copied(),
        Some(apply_master(FULL, 16_000)),
        "the lower of the two masters did not win"
    );
    assert_eq!(
        values.get(slot(&plan, 2, AttributeType::Dimmer)).copied(),
        Some(apply_master(FULL, 32_767))
    );
    assert_eq!(values.get(slot(&plan, 3, AttributeType::Dimmer)).copied(), Some(FULL));
}

#[test]
fn the_group_masters_run_before_the_grand_master() {
    let plan = plan();
    let mut masters = MasterLayer::for_groups(&plan, &[group(1, &[1])]);
    masters.set_group_level(GroupId::new(1), 30_000);
    masters.set_grand(40_000);

    let mut values = full();
    masters.apply(&mut values);
    let expected = apply_master(apply_master(FULL, 30_000), 40_000);
    assert_eq!(values.get(slot(&plan, 1, AttributeType::Dimmer)).copied(), Some(expected));
}

#[test]
fn a_group_naming_an_unpatched_fixture_still_has_a_master() {
    let plan = plan();
    let masters = MasterLayer::for_groups(&plan, &[group(7, &[9])]);
    assert_eq!(masters.group_level(GroupId::new(7)), Some(FULL));
    let mut values = full();
    masters.apply(&mut values);
    assert_eq!(values, full());
}

#[test]
fn a_command_for_a_group_this_layer_does_not_have_is_ignored() {
    let plan = plan();
    let mut masters = MasterLayer::for_groups(&plan, &[group(1, &[1])]);
    assert!(!masters.set_group_level(GroupId::new(99), 0));
    assert_eq!(masters.group_level(GroupId::new(99)), None);
    let mut values = full();
    masters.apply(&mut values);
    assert_eq!(values, full());
}

#[test]
fn the_same_group_number_twice_is_one_master_over_both_memberships() {
    let plan = plan();
    let mut masters = MasterLayer::for_groups(&plan, &[group(1, &[1]), group(1, &[2])]);
    assert_eq!(masters.group_count(), 1);
    masters.set_group_level(GroupId::new(1), 0);
    let mut values = full();
    masters.apply(&mut values);
    assert_eq!(values.get(slot(&plan, 1, AttributeType::Dimmer)).copied(), Some(0));
    assert_eq!(values.get(slot(&plan, 2, AttributeType::Dimmer)).copied(), Some(0));
}

#[test]
fn a_fixture_listed_twice_in_one_group_is_scaled_once() {
    let plan = plan();
    let mut masters = MasterLayer::for_groups(&plan, &[group(1, &[1, 1])]);
    masters.set_group_level(GroupId::new(1), 32_767);
    let mut values = full();
    masters.apply(&mut values);
    assert_eq!(
        values.get(slot(&plan, 1, AttributeType::Dimmer)).copied(),
        Some(apply_master(FULL, 32_767))
    );
}

#[test]
fn reloading_the_groups_keeps_the_grand_master_and_starts_every_group_at_full() {
    let plan = plan();
    let mut masters = MasterLayer::for_groups(&plan, &[group(1, &[1])]);
    masters.set_grand(20_000);
    masters.set_group_level(GroupId::new(1), 0);
    masters.set_groups(&plan, &[group(1, &[1]), group(2, &[2])]);

    assert_eq!(masters.grand(), 20_000);
    assert_eq!(masters.group_count(), 2);
    assert_eq!(masters.group_level(GroupId::new(1)), Some(FULL));
    let mut values = full();
    masters.apply(&mut values);
    assert_eq!(
        values.get(slot(&plan, 1, AttributeType::Dimmer)).copied(),
        Some(apply_master(FULL, 20_000))
    );
}

#[test]
fn the_masters_scale_what_the_definition_calls_intensity_not_what_is_called_dimmer() {
    let odd = FixtureType {
        id: "test.odd".to_owned(),
        footprint: 2,
        attributes: vec![
            AttributeDef {
                feature_group: FeatureGroup::Beam,
                ..attribute_def(AttributeType::Dimmer, 0)
            },
            AttributeDef {
                feature_group: FeatureGroup::Dimmer,
                ..attribute_def(AttributeType::Shutter, 1)
            },
        ],
    };
    let plan = MergePlan::build(&[(FixtureId::new(1), &odd, false)]).unwrap();
    let mut masters = MasterLayer::new(&plan);
    masters.set_grand(0);

    let mut values = vec![FULL; 2];
    masters.apply(&mut values);
    assert_eq!(
        values.get(slot(&plan, 1, AttributeType::Dimmer)).copied(),
        Some(FULL),
        "the grand master dimmed an attribute filed under Beam"
    );
    assert_eq!(
        values.get(slot(&plan, 1, AttributeType::Shutter)).copied(),
        Some(0),
        "the grand master missed an attribute filed under Dimmer"
    );
}

#[test]
fn applying_to_a_shorter_buffer_fills_what_it_can() {
    let plan = plan();
    let mut masters = MasterLayer::new(&plan);
    masters.set_grand(0);
    let mut values = vec![FULL; 2];
    masters.apply(&mut values);
    assert_eq!(values, [0, FULL]);
}

#[test]
fn a_patch_with_nothing_in_it_has_no_intensity_slots() {
    let nothing: [(FixtureId, &FixtureType, bool); 0] = [];
    let plan = MergePlan::build(&nothing).unwrap();
    let masters = MasterLayer::for_groups(&plan, &[group(1, &[1])]);
    assert!(masters.intensity_slots().is_empty());
    let mut values: Vec<u16> = Vec::new();
    masters.apply(&mut values);
    assert!(values.is_empty());
}
