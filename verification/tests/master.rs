use prismdmx::fixture::{AttributeDef, AttributeType, FeatureGroup, FixtureType, Group};
use prismdmx::ids::{FixtureId, GroupId};
use prismdmx::master::MasterLayer;
use prismdmx::merge::{apply_master, FULL};
use prismdmx::plan::MergePlan;

fn moving_head() -> FixtureType {
    let def = |attribute: AttributeType, default_value: u16, coarse_offset: u16, group| AttributeDef {
        attribute,
        coarse_offset,
        fine_offset: None,
        default_value,
        merge_mode: attribute.default_merge_mode(),
        feature_group: group,
        invert: false,
    };
    FixtureType {
        id: "test.movinghead".to_owned(),
        footprint: 2,
        attributes: vec![
            def(AttributeType::Dimmer, 0, 0, FeatureGroup::Dimmer),
            def(AttributeType::Pan, 32_768, 1, FeatureGroup::Position),
        ],
    }
}

fn plan(fixtures: u32) -> MergePlan {
    let head = moving_head();
    let entries: Vec<(FixtureId, &FixtureType, bool)> = (1..=fixtures)
        .map(|id| (FixtureId::new(id), &head, false))
        .collect();
    MergePlan::build(&entries).unwrap()
}

fn group(id: u32, fixtures: &[u32]) -> Group {
    Group {
        id: GroupId::new(id),
        name: format!("Group {id}"),
        fixtures: fixtures.iter().copied().map(FixtureId::new).collect(),
    }
}

#[test]
fn a_full_desk_changes_nothing() {
    let plan = plan(2);
    let masters = MasterLayer::for_groups(&plan, &[group(1, &[1, 2])]);
    let mut values = [FULL, 20_000, 12_345, 40_000];
    masters.apply(&mut values);
    assert_eq!(values, [FULL, 20_000, 12_345, 40_000]);
    assert_eq!(masters.intensity_slots(), [0, 2]);
}

#[test]
fn the_grand_master_at_zero_zeroes_intensity_and_only_intensity() {
    let plan = plan(2);
    let mut masters = MasterLayer::new(&plan);
    masters.set_grand(0);
    let mut values = [FULL, 20_000, 12_345, 40_000];
    masters.apply(&mut values);
    assert_eq!(values, [0, 20_000, 0, 40_000]);
}

#[test]
fn blackout_is_a_switch_and_releasing_it_gives_back_the_grand_master() {
    let plan = plan(1);
    let mut masters = MasterLayer::new(&plan);
    masters.set_grand(32_767);
    masters.set_blackout(true);
    assert_eq!(masters.effective_grand(), 0);
    let mut values = [FULL, 1];
    masters.apply(&mut values);
    assert_eq!(values, [0, 1]);
    masters.set_blackout(false);
    assert_eq!(masters.grand(), 32_767);
    let mut values = [FULL, 1];
    masters.apply(&mut values);
    assert_eq!(values, [apply_master(FULL, 32_767), 1]);
}

#[test]
fn the_lowest_group_master_is_the_one_that_applies() {
    let plan = plan(2);
    let mut masters = MasterLayer::for_groups(&plan, &[group(1, &[1, 2]), group(2, &[2])]);
    assert!(masters.set_group_level(GroupId::new(1), 40_000));
    assert!(masters.set_group_level(GroupId::new(2), 10_000));
    assert!(!masters.set_group_level(GroupId::new(9), 0));
    assert_eq!(masters.group_level(GroupId::new(2)), Some(10_000));
    assert_eq!(masters.group_level(GroupId::new(9)), None);
    let mut values = [FULL, 7, FULL, 7];
    masters.apply(&mut values);
    assert_eq!(values, [apply_master(FULL, 40_000), 7, apply_master(FULL, 10_000), 7]);
}

#[test]
fn groups_arrive_at_full_and_a_repeated_number_is_one_group() {
    let plan = plan(1);
    let masters = MasterLayer::for_groups(&plan, &[group(4, &[1]), group(4, &[1]), group(2, &[])]);
    assert_eq!(masters.groups(), [GroupId::new(2), GroupId::new(4)]);
    assert_eq!(masters.group_level(GroupId::new(4)), Some(FULL));
}
