use prismdmx::encode::{coarse_byte, fine_byte, invert, ChannelPlan, PatchError};
use prismdmx::fixture::{AttributeDef, AttributeType, FeatureGroup, Fixture, FixtureType};
use prismdmx::frame::{DmxFrame, FrameLayout};
use prismdmx::ids::{FixtureId, UniverseId};
use prismdmx::plan::{MergeError, MergePlan};

fn head_16() -> FixtureType {
    let def = |attribute: AttributeType, coarse_offset: u16, fine_offset, group, invert| AttributeDef {
        attribute,
        coarse_offset,
        fine_offset,
        default_value: 0,
        merge_mode: attribute.default_merge_mode(),
        feature_group: group,
        invert,
    };
    FixtureType {
        id: "test.head16".to_owned(),
        footprint: 3,
        attributes: vec![
            def(AttributeType::Dimmer, 0, Some(1), FeatureGroup::Dimmer, false),
            def(AttributeType::Pan, 2, None, FeatureGroup::Position, true),
        ],
    }
}

fn fixture(id: u32, universe: u32, address: u16) -> Fixture {
    Fixture {
        id: FixtureId::new(id),
        type_id: "test.head16".to_owned(),
        universe: UniverseId::new(universe),
        address,
        invert_pan: false,
        invert_tilt: false,
    }
}

fn plan_for(head: &FixtureType, ids: &[u32]) -> MergePlan {
    let entries: Vec<(FixtureId, &FixtureType, bool)> =
        ids.iter().map(|id| (FixtureId::new(*id), head, false)).collect();
    MergePlan::build(&entries).unwrap()
}

#[test]
fn a_value_splits_into_a_coarse_and_a_fine_byte_and_inverts_whole() {
    assert_eq!(coarse_byte(0x1234), 0x12);
    assert_eq!(fine_byte(0x1234), 0x34);
    assert_eq!(invert(0), 65_535);
    assert_eq!(invert(invert(1_234)), 1_234);
}

#[test]
fn a_sixteen_bit_attribute_lands_on_both_its_channels() {
    let head = head_16();
    let plan = plan_for(&head, &[1]);
    let layout = FrameLayout::new(&[UniverseId::new(1)]).unwrap();
    let patched = fixture(1, 1, 10);
    let channels = ChannelPlan::build(&plan, &layout, &[(&patched, &head)]).unwrap();
    assert_eq!(channels.slot_count(), 2);
    let mut frame = DmxFrame::new(&layout);
    channels.encode(&[0x1234, 0x0100], &mut frame);
    assert_eq!(frame.channel(0, 10), Some(0x12));
    assert_eq!(frame.channel(0, 11), Some(0x34));
    assert_eq!(frame.channel(0, 12), Some(coarse_byte(invert(0x0100))));
    assert_eq!(frame.channel(0, 9), Some(0));
}

#[test]
fn a_fixture_in_a_universe_the_layout_does_not_carry_is_refused() {
    let head = head_16();
    let plan = plan_for(&head, &[1]);
    let layout = FrameLayout::new(&[UniverseId::new(1)]).unwrap();
    let patched = fixture(1, 2, 1);
    assert_eq!(
        ChannelPlan::build(&plan, &layout, &[(&patched, &head)]).err(),
        Some(PatchError::UniverseNotPatched {
            fixture: FixtureId::new(1),
            universe: UniverseId::new(2),
        })
    );
}

#[test]
fn a_footprint_running_past_channel_512_is_refused() {
    let head = head_16();
    let plan = plan_for(&head, &[1]);
    let layout = FrameLayout::new(&[UniverseId::new(1)]).unwrap();
    let patched = fixture(1, 1, 511);
    assert_eq!(
        ChannelPlan::build(&plan, &layout, &[(&patched, &head)]).err(),
        Some(PatchError::AddressOutOfRange {
            fixture: FixtureId::new(1),
            address: 511,
            footprint: 3,
        })
    );
}

#[test]
fn a_refused_patch_says_why_in_words() {
    assert_eq!(
        PatchError::UniverseNotPatched {
            fixture: FixtureId::new(1),
            universe: UniverseId::new(2),
        }
        .message(),
        "fixture 1 is patched into universe 2, which the frame layout does not carry"
    );
    assert_eq!(
        PatchError::AddressOutOfRange {
            fixture: FixtureId::new(1),
            address: 511,
            footprint: 3,
        }
        .message(),
        "fixture 1 at address 511 needs 3 channels, which runs past channel 512"
    );
    assert_eq!(
        PatchError::Plan(MergeError::DuplicateFixture(FixtureId::new(4))).message(),
        "fixture 4 is patched twice"
    );
    assert_eq!(
        PatchError::PlanMismatch { plan: 2, channels: 4 }.message(),
        "the merge plan has 2 slots and the channel plan was built for 4"
    );
    assert_eq!(
        PatchError::from(MergeError::TooManySlots(9)).source(),
        Some(MergeError::TooManySlots(9))
    );
}

#[test]
fn an_attribute_outside_its_footprint_is_refused() {
    let mut head = head_16();
    head.footprint = 2;
    let plan = plan_for(&head, &[1]);
    let layout = FrameLayout::new(&[UniverseId::new(1)]).unwrap();
    let patched = fixture(1, 1, 1);
    assert_eq!(
        ChannelPlan::build(&plan, &layout, &[(&patched, &head)]).err(),
        Some(PatchError::AttributeOutsideFootprint {
            fixture: FixtureId::new(1),
            attribute: AttributeType::Pan,
            offset: 2,
            footprint: 2,
        })
    );
}

#[test]
fn an_attribute_the_plan_has_no_slot_for_is_refused() {
    let head = head_16();
    let plan = plan_for(&head, &[2]);
    let layout = FrameLayout::new(&[UniverseId::new(1)]).unwrap();
    let patched = fixture(1, 1, 1);
    assert_eq!(
        ChannelPlan::build(&plan, &layout, &[(&patched, &head)]).err(),
        Some(PatchError::AttributeNotInPlan {
            fixture: FixtureId::new(1),
            attribute: AttributeType::Dimmer,
        })
    );
}

#[test]
fn two_targets_for_one_slot_are_refused() {
    let head = head_16();
    let plan = plan_for(&head, &[1]);
    let layout = FrameLayout::new(&[UniverseId::new(1)]).unwrap();
    let patched = fixture(1, 1, 1);
    let again = fixture(1, 1, 20);
    assert_eq!(
        ChannelPlan::build(&plan, &layout, &[(&patched, &head), (&again, &head)]).err(),
        Some(PatchError::DuplicateTarget {
            fixture: FixtureId::new(1),
            attribute: AttributeType::Dimmer,
        })
    );
}
