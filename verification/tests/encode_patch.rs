use prismdmx::encode::{coarse_byte, fine_byte, invert, ChannelPlan, PatchError};
use prismdmx::fixture::{AttributeDef, AttributeType, FeatureGroup, Fixture, FixtureType};
use prismdmx::frame::{DmxFrame, FrameLayout, UNIVERSE_CHANNELS};
use prismdmx::ids::{FixtureId, UniverseId};
use prismdmx::plan::{MergeError, MergePlan};

fn attribute_at(attribute: AttributeType, default_value: u16, coarse_offset: u16, fine_offset: Option<u16>) -> AttributeDef {
    AttributeDef {
        attribute,
        coarse_offset,
        fine_offset,
        default_value,
        merge_mode: attribute.default_merge_mode(),
        feature_group: if attribute == AttributeType::Dimmer {
            FeatureGroup::Dimmer
        } else {
            FeatureGroup::Position
        },
        invert: false,
    }
}

fn sized_fixture_type(id: &str, footprint: u16, attributes: Vec<AttributeDef>) -> FixtureType {
    FixtureType {
        id: id.to_owned(),
        footprint,
        attributes,
    }
}

/// A type whose footprint is exactly as wide as its attributes reach.
fn fixture_type(id: &str, attributes: Vec<AttributeDef>) -> FixtureType {
    let footprint = attributes
        .iter()
        .map(|def| def.coarse_offset.max(def.fine_offset.unwrap_or(0)) + 1)
        .max()
        .unwrap_or(0);
    sized_fixture_type(id, footprint, attributes)
}

fn moving_head() -> FixtureType {
    sized_fixture_type(
        "test.movinghead",
        2,
        vec![
            attribute_at(AttributeType::Dimmer, 0, 0, None),
            attribute_at(AttributeType::Pan, 32_768, 1, None),
        ],
    )
}

fn moving_head_16() -> FixtureType {
    sized_fixture_type(
        "test.movinghead16",
        4,
        vec![
            attribute_at(AttributeType::Dimmer, 0, 0, Some(1)),
            attribute_at(AttributeType::Pan, 32_768, 2, Some(3)),
        ],
    )
}

fn fixture(id: u32, type_id: &str, universe: u32, address: u16) -> Fixture {
    Fixture {
        id: FixtureId::new(id),
        type_id: type_id.to_owned(),
        universe: UniverseId::new(universe),
        address,
        invert_pan: false,
        invert_tilt: false,
    }
}

fn layout(ids: &[u32]) -> FrameLayout {
    let universes: Vec<UniverseId> = ids.iter().copied().map(UniverseId::new).collect();
    FrameLayout::new(&universes).unwrap()
}

fn plan_of(entries: &[(&Fixture, &FixtureType)]) -> MergePlan {
    let flat: Vec<(FixtureId, &FixtureType, bool)> = entries
        .iter()
        .map(|(fixture, fixture_type)| (fixture.id, *fixture_type, false))
        .collect();
    MergePlan::build(&flat).unwrap()
}

fn channels_of(layout: &FrameLayout, entries: &[(&Fixture, &FixtureType)]) -> Result<ChannelPlan, PatchError> {
    let plan = plan_of(entries);
    ChannelPlan::build(&plan, layout, entries)
}

fn encoded(fixture: &Fixture, fixture_type: &FixtureType, values: &[u16]) -> DmxFrame {
    let layout = layout(&[1]);
    let channels = channels_of(&layout, &[(fixture, fixture_type)]).unwrap();
    let mut frame = DmxFrame::new(&layout);
    channels.encode(values, &mut frame);
    frame
}

/// The six boundary values, and what each becomes.
const BOUNDARIES: [(u16, u8, u8); 6] = [
    (0, 0x00, 0x00),
    (1, 0x00, 0x01),
    (32_767, 0x7F, 0xFF),
    (32_768, 0x80, 0x00),
    (65_534, 0xFF, 0xFE),
    (65_535, 0xFF, 0xFF),
];

#[test]
fn an_eight_bit_attribute_takes_the_high_byte_of_the_value() {
    let head = fixture_type("test.dimmer", vec![attribute_at(AttributeType::Dimmer, 0, 0, None)]);
    let patched = fixture(1, "test.dimmer", 1, 1);
    for (value, coarse, _) in BOUNDARIES {
        let frame = encoded(&patched, &head, &[value]);
        assert_eq!(frame.channel(0, 1), Some(coarse), "value {value}");
        assert_eq!(frame.channel(0, 2), Some(0), "value {value}");
    }
}

#[test]
fn a_sixteen_bit_attribute_takes_both_bytes() {
    let head = sized_fixture_type(
        "test.dimmer16",
        2,
        vec![attribute_at(AttributeType::Dimmer, 0, 0, Some(1))],
    );
    let patched = fixture(1, "test.dimmer16", 1, 1);
    for (value, coarse, fine) in BOUNDARIES {
        let frame = encoded(&patched, &head, &[value]);
        assert_eq!(frame.channel(0, 1), Some(coarse), "value {value}");
        assert_eq!(frame.channel(0, 2), Some(fine), "value {value}");
    }
}

#[test]
fn the_fine_channel_can_sit_anywhere_in_the_footprint() {
    let head = sized_fixture_type("test.odd", 4, vec![attribute_at(AttributeType::Pan, 0, 3, Some(0))]);
    let frame = encoded(&fixture(1, "test.odd", 1, 1), &head, &[0xABCD]);
    assert_eq!(frame.channel(0, 4), Some(0xAB));
    assert_eq!(frame.channel(0, 1), Some(0xCD));
}

#[test]
fn a_fixture_is_encoded_at_its_own_address_in_its_own_universe() {
    let head = moving_head_16();
    let layout = layout(&[7, 1, 4]);
    let one = fixture(1, "test.movinghead16", 1, 100);
    let two = fixture(2, "test.movinghead16", 4, 509);
    let channels = channels_of(&layout, &[(&one, &head), (&two, &head)]).unwrap();
    let mut frame = DmxFrame::new(&layout);
    channels.encode(&[0x1122, 0x3344, 0x5566, 0x7788], &mut frame);

    assert_eq!(frame.channel(1, 100), Some(0x11));
    assert_eq!(frame.channel(1, 101), Some(0x22));
    assert_eq!(frame.channel(1, 102), Some(0x33));
    assert_eq!(frame.channel(1, 103), Some(0x44));
    assert_eq!(frame.channel(2, 509), Some(0x55));
    assert_eq!(frame.channel(2, 510), Some(0x66));
    assert_eq!(frame.channel(2, 511), Some(0x77));
    assert_eq!(frame.channel(2, 512), Some(0x88));
    assert!(frame.universe(0).unwrap().iter().all(|&byte| byte == 0));
}

#[test]
fn channels_no_attribute_claims_are_left_alone() {
    let head = moving_head_16();
    let layout = layout(&[1]);
    let channels = channels_of(&layout, &[(&fixture(1, "test.movinghead16", 1, 10), &head)]).unwrap();
    let mut frame = DmxFrame::new(&layout);
    frame.fill(0x5A);
    channels.encode(&[0, 0], &mut frame);
    for channel in 1..=UNIVERSE_CHANNELS as u16 {
        let expected = if (10..=13).contains(&channel) { 0 } else { 0x5A };
        assert_eq!(frame.channel(0, channel), Some(expected), "channel {channel}");
    }
}

#[test]
fn the_attribute_invert_flag_reverses_the_value_before_the_split() {
    let head = sized_fixture_type(
        "test.inverted",
        2,
        vec![{
            let mut def = attribute_at(AttributeType::Dimmer, 0, 0, Some(1));
            def.invert = true;
            def
        }],
    );
    let patched = fixture(1, "test.inverted", 1, 1);
    for (value, _coarse, _fine) in BOUNDARIES {
        let frame = encoded(&patched, &head, &[value]);
        let inverted = 65_535 - value;
        assert_eq!(frame.channel(0, 1), Some((inverted >> 8) as u8), "{value}");
        assert_eq!(frame.channel(0, 2), Some((inverted & 0xFF) as u8), "{value}");
        assert_eq!(coarse_byte(65_535 - value), (inverted >> 8) as u8);
    }
}

#[test]
fn the_attribute_invert_and_the_fixture_invert_compose() {
    let plain = sized_fixture_type("test.pan", 2, vec![attribute_at(AttributeType::Pan, 0, 0, Some(1))]);
    let inverted = sized_fixture_type("test.pan", 2, {
        let mut def = attribute_at(AttributeType::Pan, 0, 0, Some(1));
        def.invert = true;
        vec![def]
    });

    for (attribute_invert, fixture_invert, expected) in [
        (false, false, 20_000u16),
        (true, false, 45_535),
        (false, true, 45_535),
        (true, true, 20_000),
    ] {
        let head = if attribute_invert { &inverted } else { &plain };
        let mut patched = fixture(1, "test.pan", 1, 1);
        patched.invert_pan = fixture_invert;
        let frame = encoded(&patched, head, &[20_000]);
        assert_eq!(
            (frame.channel(0, 1), frame.channel(0, 2)),
            (Some(coarse_byte(expected)), Some(fine_byte(expected))),
            "attribute {attribute_invert}, fixture {fixture_invert}"
        );
    }
}

#[test]
fn the_fixture_inverts_reach_pan_and_tilt_and_nothing_else() {
    let head = fixture_type(
        "test.all",
        vec![
            attribute_at(AttributeType::Dimmer, 0, 0, None),
            attribute_at(AttributeType::Pan, 0, 1, None),
            attribute_at(AttributeType::Tilt, 0, 2, None),
        ],
    );
    let mut patched = fixture(1, "test.all", 1, 1);
    patched.invert_pan = true;
    patched.invert_tilt = true;
    let frame = encoded(&patched, &head, &[0x4000, 0x4000, 0x4000]);
    assert_eq!(frame.channel(0, 1), Some(0x40));
    assert_eq!(frame.channel(0, 2), Some(0xBF));
    assert_eq!(frame.channel(0, 3), Some(0xBF));
}

#[test]
fn a_fixture_whose_footprint_runs_past_channel_512_is_rejected_at_patch_time() {
    let head = moving_head_16();
    let layout = layout(&[1]);
    let patched = fixture(3, "test.movinghead16", 1, 510);
    assert_eq!(
        channels_of(&layout, &[(&patched, &head)]).unwrap_err(),
        PatchError::AddressOutOfRange {
            fixture: FixtureId::new(3),
            address: 510,
            footprint: 4,
        }
    );
    let patched = fixture(3, "test.movinghead16", 1, 509);
    assert!(channels_of(&layout, &[(&patched, &head)]).is_ok());
}

#[test]
fn address_zero_and_an_empty_footprint_are_rejected_too() {
    let head = moving_head_16();
    let layout = layout(&[1]);
    let mut patched = fixture(1, "test.movinghead16", 1, 0);
    assert_eq!(
        channels_of(&layout, &[(&patched, &head)]).unwrap_err(),
        PatchError::AddressOutOfRange {
            fixture: FixtureId::new(1),
            address: 0,
            footprint: 4,
        }
    );
    patched.address = 1;
    let empty = sized_fixture_type("test.movinghead16", 0, head.attributes.clone());
    assert_eq!(
        channels_of(&layout, &[(&patched, &empty)]).unwrap_err(),
        PatchError::AddressOutOfRange {
            fixture: FixtureId::new(1),
            address: 1,
            footprint: 0,
        }
    );
}

#[test]
fn a_fixture_in_a_universe_the_layout_does_not_carry_is_rejected_at_patch_time() {
    let head = moving_head();
    let layout = layout(&[1, 2]);
    let patched = fixture(9, "test.movinghead", 5, 1);
    assert_eq!(
        channels_of(&layout, &[(&patched, &head)]).unwrap_err(),
        PatchError::UniverseNotPatched {
            fixture: FixtureId::new(9),
            universe: UniverseId::new(5),
        }
    );
}

#[test]
fn an_attribute_that_sits_outside_its_types_footprint_is_rejected() {
    let layout = layout(&[1]);
    let patched = fixture(2, "test.wide", 1, 1);
    let coarse_outside = sized_fixture_type("test.wide", 2, vec![attribute_at(AttributeType::Pan, 0, 2, None)]);
    assert_eq!(
        channels_of(&layout, &[(&patched, &coarse_outside)]).unwrap_err(),
        PatchError::AttributeOutsideFootprint {
            fixture: FixtureId::new(2),
            attribute: AttributeType::Pan,
            offset: 2,
            footprint: 2,
        }
    );
    let fine_outside = sized_fixture_type("test.wide", 2, vec![attribute_at(AttributeType::Pan, 0, 0, Some(9))]);
    assert_eq!(
        channels_of(&layout, &[(&patched, &fine_outside)]).unwrap_err(),
        PatchError::AttributeOutsideFootprint {
            fixture: FixtureId::new(2),
            attribute: AttributeType::Pan,
            offset: 9,
            footprint: 2,
        }
    );
}

#[test]
fn an_attribute_with_no_slot_in_the_merge_plan_is_rejected() {
    let head = moving_head();
    let other = fixture_type("test.other", vec![attribute_at(AttributeType::Tilt, 0, 0, None)]);
    let layout = layout(&[1]);
    let patched = fixture(1, "test.movinghead", 1, 1);
    let plan = MergePlan::build(&[(FixtureId::new(1), &head, false)]).unwrap();
    assert_eq!(
        ChannelPlan::build(&plan, &layout, &[(&patched, &other)]).unwrap_err(),
        PatchError::AttributeNotInPlan {
            fixture: FixtureId::new(1),
            attribute: AttributeType::Tilt,
        }
    );
}

#[test]
fn one_slot_may_not_be_claimed_by_two_channel_targets() {
    let head = moving_head();
    let layout = layout(&[1]);
    let a = fixture(1, "test.movinghead", 1, 1);
    let b = fixture(1, "test.movinghead", 1, 20);
    let plan = MergePlan::build(&[(FixtureId::new(1), &head, false)]).unwrap();
    assert_eq!(
        ChannelPlan::build(&plan, &layout, &[(&a, &head), (&b, &head)]).unwrap_err(),
        PatchError::DuplicateTarget {
            fixture: FixtureId::new(1),
            attribute: AttributeType::Dimmer,
        }
    );
}

#[test]
fn two_fixtures_may_share_an_address_because_cloning_is_a_real_technique() {
    let head = moving_head();
    let layout = layout(&[1]);
    let one = fixture(1, "test.movinghead", 1, 1);
    let two = fixture(2, "test.movinghead", 1, 1);
    let channels = channels_of(&layout, &[(&one, &head), (&two, &head)]).unwrap();
    let mut frame = DmxFrame::new(&layout);
    channels.encode(&[0x1100, 0x2200, 0x3300, 0x4400], &mut frame);
    assert_eq!(frame.channel(0, 1), Some(0x33));
    assert_eq!(frame.channel(0, 2), Some(0x44));
}

#[test]
fn targets_are_ordered_by_slot() {
    let head = moving_head();
    let layout = layout(&[1]);
    let one = fixture(1, "test.movinghead", 1, 1);
    let seven = fixture(7, "test.movinghead", 1, 20);
    let forward = channels_of(&layout, &[(&one, &head), (&seven, &head)]).unwrap();
    let backward = channels_of(&layout, &[(&seven, &head), (&one, &head)]).unwrap();
    assert_eq!(forward.targets(), backward.targets());
    assert!(forward
        .targets()
        .windows(2)
        .all(|pair| pair[0].slot() < pair[1].slot()));
    assert_eq!(forward.target_count(), 4);
    assert_eq!(forward.slot_count(), 4);
    assert_eq!(forward.channel_count(), UNIVERSE_CHANNELS);
}

#[test]
fn a_target_describes_the_channel_it_writes() {
    let head = moving_head_16();
    let layout = layout(&[1]);
    let mut patched = fixture(1, "test.movinghead16", 1, 5);
    patched.invert_pan = true;
    let channels = channels_of(&layout, &[(&patched, &head)]).unwrap();
    let dimmer = channels.targets().first().unwrap();
    assert_eq!(dimmer.slot(), 0);
    assert_eq!(dimmer.coarse(), 4);
    assert_eq!(dimmer.fine(), Some(5));
    assert!(dimmer.is_sixteen_bit());
    assert!(!dimmer.is_inverted());
    let pan = channels.targets().get(1).unwrap();
    assert!(pan.is_inverted());
}

#[test]
fn an_empty_patch_is_a_valid_empty_channel_plan() {
    let layout = layout(&[1]);
    let nothing: [(FixtureId, &FixtureType, bool); 0] = [];
    let plan = MergePlan::build(&nothing).unwrap();
    let unpatched: [(&Fixture, &FixtureType); 0] = [];
    let channels = ChannelPlan::build(&plan, &layout, &unpatched).unwrap();
    assert_eq!(channels.target_count(), 0);
    assert!(channels.targets().is_empty());
    let mut frame = DmxFrame::new(&layout);
    channels.encode(&[], &mut frame);
    assert!(frame.channels().iter().all(|&byte| byte == 0));
}

#[test]
fn encoding_into_a_frame_of_the_wrong_layout_writes_nothing_rather_than_panicking() {
    let head = moving_head();
    let three = layout(&[1, 2, 3]);
    let patched = fixture(1, "test.movinghead", 3, 1);
    let channels = channels_of(&three, &[(&patched, &head)]).unwrap();
    let mut frame = DmxFrame::new(&layout(&[1]));
    channels.encode(&[65_535, 65_535], &mut frame);
    assert!(frame.channels().iter().all(|&byte| byte == 0));
}

#[test]
fn values_shorter_than_the_plan_encode_as_far_as_they_go() {
    let head = moving_head();
    let layout = layout(&[1]);
    let channels = channels_of(&layout, &[(&fixture(1, "test.movinghead", 1, 1), &head)]).unwrap();
    let mut frame = DmxFrame::new(&layout);
    channels.encode(&[65_535], &mut frame);
    assert_eq!(frame.channel(0, 1), Some(0xFF));
    assert_eq!(frame.channel(0, 2), Some(0));
}

#[test]
fn encode_a_rejected_patch_says_why_in_words() {
    let errors = [
        (
            PatchError::Plan(MergeError::DuplicateFixture(FixtureId::new(4))),
            "fixture 4 is patched twice",
        ),
        (
            PatchError::UniverseNotPatched {
                fixture: FixtureId::new(4),
                universe: UniverseId::new(9),
            },
            "fixture 4 is patched into universe 9, which the frame layout does not carry",
        ),
        (
            PatchError::AddressOutOfRange {
                fixture: FixtureId::new(4),
                address: 510,
                footprint: 8,
            },
            "fixture 4 at address 510 needs 8 channels, which runs past channel 512",
        ),
        (
            PatchError::AttributeOutsideFootprint {
                fixture: FixtureId::new(4),
                attribute: AttributeType::Pan,
                offset: 9,
                footprint: 4,
            },
            "fixture 4 puts the attribute Pan at offset 9 of a 4-channel footprint",
        ),
        (
            PatchError::AttributeNotInPlan {
                fixture: FixtureId::new(4),
                attribute: AttributeType::Tilt,
            },
            "fixture 4 defines the attribute Tilt, which the merge plan has no slot for",
        ),
        (
            PatchError::DuplicateTarget {
                fixture: FixtureId::new(4),
                attribute: AttributeType::Dimmer,
            },
            "fixture 4 has two channel targets for the attribute Dimmer",
        ),
        (
            PatchError::PlanMismatch { plan: 12, channels: 8 },
            "the merge plan has 12 slots and the channel plan was built for 8",
        ),
    ];
    for (error, text) in errors {
        assert_eq!(error.message(), text);
    }
    let wrapped = PatchError::Plan(MergeError::TooManySources(2_000));
    assert!(wrapped.source().is_some());
    let unwrapped = PatchError::PlanMismatch { plan: 1, channels: 2 };
    assert!(unwrapped.source().is_none());
    assert_eq!(
        PatchError::from(MergeError::DuplicateFixture(FixtureId::new(1))),
        PatchError::Plan(MergeError::DuplicateFixture(FixtureId::new(1)))
    );
}

#[test]
fn the_split_functions_are_the_specifications_arithmetic() {
    assert_eq!(coarse_byte(0xABCD), 0xAB);
    assert_eq!(fine_byte(0xABCD), 0xCD);
    assert_eq!(invert(0), 65_535);
    assert_eq!(invert(65_535), 0);
}

#[test]
fn the_eight_bit_write_is_the_coarse_byte_of_the_sixteen_bit_one_at_the_boundaries() {
    let eight = fixture_type("test.8", vec![attribute_at(AttributeType::Dimmer, 0, 0, None)]);
    let sixteen = sized_fixture_type("test.16", 2, vec![attribute_at(AttributeType::Dimmer, 0, 0, Some(1))]);
    let patched = fixture(1, "test.x", 1, 1);
    for (value, _, _) in BOUNDARIES {
        assert_eq!(
            encoded(&patched, &eight, &[value]).channel(0, 1),
            encoded(&patched, &sixteen, &[value]).channel(0, 1)
        );
    }
}

#[test]
fn a_patch_in_any_order_gives_a_channel_plan_or_is_refused_alike() {
    let head = moving_head();
    let wide = moving_head_16();
    let layout = layout(&[1, 2]);
    let one = fixture(1, "test.movinghead", 1, 1);
    let four = fixture(4, "test.movinghead16", 2, 509);
    let six = fixture(6, "test.movinghead", 2, 100);
    let forward = channels_of(&layout, &[(&one, &head), (&four, &wide), (&six, &head)]).unwrap();
    let shuffled = channels_of(&layout, &[(&six, &head), (&one, &head), (&four, &wide)]).unwrap();
    assert_eq!(forward.targets(), shuffled.targets());
    assert_eq!(forward.target_count(), 2 + 2 + 2, "one target per definition");

    let too_far = fixture(4, "test.movinghead16", 2, 510);
    let first = channels_of(&layout, &[(&one, &head), (&too_far, &wide)]);
    let second = channels_of(&layout, &[(&too_far, &wide), (&one, &head)]);
    assert!(first.is_err());
    assert!(second.is_err());
}
