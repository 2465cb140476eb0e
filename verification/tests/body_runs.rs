use prismdmx::body::{MergeBody, NO_PLAYBACKS};
use prismdmx::command::{CrossfadeMode, TickCommand};
use prismdmx::cue::{CueError, GoDirection};
use prismdmx::encode::{coarse_byte, fine_byte, ChannelPlan, PatchError};
use prismdmx::fixture::{AttributeDef, AttributeType, FeatureGroup, Fixture, FixtureType};
use prismdmx::frame::{DmxFrame, FrameLayout};
use prismdmx::ids::{ExecutorId, FixtureId, PlaybackId, SequenceId, UniverseId, SPEED_UNITY};
use prismdmx::merge::{apply_master, merge_programmer, FULL};
use prismdmx::plan::{MergeError, MergePlan};
use prismdmx::sequence::{Cue, CuePart, CueTracking, CueTrigger, Sequence};

fn def(attribute: AttributeType, default_value: u16, coarse_offset: u16, fine_offset: Option<u16>, group: FeatureGroup) -> AttributeDef {
    AttributeDef {
        attribute,
        coarse_offset,
        fine_offset,
        default_value,
        merge_mode: attribute.default_merge_mode(),
        feature_group: group,
        invert: false,
    }
}

fn moving_head() -> FixtureType {
    FixtureType {
        id: "test.movinghead".to_owned(),
        footprint: 2,
        attributes: vec![
            def(AttributeType::Dimmer, 0, 0, None, FeatureGroup::Dimmer),
            def(AttributeType::Pan, 32_768, 1, None, FeatureGroup::Position),
        ],
    }
}

fn moving_head_16() -> FixtureType {
    FixtureType {
        id: "test.movinghead16".to_owned(),
        footprint: 4,
        attributes: vec![
            def(AttributeType::Dimmer, 0, 0, Some(1), FeatureGroup::Dimmer),
            def(AttributeType::Pan, 32_768, 2, Some(3), FeatureGroup::Position),
        ],
    }
}

fn fixture(id: u32, type_id: &str, universe: u32, address: u16) -> Fixture {
    Fixture {
        id: FixtureId::new(id),
        type_id: type_id.to_owned(),
        universe: UniverseId::new(universe),
        address,
        invert_pan: false,
        invert_tilt: false,
    }
}

/// `count` moving heads, side by side from address 1 of universe 1.
fn patch(count: u32) -> Vec<Fixture> {
    (1..=count)
        .map(|id| fixture(id, "test.movinghead", 1, (id as u16 - 1) * 2 + 1))
        .collect()
}

fn layout() -> FrameLayout {
    FrameLayout::new(&[UniverseId::new(1)]).unwrap()
}

fn executor(number: u32) -> PlaybackId {
    ExecutorId::new(number).into()
}

fn body(fixtures: u32, executors: u32) -> MergeBody {
    let head = moving_head();
    let patched = patch(fixtures);
    let pairs: Vec<(&Fixture, &FixtureType)> = patched.iter().map(|f| (f, &head)).collect();
    let playbacks: Vec<PlaybackId> = (1..=executors).map(executor).collect();
    MergeBody::for_patch(&layout(), &pairs, &playbacks).unwrap()
}

fn slot(body: &MergeBody, fixture: u32, attribute: AttributeType) -> usize {
    body.plan().index_of(FixtureId::new(fixture), attribute).unwrap()
}

/// Seconds to ticks at 44 Hz, rounded.
fn ticks(seconds: f64) -> u64 {
    if seconds.is_nan() || seconds <= 0.0 {
        return 0;
    }
    (seconds * 44.0).round() as u64
}

fn cue_part(fixture: u32, attribute: AttributeType, value: u16) -> CuePart {
    CuePart {
        fixture: FixtureId::new(fixture),
        attribute,
        value,
        preset_ref: None,
        tracking: CueTracking::Track,
    }
}

fn cue(number: &str, fade: f64, parts: Vec<CuePart>) -> Cue {
    Cue {
        number: number.to_owned(),
        name: String::new(),
        fade_in: ticks(fade),
        fade_out: ticks(fade),
        delay: 0,
        trigger: CueTrigger::Go,
        trigger_time: None,
        parts,
    }
}

fn sequence(cues: Vec<Cue>, looping: bool) -> Sequence {
    Sequence {
        id: SequenceId::new(1),
        name: "Test".to_owned(),
        color: None,
        cues,
        looping,
        master_level: u16::MAX,
        speed: SPEED_UNITY,
        is_active: false,
        current_cue_index: None,
    }
}

fn single_head_16(playbacks: &[PlaybackId]) -> MergeBody {
    let head = moving_head_16();
    let patched = fixture(1, "test.movinghead16", 1, 1);
    MergeBody::for_patch(&layout(), &[(&patched, &head)], playbacks).unwrap()
}

#[test]
fn the_grand_master_and_the_blackout_now_reach_the_merge() {
    let mut body = body(1, 1);
    let dimmer = slot(&body, 1, AttributeType::Dimmer);
    let pan = slot(&body, 1, AttributeType::Pan);
    {
        let source = body.layer_mut().source_mut(executor(1)).unwrap();
        source.set(dimmer, FULL);
        source.set(pan, 20_000);
    }
    body.layer_mut().activate(executor(1));
    body.resolve();
    assert_eq!(body.values().get(dimmer).copied(), Some(FULL));

    body.apply(TickCommand::SetGrandMaster(32_767));
    body.resolve();
    assert_eq!(body.values().get(dimmer).copied(), Some(apply_master(FULL, 32_767)));
    assert_eq!(body.values().get(pan).copied(), Some(20_000));

    body.apply(TickCommand::SetBlackout(true));
    body.resolve();
    assert_eq!(body.values().get(dimmer).copied(), Some(0));
    assert_eq!(
        body.values().get(pan).copied(),
        Some(20_000),
        "blackout moved a position"
    );

    body.apply(TickCommand::SetBlackout(false));
    body.resolve();
    assert_eq!(body.values().get(dimmer).copied(), Some(apply_master(FULL, 32_767)));
}

#[test]
fn switching_a_loaded_executor_on_and_off_runs_and_releases_its_sequence() {
    let mut body = body(1, 1);
    let dimmer = slot(&body, 1, AttributeType::Dimmer);
    load(&mut body, 
        executor(1),
        &sequence(
            vec![cue("1", 0.0, vec![cue_part(1, AttributeType::Dimmer, 40_000)])],
            false,
        ),
    )
    .unwrap();

    let mut frame = DmxFrame::new(&layout());
    body.apply(TickCommand::SetExecutorActive {
        executor: executor(1),
        on: true,
    });
    body.render(0, &mut frame);
    assert_eq!(body.values().get(dimmer).copied(), Some(40_000));

    body.apply(TickCommand::SetExecutorActive {
        executor: executor(1),
        on: false,
    });
    body.render(1, &mut frame);
    assert_eq!(body.values().get(dimmer).copied(), Some(0));
    assert!(!body.layer().source(executor(1)).unwrap().is_active());

    body.cues_mut().player_mut(executor(1)).unwrap().unload();
    body.render(2, &mut frame);
    assert!(!body.cues().player(executor(1)).unwrap().is_loaded());
}

#[test]
fn a_sequence_can_only_be_loaded_onto_a_playback_this_body_has() {
    let mut body = body(1, 2);
    assert_eq!(
        load(&mut body, executor(77), &sequence(Vec::new(), false)).unwrap_err(),
        CueError::UnknownPlayback(ExecutorId::new(77).into())
    );
}

#[test]
fn a_sequence_is_compiled_against_this_bodys_own_patch() {
    let mut body = body(1, 1);
    load(&mut body, 
        executor(1),
        &sequence(
            vec![cue(
                "1",
                0.0,
                vec![
                    cue_part(9, AttributeType::Dimmer, 100),
                    cue_part(1, AttributeType::Dimmer, 100),
                ],
            )],
            false,
        ),
    )
    .unwrap();
    let dimmer = slot(&body, 1, AttributeType::Dimmer);
    let player = body.cues().player(executor(1)).unwrap();
    let compiled = player.sequence().unwrap();
    assert_eq!(compiled.unresolved(), 1);
    assert_eq!(compiled.slot_count(), 1);
    assert_eq!(compiled.slot(0).unwrap().slot, dimmer);
}

#[test]
fn a_ten_second_fade_reaches_half_after_five_seconds_of_engine_ticks() {
    let mut body = body(1, 1);
    let dimmer = slot(&body, 1, AttributeType::Dimmer);
    load(&mut body, 
        executor(1),
        &sequence(
            vec![cue("1", 10.0, vec![cue_part(1, AttributeType::Dimmer, 65_535)])],
            false,
        ),
    )
    .unwrap();
    body.apply(TickCommand::Go {
        executor: executor(1),
        direction: GoDirection::Next,
    });
    let mut frame = DmxFrame::new(&layout());
    for index in 0..=220u64 {
        body.render(index, &mut frame);
    }
    assert_eq!(
        body.values().get(dimmer).copied(),
        Some(32_767),
        "a ten-second fade was not at half after five seconds"
    );
}

#[test]
fn rendering_resolves_the_merge_and_encodes_it_into_the_frame() {
    let mut body = single_head_16(&[executor(1)]);
    let dimmer = slot(&body, 1, AttributeType::Dimmer);
    body.layer_mut().source_mut(executor(1)).unwrap().set(dimmer, 12_345);
    body.layer_mut().activate(executor(1));

    let mut frame = DmxFrame::new(&layout());
    body.render(0, &mut frame);
    assert_eq!(body.values().get(dimmer).copied(), Some(12_345));
    assert_eq!(frame.channel(0, 1), Some(0x30));
    assert_eq!(frame.channel(0, 2), Some(0x39));
    assert_eq!(frame.channel(0, 3), Some(0x80));
    assert_eq!(frame.channel(0, 4), Some(0x00));
}

#[test]
fn a_channel_plan_built_against_a_different_merge_plan_is_rejected() {
    let head = moving_head();
    let one = patch(1);
    let two = patch(2);
    let wide: Vec<(FixtureId, &FixtureType, bool)> = two.iter().map(|f| (f.id, &head, false)).collect();
    let slim: Vec<(FixtureId, &FixtureType, bool)> = one.iter().map(|f| (f.id, &head, false)).collect();
    let plan = MergePlan::build(&wide).unwrap();
    let narrow = MergePlan::build(&slim).unwrap();
    let pairs: Vec<(&Fixture, &FixtureType)> = one.iter().map(|f| (f, &head)).collect();
    let channels = ChannelPlan::build(&narrow, &layout(), &pairs).unwrap();
    assert_eq!(
        MergeBody::new(plan, channels, &[executor(1)]).err(),
        Some(PatchError::PlanMismatch { plan: 4, channels: 2 })
    );
}

#[test]
fn a_patch_neither_plan_accepts_never_becomes_a_body() {
    let head = moving_head();
    let patched = fixture(1, "test.movinghead", 9, 1);
    assert_eq!(
        MergeBody::for_patch(&layout(), &[(&patched, &head)], &NO_PLAYBACKS).err(),
        Some(PatchError::UniverseNotPatched {
            fixture: FixtureId::new(1),
            universe: UniverseId::new(9),
        })
    );
    let twice = fixture(1, "test.movinghead", 1, 1);
    assert_eq!(
        MergeBody::for_patch(&layout(), &[(&twice, &head), (&twice, &head)], &NO_PLAYBACKS).err(),
        Some(PatchError::Plan(MergeError::DuplicateFixture(FixtureId::new(1))))
    );
}

#[test]
fn the_worked_example_from_the_specification() {
    let mut body = single_head_16(&[executor(3), executor(5)]);
    let dimmer = slot(&body, 1, AttributeType::Dimmer);
    let pan = slot(&body, 1, AttributeType::Pan);

    {
        let source = body.layer_mut().source_mut(executor(3)).unwrap();
        source.set(dimmer, 65_535);
        source.set(pan, 20_000);
    }
    {
        let source = body.layer_mut().source_mut(executor(5)).unwrap();
        source.set(dimmer, 30_000);
        source.set(pan, 45_000);
    }
    body.layer_mut().activate(executor(3));
    body.layer_mut().activate(executor(5));
    body.layer_mut().set_master(executor(3), 32_767);
    body.layer_mut().set_master(executor(5), FULL);
    body.resolve();

    let merged_dimmer = body.values().get(dimmer).copied().unwrap();
    assert_eq!(merged_dimmer, 32_767);
    assert_eq!(merge_programmer(merged_dimmer, None), 32_767);
    let mut frame = DmxFrame::new(&layout());
    body.render(0, &mut frame);
    assert_eq!(frame.channel(0, 1), Some(0x7F));
    assert_eq!(frame.channel(0, 2), Some(0xFF));

    assert_eq!(body.values().get(pan).copied(), Some(45_000));
    assert_eq!(merge_programmer(45_000, Some(50_000)), 50_000);
    body.programmer_mut().set(pan, 50_000);
    body.render(1, &mut frame);
    assert_eq!(body.values().get(pan).copied(), Some(50_000));
    assert_eq!(frame.channel(0, 3), Some(0xC3));
    assert_eq!(frame.channel(0, 4), Some(0x50));
    assert_eq!(coarse_byte(50_000), 0xC3);
    assert_eq!(fine_byte(50_000), 0x50);

    body.layer_mut().deactivate(executor(5));
    body.render(2, &mut frame);
    assert_eq!(body.values().get(pan).copied(), Some(50_000));
    assert_eq!(frame.channel(0, 3), Some(0xC3));
    assert_eq!(frame.channel(0, 4), Some(0x50));

    body.programmer_mut().clear(pan);
    body.resolve();
    assert_eq!(body.values().get(pan).copied(), Some(20_000));
    body.layer_mut().activate(executor(5));
    body.resolve();
    assert_eq!(body.values().get(pan).copied(), Some(45_000));

    body.layer_mut().deactivate(executor(3));
    body.layer_mut().deactivate(executor(5));
    body.resolve();
    assert_eq!(body.values().get(pan).copied(), Some(32_768));
    assert_eq!(body.values().get(dimmer).copied(), Some(0));
}

#[test]
fn a_flash_raises_the_light_and_leaves_the_stored_master_untouched() {
    let mut body = single_head_16(&[executor(1)]);
    let dimmer = slot(&body, 1, AttributeType::Dimmer);
    body.layer_mut().source_mut(executor(1)).unwrap().set(dimmer, FULL);
    let mut frame = DmxFrame::new(&layout());

    body.apply(TickCommand::SetExecutorActive {
        executor: executor(1),
        on: true,
    });
    body.apply(TickCommand::SetExecutorLevel {
        executor: executor(1),
        level: 16_383,
    });
    body.render(0, &mut frame);
    assert_eq!(frame.channels()[0], 63, "a quarter master is a quarter of the light");
    assert_eq!(body.layer().source(executor(1)).unwrap().master(), 16_383);

    body.apply(TickCommand::SetExecutorFlash {
        executor: executor(1),
        on: true,
    });
    body.render(1, &mut frame);
    assert_eq!(frame.channels()[0], 255);
    assert_eq!(
        body.layer().source(executor(1)).unwrap().master(),
        16_383,
        "the flash wrote into the stored master"
    );

    body.apply(TickCommand::SetExecutorLevel {
        executor: executor(1),
        level: 49_151,
    });
    body.render(2, &mut frame);
    assert_eq!(frame.channels()[0], 255);

    body.apply(TickCommand::SetExecutorFlash {
        executor: executor(1),
        on: false,
    });
    body.render(3, &mut frame);
    assert_eq!(
        frame.channels()[0],
        191,
        "the release lost the level that arrived while it was held"
    );
    assert_eq!(body.layer().source(executor(1)).unwrap().master(), 49_151);
}

#[test]
fn a_flash_activates_an_executor_that_has_no_cue_list() {
    let mut body = body(1, 2);
    let dimmer = slot(&body, 1, AttributeType::Dimmer);
    body.layer_mut().source_mut(executor(1)).unwrap().set(dimmer, FULL);
    assert!(!body.layer().source(executor(1)).unwrap().is_active());

    body.apply(TickCommand::SetExecutorFlash {
        executor: executor(1),
        on: true,
    });
    body.resolve();
    assert!(body.layer().source(executor(1)).unwrap().is_active());
    assert_eq!(body.values()[dimmer], FULL);

    body.apply(TickCommand::SetExecutorFlash {
        executor: executor(1),
        on: false,
    });
    body.resolve();
    assert!(!body.layer().source(executor(1)).unwrap().is_active());
    assert_eq!(body.values()[dimmer], 0, "home is dark for this rig");

    body.layer_mut().activate(executor(2));
    body.apply(TickCommand::SetExecutorFlash {
        executor: executor(2),
        on: true,
    });
    body.apply(TickCommand::SetExecutorFlash {
        executor: executor(2),
        on: false,
    });
    assert!(body.layer().source(executor(2)).unwrap().is_active());
}

#[test]
fn an_executor_speed_command_changes_the_rate_and_no_value() {
    let mut body = body(1, 1);
    load(&mut body, 
        executor(1),
        &sequence(
            vec![cue("1", 4.0, vec![cue_part(1, AttributeType::Dimmer, 65_535)])],
            false,
        ),
    )
    .unwrap();
    let dimmer = slot(&body, 1, AttributeType::Dimmer);
    let mut frame = DmxFrame::new(&layout());

    body.apply(TickCommand::SetExecutorActive {
        executor: executor(1),
        on: true,
    });
    for index in 1..=40 {
        body.render(index, &mut frame);
    }
    let moving = body.values()[dimmer];
    assert!(moving > 0 && moving < 65_535, "{moving}");

    body.apply(TickCommand::SetExecutorSpeed {
        executor: executor(1),
        speed: 0,
    });
    for index in 41..=200 {
        body.render(index, &mut frame);
    }
    assert_eq!(body.values()[dimmer], moving, "a frozen fade moved");
    assert_eq!(body.playback_state(executor(1)).unwrap().cue_index, Some(0));

    body.apply(TickCommand::TapExecutorSpeed { executor: executor(99) });
    body.apply(TickCommand::SetExecutorCrossfade {
        executor: executor(99),
        mode: CrossfadeMode::XFade,
        position: 4,
    });
    body.apply(TickCommand::SetExecutorFlash {
        executor: executor(99),
        on: true,
    });
    body.render(201, &mut frame);
    assert_eq!(body.values()[dimmer], moving);
}

#[test]
fn a_crossfade_command_drives_the_transition_from_the_fader() {
    let mut body = body(1, 1);
    load(&mut body, 
        executor(1),
        &sequence(
            vec![
                cue("1", 0.0, vec![cue_part(1, AttributeType::Dimmer, 0)]),
                cue("2", 600.0, vec![cue_part(1, AttributeType::Dimmer, 65_535)]),
            ],
            false,
        ),
    )
    .unwrap();
    let dimmer = slot(&body, 1, AttributeType::Dimmer);
    let mut frame = DmxFrame::new(&layout());

    body.apply(TickCommand::SetExecutorCrossfade {
        executor: executor(1),
        mode: CrossfadeMode::XFade,
        position: 0,
    });
    body.apply(TickCommand::SetExecutorActive {
        executor: executor(1),
        on: true,
    });
    body.render(1, &mut frame);
    body.apply(TickCommand::Go {
        executor: executor(1),
        direction: GoDirection::Next,
    });
    body.render(2, &mut frame);
    assert_eq!(body.values()[dimmer], 0);

    body.apply(TickCommand::SetExecutorCrossfade {
        executor: executor(1),
        mode: CrossfadeMode::XFade,
        position: 65_535,
    });
    body.render(3, &mut frame);
    assert_eq!(body.values()[dimmer], 65_535);
}

#[test]
fn a_programmer_value_always_reaches_the_output_on_a_busy_desk() {
    let mut body = body(2, 4);
    for (number, value) in [(1u32, 10_000u16), (2, 50_000), (3, 0), (4, 65_535)] {
        for slot in 0..4 {
            body.layer_mut().source_mut(executor(number)).unwrap().set(slot, value);
        }
        body.layer_mut().activate(executor(number));
    }
    for slot in 0..4usize {
        for value in [0u16, 1, 32_768, 65_535] {
            body.programmer_mut().set(slot, value);
            body.resolve();
            assert_eq!(body.values().get(slot).copied(), Some(value));
        }
    }
}

/// The playback order of a sequence's cues: by decimal cue number, stably,
/// with a number that does not parse after every one that does.
fn playback_order(sequence: &Sequence) -> Vec<usize> {
    fn compare(left: &str, right: &str) -> std::cmp::Ordering {
        match (left.trim().parse::<f64>(), right.trim().parse::<f64>()) {
            (Ok(l), Ok(r)) => l.total_cmp(&r),
            (Ok(_), Err(_)) => std::cmp::Ordering::Less,
            (Err(_), Ok(_)) => std::cmp::Ordering::Greater,
            (Err(_), Err(_)) => left.cmp(right),
        }
    }
    let mut order: Vec<usize> = (0..sequence.cues.len()).collect();
    order.sort_by(|&l, &r| compare(&sequence.cues[l].number, &sequence.cues[r].number));
    order
}

fn load(body: &mut MergeBody, playback: PlaybackId, sequence: &Sequence) -> Result<(), CueError> {
    body.load_sequence(playback, sequence, &playback_order(sequence))
}
