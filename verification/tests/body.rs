use prismdmx::body::{MergeBody, NO_PLAYBACKS};
use prismdmx::command::TickCommand;
use prismdmx::cue::{CueError, GoDirection};
use prismdmx::encode::{coarse_byte, PatchError};
use prismdmx::fixture::{AttributeDef, AttributeType, FeatureGroup, Fixture, FixtureType, Group};
use prismdmx::frame::{DmxFrame, FrameLayout};
use prismdmx::ids::{ExecutorId, FixtureId, GroupId, PlaybackId, SequenceId, UniverseId, SPEED_UNITY};
use prismdmx::merge::{apply_master, FULL};
use prismdmx::plan::MergeError;
use prismdmx::programmer::{ProgrammerState, ProgrammerValue, ProgrammerValueSource};
use prismdmx::sequence::{Cue, CuePart, CueTracking, CueTrigger, Sequence};

fn moving_head() -> FixtureType {
    let def = |attribute: AttributeType, default_value: u16, coarse_offset: u16, group| AttributeDef {
        attribute,
        coarse_offset,
        fine_offset: None,
        default_value,
        merge_mode: attribute.default_merge_mode(),
        feature_group: group,
        invert: false,
    };
    FixtureType {
        id: "test.movinghead".to_owned(),
        footprint: 2,
        attributes: vec![
            def(AttributeType::Dimmer, 0, 0, FeatureGroup::Dimmer),
            def(AttributeType::Pan, 32_768, 1, FeatureGroup::Position),
        ],
    }
}

fn fixture(id: u32, type_id: &str, universe: u32, address: u16) -> Fixture {
    Fixture {
        id: FixtureId::new(id),
        type_id: type_id.to_owned(),
        universe: UniverseId::new(universe),
        address,
        invert_pan: false,
        invert_tilt: false,
    }
}

fn layout() -> FrameLayout {
    FrameLayout::new(&[UniverseId::new(1)]).unwrap()
}

fn executor(number: u32) -> PlaybackId {
    ExecutorId::new(number).into()
}

fn body(fixtures: u32, executors: u32) -> MergeBody {
    let head = moving_head();
    let patched: Vec<Fixture> = (1..=fixtures)
        .map(|id| fixture(id, "test.movinghead", 1, (id as u16 - 1) * 2 + 1))
        .collect();
    let pairs: Vec<(&Fixture, &FixtureType)> = patched.iter().map(|f| (f, &head)).collect();
    let playbacks: Vec<PlaybackId> = (1..=executors).map(executor).collect();
    MergeBody::for_patch(&layout(), &pairs, &playbacks).unwrap()
}

fn slot(body: &MergeBody, fixture: u32, attribute: AttributeType) -> usize {
    body.plan().index_of(FixtureId::new(fixture), attribute).unwrap()
}

fn lit(fixtures: u32, executors: u32) -> MergeBody {
    let mut body = body(fixtures, executors);
    let dimmer = slot(&body, 1, AttributeType::Dimmer);
    let pan = slot(&body, 1, AttributeType::Pan);
    {
        let source = body.layer_mut().source_mut(executor(1)).unwrap();
        source.set(dimmer, FULL);
        source.set(pan, 20_000);
    }
    body.layer_mut().activate(executor(1));
    body.resolve();
    body
}

fn programmer_value(value: u16) -> ProgrammerValue {
    ProgrammerValue {
        value,
        source: ProgrammerValueSource::Manual,
        preset_ref: None,
    }
}

fn cue_part(fixture: u32, attribute: AttributeType, value: u16) -> CuePart {
    CuePart {
        fixture: FixtureId::new(fixture),
        attribute,
        value,
        preset_ref: None,
        tracking: CueTracking::Track,
    }
}

fn cue(number: &str, parts: Vec<CuePart>) -> Cue {
    Cue {
        number: number.to_owned(),
        name: String::new(),
        fade_in: 0,
        fade_out: 0,
        delay: 0,
        trigger: CueTrigger::Go,
        trigger_time: None,
        parts,
    }
}

fn sequence(cues: Vec<Cue>) -> Sequence {
    Sequence {
        id: SequenceId::new(1),
        name: "Test".to_owned(),
        color: None,
        cues,
        looping: false,
        master_level: u16::MAX,
        speed: SPEED_UNITY,
        is_active: false,
        current_cue_index: None,
    }
}

#[test]
fn a_fresh_body_holds_the_home_layer() {
    let body = body(2, 4);
    assert_eq!(body.values(), [0, 32_768, 0, 32_768]);
    assert_eq!(body.plan().slot_count(), 4);
    assert_eq!(body.layer().source_count(), 4);
    assert!(body.layer().sources().iter().all(|s| !s.is_active()));
}

#[test]
fn a_body_with_no_playbacks_is_still_a_body() {
    let head = moving_head();
    let patched = fixture(1, "test.movinghead", 1, 1);
    let body = MergeBody::for_patch(&layout(), &[(&patched, &head)], &NO_PLAYBACKS).unwrap();
    assert_eq!(body.values(), [0, 32_768]);
    assert_eq!(body.cues().player_count(), 0);
}

#[test]
fn an_executor_level_command_moves_that_executors_master() {
    let mut body = body(1, 2);
    let dimmer = slot(&body, 1, AttributeType::Dimmer);
    body.layer_mut().source_mut(executor(1)).unwrap().set(dimmer, FULL);
    body.apply(TickCommand::SetExecutorActive {
        executor: executor(1),
        on: true,
    });
    body.apply(TickCommand::SetExecutorLevel {
        executor: executor(1),
        level: 32_767,
    });
    body.resolve();
    assert_eq!(body.values().first().copied(), Some(32_767));
}

#[test]
fn activation_commands_drive_the_ltp_order() {
    let mut body = body(1, 2);
    let pan = slot(&body, 1, AttributeType::Pan);
    body.layer_mut().source_mut(executor(1)).unwrap().set(pan, 10_000);
    body.layer_mut().source_mut(executor(2)).unwrap().set(pan, 20_000);
    for number in [1u32, 2] {
        body.apply(TickCommand::SetExecutorActive {
            executor: executor(number),
            on: true,
        });
    }
    body.resolve();
    assert_eq!(body.values().get(pan).copied(), Some(20_000));

    body.apply(TickCommand::SetExecutorActive {
        executor: executor(2),
        on: false,
    });
    body.resolve();
    assert_eq!(body.values().get(pan).copied(), Some(10_000));
}

#[test]
fn a_command_for_an_executor_this_body_does_not_have_is_ignored() {
    let mut body = body(1, 1);
    body.apply(TickCommand::SetExecutorActive {
        executor: executor(77),
        on: true,
    });
    body.apply(TickCommand::SetExecutorLevel {
        executor: executor(77),
        level: 1,
    });
    body.resolve();
    assert_eq!(body.values(), [0, 32_768]);
}

#[test]
fn the_grand_master_and_the_blackout_reach_the_merge() {
    let mut body = lit(1, 1);
    let dimmer = slot(&body, 1, AttributeType::Dimmer);
    let pan = slot(&body, 1, AttributeType::Pan);
    assert_eq!(body.values().get(dimmer).copied(), Some(FULL));

    body.apply(TickCommand::SetGrandMaster(32_767));
    body.resolve();
    assert_eq!(body.values().get(dimmer).copied(), Some(apply_master(FULL, 32_767)));
    assert_eq!(body.values().get(pan).copied(), Some(20_000));

    body.apply(TickCommand::SetBlackout(true));
    body.resolve();
    assert_eq!(body.values().get(dimmer).copied(), Some(0));
    assert_eq!(body.values().get(pan).copied(), Some(20_000));

    body.apply(TickCommand::SetBlackout(false));
    body.resolve();
    assert_eq!(body.values().get(dimmer).copied(), Some(apply_master(FULL, 32_767)));
}

#[test]
fn the_programmer_overrides_a_running_playback_and_clearing_hands_it_back() {
    let mut body = lit(1, 1);
    let pan = slot(&body, 1, AttributeType::Pan);
    let slot_index = pan as u32;

    body.apply(TickCommand::SetProgrammerValue {
        slot: slot_index,
        value: 50_000,
    });
    body.resolve();
    assert_eq!(body.values().get(pan).copied(), Some(50_000));
    assert_eq!(body.programmer().len(), 1);

    body.apply(TickCommand::ClearProgrammerValue { slot: slot_index });
    body.resolve();
    assert_eq!(body.values().get(pan).copied(), Some(20_000));

    body.apply(TickCommand::SetProgrammerValue {
        slot: slot_index,
        value: 50_000,
    });
    body.apply(TickCommand::ClearProgrammer);
    body.resolve();
    assert!(body.programmer().is_empty());
    assert_eq!(body.values().get(pan).copied(), Some(20_000));
}

#[test]
fn a_programmer_value_of_zero_darkens_a_fixture_a_cue_is_holding_at_full() {
    let mut body = lit(1, 1);
    let dimmer = slot(&body, 1, AttributeType::Dimmer);
    body.apply(TickCommand::SetProgrammerValue {
        slot: dimmer as u32,
        value: 0,
    });
    body.resolve();
    assert_eq!(body.values().get(dimmer).copied(), Some(0));
}

#[test]
fn the_masters_scale_the_programmer_as_well_as_the_playbacks() {
    let mut body = lit(1, 1);
    let dimmer = slot(&body, 1, AttributeType::Dimmer);
    let pan = slot(&body, 1, AttributeType::Pan);
    body.programmer_mut().set(dimmer, FULL);
    body.programmer_mut().set(pan, 50_000);
    body.apply(TickCommand::SetGrandMaster(32_767));
    body.resolve();
    assert_eq!(body.values().get(dimmer).copied(), Some(apply_master(FULL, 32_767)));
    assert_eq!(body.values().get(pan).copied(), Some(50_000));

    body.apply(TickCommand::SetBlackout(true));
    body.resolve();
    assert_eq!(body.values().get(dimmer).copied(), Some(0), "the programmer survived a blackout");
    assert_eq!(body.values().get(pan).copied(), Some(50_000));
}

#[test]
fn a_group_master_reaches_the_merge_and_scales_only_its_own_fixtures() {
    let mut body = body(2, 1);
    let first = slot(&body, 1, AttributeType::Dimmer);
    let second = slot(&body, 2, AttributeType::Dimmer);
    {
        let source = body.layer_mut().source_mut(executor(1)).unwrap();
        source.set(first, FULL);
        source.set(second, FULL);
    }
    body.layer_mut().activate(executor(1));
    body.load_groups(&[Group {
        id: GroupId::new(3),
        name: "Left".to_owned(),
        fixtures: vec![FixtureId::new(1)],
    }]);

    body.apply(TickCommand::SetGroupMaster {
        group: GroupId::new(3),
        level: 32_767,
    });
    body.resolve();
    assert_eq!(body.values().get(first).copied(), Some(apply_master(FULL, 32_767)));
    assert_eq!(body.values().get(second).copied(), Some(FULL));

    body.apply(TickCommand::SetGroupMaster {
        group: GroupId::new(99),
        level: 0,
    });
    body.resolve();
    assert_eq!(body.values().get(second).copied(), Some(FULL));
}

#[test]
fn a_programmer_command_for_a_slot_this_patch_does_not_have_is_ignored() {
    let mut body = lit(1, 1);
    for command in [
        TickCommand::SetProgrammerValue { slot: 99, value: 500 },
        TickCommand::ClearProgrammerValue { slot: 99 },
        TickCommand::SetProgrammerValue {
            slot: u32::MAX,
            value: 500,
        },
    ] {
        body.apply(command);
    }
    body.resolve();
    assert!(body.programmer().is_empty());
    assert_eq!(
        body.values().get(slot(&body, 1, AttributeType::Dimmer)).copied(),
        Some(FULL)
    );
}

#[test]
fn an_operator_facing_programmer_state_can_be_installed_against_this_bodys_patch() {
    let mut body = lit(1, 2);
    let pan = slot(&body, 1, AttributeType::Pan);
    let mut state = ProgrammerState::default();
    state.set_value(FixtureId::new(1), AttributeType::Pan, programmer_value(50_000));
    state.set_value(FixtureId::new(9), AttributeType::Pan, programmer_value(1));

    assert_eq!(body.load_programmer(&state), 1);
    body.resolve();
    assert_eq!(body.values().get(pan).copied(), Some(50_000));

    assert_eq!(body.load_programmer(&ProgrammerState::default()), 0);
    body.resolve();
    assert_eq!(body.values().get(pan).copied(), Some(20_000));
}

#[test]
fn a_go_for_an_executor_with_no_sequence_does_nothing_at_all() {
    let mut body = body(1, 1);
    let dimmer = slot(&body, 1, AttributeType::Dimmer);
    body.layer_mut().source_mut(executor(1)).unwrap().set(dimmer, FULL);
    body.apply(TickCommand::SetExecutorActive {
        executor: executor(1),
        on: true,
    });
    body.apply(TickCommand::Go {
        executor: executor(1),
        direction: GoDirection::Next,
    });
    body.render(0, &mut DmxFrame::new(&layout()));
    assert_eq!(body.values().get(dimmer).copied(), Some(FULL));
}

#[test]
fn a_go_command_walks_the_executor_through_its_cue_list() {
    let mut body = body(1, 2);
    let dimmer = slot(&body, 1, AttributeType::Dimmer);
    load(&mut body, 
        executor(1),
        &sequence(vec![
            cue("1", vec![cue_part(1, AttributeType::Dimmer, 10_000)]),
            cue("2", vec![cue_part(1, AttributeType::Dimmer, 20_000)]),
        ]),
    )
    .unwrap();

    let mut frame = DmxFrame::new(&layout());
    for (index, expected) in [(0u64, 10_000u16), (1, 20_000)] {
        body.apply(TickCommand::Go {
            executor: executor(1),
            direction: GoDirection::Next,
        });
        body.render(index, &mut frame);
        assert_eq!(body.values().get(dimmer).copied(), Some(expected));
        assert_eq!(frame.channel(0, 1), Some(coarse_byte(expected)));
    }
    assert_eq!(body.cues().player(executor(1)).unwrap().current_cue(), Some(1));
    let state = body.playback_state(executor(1)).unwrap();
    assert!(state.is_active);
    assert_eq!(state.cue_index, Some(1));
    assert!(body.playback_state(executor(9)).is_none());
}

#[test]
fn a_sequence_for_a_playback_this_body_does_not_have_is_refused() {
    let mut body = body(1, 1);
    assert_eq!(
        load(&mut body, executor(5), &sequence(Vec::new())),
        Err(CueError::UnknownPlayback(executor(5)))
    );
}

#[test]
fn plans_built_against_different_patches_are_refused() {
    let head = moving_head();
    let one = fixture(1, "test.movinghead", 1, 1);
    let two = fixture(2, "test.movinghead", 1, 3);
    let small = MergeBody::for_patch(&layout(), &[(&one, &head)], &NO_PLAYBACKS).unwrap();
    let large = MergeBody::for_patch(&layout(), &[(&one, &head), (&two, &head)], &NO_PLAYBACKS).unwrap();
    let refused = MergeBody::new(small.plan().clone(), large.channels().clone(), &NO_PLAYBACKS);
    assert!(matches!(
        refused,
        Err(PatchError::PlanMismatch { plan: 2, channels: 4 })
    ));
}

#[test]
fn a_fixture_patched_twice_is_refused_by_the_body() {
    let head = moving_head();
    let one = fixture(1, "test.movinghead", 1, 1);
    let again = fixture(1, "test.movinghead", 1, 9);
    let refused = MergeBody::for_patch(&layout(), &[(&one, &head), (&again, &head)], &NO_PLAYBACKS);
    assert!(matches!(
        refused,
        Err(PatchError::Plan(MergeError::DuplicateFixture(_)))
    ));
}

#[test]
fn flashing_an_executor_with_no_sequence_puts_it_in_the_merge_while_held() {
    let mut body = body(1, 1);
    let dimmer = slot(&body, 1, AttributeType::Dimmer);
    body.layer_mut().source_mut(executor(1)).unwrap().set(dimmer, 30_000);
    body.apply(TickCommand::SetExecutorLevel {
        executor: executor(1),
        level: 0,
    });
    body.apply(TickCommand::SetExecutorFlash {
        executor: executor(1),
        on: true,
    });
    body.resolve();
    assert_eq!(body.values().get(dimmer).copied(), Some(30_000));
    body.apply(TickCommand::SetExecutorFlash {
        executor: executor(1),
        on: false,
    });
    body.resolve();
    assert_eq!(body.values().get(dimmer).copied(), Some(0));
    assert!(!body.layer().source(executor(1)).unwrap().is_active());
}

/// The playback order of a sequence's cues: by decimal cue number, stably,
/// with a number that does not parse after every one that does.
fn playback_order(sequence: &Sequence) -> Vec<usize> {
    fn compare(left: &str, right: &str) -> std::cmp::Ordering {
        match (left.trim().parse::<f64>(), right.trim().parse::<f64>()) {
            (Ok(l), Ok(r)) => l.total_cmp(&r),
            (Ok(_), Err(_)) => std::cmp::Ordering::Less,
            (Err(_), Ok(_)) => std::cmp::Ordering::Greater,
            (Err(_), Err(_)) => left.cmp(right),
        }
    }
    let mut order: Vec<usize> = (0..sequence.cues.len()).collect();
    order.sort_by(|&l, &r| compare(&sequence.cues[l].number, &sequence.cues[r].number));
    order
}

fn load(body: &mut MergeBody, playback: PlaybackId, sequence: &Sequence) -> Result<(), CueError> {
    body.load_sequence(playback, sequence, &playback_order(sequence))
}
