use prismdmx::cue::{CueError, GoDirection, SequencePlan};
use prismdmx::fixture::{AttributeDef, AttributeType, FeatureGroup, FixtureType};
use prismdmx::ids::{ExecutorId, FixtureId, PlaybackId, SequenceId, SPEED_UNITY};
use prismdmx::plan::MergePlan;
use prismdmx::playback::{MergeScratch, PlaybackLayer};
use prismdmx::player::{begin, release, triggers, Change, CueLayer, CuePlayer, Entry, TAP_WINDOW};
use prismdmx::sequence::{Cue, CuePart, CueTracking, CueTrigger, Sequence};

fn moving_head() -> FixtureType {
    let def = |attribute: AttributeType, default_value: u16, coarse_offset: u16, group| AttributeDef {
        attribute,
        coarse_offset,
        fine_offset: None,
        default_value,
        merge_mode: attribute.default_merge_mode(),
        feature_group: group,
        invert: false,
    };
    FixtureType {
        id: "test.movinghead".to_owned(),
        footprint: 2,
        attributes: vec![
            def(AttributeType::Dimmer, 0, 0, FeatureGroup::Dimmer),
            def(AttributeType::Pan, 32_768, 1, FeatureGroup::Position),
        ],
    }
}

/// Seconds to ticks at 44 Hz, rounded.
fn ticks(seconds: f64) -> u64 {
    if seconds.is_nan() || seconds <= 0.0 {
        return 0;
    }
    (seconds * 44.0).round() as u64
}

fn cue_part(fixture: u32, attribute: AttributeType, value: u16) -> CuePart {
    CuePart {
        fixture: FixtureId::new(fixture),
        attribute,
        value,
        preset_ref: None,
        tracking: CueTracking::Track,
    }
}

fn cue(number: &str, fade: f64, parts: Vec<CuePart>) -> Cue {
    Cue {
        number: number.to_owned(),
        name: String::new(),
        fade_in: ticks(fade),
        fade_out: ticks(fade),
        delay: 0,
        trigger: CueTrigger::Go,
        trigger_time: None,
        parts,
    }
}

fn sequence(cues: Vec<Cue>, looping: bool) -> Sequence {
    Sequence {
        id: SequenceId::new(1),
        name: "Test".to_owned(),
        color: None,
        cues,
        looping,
        master_level: u16::MAX,
        speed: SPEED_UNITY,
        is_active: false,
        current_cue_index: None,
    }
}

/// Three moving heads: six slots, alternating HTP dimmer and LTP pan.
fn plan() -> MergePlan {
    let head = moving_head();
    let entries: Vec<(FixtureId, &FixtureType, bool)> =
        (1..=3).map(|id| (FixtureId::new(id), &head, false)).collect();
    MergePlan::build(&entries).unwrap()
}

fn slot(plan: &MergePlan, fixture: u32, attribute: AttributeType) -> usize {
    plan.index_of(FixtureId::new(fixture), attribute).unwrap()
}

fn executor(number: u32) -> PlaybackId {
    ExecutorId::new(number).into()
}

struct Rig {
    plan: MergePlan,
    layer: PlaybackLayer,
    cues: CueLayer,
}

impl Rig {
    fn new(executors: u32) -> Self {
        let plan = plan();
        let ids: Vec<PlaybackId> = (1..=executors).map(executor).collect();
        let layer = PlaybackLayer::new(&plan, &ids).unwrap();
        let cues = CueLayer::for_layer(&layer);
        Self { plan, layer, cues }
    }

    fn load(&mut self, number: u32, sequence: &Sequence) {
        let compiled = compile(&self.plan, sequence).unwrap();
        self.cues.player_mut(executor(number)).unwrap().load(compiled);
    }

    fn go(&mut self, number: u32, direction: GoDirection) -> bool {
        self.cues.player_mut(executor(number)).unwrap().go(direction)
    }

    fn tick(&mut self, index: u64) {
        self.cues.advance(index, &mut self.layer);
    }

    fn run(&mut self, from: u64, to: u64) {
        for index in from..=to {
            self.tick(index);
        }
    }

    fn values(&self) -> Vec<u16> {
        let mut scratch = MergeScratch::new(&self.plan);
        let mut out = vec![0u16; self.plan.slot_count()];
        self.layer.resolve(&self.plan, &mut scratch, &mut out);
        out
    }

    fn value(&self, fixture: u32, attribute: AttributeType) -> u16 {
        self.values()[slot(&self.plan, fixture, attribute)]
    }

    fn player(&mut self, number: u32) -> &mut CuePlayer {
        self.cues.player_mut(executor(number)).unwrap()
    }

    fn off(&mut self, number: u32) -> bool {
        self.player(number).off()
    }

    fn current(&self, number: u32) -> Option<usize> {
        self.cues.player(executor(number)).unwrap().current_cue()
    }

    fn activation(&self, number: u32) -> Option<u64> {
        self.layer.source(executor(number))?.activation()
    }
}

fn dimmer_cue(number: &str, value: u16, fade: f64) -> Cue {
    cue(number, fade, vec![cue_part(1, AttributeType::Dimmer, value)])
}

#[test]
fn a_playback_with_no_sequence_does_not_touch_its_source() {
    let mut rig = Rig::new(2);
    let dimmer = slot(&rig.plan, 1, AttributeType::Dimmer);
    rig.layer
        .source_mut(executor(1))
        .unwrap()
        .set(dimmer, 40_000);
    rig.layer.activate(executor(1));
    rig.run(0, 10);
    assert_eq!(rig.value(1, AttributeType::Dimmer), 40_000);
    assert!(!rig.cues.player(executor(1)).unwrap().is_loaded());
}

#[test]
fn a_goto_on_a_playback_with_no_sequence_does_nothing() {
    let mut rig = Rig::new(1);
    assert!(!rig.player(1).goto(0));
}

#[test]
fn an_executor_the_layer_does_not_have_has_no_player() {
    let mut rig = Rig::new(2);
    assert_eq!(rig.cues.player_count(), 2);
    assert!(rig.cues.player(executor(9)).is_none());
    assert!(rig.cues.player_mut(executor(9)).is_none());
}

#[test]
fn a_player_with_no_sequence_answers_no_to_everything() {
    let mut rig = Rig::new(1);
    let player = rig.cues.player_mut(executor(1)).unwrap();
    assert!(!player.go(GoDirection::Next));
    assert!(!player.on());
    assert!(!player.off());
    assert!(player.sequence().is_none());
    assert_eq!(player.current_cue(), None);
    assert_eq!(player.provides(0), None);
}

#[test]
fn an_impossible_cue_index_or_a_short_buffer_degrades_instead_of_panicking() {
    let plan = compile(
        &plan(),
        &sequence(
            vec![cue("1", 0.0, vec![cue_part(1, AttributeType::Dimmer, 500)])],
            false,
        ),
    )
    .unwrap();
    let mut entries = vec![Entry::default(); plan.slot_count()];
    assert_eq!(begin(&plan, &mut entries, 99), 0);
    release(&plan, &mut entries, 99);
    assert!(!triggers(&plan, 99, 0, u64::MAX));
    assert!(!triggers(&plan, 0, 99, u64::MAX));

    let mut short: Vec<Entry> = Vec::new();
    assert_eq!(begin(&plan, &mut short, 0), 0);
    assert!(short.is_empty());
}

#[test]
fn a_player_with_no_sequence_advances_to_nothing_and_writes_nothing() {
    let plan = plan();
    let mut layer = PlaybackLayer::new(&plan, &[executor(1)]).unwrap();
    let mut cues = CueLayer::for_layer(&layer);
    let player = cues.player_mut(executor(1)).unwrap();
    assert_eq!(player.advance(7), Change::Unchanged);

    let source = layer.source_mut(executor(1)).unwrap();
    source.set(0, 1_234);
    player.write(source);
    assert!(source.is_empty());
}

#[test]
fn two_playbacks_run_their_own_cue_lists_at_the_same_time() {
    let mut rig = Rig::new(2);
    rig.load(1, &sequence(vec![dimmer_cue("1", 65_535, 10.0)], false));
    rig.load(
        2,
        &sequence(
            vec![cue("1", 10.0, vec![cue_part(2, AttributeType::Pan, 65_535)])],
            false,
        ),
    );
    rig.go(1, GoDirection::Next);
    rig.go(2, GoDirection::Next);
    rig.run(0, 220);
    assert_eq!(rig.value(1, AttributeType::Dimmer), 32_767);
    assert_eq!(rig.value(2, AttributeType::Pan), 49_151);
}

#[test]
fn a_go_steps_round_the_list_and_off_stops_it() {
    let mut rig = Rig::new(1);
    rig.load(
        1,
        &sequence(
            vec![dimmer_cue("1", 10_000, 0.0), dimmer_cue("2", 20_000, 0.0)],
            false,
        ),
    );
    assert!(rig.go(1, GoDirection::Next));
    rig.tick(0);
    assert_eq!(rig.value(1, AttributeType::Dimmer), 10_000);
    assert!(rig.go(1, GoDirection::Next));
    rig.tick(1);
    assert_eq!(rig.value(1, AttributeType::Dimmer), 20_000);
    assert!(rig.go(1, GoDirection::Next));
    rig.tick(2);
    assert_eq!(rig.player(1).current_cue(), Some(0));
    assert_eq!(rig.value(1, AttributeType::Dimmer), 10_000);
    assert!(rig.player(1).off());
    assert_eq!(rig.player(1).current_cue(), None);
}

#[test]
fn a_goto_lands_where_a_go_to_the_same_cue_lands() {
    let cues = vec![dimmer_cue("1", 10_000, 1.0), dimmer_cue("2", 20_000, 1.0)];
    let mut walked = Rig::new(1);
    walked.load(1, &sequence(cues.clone(), false));
    let mut jumped = Rig::new(1);
    jumped.load(1, &sequence(cues, false));
    assert!(walked.go(1, GoDirection::Next));
    assert!(jumped.player(1).goto(0));
    walked.run(0, 50);
    jumped.run(0, 50);
    assert_eq!(walked.player(1).current_cue(), jumped.player(1).current_cue());
    assert_eq!(walked.values(), jumped.values());
    assert_eq!(walked.value(1, AttributeType::Dimmer), 10_000);
}

#[test]
fn more_playbacks_than_the_merge_can_hold_are_refused() {
    let plan = plan();
    let ids: Vec<PlaybackId> = (0..=1024u32).map(executor).collect();
    assert_eq!(
        PlaybackLayer::new(&plan, &ids).err(),
        Some(prismdmx::plan::MergeError::TooManySources(1025))
    );
    let twice: Vec<PlaybackId> = vec![executor(1), executor(1)];
    assert_eq!(PlaybackLayer::new(&plan, &twice).unwrap().source_count(), 1);
}

#[test]
fn releasing_a_flash_restores_the_master_including_one_moved_while_it_was_held() {
    let mut rig = Rig::new(1);
    assert!(rig.layer.set_master(executor(1), 10_000));
    assert!(rig.layer.set_flash(executor(1), Some(u16::MAX)));
    assert_eq!(rig.layer.source(executor(1)).unwrap().effective_master(), u16::MAX);
    assert!(rig.layer.set_master(executor(1), 20_000));
    assert_eq!(rig.layer.source(executor(1)).unwrap().effective_master(), u16::MAX);
    assert!(rig.layer.set_flash(executor(1), None));
    let source = rig.layer.source(executor(1)).unwrap();
    assert_eq!(source.master(), 20_000);
    assert_eq!(source.flash(), None);
    assert_eq!(source.effective_master(), 20_000);
}

#[test]
fn a_go_starts_the_first_cue_and_puts_the_playback_into_the_ltp_order() {
    let mut rig = Rig::new(2);
    rig.load(1, &sequence(vec![dimmer_cue("1", 40_000, 0.0)], false));
    assert_eq!(rig.activation(1), None);
    assert!(rig.go(1, GoDirection::Next));
    rig.tick(0);
    assert_eq!(rig.current(1), Some(0));
    assert_eq!(rig.activation(1), Some(0));
    assert_eq!(rig.value(1, AttributeType::Dimmer), 40_000);
}

#[test]
fn a_goto_enters_the_cue_it_names_and_ignores_one_that_is_not_there() {
    let mut rig = Rig::new(1);
    rig.load(
        1,
        &sequence(
            vec![
                dimmer_cue("1", 10_000, 0.0),
                dimmer_cue("2", 20_000, 0.0),
                dimmer_cue("3", 30_000, 0.0),
            ],
            false,
        ),
    );

    assert!(rig.player(1).goto(2), "cue 3 is in the list");
    rig.run(0, 2);
    assert_eq!(rig.current(1), Some(2));
    assert_eq!(rig.value(1, AttributeType::Dimmer), 30_000);
    assert_eq!(rig.activation(1), Some(0));

    assert!(!rig.player(1).goto(3));
    rig.run(3, 4);
    assert_eq!(rig.current(1), Some(2));
    assert_eq!(rig.value(1, AttributeType::Dimmer), 30_000);
}

#[test]
fn a_goto_backwards_enters_the_cue_rather_than_stepping_to_it() {
    let mut rig = Rig::new(1);
    rig.load(
        1,
        &sequence(
            vec![
                dimmer_cue("1", 10_000, 0.0),
                dimmer_cue("2", 20_000, 0.0),
                dimmer_cue("3", 30_000, 0.0),
            ],
            false,
        ),
    );
    rig.go(1, GoDirection::Next);
    rig.run(0, 1);
    rig.go(1, GoDirection::Next);
    rig.run(2, 3);
    assert_eq!(rig.current(1), Some(1));

    assert!(rig.player(1).goto(0));
    rig.run(4, 5);
    assert_eq!(rig.current(1), Some(0));
    assert_eq!(rig.value(1, AttributeType::Dimmer), 10_000);
}

#[test]
fn a_sequence_playback_merges_beside_an_executor() {
    let plan = plan();
    let seven = PlaybackId::of_sequence(SequenceId::new(7));
    let layer = PlaybackLayer::new(
        &plan,
        &[PlaybackId::of_executor(ExecutorId::new(1)), seven],
    )
    .unwrap();
    let mut rig = Rig {
        cues: CueLayer::for_layer(&layer),
        plan,
        layer,
    };
    let compiled = compile(
        &rig.plan,
        &sequence(vec![dimmer_cue("1", 40_000, 0.0)], false),
    )
    .unwrap();
    rig.cues.player_mut(seven).unwrap().load(compiled);
    rig.cues.player_mut(seven).unwrap().go(GoDirection::Next);

    rig.run(0, 2);

    assert_eq!(rig.value(1, AttributeType::Dimmer), 40_000);
    assert_eq!(
        rig.layer.source(seven).and_then(|source| source.activation()),
        Some(0),
        "the sequence playback never went active"
    );
}

#[test]
fn a_ten_second_fade_stands_at_exactly_half_after_five_seconds() {
    let mut rig = Rig::new(1);
    rig.load(1, &sequence(vec![dimmer_cue("1", 65_535, 10.0)], false));
    rig.go(1, GoDirection::Next);

    rig.run(0, 219);
    assert_eq!(rig.value(1, AttributeType::Dimmer), 32_618);
    rig.tick(220);
    assert_eq!(rig.value(1, AttributeType::Dimmer), 32_767);
    rig.tick(221);
    assert_eq!(rig.value(1, AttributeType::Dimmer), 32_916);
    rig.run(222, 440);
    assert_eq!(rig.value(1, AttributeType::Dimmer), 65_535);
    rig.tick(441);
    assert_eq!(rig.value(1, AttributeType::Dimmer), 65_535);
}

#[test]
fn a_fade_moves_every_single_tick_so_nothing_steps_visibly() {
    let mut rig = Rig::new(1);
    rig.load(1, &sequence(vec![dimmer_cue("1", 65_535, 10.0)], false));
    rig.go(1, GoDirection::Next);
    let mut previous = 0u16;
    for index in 0..=440 {
        rig.tick(index);
        let value = rig.value(1, AttributeType::Dimmer);
        if index > 0 {
            assert!(value > previous, "tick {index} did not move: {value}");
            assert!(value - previous <= 150, "tick {index} jumped: {value}");
        }
        previous = value;
    }
}

#[test]
fn a_delay_holds_the_previous_look_and_then_fades_on_time() {
    let mut rig = Rig::new(1);
    let mut delayed = dimmer_cue("1", 65_535, 1.0);
    delayed.delay = ticks(2.0);
    rig.load(1, &sequence(vec![delayed], false));
    rig.go(1, GoDirection::Next);

    rig.run(0, 87);
    assert_eq!(rig.value(1, AttributeType::Dimmer), 0);
    rig.run(88, 110);
    assert_eq!(rig.value(1, AttributeType::Dimmer), 32_767);
    rig.run(111, 132);
    assert_eq!(rig.value(1, AttributeType::Dimmer), 65_535);
}

#[test]
fn a_go_during_a_running_fade_carries_on_from_where_the_fade_had_reached() {
    let mut rig = Rig::new(1);
    rig.load(
        1,
        &sequence(
            vec![dimmer_cue("1", 65_535, 10.0), dimmer_cue("2", 0, 5.0)],
            false,
        ),
    );
    rig.go(1, GoDirection::Next);
    rig.run(0, 220);
    assert_eq!(rig.value(1, AttributeType::Dimmer), 32_767);

    rig.go(1, GoDirection::Next);
    rig.tick(220);
    assert_eq!(rig.value(1, AttributeType::Dimmer), 32_767);
    assert_eq!(rig.current(1), Some(1));
    rig.run(221, 330);
    assert_eq!(rig.value(1, AttributeType::Dimmer), 16_384);
    rig.run(331, 440);
    assert_eq!(rig.value(1, AttributeType::Dimmer), 0);
}

#[test]
fn a_cue_that_does_not_mention_an_attribute_leaves_it_where_it_was() {
    let mut rig = Rig::new(1);
    rig.load(
        1,
        &sequence(
            vec![
                cue(
                    "1",
                    0.0,
                    vec![
                        cue_part(1, AttributeType::Dimmer, 65_535),
                        cue_part(1, AttributeType::Pan, 45_000),
                    ],
                ),
                dimmer_cue("2", 20_000, 0.0),
            ],
            false,
        ),
    );
    rig.go(1, GoDirection::Next);
    rig.tick(0);
    assert_eq!(rig.value(1, AttributeType::Pan), 45_000);

    rig.go(1, GoDirection::Next);
    rig.tick(1);
    assert_eq!(rig.value(1, AttributeType::Dimmer), 20_000);
    assert_eq!(rig.value(1, AttributeType::Pan), 45_000);
}

#[test]
fn switching_a_playback_off_fades_the_light_out_and_leaves_the_head_still() {
    let mut rig = Rig::new(1);
    let mut look = cue(
        "1",
        0.0,
        vec![
            cue_part(1, AttributeType::Dimmer, 65_535),
            cue_part(1, AttributeType::Pan, 45_000),
        ],
    );
    look.fade_out = ticks(2.0);
    rig.load(1, &sequence(vec![look], false));
    rig.go(1, GoDirection::Next);
    rig.tick(0);

    assert!(rig.off(1));
    rig.tick(1);
    assert_eq!(rig.current(1), None);
    assert_eq!(rig.value(1, AttributeType::Dimmer), 65_535);

    rig.run(2, 45);
    assert_eq!(rig.value(1, AttributeType::Dimmer), 32_768);
    assert_eq!(rig.value(1, AttributeType::Pan), 45_000);

    rig.run(46, 89);
    assert_eq!(rig.value(1, AttributeType::Dimmer), 0);
    assert_eq!(rig.value(1, AttributeType::Pan), 32_768);
    assert_eq!(rig.activation(1), None);
}

#[test]
fn a_playback_with_no_fade_out_time_releases_in_the_tick_it_is_switched_off() {
    let mut rig = Rig::new(1);
    rig.load(1, &sequence(vec![dimmer_cue("1", 65_535, 0.0)], false));
    rig.go(1, GoDirection::Next);
    rig.tick(0);
    assert_eq!(rig.value(1, AttributeType::Dimmer), 65_535);
    rig.off(1);
    rig.tick(1);
    assert_eq!(rig.value(1, AttributeType::Dimmer), 0);
    assert_eq!(rig.activation(1), None);
}

#[test]
fn switching_off_a_playback_that_is_not_running_changes_nothing() {
    let mut rig = Rig::new(1);
    rig.load(1, &sequence(vec![dimmer_cue("1", 1, 0.0)], false));
    assert!(!rig.off(1));
    rig.tick(0);
    assert_eq!(rig.activation(1), None);
}

#[test]
fn a_playback_switched_on_starts_its_sequence_and_switching_it_on_again_does_not() {
    let mut rig = Rig::new(1);
    rig.load(
        1,
        &sequence(
            vec![dimmer_cue("1", 10_000, 0.0), dimmer_cue("2", 20_000, 0.0)],
            false,
        ),
    );
    assert!(rig.player(1).on());
    rig.tick(0);
    assert_eq!(rig.current(1), Some(0));

    rig.go(1, GoDirection::Next);
    rig.tick(1);
    assert_eq!(rig.current(1), Some(1));

    assert!(!rig.player(1).on());
    rig.tick(2);
    assert_eq!(rig.current(1), Some(1));
    assert_eq!(rig.value(1, AttributeType::Dimmer), 20_000);
}

#[test]
fn a_go_on_a_running_playback_does_not_move_it_in_the_ltp_order() {
    let mut rig = Rig::new(2);
    rig.load(
        1,
        &sequence(
            vec![
                cue("1", 0.0, vec![cue_part(1, AttributeType::Pan, 10_000)]),
                cue("2", 0.0, vec![cue_part(1, AttributeType::Pan, 20_000)]),
            ],
            false,
        ),
    );
    rig.go(1, GoDirection::Next);
    rig.tick(0);
    let first = rig.activation(1);

    let pan = slot(&rig.plan, 1, AttributeType::Pan);
    rig.layer.source_mut(executor(2)).unwrap().set(pan, 50_000);
    rig.layer.activate(executor(2));
    rig.tick(1);
    assert_eq!(rig.value(1, AttributeType::Pan), 50_000);

    rig.go(1, GoDirection::Next);
    rig.tick(2);
    assert_eq!(rig.current(1), Some(1));
    assert_eq!(rig.activation(1), first);
    assert_eq!(rig.value(1, AttributeType::Pan), 50_000);
}

#[test]
fn a_playback_that_was_released_and_started_again_goes_to_the_top_of_the_order() {
    let mut rig = Rig::new(2);
    rig.load(1, &sequence(vec![dimmer_cue("1", 30_000, 0.0)], false));
    rig.go(1, GoDirection::Next);
    rig.tick(0);
    let first = rig.activation(1).unwrap();
    rig.layer.activate(executor(2));
    let second = rig.activation(2).unwrap();
    assert!(second > first);

    rig.off(1);
    rig.tick(1);
    assert_eq!(rig.activation(1), None);
    rig.go(1, GoDirection::Next);
    rig.tick(2);
    assert!(rig.activation(1).unwrap() > second);
}

#[test]
fn stepping_back_returns_to_the_previous_cue() {
    let mut rig = Rig::new(1);
    rig.load(
        1,
        &sequence(
            vec![dimmer_cue("1", 10_000, 0.0), dimmer_cue("2", 20_000, 0.0)],
            false,
        ),
    );
    rig.go(1, GoDirection::Next);
    rig.go(1, GoDirection::Next);
    rig.tick(0);
    assert_eq!(rig.current(1), Some(1));
    rig.go(1, GoDirection::Prev);
    rig.tick(1);
    assert_eq!(rig.current(1), Some(0));
    assert_eq!(rig.value(1, AttributeType::Dimmer), 10_000);
}

#[test]
fn two_gos_inside_one_tick_advance_two_cues() {
    let mut rig = Rig::new(1);
    rig.load(
        1,
        &sequence(
            vec![
                dimmer_cue("1", 10_000, 0.0),
                dimmer_cue("2", 20_000, 0.0),
                dimmer_cue("3", 30_000, 0.0),
            ],
            false,
        ),
    );
    rig.go(1, GoDirection::Next);
    rig.go(1, GoDirection::Next);
    rig.tick(0);
    assert_eq!(rig.current(1), Some(1));
    assert_eq!(rig.value(1, AttributeType::Dimmer), 20_000);
}

#[test]
fn a_follow_cue_starts_when_the_cue_before_it_has_finished_fading() {
    let mut rig = Rig::new(1);
    let mut follower = dimmer_cue("2", 40_000, 0.0);
    follower.trigger = CueTrigger::Follow;
    rig.load(
        1,
        &sequence(vec![dimmer_cue("1", 10_000, 1.0), follower], false),
    );
    rig.go(1, GoDirection::Next);

    rig.run(0, 43);
    assert_eq!(rig.current(1), Some(0));
    rig.tick(44);
    assert_eq!(rig.current(1), Some(1));
    assert_eq!(rig.value(1, AttributeType::Dimmer), 10_000);
    rig.tick(45);
    assert_eq!(rig.value(1, AttributeType::Dimmer), 40_000);
}

#[test]
fn a_follow_waits_for_the_delay_as_well_as_the_fade() {
    let mut rig = Rig::new(1);
    let mut first = dimmer_cue("1", 10_000, 1.0);
    first.delay = ticks(1.0);
    let mut follower = dimmer_cue("2", 40_000, 0.0);
    follower.trigger = CueTrigger::Follow;
    rig.load(1, &sequence(vec![first, follower], false));
    rig.go(1, GoDirection::Next);
    rig.run(0, 87);
    assert_eq!(rig.current(1), Some(0));
    rig.tick(88);
    assert_eq!(rig.current(1), Some(1));
}

#[test]
fn a_timed_cue_starts_that_long_after_the_cue_before_it_started() {
    let mut rig = Rig::new(1);
    let mut timed = dimmer_cue("2", 40_000, 0.0);
    timed.trigger = CueTrigger::Time;
    timed.trigger_time = Some(ticks(2.0));
    rig.load(
        1,
        &sequence(vec![dimmer_cue("1", 10_000, 0.0), timed], false),
    );
    rig.go(1, GoDirection::Next);
    rig.run(0, 87);
    assert_eq!(rig.current(1), Some(0));
    rig.tick(88);
    assert_eq!(rig.current(1), Some(1));
}

#[test]
fn a_timed_cue_with_no_time_and_a_sound_cue_both_wait_for_a_go() {
    for trigger in [CueTrigger::Time, CueTrigger::Sound] {
        let mut rig = Rig::new(1);
        let mut waiting = dimmer_cue("2", 40_000, 0.0);
        waiting.trigger = trigger;
        waiting.trigger_time = None;
        rig.load(
            1,
            &sequence(vec![dimmer_cue("1", 10_000, 0.0), waiting], false),
        );
        rig.go(1, GoDirection::Next);
        rig.run(0, 500);
        assert_eq!(rig.current(1), Some(0), "{trigger:?}");
        rig.go(1, GoDirection::Next);
        rig.tick(501);
        assert_eq!(rig.current(1), Some(1), "{trigger:?}");
    }
}

#[test]
fn a_chain_of_instant_follows_advances_by_one_cue_per_tick() {
    let mut rig = Rig::new(1);
    let cues = (1..=4u16)
        .map(|number| {
            let mut cue = dimmer_cue(&number.to_string(), number * 1_000, 0.0);
            cue.trigger = CueTrigger::Follow;
            cue
        })
        .collect();
    rig.load(1, &sequence(cues, false));
    rig.go(1, GoDirection::Next);
    for index in 0..4u64 {
        rig.tick(index);
        assert_eq!(
            rig.value(1, AttributeType::Dimmer),
            (index as u16 + 1) * 1_000
        );
    }
    rig.run(4, 10);
    assert_eq!(rig.current(1), Some(3));
    assert_eq!(rig.value(1, AttributeType::Dimmer), 4_000);
}

#[test]
fn a_looping_sequence_of_follows_comes_back_round_to_the_first_cue() {
    let mut rig = Rig::new(1);
    let cues = (1..=3u16)
        .map(|number| {
            let mut cue = dimmer_cue(&number.to_string(), number * 1_000, 0.0);
            cue.trigger = CueTrigger::Follow;
            cue
        })
        .collect();
    rig.load(1, &sequence(cues, true));
    rig.go(1, GoDirection::Next);
    for index in 0..9u64 {
        rig.tick(index);
        let expected = (index % 3) as u16 * 1_000 + 1_000;
        assert_eq!(rig.value(1, AttributeType::Dimmer), expected, "tick {index}");
    }
}

#[test]
fn a_player_over_a_sequence_with_no_cues_has_nothing_to_do() {
    let mut rig = Rig::new(1);
    rig.load(1, &sequence(Vec::new(), false));
    assert!(!rig.go(1, GoDirection::Next));
    rig.run(0, 5);
    assert_eq!(rig.current(1), None);
    assert_eq!(rig.activation(1), None);
    assert_eq!(rig.values(), [0, 32_768, 0, 32_768, 0, 32_768]);
}

#[test]
fn a_running_cue_that_provides_nothing_still_holds_the_playback_active() {
    let mut rig = Rig::new(1);
    rig.load(1, &sequence(vec![cue("1", 0.0, Vec::new())], false));
    rig.go(1, GoDirection::Next);
    rig.tick(0);
    assert_eq!(rig.activation(1), Some(0));
    assert_eq!(rig.values(), [0, 32_768, 0, 32_768, 0, 32_768]);
}

#[test]
fn loading_a_new_sequence_replaces_what_the_playback_was_holding() {
    let mut rig = Rig::new(1);
    rig.load(1, &sequence(vec![dimmer_cue("1", 50_000, 0.0)], false));
    rig.go(1, GoDirection::Next);
    rig.tick(0);
    assert_eq!(rig.value(1, AttributeType::Dimmer), 50_000);

    rig.load(
        1,
        &sequence(
            vec![cue("1", 0.0, vec![cue_part(2, AttributeType::Pan, 1_000)])],
            false,
        ),
    );
    rig.tick(1);
    assert_eq!(rig.current(1), None);
    assert_eq!(rig.value(1, AttributeType::Dimmer), 0);
    assert_eq!(rig.activation(1), None);
    rig.go(1, GoDirection::Next);
    rig.tick(2);
    assert_eq!(rig.value(2, AttributeType::Pan), 1_000);
}

#[test]
fn unloading_a_sequence_takes_its_playback_out_of_the_merge() {
    let mut rig = Rig::new(1);
    rig.load(1, &sequence(vec![dimmer_cue("1", 50_000, 0.0)], false));
    rig.go(1, GoDirection::Next);
    rig.tick(0);
    assert_eq!(rig.value(1, AttributeType::Dimmer), 50_000);

    rig.player(1).unload();
    rig.tick(1);
    assert!(!rig.cues.player(executor(1)).unwrap().is_loaded());
    assert_eq!(rig.value(1, AttributeType::Dimmer), 0);
    assert_eq!(rig.activation(1), None);
    let dimmer = slot(&rig.plan, 1, AttributeType::Dimmer);
    rig.layer.source_mut(executor(1)).unwrap().set(dimmer, 12_345);
    rig.layer.activate(executor(1));
    rig.tick(2);
    assert_eq!(rig.value(1, AttributeType::Dimmer), 12_345);
    rig.player(1).unload();
    rig.tick(3);
    assert_eq!(rig.value(1, AttributeType::Dimmer), 12_345);
}

#[test]
fn a_player_reports_the_value_it_is_holding_for_a_slot() {
    let mut rig = Rig::new(1);
    rig.load(1, &sequence(vec![dimmer_cue("1", 50_000, 10.0)], false));
    let dimmer = slot(&rig.plan, 1, AttributeType::Dimmer);
    let pan = slot(&rig.plan, 1, AttributeType::Pan);
    let player = rig.cues.player(executor(1)).unwrap();
    assert_eq!(player.provides(dimmer), None);
    rig.go(1, GoDirection::Next);
    rig.run(0, 220);
    let player = rig.cues.player(executor(1)).unwrap();
    assert_eq!(player.provides(dimmer), Some(25_000));
    assert_eq!(player.provides(pan), None);
    assert_eq!(player.provides(usize::MAX), None);
    assert_eq!(player.playback(), ExecutorId::new(1).into());
    assert!(player.sequence().is_some());
}

#[test]
fn a_release_leaves_the_attributes_the_playback_was_not_holding_alone() {
    let mut rig = Rig::new(1);
    let mut first = dimmer_cue("1", 65_535, 0.0);
    first.fade_out = ticks(1.0);
    rig.load(
        1,
        &sequence(
            vec![
                first,
                cue("2", 0.0, vec![cue_part(1, AttributeType::Pan, 60_000)]),
            ],
            false,
        ),
    );
    let pan = slot(&rig.plan, 1, AttributeType::Pan);
    rig.go(1, GoDirection::Next);
    rig.tick(0);
    assert_eq!(rig.cues.player(executor(1)).unwrap().provides(pan), None);

    rig.off(1);
    rig.run(1, 23);
    assert_eq!(rig.value(1, AttributeType::Dimmer), 32_768);
    assert_eq!(rig.cues.player(executor(1)).unwrap().provides(pan), None);
    assert_eq!(rig.value(1, AttributeType::Pan), 32_768);
}

#[test]
fn a_speed_master_stretches_a_fade_and_changes_nothing_else() {
    let mut unity = Rig::new(1);
    unity.load(1, &sequence(vec![dimmer_cue("1", 60_000, 2.0)], false));
    unity.go(1, GoDirection::Next);

    let mut halved = Rig::new(1);
    halved.load(1, &sequence(vec![dimmer_cue("1", 60_000, 2.0)], false));
    halved.player(1).set_speed(SPEED_UNITY / 2);
    halved.go(1, GoDirection::Next);

    let mut slow = Vec::new();
    for tick in 0..=200u64 {
        halved.tick(tick);
        slow.push(halved.value(1, AttributeType::Dimmer));
    }
    for tick in 0..=100usize {
        unity.tick(tick as u64);
        assert_eq!(
            slow[tick * 2],
            unity.value(1, AttributeType::Dimmer),
            "tick {tick}"
        );
    }
    assert_eq!(unity.value(1, AttributeType::Dimmer), 60_000);
    assert!(slow.iter().collect::<std::collections::BTreeSet<_>>().len() > 50);
}

#[test]
fn a_speed_of_zero_holds_a_fade_and_lets_it_go_on_afterwards() {
    let mut rig = Rig::new(1);
    rig.load(1, &sequence(vec![dimmer_cue("1", 65_535, 5.0)], false));
    rig.go(1, GoDirection::Next);
    rig.run(0, 110);
    let halfway = rig.value(1, AttributeType::Dimmer);
    assert!(
        (32_000..34_000).contains(&halfway),
        "expected about half, got {halfway}"
    );

    rig.player(1).set_speed(0);
    rig.run(111, 400);
    assert_eq!(rig.value(1, AttributeType::Dimmer), halfway, "a frozen playback moved");
    assert_eq!(rig.current(1), Some(0), "a frozen playback also stopped");

    rig.player(1).set_speed(SPEED_UNITY);
    rig.run(401, 520);
    assert_eq!(rig.value(1, AttributeType::Dimmer), 65_535);
}

#[test]
fn a_missed_tick_moves_the_fade_by_the_time_it_really_took() {
    let mut steady = Rig::new(1);
    steady.load(1, &sequence(vec![dimmer_cue("1", 65_535, 4.0)], false));
    steady.go(1, GoDirection::Next);
    steady.run(0, 88);

    let mut stalled = Rig::new(1);
    stalled.load(1, &sequence(vec![dimmer_cue("1", 65_535, 4.0)], false));
    stalled.go(1, GoDirection::Next);
    stalled.tick(0);
    stalled.tick(40);
    stalled.run(41, 88);

    assert_eq!(
        stalled.value(1, AttributeType::Dimmer),
        steady.value(1, AttributeType::Dimmer)
    );
}

#[test]
fn two_taps_set_the_rate_from_the_running_cues_own_transition() {
    let mut rig = Rig::new(1);
    rig.load(1, &sequence(vec![dimmer_cue("1", 65_535, 2.0)], false));
    rig.go(1, GoDirection::Next);
    rig.tick(0);
    assert_eq!(rig.player(1).speed(), SPEED_UNITY);

    rig.player(1).tap();
    rig.tick(1);
    rig.player(1).tap();
    rig.tick(45);
    assert_eq!(rig.player(1).speed(), SPEED_UNITY * 2);

    rig.player(1).tap();
    rig.tick(46);
    rig.player(1).tap();
    rig.tick(90);
    assert_eq!(rig.player(1).speed(), SPEED_UNITY * 2);
}

#[test]
fn a_single_tap_and_a_pair_too_far_apart_change_nothing() {
    let mut rig = Rig::new(1);
    rig.load(1, &sequence(vec![dimmer_cue("1", 65_535, 2.0)], false));
    rig.go(1, GoDirection::Next);
    rig.player(1).tap();
    rig.run(0, 10);
    assert_eq!(rig.player(1).speed(), SPEED_UNITY, "one tap set a rate");

    rig.player(1).tap();
    rig.tick(11 + TAP_WINDOW);
    assert_eq!(
        rig.player(1).speed(),
        SPEED_UNITY,
        "two taps a window apart set a rate"
    );
    rig.player(1).tap();
    rig.tick(11 + TAP_WINDOW + 44);
    assert_eq!(rig.player(1).speed(), SPEED_UNITY * 2);
}

#[test]
fn a_tap_against_a_snap_cue_leaves_the_rate_alone() {
    let mut rig = Rig::new(1);
    rig.load(1, &sequence(vec![dimmer_cue("1", 65_535, 0.0)], false));
    rig.go(1, GoDirection::Next);
    rig.player(1).tap();
    rig.tick(0);
    rig.player(1).tap();
    rig.tick(44);
    assert_eq!(rig.player(1).speed(), SPEED_UNITY);
}

#[test]
fn a_manual_crossfade_is_driven_by_the_fader_and_not_by_the_clock() {
    let mut rig = Rig::new(1);
    rig.load(
        1,
        &sequence(
            vec![dimmer_cue("1", 0, 0.0), dimmer_cue("2", 65_535, 10.0)],
            false,
        ),
    );
    rig.player(1).set_crossfade(0);
    rig.go(1, GoDirection::Next);
    rig.run(0, 5);
    assert_eq!(rig.value(1, AttributeType::Dimmer), 0);

    rig.go(1, GoDirection::Next);
    rig.tick(6);
    assert_eq!(rig.value(1, AttributeType::Dimmer), 0, "a Go moved it alone");

    rig.player(1).set_crossfade(32_768);
    rig.tick(7);
    let half = rig.value(1, AttributeType::Dimmer);
    assert!(
        (32_000..34_000).contains(&half),
        "half a fader is half a fade, got {half}"
    );

    rig.player(1).set_crossfade(0);
    rig.tick(8);
    assert_eq!(rig.value(1, AttributeType::Dimmer), 0);

    rig.player(1).set_crossfade(65_535);
    rig.tick(9);
    assert_eq!(rig.value(1, AttributeType::Dimmer), 65_535);
}

#[test]
fn a_completed_crossfade_is_inert_until_the_next_go_re_bases_it() {
    let mut rig = Rig::new(1);
    rig.load(
        1,
        &sequence(
            vec![
                dimmer_cue("1", 0, 0.0),
                dimmer_cue("2", 65_535, 10.0),
                dimmer_cue("3", 20_000, 10.0),
            ],
            false,
        ),
    );
    rig.player(1).set_crossfade(0);
    rig.go(1, GoDirection::Next);
    rig.tick(0);
    rig.go(1, GoDirection::Next);
    rig.player(1).set_crossfade(65_535);
    rig.tick(1);
    assert_eq!(rig.value(1, AttributeType::Dimmer), 65_535);

    rig.player(1).set_crossfade(60_000);
    rig.tick(2);
    assert_eq!(rig.value(1, AttributeType::Dimmer), 65_535);

    rig.go(1, GoDirection::Next);
    rig.tick(3);
    assert_eq!(rig.value(1, AttributeType::Dimmer), 65_535);
    rig.player(1).set_crossfade(30_000);
    rig.tick(4);
    let part = rig.value(1, AttributeType::Dimmer);
    assert!(
        (40_000..60_000).contains(&part),
        "half a travel is half a fade, got {part}"
    );
    rig.player(1).set_crossfade(0);
    rig.tick(5);
    assert_eq!(rig.value(1, AttributeType::Dimmer), 20_000);
}

#[test]
fn clearing_the_crossfade_returns_the_transition_to_time() {
    let mut rig = Rig::new(1);
    rig.load(
        1,
        &sequence(
            vec![dimmer_cue("1", 0, 0.0), dimmer_cue("2", 65_535, 1.0)],
            false,
        ),
    );
    rig.player(1).set_crossfade(0);
    rig.go(1, GoDirection::Next);
    rig.tick(0);
    rig.go(1, GoDirection::Next);
    rig.run(1, 60);
    assert_eq!(
        rig.value(1, AttributeType::Dimmer),
        0,
        "time drove a manual crossfade"
    );
    assert_eq!(rig.player(1).crossfade(), Some(0));

    rig.player(1).clear_crossfade();
    assert_eq!(rig.player(1).crossfade(), None);
    rig.run(61, 120);
    assert_eq!(rig.value(1, AttributeType::Dimmer), 65_535);
}

#[test]
fn a_flash_starts_what_was_stopped_and_leaves_what_was_running() {
    let mut rig = Rig::new(2);
    rig.load(1, &sequence(vec![dimmer_cue("1", 65_535, 0.0)], false));
    rig.load(2, &sequence(vec![dimmer_cue("1", 65_535, 0.0)], false));

    assert!(rig.player(1).flash_on());
    rig.tick(0);
    assert_eq!(rig.current(1), Some(0));
    assert!(rig.player(1).is_flashed());
    assert!(rig.player(1).flash_off());
    rig.tick(1);
    assert_eq!(rig.current(1), None);

    rig.go(2, GoDirection::Next);
    rig.tick(2);
    assert!(!rig.player(2).flash_on());
    assert!(!rig.player(2).is_flashed());
    assert!(!rig.player(2).flash_off());
    rig.tick(3);
    assert_eq!(rig.current(2), Some(0), "a flash release stopped a playback");
}

#[test]
fn loading_a_sequence_keeps_the_executors_own_rate_and_fader() {
    let mut rig = Rig::new(1);
    rig.load(1, &sequence(vec![dimmer_cue("1", 65_535, 1.0)], false));
    rig.player(1).set_speed(SPEED_UNITY * 3);
    rig.player(1).set_crossfade(12_345);
    rig.load(1, &sequence(vec![dimmer_cue("1", 30_000, 1.0)], false));
    assert_eq!(rig.player(1).speed(), SPEED_UNITY * 3);
    assert_eq!(rig.player(1).crossfade(), Some(12_345));
}

/// The playback order of a sequence's cues: by decimal cue number, stably,
/// with a number that does not parse after every one that does.
fn playback_order(sequence: &Sequence) -> Vec<usize> {
    fn compare(left: &str, right: &str) -> std::cmp::Ordering {
        match (left.trim().parse::<f64>(), right.trim().parse::<f64>()) {
            (Ok(l), Ok(r)) => l.total_cmp(&r),
            (Ok(_), Err(_)) => std::cmp::Ordering::Less,
            (Err(_), Ok(_)) => std::cmp::Ordering::Greater,
            (Err(_), Err(_)) => left.cmp(right),
        }
    }
    let mut order: Vec<usize> = (0..sequence.cues.len()).collect();
    order.sort_by(|&l, &r| compare(&sequence.cues[l].number, &sequence.cues[r].number));
    order
}

fn compile(plan: &MergePlan, sequence: &Sequence) -> Result<SequencePlan, CueError> {
    SequencePlan::build(plan, sequence, &playback_order(sequence))
}
