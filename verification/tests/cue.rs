use prismdmx::cue::{interpolate, CueError, SequencePlan, MAX_CUES};
use prismdmx::fixture::{AttributeDef, AttributeType, FeatureGroup, FixtureType};
use prismdmx::ids::{FixtureId, PlaybackId, SequenceId, SPEED_UNITY};
use prismdmx::plan::MergePlan;
use prismdmx::sequence::{Cue, CuePart, CueTracking, CueTrigger, Sequence};

fn dimmer_only() -> FixtureType {
    FixtureType {
        id: "test.dimmer".to_owned(),
        footprint: 1,
        attributes: vec![AttributeDef {
            attribute: AttributeType::Dimmer,
            coarse_offset: 0,
            fine_offset: None,
            default_value: 0,
            merge_mode: AttributeType::Dimmer.default_merge_mode(),
            feature_group: FeatureGroup::Dimmer,
            invert: false,
        }],
    }
}

fn cue(number: &str, parts: Vec<CuePart>) -> Cue {
    Cue {
        number: number.to_owned(),
        name: String::new(),
        fade_in: 44,
        fade_out: 22,
        delay: 0,
        trigger: CueTrigger::Go,
        trigger_time: None,
        parts,
    }
}

fn sequence(cues: Vec<Cue>) -> Sequence {
    Sequence {
        id: SequenceId::new(7),
        name: "Test".to_owned(),
        color: None,
        cues,
        looping: false,
        master_level: u16::MAX,
        speed: SPEED_UNITY,
        is_active: false,
        current_cue_index: None,
    }
}

fn part(fixture: u32, value: u16) -> CuePart {
    CuePart {
        fixture: FixtureId::new(fixture),
        attribute: AttributeType::Dimmer,
        value,
        preset_ref: None,
        tracking: CueTracking::Track,
    }
}

#[test]
fn a_fade_starts_at_its_start_and_ends_at_its_target() {
    assert_eq!(interpolate(1_000, 3_000, 0, 44), 1_000);
    assert_eq!(interpolate(1_000, 3_000, 22, 44), 2_000);
    assert_eq!(interpolate(1_000, 3_000, 44, 44), 3_000);
    assert_eq!(interpolate(1_000, 3_000, 99, 44), 3_000);
    assert_eq!(interpolate(3_000, 1_000, 11, 44), 2_500);
    assert_eq!(interpolate(5, 9, 0, 0), 9, "a cut lands at once");
    assert_eq!(interpolate(1_000, 60_000, 0, 100), 1_000);
    assert_eq!(interpolate(1_000, 60_000, 100, 100), 60_000);
    assert_eq!(interpolate(1_000, 60_000, u64::MAX, 100), 60_000);
}

#[test]
fn a_fade_never_leaves_its_interval_and_only_moves_one_way() {
    let mut previous = 0u16;
    for elapsed in 0..=220u64 {
        let value = interpolate(0, 65_535, elapsed, 220);
        assert!(value >= previous);
        previous = value;
    }
    assert_eq!(previous, 65_535);
}

#[test]
fn a_refused_sequence_says_why_in_words() {
    assert_eq!(
        CueError::TooManyCues(10_001).message(),
        "10001 cues exceeds the limit of 10000"
    );
    assert_eq!(
        CueError::TooManyParts(1_048_577).message(),
        "1048577 cue parts exceeds the limit of 1048576"
    );
    let playback: PlaybackId = SequenceId::new(3).into();
    assert_eq!(
        CueError::UnknownPlayback(playback).message(),
        "sequence 3 is not in this patch"
    );
}

#[test]
fn a_sequence_compiles_to_its_patched_parts_and_counts_the_rest() {
    let head = dimmer_only();
    let plan = MergePlan::build(&[(FixtureId::new(1), &head, false)]).unwrap();
    let compiled = compile(
        &plan,
        &sequence(vec![
            cue("1", vec![part(1, 10_000), part(2, 99)]),
            cue("2", vec![part(1, 20_000)]),
        ]),
    )
    .unwrap();
    assert_eq!(compiled.cue_count(), 2);
    assert_eq!(compiled.unresolved(), 1, "fixture 2 is not patched");
    assert_eq!(compiled.slot_count(), 1);
    assert_eq!(compiled.tracked_value(0, 0), Some(10_000));
    assert_eq!(compiled.tracked_value(0, 1), Some(20_000));
    assert_eq!(compiled.step(None, prismdmx::cue::GoDirection::Next), Some(0));
    assert_eq!(compiled.step(Some(1), prismdmx::cue::GoDirection::Next), Some(0));
    assert_eq!(compiled.step(Some(0), prismdmx::cue::GoDirection::Prev), Some(1));
}

#[test]
fn a_sequence_with_too_many_cues_is_refused() {
    let head = dimmer_only();
    let plan = MergePlan::build(&[(FixtureId::new(1), &head, false)]).unwrap();
    let cues: Vec<Cue> = (0..=MAX_CUES).map(|n| cue(&n.to_string(), Vec::new())).collect();
    assert_eq!(
        compile(&plan, &sequence(cues)).err(),
        Some(CueError::TooManyCues(MAX_CUES + 1))
    );
}

/// The playback order of a sequence's cues: by decimal cue number, stably,
/// with a number that does not parse after every one that does.
fn playback_order(sequence: &Sequence) -> Vec<usize> {
    fn compare(left: &str, right: &str) -> std::cmp::Ordering {
        match (left.trim().parse::<f64>(), right.trim().parse::<f64>()) {
            (Ok(l), Ok(r)) => l.total_cmp(&r),
            (Ok(_), Err(_)) => std::cmp::Ordering::Less,
            (Err(_), Ok(_)) => std::cmp::Ordering::Greater,
            (Err(_), Err(_)) => left.cmp(right),
        }
    }
    let mut order: Vec<usize> = (0..sequence.cues.len()).collect();
    order.sort_by(|&l, &r| compare(&sequence.cues[l].number, &sequence.cues[r].number));
    order
}

fn compile(plan: &MergePlan, sequence: &Sequence) -> Result<SequencePlan, CueError> {
    SequencePlan::build(plan, sequence, &playback_order(sequence))
}
