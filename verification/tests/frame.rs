use prismdmx::frame::{DmxFrame, FrameLayout, LayoutError, MAX_UNIVERSES, UNIVERSE_CHANNELS};
use prismdmx::ids::UniverseId;

fn layout(ids: &[u32]) -> FrameLayout {
    let ids: Vec<UniverseId> = ids.iter().copied().map(UniverseId::new).collect();
    FrameLayout::new(&ids).unwrap()
}

#[test]
fn a_layout_needs_at_least_one_universe() {
    assert_eq!(FrameLayout::new(&[]).unwrap_err(), LayoutError::Empty);
}

#[test]
fn a_layout_rejects_a_universe_patched_twice() {
    let ids = [1, 7, 1].map(UniverseId::new);
    assert_eq!(
        FrameLayout::new(&ids).unwrap_err(),
        LayoutError::Duplicate(UniverseId::new(1))
    );
}

#[test]
fn a_layout_refuses_an_absurd_universe_count() {
    let ids: Vec<UniverseId> = (0..=MAX_UNIVERSES as u32).map(UniverseId::new).collect();
    assert_eq!(
        FrameLayout::new(&ids).unwrap_err(),
        LayoutError::TooMany(MAX_UNIVERSES + 1)
    );
}

#[test]
fn a_layout_maps_universe_numbers_to_frame_positions() {
    let layout = layout(&[3, 1, 9]);
    assert_eq!(layout.universe_count(), 3);
    assert_eq!(layout.channel_count(), 3 * UNIVERSE_CHANNELS);
    assert_eq!(layout.universes()[0], UniverseId::new(3));
    assert_eq!(layout.index_of(UniverseId::new(9)), Some(2));
    assert_eq!(layout.index_of(UniverseId::new(2)), None);
}

#[test]
fn a_new_frame_is_blacked_out() {
    let frame = DmxFrame::new(&layout(&[1, 2]));
    assert_eq!(frame.sequence(), 0);
    assert_eq!(frame.channels().len(), 2 * UNIVERSE_CHANNELS);
    assert!(frame.channels().iter().all(|&value| value == 0));
}

#[test]
fn channels_are_addressed_from_one() {
    let mut frame = DmxFrame::new(&layout(&[1, 2]));
    assert!(frame.set_channel(0, 1, 255));
    assert!(frame.set_channel(1, 512, 7));
    assert_eq!(frame.channel(0, 1), Some(255));
    assert_eq!(frame.channel(1, 512), Some(7));
    assert_eq!(frame.channels()[0], 255);
    assert_eq!(frame.channels()[2 * UNIVERSE_CHANNELS - 1], 7);
    assert_eq!(frame.channel(0, 0), None);
    assert_eq!(frame.channel(0, 513), None);
    assert!(!frame.set_channel(0, 0, 1));
    assert!(!frame.set_channel(0, 513, 1));
    assert_eq!(frame.channel(2, 1), None);
    assert!(!frame.set_channel(2, 1, 1));
}

#[test]
fn universes_are_disjoint_slices_of_the_frame() {
    let mut frame = DmxFrame::new(&layout(&[1, 2, 3]));
    for index in 0..3 {
        let universe = frame.universe_mut(index).unwrap();
        assert_eq!(universe.len(), UNIVERSE_CHANNELS);
        universe.fill(index as u8 + 1);
    }
    assert_eq!(frame.universe(0).unwrap(), [1u8; UNIVERSE_CHANNELS]);
    assert_eq!(frame.universe(1).unwrap(), [2u8; UNIVERSE_CHANNELS]);
    assert_eq!(frame.universe(2).unwrap(), [3u8; UNIVERSE_CHANNELS]);
    assert!(frame.universe(3).is_none());
    assert!(frame.universe_mut(3).is_none());
}

#[test]
fn a_frame_can_be_blacked_out_in_place() {
    let mut frame = DmxFrame::new(&layout(&[1]));
    frame.fill(200);
    assert!(frame.channels().iter().all(|&value| value == 200));
    frame.blackout();
    assert!(frame.channels().iter().all(|&value| value == 0));
}

#[test]
fn a_frame_prints_its_shape_rather_than_its_bytes() {
    let frame = DmxFrame::new(&layout(&[1, 2]));
    assert_eq!(
        frame.describe(),
        "DmxFrame { sequence: 0, universes: 2, channels: 1024 }"
    );
}

#[test]
fn a_rejected_layout_says_why_in_words() {
    let errors = [
        (
            LayoutError::Empty,
            "a frame layout needs at least one universe",
        ),
        (
            LayoutError::Duplicate(UniverseId::new(4)),
            "universe 4 appears twice in the layout",
        ),
        (
            LayoutError::TooMany(2000),
            "2000 universes exceeds the limit of 1024",
        ),
    ];
    for (error, text) in errors {
        assert_eq!(error.message(), text);
    }
}

#[test]
fn a_frame_knows_how_many_universes_it_carries() {
    assert_eq!(DmxFrame::new(&layout(&[1, 2, 3])).universe_count(), 3);
    assert_eq!(DmxFrame::new(&layout(&[7])).universe_count(), 1);
}

#[test]
fn frames_of_the_same_layout_compare_by_content() {
    let layout = layout(&[1]);
    let mut a = DmxFrame::new(&layout);
    let b = DmxFrame::new(&layout);
    assert_eq!(a, b);
    assert!(a.set_channel(0, 1, 1));
    assert_ne!(a, b);
}
