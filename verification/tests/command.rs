use prismdmx::command::{CrossfadeMode, TickCommand, PAYLOAD_BYTES};
use prismdmx::cue::GoDirection;
use prismdmx::ids::{GroupId, PlaybackId, SequenceId, SPEED_UNITY};

fn round_trip(command: TickCommand) -> Option<TickCommand> {
    let mut bytes = [0u8; PAYLOAD_BYTES];
    command.encode(&mut bytes);
    TickCommand::decode(&bytes)
}

fn playback(number: u32) -> PlaybackId {
    SequenceId::new(number).into()
}

#[test]
fn every_variant_survives_the_queue_encoding() {
    let commands = [
        TickCommand::SetGrandMaster(0),
        TickCommand::SetGrandMaster(u16::MAX),
        TickCommand::SetExecutorLevel {
            executor: playback(u32::MAX),
            level: 32_768,
        },
        TickCommand::Go {
            executor: playback(9),
            direction: GoDirection::Prev,
        },
        TickCommand::Go {
            executor: playback(0),
            direction: GoDirection::Next,
        },
        TickCommand::GotoCue {
            executor: playback(2),
            cue_index: 513,
        },
        TickCommand::SetBlackout(true),
        TickCommand::SetBlackout(false),
        TickCommand::SetExecutorActive {
            executor: playback(3),
            on: true,
        },
        TickCommand::SetExecutorActive {
            executor: playback(u32::MAX),
            on: false,
        },
        TickCommand::SetExecutorFlash {
            executor: playback(3),
            on: true,
        },
        TickCommand::SetExecutorFlash {
            executor: playback(u32::MAX),
            on: false,
        },
        TickCommand::SetExecutorSpeed {
            executor: playback(4),
            speed: SPEED_UNITY,
        },
        TickCommand::TapExecutorSpeed {
            executor: playback(5),
        },
        TickCommand::SetExecutorCrossfade {
            mode: CrossfadeMode::XFade,
            executor: playback(6),
            position: u16::MAX,
        },
        TickCommand::SetExecutorCrossfade {
            mode: CrossfadeMode::Fade,
            executor: playback(6),
            position: 12,
        },
        TickCommand::SetGroupMaster {
            group: GroupId::new(12),
            level: 32_767,
        },
        TickCommand::SetGroupMaster {
            group: GroupId::new(u32::MAX),
            level: 0,
        },
        TickCommand::SetProgrammerValue {
            slot: 0,
            value: 65_535,
        },
        TickCommand::SetProgrammerValue {
            slot: u32::MAX,
            value: 0,
        },
        TickCommand::ClearProgrammerValue { slot: 4_242 },
        TickCommand::ClearProgrammer,
    ];
    for command in commands {
        assert_eq!(round_trip(command), Some(command), "{command:?}");
    }
}

#[test]
fn the_programmer_addresses_a_slot_number_rather_than_a_fixture_and_attribute() {
    let command = TickCommand::SetProgrammerValue {
        slot: 0x0102_0304,
        value: 0x0506,
    };
    let mut bytes = [0u8; PAYLOAD_BYTES];
    command.encode(&mut bytes);
    assert_eq!(
        bytes[..TickCommand::MAX_ENCODED],
        [7, 0x04, 0x03, 0x02, 0x01, 0x06, 0x05]
    );
}

#[test]
fn an_unknown_tag_decodes_to_nothing() {
    let mut bytes = [0u8; PAYLOAD_BYTES];
    bytes[0] = 0xFF;
    assert_eq!(TickCommand::decode(&bytes), None);
    bytes[0] = 0;
    assert_eq!(TickCommand::decode(&bytes), None);
}

#[test]
fn a_command_uses_only_its_declared_bytes_and_leaves_the_rest_zero() {
    let mut bytes = [0xFFu8; PAYLOAD_BYTES];
    TickCommand::SetGrandMaster(u16::MAX).encode(&mut bytes);
    assert_eq!(
        bytes[..TickCommand::MAX_ENCODED],
        [1, 0, 0, 0, 0, 0xFF, 0xFF]
    );
    assert!(bytes[TickCommand::MAX_ENCODED..].iter().all(|&b| b == 0));
}

#[test]
fn a_flag_or_a_direction_out_of_range_decodes_to_nothing() {
    for tag in [3u8, 4, 5, 10] {
        let mut bytes = [0u8; PAYLOAD_BYTES];
        bytes[0] = tag;
        bytes[5] = 2;
        assert_eq!(TickCommand::decode(&bytes), None, "tag {tag}");
    }
}

#[test]
fn the_two_crossfade_modes_have_tags_of_their_own() {
    let mut bytes = [0u8; PAYLOAD_BYTES];
    TickCommand::SetExecutorCrossfade {
        executor: playback(1),
        mode: CrossfadeMode::XFade,
        position: 1,
    }
    .encode(&mut bytes);
    assert_eq!(bytes[0], 13);
    TickCommand::SetExecutorCrossfade {
        executor: playback(1),
        mode: CrossfadeMode::Fade,
        position: 1,
    }
    .encode(&mut bytes);
    assert_eq!(bytes[0], 15);
}
