//! Serialisation round trips for every message variant.

use oxretro::codec::deserialize_message;
use oxretro::codec::serialize_message;
use oxretro::messages::ProtocolMessage;
use oxretro::messages::ProtocolMessageType;
use oxretro::messages::VideoRefreshType;
use oxretro::retro_types::RetroAvInfo;
use oxretro::retro_types::RetroGameGeometry;
use oxretro::retro_types::RetroSystemInfo;
use oxretro::retro_types::RetroSystemTiming;
use oxretro::retro_types::RetroVariable;

fn round_trip(message: ProtocolMessage) {
    let bytes = serialize_message(&message);
    let back = deserialize_message(&bytes).expect("a serialised message must deserialise");
    assert_eq!(back, message);
}

fn sample_system_info() -> RetroSystemInfo {
    RetroSystemInfo {
        library_name: "TestCore".to_string(),
        library_version: "1.0".to_string(),
        valid_extensions: vec!["gba".to_string()],
        need_fullpath: false,
        block_extract: false,
    }
}

fn sample_av_info() -> RetroAvInfo {
    RetroAvInfo {
        geometry: RetroGameGeometry {
            base_width: 240,
            base_height: 160,
            max_width: 240,
            max_height: 160,
            aspect_ratio_bits: 0x3FC00000,
        },
        timing: RetroSystemTiming {
            fps_bits: 0x404DF853E2556B28,
            sample_rate_bits: 0x40DF400000000000,
        },
    }
}

#[test]
fn round_trip_unit_variants() {
    let variants = vec![
        ProtocolMessageType::PollInput,
        ProtocolMessageType::RunResponse,
        ProtocolMessageType::Init,
        ProtocolMessageType::Deinit,
        ProtocolMessageType::Unload,
        ProtocolMessageType::APIVersion,
        ProtocolMessageType::AVInfo,
        ProtocolMessageType::Run,
        ProtocolMessageType::Reset,
        ProtocolMessageType::SystemInfo,
    ];
    let mut id = 0u64;
    for data in variants {
        round_trip(ProtocolMessage { id, data });
        id += 7;
    }
}

#[test]
fn round_trip_strings() {
    round_trip(ProtocolMessage {
        id: 3,
        data: ProtocolMessageType::Load("roms/pokemon.gba".to_string()),
    });
    round_trip(ProtocolMessage {
        id: 4,
        data: ProtocolMessageType::GetVariable("core_option".to_string()),
    });
    round_trip(ProtocolMessage {
        id: 5,
        data: ProtocolMessageType::GetVariableResponse(Some("enabled".to_string())),
    });
    round_trip(ProtocolMessage {
        id: 6,
        data: ProtocolMessageType::GetVariableResponse(None),
    });
}

#[test]
fn round_trip_non_ascii_strings() {
    round_trip(ProtocolMessage {
        id: 9,
        data: ProtocolMessageType::Load("röm/ぽけもん/🎮.gba".to_string()),
    });
    round_trip(ProtocolMessage {
        id: 10,
        data: ProtocolMessageType::GetVariableResponse(Some("käse\u{10FFFF}".to_string())),
    });
}

#[test]
fn round_trip_framebuffer() {
    let framebuffer: Vec<u8> = (0..=255u8).cycle().take(240 * 160 * 4).collect();
    round_trip(ProtocolMessage {
        id: 11,
        data: ProtocolMessageType::VideoRefresh(VideoRefreshType::Software {
            framebuffer,
            width: 240,
            height: 160,
        }),
    });
    round_trip(ProtocolMessage {
        id: 12,
        data: ProtocolMessageType::VideoRefresh(VideoRefreshType::Hardware),
    });
}

#[test]
fn round_trip_audio_samples() {
    let samples: Vec<i16> = vec![0, 1, -1, i16::MAX, i16::MIN, 12345, -12345];
    round_trip(ProtocolMessage {
        id: 13,
        data: ProtocolMessageType::AudioSample(samples),
    });
    round_trip(ProtocolMessage {
        id: 14,
        data: ProtocolMessageType::AudioSample(Vec::new()),
    });
}

#[test]
fn round_trip_input_state() {
    round_trip(ProtocolMessage {
        id: 7,
        data: ProtocolMessageType::InputState { port: 0, device: 1, index: 0, id: 4 },
    });
    round_trip(ProtocolMessage {
        id: 7,
        data: ProtocolMessageType::InputResponse(1),
    });
    round_trip(ProtocolMessage {
        id: 8,
        data: ProtocolMessageType::InputResponse(-1),
    });
}

#[test]
fn round_trip_system_info_response() {
    round_trip(ProtocolMessage {
        id: 1,
        data: ProtocolMessageType::SystemInfoResponse(sample_system_info()),
    });
}

#[test]
fn round_trip_av_info_response() {
    round_trip(ProtocolMessage {
        id: 2,
        data: ProtocolMessageType::AVInfoResponse(sample_av_info()),
    });
    round_trip(ProtocolMessage {
        id: 2,
        data: ProtocolMessageType::APIVersionResponse(1),
    });
}

#[test]
fn round_trip_set_variables() {
    let variables = vec![
        RetroVariable::new(
            "core_speed".to_string(),
            "Speed".to_string(),
            vec!["1x".to_string(), "2x".to_string()],
            "1x".to_string(),
        ),
        RetroVariable::new(
            "core_region".to_string(),
            "Region".to_string(),
            vec!["auto".to_string()],
            "auto".to_string(),
        ),
    ];
    round_trip(ProtocolMessage {
        id: 21,
        data: ProtocolMessageType::SetVariables(variables),
    });
    round_trip(ProtocolMessage {
        id: 22,
        data: ProtocolMessageType::SetVariables(Vec::new()),
    });
}

#[test]
fn deserialize_rejects_truncation_and_trailing_bytes() {
    let message = ProtocolMessage {
        id: 3,
        data: ProtocolMessageType::Load("rom.gba".to_string()),
    };
    let bytes = serialize_message(&message);
    let truncated: Vec<u8> = bytes[..bytes.len() - 1].to_vec();
    assert!(deserialize_message(&truncated).is_none());
    let mut trailing = bytes.clone();
    trailing.push(0);
    assert!(deserialize_message(&trailing).is_none());
    assert!(deserialize_message(&Vec::new()).is_none());
}

#[test]
fn deserialize_rejects_unknown_tag() {
    // A valid id, then a tag byte past the last variant.
    let mut bytes = vec![0u8; 8];
    bytes.push(21);
    assert!(deserialize_message(&bytes).is_none());
}

#[test]
fn classification_survives_round_trip() {
    let blocking = ProtocolMessage { id: 30, data: ProtocolMessageType::Run };
    let bytes = serialize_message(&blocking);
    let back = deserialize_message(&bytes).unwrap();
    assert_eq!(back.data.is_blocking(), blocking.data.is_blocking());
    assert_eq!(back.data.is_response(), blocking.data.is_response());
}
