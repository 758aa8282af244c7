//! The per-side dispatch decisions, message classification, and the
//! guarantee that no blocking request goes unanswered.

use oxretro::dispatch::apply_pixel_format;
use oxretro::dispatch::backend_dispatch;
use oxretro::dispatch::frontend_dispatch;
use oxretro::dispatch::input_state_reply;
use oxretro::dispatch::negative_ack;
use oxretro::dispatch::parse_raw_variables;
use oxretro::dispatch::plan_environment;
use oxretro::dispatch::BackendDirective;
use oxretro::dispatch::EnvironmentDirective;
use oxretro::dispatch::FrontendDirective;
use oxretro::errors::translate_encoding_result;
use oxretro::errors::translate_lib_result;
use oxretro::errors::CoreError;
use oxretro::graphics::KeyState;
use oxretro::input::key_from_id;
use oxretro::input::InputKey;
use oxretro::messages::ProtocolMessageType;
use oxretro::messages::VideoRefreshType;
use oxretro::pixel::RetroPixelFormat;
use oxretro::retro_types::RawRetroVariable;

#[test]
fn classification_table() {
    let blocking = [
        ProtocolMessageType::InputState { port: 0, device: 0, index: 0, id: 0 },
        ProtocolMessageType::APIVersion,
        ProtocolMessageType::SystemInfo,
        ProtocolMessageType::GetVariable("k".to_string()),
        ProtocolMessageType::AVInfo,
        ProtocolMessageType::Run,
    ];
    for message in &blocking {
        assert!(message.is_blocking(), "{message:?}");
        assert!(!message.is_response(), "{message:?}");
    }
    let responses = [
        ProtocolMessageType::InputResponse(0),
        ProtocolMessageType::SystemInfoResponse(oxretro::retro_types::RetroSystemInfo {
            library_name: String::new(),
            library_version: String::new(),
            valid_extensions: Vec::new(),
            need_fullpath: false,
            block_extract: false,
        }),
        ProtocolMessageType::APIVersionResponse(0),
        ProtocolMessageType::GetVariableResponse(None),
        ProtocolMessageType::AVInfoResponse(oxretro::retro_types::RetroAvInfo::new()),
        ProtocolMessageType::RunResponse,
    ];
    for message in &responses {
        assert!(message.is_response(), "{message:?}");
        assert!(!message.is_blocking(), "{message:?}");
    }
    let neither = [
        ProtocolMessageType::Init,
        ProtocolMessageType::Deinit,
        ProtocolMessageType::Load(String::new()),
        ProtocolMessageType::Unload,
        ProtocolMessageType::Reset,
        ProtocolMessageType::PollInput,
        ProtocolMessageType::SetVariables(Vec::new()),
        ProtocolMessageType::VideoRefresh(VideoRefreshType::Hardware),
        ProtocolMessageType::AudioSample(Vec::new()),
    ];
    for message in &neither {
        assert!(!message.is_blocking(), "{message:?}");
        assert!(!message.is_response(), "{message:?}");
    }
}

#[test]
fn every_blocking_request_has_a_negative_ack() {
    let cases = [
        (
            ProtocolMessageType::Run,
            ProtocolMessageType::RunResponse,
        ),
        (
            ProtocolMessageType::APIVersion,
            ProtocolMessageType::APIVersionResponse(0),
        ),
        (
            ProtocolMessageType::GetVariable("k".to_string()),
            ProtocolMessageType::GetVariableResponse(None),
        ),
        (
            ProtocolMessageType::InputState { port: 0, device: 0, index: 0, id: 0 },
            ProtocolMessageType::InputResponse(0),
        ),
    ];
    for (request, expected) in cases {
        assert_eq!(negative_ack(&request), Some(expected));
    }
    assert!(matches!(
        negative_ack(&ProtocolMessageType::SystemInfo),
        Some(ProtocolMessageType::SystemInfoResponse(_))
    ));
    assert!(matches!(
        negative_ack(&ProtocolMessageType::AVInfo),
        Some(ProtocolMessageType::AVInfoResponse(_))
    ));
    // Non-blocking requests owe nothing.
    assert_eq!(negative_ack(&ProtocolMessageType::Init), None);
    assert_eq!(negative_ack(&ProtocolMessageType::PollInput), None);
}

#[test]
fn frontend_answers_variable_queries_with_none() {
    let directive = frontend_dispatch(ProtocolMessageType::GetVariable("opt".to_string()));
    assert!(matches!(
        directive,
        FrontendDirective::Reply(ProtocolMessageType::GetVariableResponse(None))
    ));
}

#[test]
fn frontend_maps_input_ids_to_keys() {
    let directive = frontend_dispatch(ProtocolMessageType::InputState {
        port: 0,
        device: 1,
        index: 0,
        id: 4,
    });
    assert!(matches!(directive, FrontendDirective::QueryInput(Some(InputKey::Up))));
    let unknown = frontend_dispatch(ProtocolMessageType::InputState {
        port: 0,
        device: 1,
        index: 0,
        id: 99,
    });
    assert!(matches!(unknown, FrontendDirective::QueryInput(None)));
    assert_eq!(input_state_reply(true), ProtocolMessageType::InputResponse(1));
    assert_eq!(input_state_reply(false), ProtocolMessageType::InputResponse(0));
}

#[test]
fn frontend_routes_frames_and_samples_to_devices() {
    let directive = frontend_dispatch(ProtocolMessageType::VideoRefresh(
        VideoRefreshType::Software { framebuffer: vec![1, 2, 3, 4], width: 1, height: 1 },
    ));
    match directive {
        FrontendDirective::SubmitVideo { framebuffer, width, height } => {
            assert_eq!(framebuffer, vec![1, 2, 3, 4]);
            assert_eq!((width, height), (1, 1));
        },
        other => panic!("wrong directive: {:?}", std::mem::discriminant(&other)),
    }
    assert!(matches!(
        frontend_dispatch(ProtocolMessageType::VideoRefresh(VideoRefreshType::Hardware)),
        FrontendDirective::HardwareVideoUnsupported
    ));
    assert!(matches!(
        frontend_dispatch(ProtocolMessageType::AudioSample(vec![1, -1])),
        FrontendDirective::SubmitAudio(s) if s == vec![1, -1]
    ));
    assert!(matches!(
        frontend_dispatch(ProtocolMessageType::PollInput),
        FrontendDirective::PollInput
    ));
    // A blocking command the frontend cannot service is still answered.
    assert!(matches!(
        frontend_dispatch(ProtocolMessageType::Run),
        FrontendDirective::Reply(ProtocolMessageType::RunResponse)
    ));
}

#[test]
fn backend_maps_commands_to_core_calls() {
    assert!(matches!(backend_dispatch(ProtocolMessageType::Init), BackendDirective::CallInit));
    assert!(matches!(backend_dispatch(ProtocolMessageType::Deinit), BackendDirective::CallDeinit));
    assert!(matches!(backend_dispatch(ProtocolMessageType::Unload), BackendDirective::CallUnload));
    assert!(matches!(backend_dispatch(ProtocolMessageType::Reset), BackendDirective::CallReset));
    assert!(matches!(backend_dispatch(ProtocolMessageType::Run), BackendDirective::CallRun));
    assert!(matches!(
        backend_dispatch(ProtocolMessageType::APIVersion),
        BackendDirective::QueryApiVersion
    ));
    assert!(matches!(
        backend_dispatch(ProtocolMessageType::SystemInfo),
        BackendDirective::QuerySystemInfo
    ));
    assert!(matches!(
        backend_dispatch(ProtocolMessageType::AVInfo),
        BackendDirective::QueryAvInfo
    ));
    match backend_dispatch(ProtocolMessageType::Load("rom.gba".to_string())) {
        BackendDirective::CallLoad(path) => assert_eq!(path, "rom.gba"),
        _ => panic!("Load must map to CallLoad"),
    }
    // A misdirected blocking query still gets an answer.
    match backend_dispatch(ProtocolMessageType::InputState {
        port: 0,
        device: 0,
        index: 0,
        id: 0,
    }) {
        BackendDirective::Unsupported(ack) => {
            assert_eq!(ack, Some(ProtocolMessageType::InputResponse(0)));
        },
        _ => panic!("unserviceable blocking command must carry an ack"),
    }
    // A non-blocking unknown is dropped without a reply.
    match backend_dispatch(ProtocolMessageType::PollInput) {
        BackendDirective::Unsupported(ack) => assert_eq!(ack, None),
        _ => panic!("unserviceable non-blocking command carries no ack"),
    }
}

#[test]
fn environment_planning_masks_flags() {
    assert_eq!(plan_environment(10), Some(EnvironmentDirective::StorePixelFormat));
    assert_eq!(plan_environment(16), Some(EnvironmentDirective::CollectVariables));
    assert_eq!(plan_environment(15), Some(EnvironmentDirective::QueryVariable));
    assert_eq!(plan_environment(17), Some(EnvironmentDirective::VariableUpdate));
    assert_eq!(plan_environment(31), Some(EnvironmentDirective::ProvideSaveDirectory));
    assert_eq!(plan_environment(9), Some(EnvironmentDirective::ProvideSystemDirectory));
    assert_eq!(plan_environment(7), Some(EnvironmentDirective::Unsupported));
    assert_eq!(plan_environment(4), None);
    // Flag bits above the low word are masked out.
    assert_eq!(plan_environment(0x0002_000A), Some(EnvironmentDirective::StorePixelFormat));
}

#[test]
fn pixel_format_is_stored_only_when_valid() {
    let mut format = RetroPixelFormat::Format0RGB1555;
    assert!(apply_pixel_format(&mut format, 2));
    assert_eq!(format, RetroPixelFormat::FormatRGB565);
    assert!(!apply_pixel_format(&mut format, 77));
    assert_eq!(format, RetroPixelFormat::FormatRGB565);
}

#[test]
fn raw_variable_arrays_parse_in_order() {
    let raws = vec![
        RawRetroVariable {
            key: Some("a".to_string()),
            value: Some("First; on|off".to_string()),
        },
        RawRetroVariable {
            key: Some("b".to_string()),
            value: Some("Second; x".to_string()),
        },
    ];
    let vars = parse_raw_variables(&raws).expect("well-formed variables");
    assert_eq!(vars.len(), 2);
    assert_eq!(vars[0].key, "a");
    assert_eq!(vars[0].options, vec!["on", "off"]);
    assert_eq!(vars[1].description, "Second");
    let bad = vec![RawRetroVariable { key: Some("a".to_string()), value: Some("no sep".to_string()) }];
    assert!(matches!(parse_raw_variables(&bad), Err(CoreError::BadEncoding(_))));
}

#[test]
fn core_error_translations() {
    assert_eq!(translate_lib_result::<u32>(Ok(7)), Ok(7));
    assert_eq!(
        translate_lib_result::<u32>(Err("missing symbol".to_string())),
        Err(CoreError::BadLibrary("missing symbol".to_string()))
    );
    assert_eq!(translate_encoding_result::<u32>(Ok(7)), Ok(7));
    assert_eq!(
        translate_encoding_result::<u32>(Err("bad utf-8".to_string())),
        Err(CoreError::BadEncoding("bad utf-8".to_string()))
    );
    let file_error = CoreError::FileLoadError("gone".to_string());
    assert_eq!(file_error, CoreError::FileLoadError("gone".to_string()));
}

#[test]
fn key_state_tracks_presses_and_releases() {
    let mut keys = KeyState::new();
    assert!(!keys.is_down(InputKey::A));
    keys.press(InputKey::A);
    keys.press(InputKey::Up);
    keys.press(InputKey::A);
    assert!(keys.is_down(InputKey::A));
    assert!(keys.is_down(InputKey::Up));
    keys.release(InputKey::A);
    assert!(!keys.is_down(InputKey::A));
    assert!(keys.is_down(InputKey::Up));
    keys.release(InputKey::B);
    assert!(keys.is_down(InputKey::Up));
}

#[test]
fn key_ids_follow_the_retropad_layout() {
    assert_eq!(key_from_id(0), Some(InputKey::B));
    assert_eq!(key_from_id(1), Some(InputKey::Y));
    assert_eq!(key_from_id(2), Some(InputKey::Select));
    assert_eq!(key_from_id(3), Some(InputKey::Start));
    assert_eq!(key_from_id(4), Some(InputKey::Up));
    assert_eq!(key_from_id(5), Some(InputKey::Down));
    assert_eq!(key_from_id(6), Some(InputKey::Left));
    assert_eq!(key_from_id(7), Some(InputKey::Right));
    assert_eq!(key_from_id(8), Some(InputKey::A));
    assert_eq!(key_from_id(9), Some(InputKey::X));
    assert_eq!(key_from_id(10), Some(InputKey::L));
    assert_eq!(key_from_id(11), Some(InputKey::R));
    assert_eq!(key_from_id(15), Some(InputKey::R3));
    assert_eq!(key_from_id(16), None);
}
