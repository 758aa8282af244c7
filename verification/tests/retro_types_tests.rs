//! The modelled libretro types: variable parsing, system info conversion,
//! environment command ids, and the text helpers.

use oxretro::errors::CoreError;
use oxretro::retro_types::RawRetroSystemInfo;
use oxretro::retro_types::RawRetroVariable;
use oxretro::retro_types::RetroEnvironment;
use oxretro::retro_types::RetroGameInfo;
use oxretro::retro_types::RetroVariable;
use oxretro::text::find_char;
use oxretro::text::split_string;
use oxretro::text::trim_start;

#[test]
fn variable_value_parses_description_and_options() {
    let raw = RawRetroVariable {
        key: Some("core_speed".to_string()),
        value: Some("Emulation speed; 1x|2x|4x".to_string()),
    };
    let variable = raw.to_owned().expect("well-formed variable");
    assert_eq!(variable.key, "core_speed");
    assert_eq!(variable.description, "Emulation speed");
    assert_eq!(variable.options, vec!["1x", "2x", "4x"]);
    assert_eq!(variable.get_selected(), "1x");
}

#[test]
fn variable_value_without_semicolon_is_rejected() {
    let raw = RawRetroVariable {
        key: Some("k".to_string()),
        value: Some("no separator here".to_string()),
    };
    assert!(matches!(raw.to_owned(), Err(CoreError::BadEncoding(_))));
}

#[test]
fn variable_eof_and_key() {
    let terminator = RawRetroVariable { key: None, value: None };
    assert!(terminator.is_eof());
    let half = RawRetroVariable { key: Some("k".to_string()), value: None };
    assert!(half.is_eof());
    assert_eq!(half.get_key().unwrap(), "k");
    let full = RawRetroVariable {
        key: Some("k".to_string()),
        value: Some("d; o".to_string()),
    };
    assert!(!full.is_eof());
    let missing = RawRetroVariable { key: None, value: Some("d; o".to_string()) };
    assert!(matches!(missing.get_key(), Err(CoreError::BadEncoding(_))));
}

#[test]
fn system_info_splits_extensions() {
    let raw = RawRetroSystemInfo {
        library_name: Some("TestCore".to_string()),
        library_version: Some("1.0".to_string()),
        valid_extensions: Some("gba|gb|gbc".to_string()),
        need_fullpath: true,
        block_extract: false,
    };
    let info = raw.into_owned().expect("complete info");
    assert_eq!(info.library_name, "TestCore");
    assert_eq!(info.library_version, "1.0");
    assert_eq!(info.valid_extensions, vec!["gba", "gb", "gbc"]);
    assert!(info.need_fullpath);
    assert!(!info.block_extract);
}

#[test]
fn system_info_with_missing_field_is_rejected() {
    let raw = RawRetroSystemInfo::new();
    assert!(matches!(raw.into_owned(), Err(CoreError::BadEncoding(_))));
}

#[test]
fn game_info_carries_plain_values() {
    let info = RetroGameInfo::new(Some("rom.gba"), Some(vec![1, 2, 3]), 3, Some(""));
    assert_eq!(info.path.as_deref(), Some("rom.gba"));
    assert_eq!(info.data, Some(vec![1, 2, 3]));
    assert_eq!(info.size, 3);
    assert_eq!(info.meta.as_deref(), Some(""));
    let bare = RetroGameInfo::new(None, None, 0, None);
    assert!(bare.path.is_none() && bare.data.is_none() && bare.meta.is_none());
}

#[test]
fn environment_command_ids() {
    assert_eq!(RetroEnvironment::from_command_id(10), Some(RetroEnvironment::SetPixelFormat));
    assert_eq!(RetroEnvironment::from_command_id(15), Some(RetroEnvironment::GetVariable));
    assert_eq!(RetroEnvironment::from_command_id(16), Some(RetroEnvironment::SetVariables));
    assert_eq!(RetroEnvironment::from_command_id(31), Some(RetroEnvironment::GetSaveDirectory));
    assert_eq!(RetroEnvironment::from_command_id(9), Some(RetroEnvironment::GetSystemDirectory));
    assert_eq!(RetroEnvironment::from_command_id(21), Some(RetroEnvironment::SetFrameTimeCallback));
    assert_eq!(RetroEnvironment::from_command_id(22), Some(RetroEnvironment::SetAudioCallback));
    assert_eq!(RetroEnvironment::from_command_id(45), Some(RetroEnvironment::GetVFSInterface));
    // Gaps and out-of-range ids are unknown.
    assert_eq!(RetroEnvironment::from_command_id(0), None);
    assert_eq!(RetroEnvironment::from_command_id(4), None);
    assert_eq!(RetroEnvironment::from_command_id(5), None);
    assert_eq!(RetroEnvironment::from_command_id(20), None);
    assert_eq!(RetroEnvironment::from_command_id(41), None);
    assert_eq!(RetroEnvironment::from_command_id(46), None);
}

#[test]
fn variable_constructor_keeps_fields() {
    let variable = RetroVariable::new(
        "key".to_string(),
        "desc".to_string(),
        vec!["a".to_string(), "b".to_string()],
        "a".to_string(),
    );
    assert_eq!(variable.key, "key");
    assert_eq!(variable.description, "desc");
    assert_eq!(variable.options, vec!["a", "b"]);
    assert_eq!(variable.get_selected(), "a");
}

#[test]
fn text_helpers() {
    assert_eq!(split_string("a|b|c", '|'), vec!["a", "b", "c"]);
    assert_eq!(split_string("", '|'), vec![""]);
    assert_eq!(split_string("|", '|'), vec!["", ""]);
    assert_eq!(split_string("abc", '|'), vec!["abc"]);
    assert_eq!(trim_start("  x y"), "x y");
    assert_eq!(trim_start("\t\r\nx"), "x");
    assert_eq!(trim_start("x "), "x ");
    assert_eq!(trim_start("   "), "");
    assert_eq!(find_char("ab;cd", ';'), Some(2));
    assert_eq!(find_char(";", ';'), Some(0));
    assert_eq!(find_char("abcd", ';'), None);
}
