//! The data carried by the libretro API, modelled with plain values.
//!
//! The C side of the API (null-terminated strings, out-pointers, floating
//! point timings) is handled by unverified glue around this crate; here every
//! field is an owned value, and the floating point timings are carried as
//! their IEEE-754 bit patterns, which the protocol moves but never computes
//! with.

use vstd::prelude::*;

use crate::errors::CoreError;
use crate::text::spec_find;
use crate::text::spec_split;
use crate::text::spec_trim_start;
use crate::text::find_char;
use crate::text::lemma_spec_split_len;
use crate::text::split_string;
use crate::text::trim_start;
use vstd::string::StrSliceExecFns;

verus! {

/// Mathematical value of a [`RetroSystemInfo`].
pub struct SystemInfoView {
    pub library_name: Seq<char>,
    pub library_version: Seq<char>,
    pub valid_extensions: Seq<Seq<char>>,
    pub need_fullpath: bool,
    pub block_extract: bool,
}

/// Metadata a core reports about itself.
#[derive(Debug, Clone, PartialEq)]
pub struct RetroSystemInfo {
    pub library_name: String,
    pub library_version: String,
    pub valid_extensions: Vec<String>,
    pub need_fullpath: bool,
    pub block_extract: bool,
}

impl View for RetroSystemInfo {
    type V = SystemInfoView;

    open spec fn view(&self) -> SystemInfoView {
        SystemInfoView {
            library_name: self.library_name@,
            library_version: self.library_version@,
            valid_extensions: self.valid_extensions@.map_values(|s: String| s@),
            need_fullpath: self.need_fullpath,
            block_extract: self.block_extract,
        }
    }
}

/// Dimensions of the framebuffer a core asks for.  The aspect ratio is an
/// `f32` on the C side; only its bit pattern travels through the protocol.
#[derive(Debug, Clone, Copy, PartialEq, Eq, Structural)]
pub struct RetroGameGeometry {
    pub base_width: u32,
    pub base_height: u32,
    pub max_width: u32,
    pub max_height: u32,
    pub aspect_ratio_bits: u32,
}

/// Nominal frame rate and audio sample rate of a core, as the bit patterns
/// of the `f64` values the C side reports.
#[derive(Debug, Clone, Copy, PartialEq, Eq, Structural)]
pub struct RetroSystemTiming {
    pub fps_bits: u64,
    pub sample_rate_bits: u64,
}

/// The audio/video requirements of a core.
#[derive(Debug, Clone, Copy, PartialEq, Eq, Structural)]
pub struct RetroAvInfo {
    pub geometry: RetroGameGeometry,
    pub timing: RetroSystemTiming,
}

impl RetroAvInfo {
    /// An all-zero value, ready to be filled in by the core.
    pub fn new() -> (r: Self)
        ensures
            r.geometry.base_width == 0,
            r.geometry.base_height == 0,
            r.geometry.max_width == 0,
            r.geometry.max_height == 0,
            r.geometry.aspect_ratio_bits == 0,
            r.timing.fps_bits == 0,
            r.timing.sample_rate_bits == 0,
    {
        RetroAvInfo {
            geometry: RetroGameGeometry {
                base_width: 0,
                base_height: 0,
                max_width: 0,
                max_height: 0,
                aspect_ratio_bits: 0,
            },
            timing: RetroSystemTiming { fps_bits: 0, sample_rate_bits: 0 },
        }
    }
}

/// Mathematical value of a [`RetroVariable`].
pub struct RetroVariableView {
    pub key: Seq<char>,
    pub description: Seq<char>,
    pub options: Seq<Seq<char>>,
    pub selected: Seq<char>,
}

/// A configuration variable a core exposes: a key, a human-readable
/// description, the legal options, and the currently selected option.
#[derive(Debug, Clone, PartialEq)]
pub struct RetroVariable {
    pub key: String,
    pub description: String,
    pub options: Vec<String>,
    pub selected: String,
}

impl View for RetroVariable {
    type V = RetroVariableView;

    open spec fn view(&self) -> RetroVariableView {
        RetroVariableView {
            key: self.key@,
            description: self.description@,
            options: self.options@.map_values(|s: String| s@),
            selected: self.selected@,
        }
    }
}

impl RetroVariable {
    pub fn new(key: String, description: String, options: Vec<String>, selected: String) -> (r:
        Self)
        ensures
            r@.key == key@,
            r@.description == description@,
            r@.options == options@.map_values(|s: String| s@),
            r@.selected == selected@,
    {
        RetroVariable { key, description, options, selected }
    }

    /// The currently selected option.
    pub fn get_selected(&self) -> (r: &String)
        ensures
            r@ == self@.selected,
    {
        &self.selected
    }
}

/// What the C side reports for `retro_get_system_info`, with every string
/// already read out of its null-terminated form; a field is `None` when the
/// core left its pointer null.
#[derive(Debug, Clone, PartialEq)]
pub struct RawRetroSystemInfo {
    pub library_name: Option<String>,
    pub library_version: Option<String>,
    pub valid_extensions: Option<String>,
    pub need_fullpath: bool,
    pub block_extract: bool,
}

impl RawRetroSystemInfo {
    /// Creates an empty value, ready to be filled in by the core.
    pub fn new() -> (r: Self)
        ensures
            r.library_name is None,
            r.library_version is None,
            r.valid_extensions is None,
            !r.need_fullpath,
            !r.block_extract,
    {
        RawRetroSystemInfo {
            library_name: None,
            library_version: None,
            valid_extensions: None,
            need_fullpath: false,
            block_extract: false,
        }
    }

    /// Converts this structure's contents into the owned form, splitting
    /// the `|`-separated extension list.  Fails when the core left a field
    /// unset.
    pub fn into_owned(self) -> (r: Result<RetroSystemInfo, CoreError>)
        ensures
            match r {
                Ok(info) => {
                    &&& self.library_name matches Some(n) && info@.library_name == n@
                    &&& self.library_version matches Some(v) && info@.library_version == v@
                    &&& self.valid_extensions matches Some(e) && info@.valid_extensions
                        == spec_split(e@, '|')
                    &&& info@.need_fullpath == self.need_fullpath
                    &&& info@.block_extract == self.block_extract
                },
                Err(e) => (self.library_name is None || self.library_version is None
                    || self.valid_extensions is None) && e is BadEncoding,
            },
    {
        let library_name = match self.library_name {
            Some(v) => v,
            None => {
                return Err(CoreError::BadEncoding(String::new()));
            },
        };
        let library_version = match self.library_version {
            Some(v) => v,
            None => {
                return Err(CoreError::BadEncoding(String::new()));
            },
        };
        let extensions = match self.valid_extensions {
            Some(v) => v,
            None => {
                return Err(CoreError::BadEncoding(String::new()));
            },
        };
        let valid_extensions = split_string(extensions.as_str(), '|');
        Ok(
            RetroSystemInfo {
                library_name,
                library_version,
                valid_extensions,
                need_fullpath: self.need_fullpath,
                block_extract: self.block_extract,
            },
        )
    }
}

/// What game is meant to be loaded: either by path alone (for cores that
/// want the full path) or with the content bytes read in.
#[derive(Debug, Clone, PartialEq)]
pub struct RetroGameInfo {
    pub path: Option<String>,
    pub data: Option<Vec<u8>>,
    pub size: usize,
    pub meta: Option<String>,
}

impl RetroGameInfo {
    /// Creates a new RetroGameInfo.
    pub fn new(path: Option<&str>, data: Option<Vec<u8>>, size: usize, meta: Option<&str>) -> (r:
        RetroGameInfo)
        ensures
            match path {
                Some(p) => r.path matches Some(q) && q@ == p@,
                None => r.path is None,
            },
            r.data == data,
            r.size == size,
            match meta {
                Some(m) => r.meta matches Some(q) && q@ == m@,
                None => r.meta is None,
            },
    {
        RetroGameInfo {
            path: match path {
                Some(v) => Some(v.to_owned()),
                None => None,
            },
            data,
            size,
            meta: match meta {
                Some(v) => Some(v.to_owned()),
                None => None,
            },
        }
    }
}

/// The description part of a variable's value string: everything before the
/// first semicolon.
pub open spec fn spec_variable_description(v: Seq<char>) -> Seq<char> {
    v.take(spec_find(v, ';'))
}

/// The options of a variable's value string: everything after the first
/// semicolon, leading whitespace dropped, split at `|`.
pub open spec fn spec_variable_options(v: Seq<char>) -> Seq<Seq<char>> {
    spec_split(spec_trim_start(v.skip(spec_find(v, ';') + 1)), '|')
}

/// A variable as the C side hands it over: a key and a raw value string of
/// the form `description; option|option|...`.  A field is `None` when the
/// core's pointer was null, which also marks the end of the variable array.
#[derive(Debug, Clone, PartialEq)]
pub struct RawRetroVariable {
    pub key: Option<String>,
    pub value: Option<String>,
}

impl RawRetroVariable {
    /// Whether this entry terminates the variable array.
    pub fn is_eof(&self) -> (r: bool)
        ensures
            r == (self.key is None || self.value is None),
    {
        match (&self.key, &self.value) {
            (Some(_), Some(_)) => false,
            _ => true,
        }
    }

    /// The variable's key.
    pub fn get_key(&self) -> (r: Result<String, CoreError>)
        ensures
            match r {
                Ok(k) => self.key matches Some(key) && k@ == key@,
                Err(e) => self.key is None && e is BadEncoding,
            },
    {
        match &self.key {
            Some(key) => Ok(key.clone()),
            None => Err(CoreError::BadEncoding(String::new())),
        }
    }

    /// Parses the raw value string into an owned variable: the description
    /// before the semicolon, the options after it, and the first option as
    /// the selection.  Fails when a field is unset or no semicolon occurs.
    pub fn to_owned(&self) -> (r: Result<RetroVariable, CoreError>)
        ensures
            match r {
                Ok(var) => {
                    &&& self.key matches Some(k) && var@.key == k@
                    &&& self.value matches Some(v) && v@.contains(';')
                    &&& var@.description == spec_variable_description(
                        self.value.unwrap()@,
                    )
                    &&& var@.options == spec_variable_options(self.value.unwrap()@)
                    &&& var@.selected == spec_variable_options(self.value.unwrap()@)[0]
                },
                Err(e) => (self.key is None || self.value is None || !self.value.unwrap()@
                    .contains(';')) && e is BadEncoding,
            },
    {
        let key = match &self.key {
            Some(k) => k.clone(),
            None => {
                return Err(CoreError::BadEncoding(String::new()));
            },
        };
        let value = match &self.value {
            Some(v) => v,
            None => {
                return Err(CoreError::BadEncoding(String::new()));
            },
        };
        let semicolon = match find_char(value.as_str(), ';') {
            Some(i) => i,
            None => {
                return Err(CoreError::BadEncoding(String::new()));
            },
        };
        proof {
            assert(value@.contains(';')) by {
                assert(value@[semicolon as int] == ';');
            }
        }
        let n = value.as_str().unicode_len();
        let description = value.as_str().substring_char(0, semicolon).to_owned();
        let after = value.as_str().substring_char(semicolon + 1, n);
        let options_str = trim_start(after);
        let options = split_string(options_str.as_str(), '|');
        proof {
            assert(after@ =~= value@.skip(semicolon + 1));
            lemma_spec_split_len(options_str@, '|');
            assert(options@.map_values(|p: String| p@).len() == options@.len());
            assert(description@ =~= spec_variable_description(value@));
            assert(options@.map_values(|p: String| p@) == spec_variable_options(value@));
        }
        let selected = options[0].clone();
        proof {
            assert(options@.map_values(|p: String| p@)[0] == options@[0]@);
        }
        Ok(RetroVariable::new(key, description, options, selected))
    }
}

/// The environment commands of the libretro API that this host knows.
#[derive(Debug, Clone, Copy, PartialEq, Eq, Structural)]
pub enum RetroEnvironment {
    SetRotation,
    GetOverscan,
    GetCanDup,
    SetMessage,
    Shutdown,
    SetPerformanceLevel,
    GetSystemDirectory,
    SetPixelFormat,
    SetInputDescriptors,
    SetKeyboardCallback,
    SetDiskControlInterface,
    SetHWRender,
    GetVariable,
    SetVariables,
    GetVariableUpdate,
    SetSupportNoGame,
    GetLibretroPath,
    SetAudioCallback,
    SetFrameTimeCallback,
    GetRumbleInterface,
    GetInputDeviceCapabilities,
    GetSensorInterface,
    GetCameraInterface,
    GetLogInterface,
    GetPerfInterface,
    GetLocationInterface,
    GetCoreAssetsDirectory,
    GetSaveDirectory,
    SetSystemAVInfo,
    SetProcAddress,
    SetSubsystemInfo,
    SetControllerInfo,
    SetMemoryMaps,
    SetGeometry,
    GetUsername,
    GetLanguage,
    GetCurrentSoftwareFramebuffer,
    SetHWSharedContext,
    GetVFSInterface,
}

/// The command a raw id of the libretro API names.
pub open spec fn spec_environment_from_id(id: u32) -> Option<RetroEnvironment> {
    if id == 1 {
        Some(RetroEnvironment::SetRotation)
    } else if id == 2 {
        Some(RetroEnvironment::GetOverscan)
    } else if id == 3 {
        Some(RetroEnvironment::GetCanDup)
    } else if id == 6 {
        Some(RetroEnvironment::SetMessage)
    } else if id == 7 {
        Some(RetroEnvironment::Shutdown)
    } else if id == 8 {
        Some(RetroEnvironment::SetPerformanceLevel)
    } else if id == 9 {
        Some(RetroEnvironment::GetSystemDirectory)
    } else if id == 10 {
        Some(RetroEnvironment::SetPixelFormat)
    } else if id == 11 {
        Some(RetroEnvironment::SetInputDescriptors)
    } else if id == 12 {
        Some(RetroEnvironment::SetKeyboardCallback)
    } else if id == 13 {
        Some(RetroEnvironment::SetDiskControlInterface)
    } else if id == 14 {
        Some(RetroEnvironment::SetHWRender)
    } else if id == 15 {
        Some(RetroEnvironment::GetVariable)
    } else if id == 16 {
        Some(RetroEnvironment::SetVariables)
    } else if id == 17 {
        Some(RetroEnvironment::GetVariableUpdate)
    } else if id == 18 {
        Some(RetroEnvironment::SetSupportNoGame)
    } else if id == 19 {
        Some(RetroEnvironment::GetLibretroPath)
    } else if id == 21 {
        Some(RetroEnvironment::SetFrameTimeCallback)
    } else if id == 22 {
        Some(RetroEnvironment::SetAudioCallback)
    } else if id == 23 {
        Some(RetroEnvironment::GetRumbleInterface)
    } else if id == 24 {
        Some(RetroEnvironment::GetInputDeviceCapabilities)
    } else if id == 25 {
        Some(RetroEnvironment::GetSensorInterface)
    } else if id == 26 {
        Some(RetroEnvironment::GetCameraInterface)
    } else if id == 27 {
        Some(RetroEnvironment::GetLogInterface)
    } else if id == 28 {
        Some(RetroEnvironment::GetPerfInterface)
    } else if id == 29 {
        Some(RetroEnvironment::GetLocationInterface)
    } else if id == 30 {
        Some(RetroEnvironment::GetCoreAssetsDirectory)
    } else if id == 31 {
        Some(RetroEnvironment::GetSaveDirectory)
    } else if id == 32 {
        Some(RetroEnvironment::SetSystemAVInfo)
    } else if id == 33 {
        Some(RetroEnvironment::SetProcAddress)
    } else if id == 34 {
        Some(RetroEnvironment::SetSubsystemInfo)
    } else if id == 35 {
        Some(RetroEnvironment::SetControllerInfo)
    } else if id == 36 {
        Some(RetroEnvironment::SetMemoryMaps)
    } else if id == 37 {
        Some(RetroEnvironment::SetGeometry)
    } else if id == 38 {
        Some(RetroEnvironment::GetUsername)
    } else if id == 39 {
        Some(RetroEnvironment::GetLanguage)
    } else if id == 40 {
        Some(RetroEnvironment::GetCurrentSoftwareFramebuffer)
    } else if id == 44 {
        Some(RetroEnvironment::SetHWSharedContext)
    } else if id == 45 {
        Some(RetroEnvironment::GetVFSInterface)
    } else {
        None
    }
}

impl RetroEnvironment {
    /// Returns a RetroEnvironment depending on an id provided by the
    /// libretro API.
    pub fn from_command_id(id: u32) -> (r: Option<Self>)
        ensures
            r == spec_environment_from_id(id),
    {
        Some(
            match id {
                1 => RetroEnvironment::SetRotation,
                2 => RetroEnvironment::GetOverscan,
                3 => RetroEnvironment::GetCanDup,
                6 => RetroEnvironment::SetMessage,
                7 => RetroEnvironment::Shutdown,
                8 => RetroEnvironment::SetPerformanceLevel,
                9 => RetroEnvironment::GetSystemDirectory,
                10 => RetroEnvironment::SetPixelFormat,
                11 => RetroEnvironment::SetInputDescriptors,
                12 => RetroEnvironment::SetKeyboardCallback,
                13 => RetroEnvironment::SetDiskControlInterface,
                14 => RetroEnvironment::SetHWRender,
                15 => RetroEnvironment::GetVariable,
                16 => RetroEnvironment::SetVariables,
                17 => RetroEnvironment::GetVariableUpdate,
                18 => RetroEnvironment::SetSupportNoGame,
                19 => RetroEnvironment::GetLibretroPath,
                21 => RetroEnvironment::SetFrameTimeCallback,
                22 => RetroEnvironment::SetAudioCallback,
                23 => RetroEnvironment::GetRumbleInterface,
                24 => RetroEnvironment::GetInputDeviceCapabilities,
                25 => RetroEnvironment::GetSensorInterface,
                26 => RetroEnvironment::GetCameraInterface,
                27 => RetroEnvironment::GetLogInterface,
                28 => RetroEnvironment::GetPerfInterface,
                29 => RetroEnvironment::GetLocationInterface,
                30 => RetroEnvironment::GetCoreAssetsDirectory,
                31 => RetroEnvironment::GetSaveDirectory,
                32 => RetroEnvironment::SetSystemAVInfo,
                33 => RetroEnvironment::SetProcAddress,
                34 => RetroEnvironment::SetSubsystemInfo,
                35 => RetroEnvironment::SetControllerInfo,
                36 => RetroEnvironment::SetMemoryMaps,
                37 => RetroEnvironment::SetGeometry,
                38 => RetroEnvironment::GetUsername,
                39 => RetroEnvironment::GetLanguage,
                40 => RetroEnvironment::GetCurrentSoftwareFramebuffer,
                44 => RetroEnvironment::SetHWSharedContext,
                45 => RetroEnvironment::GetVFSInterface,
                _ => {
                    return None;
                },
            },
        )
    }
}

} // verus!
