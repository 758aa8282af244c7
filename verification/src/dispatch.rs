//! The decisions each side takes for an incoming request, separated from
//! the process plumbing that carries them out.
//!
//! The surrounding process drains the adapter's event queue and hands each
//! fresh request here; the directive says what to do and, where a reply is
//! owed, either carries it or names the follow-up call that builds it.  A
//! blocking request is never left unanswered: where a side cannot service
//! one, [`negative_ack`] supplies the protocol-defined negative
//! acknowledgement with the response tag the sender expects, so the peer is
//! never left blocked.

use vstd::prelude::*;

use crate::errors::CoreError;
use crate::input::InputKey;
use crate::input::key_from_id;
use crate::input::spec_key_from_id;
use crate::messages::MessageTypeView;
use crate::messages::ProtocolMessageType;
use crate::messages::VideoRefreshType;
use crate::messages::spec_is_blocking;
use crate::messages::spec_is_response;
use crate::messages::spec_reply_matches;
use crate::pixel::RetroPixelFormat;
use crate::pixel::spec_format_from;
use crate::retro_types::RawRetroVariable;
use crate::retro_types::RetroAvInfo;
use crate::retro_types::RetroEnvironment;
use crate::retro_types::RetroSystemInfo;
use crate::retro_types::RetroVariable;
use crate::retro_types::RetroVariableView;
use crate::retro_types::spec_environment_from_id;
use crate::retro_types::spec_variable_description;
use crate::retro_types::spec_variable_options;

verus! {

/// The negative acknowledgement owed to each blocking tag: a response of
/// the expected tag with an empty payload.
pub open spec fn spec_negative_ack(m: MessageTypeView) -> Option<MessageTypeView> {
    match m {
        MessageTypeView::Run => Some(MessageTypeView::RunResponse),
        MessageTypeView::SystemInfo => Some(
            MessageTypeView::SystemInfoResponse(
                crate::retro_types::SystemInfoView {
                    library_name: Seq::empty(),
                    library_version: Seq::empty(),
                    valid_extensions: Seq::empty(),
                    need_fullpath: false,
                    block_extract: false,
                },
            ),
        ),
        MessageTypeView::APIVersion => Some(MessageTypeView::APIVersionResponse(0)),
        MessageTypeView::AVInfo => Some(
            MessageTypeView::AVInfoResponse(
                RetroAvInfo {
                    geometry: crate::retro_types::RetroGameGeometry {
                        base_width: 0,
                        base_height: 0,
                        max_width: 0,
                        max_height: 0,
                        aspect_ratio_bits: 0,
                    },
                    timing: crate::retro_types::RetroSystemTiming {
                        fps_bits: 0,
                        sample_rate_bits: 0,
                    },
                },
            ),
        ),
        MessageTypeView::GetVariable(..) => Some(MessageTypeView::GetVariableResponse(None)),
        MessageTypeView::InputState { .. } => Some(MessageTypeView::InputResponse(0)),
        _ => None,
    }
}

/// A negative acknowledgement exists for exactly the blocking tags, and it
/// always carries the response tag its request expects.
pub proof fn lemma_negative_ack_matches(m: MessageTypeView)
    ensures
        spec_negative_ack(m) is Some <==> spec_is_blocking(m),
        spec_negative_ack(m) matches Some(p) ==> spec_is_response(p) && spec_reply_matches(m, p),
{
}

/// The negative acknowledgement for a blocking request this side cannot
/// service: a response of the expected tag with an empty payload, so the
/// sender is unblocked rather than left parked.  `None` for a request that
/// is not blocking, which may simply be dropped.
pub fn negative_ack(event: &ProtocolMessageType) -> (r: Option<ProtocolMessageType>)
    ensures
        match r {
            Some(p) => Some(p@) == spec_negative_ack(event@) && spec_is_blocking(event@)
                && spec_is_response(p@) && spec_reply_matches(event@, p@),
            None => !spec_is_blocking(event@),
        },
{
    match event {
        ProtocolMessageType::Run => Some(ProtocolMessageType::RunResponse),
        ProtocolMessageType::SystemInfo => {
            let info = RetroSystemInfo {
                library_name: String::new(),
                library_version: String::new(),
                valid_extensions: Vec::new(),
                need_fullpath: false,
                block_extract: false,
            };
            proof {
                assert(info@.valid_extensions =~= Seq::<Seq<char>>::empty());
            }
            Some(ProtocolMessageType::SystemInfoResponse(info))
        },
        ProtocolMessageType::APIVersion => Some(ProtocolMessageType::APIVersionResponse(0)),
        ProtocolMessageType::AVInfo => Some(
            ProtocolMessageType::AVInfoResponse(RetroAvInfo::new()),
        ),
        ProtocolMessageType::GetVariable(..) => Some(
            ProtocolMessageType::GetVariableResponse(None),
        ),
        ProtocolMessageType::InputState { .. } => Some(ProtocolMessageType::InputResponse(0)),
        _ => None,
    }
}

// ---------------------------------------------------------------------------
// Frontend side
// ---------------------------------------------------------------------------
/// What the frontend does with one request from the backend.
pub enum FrontendDirective {
    /// Reply at once with this payload, reusing the request's id.
    Reply(ProtocolMessageType),
    /// Ask the renderer whether the key is down, then reply with
    /// [`input_state_reply`]; `None` when the query named an unknown key,
    /// in which case the key counts as not pressed.
    QueryInput(Option<InputKey>),
    /// Hand the frame to the renderer.
    SubmitVideo { framebuffer: Vec<u8>, width: u64, height: u64 },
    /// A hardware frame arrived; this frontend cannot show one.
    HardwareVideoUnsupported,
    /// Hand the samples to the audio sink.
    SubmitAudio(Vec<i16>),
    /// Pump the renderer's input events.
    PollInput,
    /// Nothing to do for this request.
    Ignore,
}

/// The reply to an `InputState` query: 1 when the key is down, 0 when not.
pub fn input_state_reply(down: bool) -> (r: ProtocolMessageType)
    ensures
        r@ == MessageTypeView::InputResponse(
            if down {
                1i16
            } else {
                0i16
            },
        ),
        spec_is_response(r@),
{
    ProtocolMessageType::InputResponse(
        if down {
            1
        } else {
            0
        },
    )
}

/// Decides what the frontend does with one request from the backend.
/// Variable queries are answered `None` at once (variable storage is not a
/// frontend concern); input queries go to the renderer and are always
/// answered; frames and samples go to their devices; a blocking request
/// the frontend cannot service is answered with its negative
/// acknowledgement.
pub fn frontend_dispatch(event: ProtocolMessageType) -> (r: FrontendDirective)
    ensures
        match event@ {
            MessageTypeView::GetVariable(..) => r matches FrontendDirective::Reply(p) && p@
                == MessageTypeView::GetVariableResponse(None),
            MessageTypeView::PollInput => r is PollInput,
            MessageTypeView::InputState { port, device, index, id } => r
                matches FrontendDirective::QueryInput(k) && k == spec_key_from_id(id),
            MessageTypeView::VideoRefresh(refresh) => match refresh {
                crate::messages::VideoRefreshView::Software { framebuffer, width, height } => r
                    matches FrontendDirective::SubmitVideo {
                    framebuffer: f,
                    width: w,
                    height: h,
                } && f@ == framebuffer && w == width && h == height,
                crate::messages::VideoRefreshView::Hardware => r is HardwareVideoUnsupported,
            },
            MessageTypeView::AudioSample(samples) => r matches FrontendDirective::SubmitAudio(s)
                && s@ == samples,
            _ => if spec_is_blocking(event@) {
                r matches FrontendDirective::Reply(p) && Some(p@) == spec_negative_ack(event@)
                    && spec_reply_matches(event@, p@)
            } else {
                r is Ignore
            },
        },
{
    match event {
        ProtocolMessageType::GetVariable(..) => FrontendDirective::Reply(
            ProtocolMessageType::GetVariableResponse(None),
        ),
        ProtocolMessageType::PollInput => FrontendDirective::PollInput,
        ProtocolMessageType::InputState { port, device, index, id } => FrontendDirective::QueryInput(
            key_from_id(id),
        ),
        ProtocolMessageType::VideoRefresh(refresh) => match refresh {
            VideoRefreshType::Software { framebuffer, width, height } => FrontendDirective::SubmitVideo {
                framebuffer,
                width,
                height,
            },
            VideoRefreshType::Hardware => FrontendDirective::HardwareVideoUnsupported,
        },
        ProtocolMessageType::AudioSample(samples) => FrontendDirective::SubmitAudio(samples),
        other => {
            match negative_ack(&other) {
                Some(p) => FrontendDirective::Reply(p),
                None => FrontendDirective::Ignore,
            }
        },
    }
}

// ---------------------------------------------------------------------------
// Backend side
// ---------------------------------------------------------------------------
/// What the backend does with one command from the frontend.
pub enum BackendDirective {
    /// Call `retro_init`.
    CallInit,
    /// Call `retro_deinit`.
    CallDeinit,
    /// Load the named content.
    CallLoad(String),
    /// Call `retro_unload_game`.
    CallUnload,
    /// Call `retro_reset`.
    CallReset,
    /// Call `retro_run`, then reply with [`run_reply`].
    CallRun,
    /// Call `retro_api_version`, then reply with [`api_version_reply`].
    QueryApiVersion,
    /// Call `retro_get_system_info`, then reply with
    /// [`system_info_reply`].
    QuerySystemInfo,
    /// Call `retro_get_system_av_info`, then reply with [`av_info_reply`].
    QueryAvInfo,
    /// A request the backend cannot service; for a blocking one the
    /// negative acknowledgement to send back.
    Unsupported(Option<ProtocolMessageType>),
}

/// The reply that completes a `Run` command.
pub fn run_reply() -> (r: ProtocolMessageType)
    ensures
        r@ == MessageTypeView::RunResponse,
        spec_is_response(r@),
{
    ProtocolMessageType::RunResponse
}

/// The reply that answers an `APIVersion` query.
pub fn api_version_reply(version: u32) -> (r: ProtocolMessageType)
    ensures
        r@ == MessageTypeView::APIVersionResponse(version),
        spec_is_response(r@),
{
    ProtocolMessageType::APIVersionResponse(version)
}

/// The reply that answers a `SystemInfo` query.
pub fn system_info_reply(info: RetroSystemInfo) -> (r: ProtocolMessageType)
    ensures
        r@ == MessageTypeView::SystemInfoResponse(info@),
        spec_is_response(r@),
{
    ProtocolMessageType::SystemInfoResponse(info)
}

/// The reply that answers an `AVInfo` query.
pub fn av_info_reply(info: RetroAvInfo) -> (r: ProtocolMessageType)
    ensures
        r@ == MessageTypeView::AVInfoResponse(info),
        spec_is_response(r@),
{
    ProtocolMessageType::AVInfoResponse(info)
}

/// Decides what the backend does with one command from the frontend.
/// Every blocking command maps to a directive whose follow-up reply
/// carries the matching response tag, or to a ready negative
/// acknowledgement: the frontend is never left waiting.
pub fn backend_dispatch(event: ProtocolMessageType) -> (r: BackendDirective)
    ensures
        match event@ {
            MessageTypeView::Init => r is CallInit,
            MessageTypeView::Deinit => r is CallDeinit,
            MessageTypeView::Load(path) => r matches BackendDirective::CallLoad(p) && p@ == path,
            MessageTypeView::Unload => r is CallUnload,
            MessageTypeView::Reset => r is CallReset,
            MessageTypeView::Run => r is CallRun,
            MessageTypeView::APIVersion => r is QueryApiVersion,
            MessageTypeView::SystemInfo => r is QuerySystemInfo,
            MessageTypeView::AVInfo => r is QueryAvInfo,
            _ => r matches BackendDirective::Unsupported(ack) && (match ack {
                Some(p) => Some(p@) == spec_negative_ack(event@) && spec_is_blocking(event@)
                    && spec_reply_matches(event@, p@),
                None => !spec_is_blocking(event@),
            }),
        },
{
    match event {
        ProtocolMessageType::Init => BackendDirective::CallInit,
        ProtocolMessageType::Deinit => BackendDirective::CallDeinit,
        ProtocolMessageType::Load(path) => BackendDirective::CallLoad(path),
        ProtocolMessageType::Unload => BackendDirective::CallUnload,
        ProtocolMessageType::Reset => BackendDirective::CallReset,
        ProtocolMessageType::Run => BackendDirective::CallRun,
        ProtocolMessageType::APIVersion => BackendDirective::QueryApiVersion,
        ProtocolMessageType::SystemInfo => BackendDirective::QuerySystemInfo,
        ProtocolMessageType::AVInfo => BackendDirective::QueryAvInfo,
        other => BackendDirective::Unsupported(negative_ack(&other)),
    }
}

// ---------------------------------------------------------------------------
// Backend environment callback
// ---------------------------------------------------------------------------
/// What the backend does with one environment command from the core.
#[derive(Debug, Clone, Copy, PartialEq, Eq, Structural)]
pub enum EnvironmentDirective {
    /// Read the `u32` the core passed and store it with
    /// [`apply_pixel_format`].
    StorePixelFormat,
    /// Walk the core's variable array and send `SetVariables`.
    CollectVariables,
    /// Read the key, send a blocking `GetVariable`, and hand the answer
    /// back to the core.
    QueryVariable,
    /// Report whether variables changed since the core last asked.
    VariableUpdate,
    /// Hand the core the save directory's path.
    ProvideSaveDirectory,
    /// Hand the core the system directory's path.
    ProvideSystemDirectory,
    /// A command this host does not support: the callback returns false.
    Unsupported,
}

/// The directive each known environment command maps to.
pub open spec fn spec_environment_directive(env: RetroEnvironment) -> EnvironmentDirective {
    match env {
        RetroEnvironment::SetPixelFormat => EnvironmentDirective::StorePixelFormat,
        RetroEnvironment::SetVariables => EnvironmentDirective::CollectVariables,
        RetroEnvironment::GetVariable => EnvironmentDirective::QueryVariable,
        RetroEnvironment::GetVariableUpdate => EnvironmentDirective::VariableUpdate,
        RetroEnvironment::GetSaveDirectory => EnvironmentDirective::ProvideSaveDirectory,
        RetroEnvironment::GetSystemDirectory => EnvironmentDirective::ProvideSystemDirectory,
        _ => EnvironmentDirective::Unsupported,
    }
}

/// Decides what the backend's environment callback does with a raw command
/// word.  The high bits are flags for API definitions and are masked out;
/// an id this host does not know yields `None`, and the callback returns
/// false for it.
pub fn plan_environment(cmd: u32) -> (r: Option<EnvironmentDirective>)
    ensures
        r == match spec_environment_from_id(cmd & 0xFFFF) {
            Some(env) => Some(spec_environment_directive(env)),
            None => None::<EnvironmentDirective>,
        },
{
    let masked = cmd & 0xFFFF;
    match RetroEnvironment::from_command_id(masked) {
        Some(env) => Some(
            match env {
                RetroEnvironment::SetPixelFormat => EnvironmentDirective::StorePixelFormat,
                RetroEnvironment::SetVariables => EnvironmentDirective::CollectVariables,
                RetroEnvironment::GetVariable => EnvironmentDirective::QueryVariable,
                RetroEnvironment::GetVariableUpdate => EnvironmentDirective::VariableUpdate,
                RetroEnvironment::GetSaveDirectory => EnvironmentDirective::ProvideSaveDirectory,
                RetroEnvironment::GetSystemDirectory => EnvironmentDirective::ProvideSystemDirectory,
                _ => EnvironmentDirective::Unsupported,
            },
        ),
        None => None,
    }
}

/// Stores the pixel format the core chose, when the raw value names one;
/// returns whether the call succeeded, which is what the environment
/// callback reports to the core.
pub fn apply_pixel_format(current: &mut RetroPixelFormat, raw: u32) -> (r: bool)
    ensures
        match spec_format_from(raw) {
            Some(f) => r && *final(current) == f,
            None => !r && *final(current) == *old(current),
        },
{
    match RetroPixelFormat::from(raw) {
        Some(value) => {
            *current = value;
            true
        },
        None => false,
    }
}

/// The parse of one raw variable, if its fields are set and its value is
/// well-formed.
pub open spec fn spec_parse_raw_variable(v: RawRetroVariable) -> Option<RetroVariableView> {
    match (v.key, v.value) {
        (Some(k), Some(val)) => if val@.contains(';') {
            Some(
                RetroVariableView {
                    key: k@,
                    description: spec_variable_description(val@),
                    options: spec_variable_options(val@),
                    selected: spec_variable_options(val@)[0],
                },
            )
        } else {
            None
        },
        _ => None,
    }
}

/// Parses the variable array the core handed to `SetVariables`, already
/// cut at its terminator.  Fails when any entry is malformed.
pub fn parse_raw_variables(raws: &Vec<RawRetroVariable>) -> (r: Result<Vec<RetroVariable>, CoreError>)
    ensures
        match r {
            Ok(vars) => vars@.len() == raws@.len() && forall|i: int|
                0 <= i < raws@.len() ==> spec_parse_raw_variable(#[trigger] raws@[i]) == Some(
                    vars@[i]@,
                ),
            Err(e) => (exists|i: int|
                0 <= i < raws@.len() && spec_parse_raw_variable(#[trigger] raws@[i]) is None)
                && e is BadEncoding,
        },
{
    let mut vars: Vec<RetroVariable> = Vec::new();
    let mut i: usize = 0;
    while i < raws.len()
        invariant
            0 <= i <= raws@.len(),
            vars@.len() == i,
            forall|k: int|
                0 <= k < i ==> spec_parse_raw_variable(#[trigger] raws@[k]) == Some(vars@[k]@),
        decreases raws@.len() - i,
    {
        let parsed = match raws[i].to_owned() {
            Ok(v) => v,
            Err(_) => {
                proof {
                    assert(spec_parse_raw_variable(raws@[i as int]) is None);
                }
                return Err(CoreError::BadEncoding(String::new()));
            },
        };
        proof {
            assert(spec_parse_raw_variable(raws@[i as int]) == Some(parsed@));
        }
        vars.push(parsed);
        i = i + 1;
    }
    Ok(vars)
}

} // verus!
