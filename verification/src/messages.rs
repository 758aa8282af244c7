//! The message schema of the frontend/backend protocol.
//!
//! Every message is classified by two booleans derived from its tag alone:
//! *blocking* (the sender waits for a correlated response) and *response*
//! (the message is itself such a reply, carrying the originator's id).

use vstd::prelude::*;

use crate::retro_types::RetroAvInfo;
use crate::retro_types::RetroSystemInfo;
use crate::retro_types::RetroVariable;
use crate::retro_types::RetroVariableView;
use crate::retro_types::SystemInfoView;

verus! {

/// Mathematical value of a [`VideoRefreshType`].
pub enum VideoRefreshView {
    Software { framebuffer: Seq<u8>, width: u64, height: u64 },
    Hardware,
}

/// How a core delivers a frame of video.
#[derive(Debug, Clone, PartialEq)]
pub enum VideoRefreshType {
    /// The core rasterised the image itself and sends it as bytes
    /// (RGBA8888, row-major).
    Software { framebuffer: Vec<u8>, width: u64, height: u64 },
    /// The image already lives on the GPU.
    Hardware,
}

impl View for VideoRefreshType {
    type V = VideoRefreshView;

    open spec fn view(&self) -> VideoRefreshView {
        match self {
            VideoRefreshType::Software { framebuffer, width, height } => VideoRefreshView::Software {
                framebuffer: framebuffer@,
                width: *width,
                height: *height,
            },
            VideoRefreshType::Hardware => VideoRefreshView::Hardware,
        }
    }
}

/// Mathematical value of a [`ProtocolMessageType`].
pub enum MessageTypeView {
    SetVariables(Seq<RetroVariableView>),
    GetVariable(Seq<char>),
    VideoRefresh(VideoRefreshView),
    AudioSample(Seq<i16>),
    PollInput,
    InputState { port: u32, device: u32, index: u32, id: u32 },
    SystemInfoResponse(SystemInfoView),
    APIVersionResponse(u32),
    AVInfoResponse(RetroAvInfo),
    RunResponse,
    Init,
    Deinit,
    Load(Seq<char>),
    Unload,
    APIVersion,
    AVInfo,
    Run,
    Reset,
    SystemInfo,
    InputResponse(i16),
    GetVariableResponse(Option<Seq<char>>),
}

/// The payload of a protocol message.
#[derive(Debug, Clone, PartialEq)]
pub enum ProtocolMessageType {
    // Backend -> frontend.
    /// The variables the core exposes.
    SetVariables(Vec<RetroVariable>),
    /// Ask for a variable's current setting.  Blocking.
    GetVariable(String),
    /// The core finished a frame of video.
    VideoRefresh(VideoRefreshType),
    /// One or more interleaved stereo audio samples.
    AudioSample(Vec<i16>),
    /// Ask the frontend to refresh its input state.
    PollInput,
    /// Ask for the state of one input mechanism.  Blocking.
    InputState { port: u32, device: u32, index: u32, id: u32 },
    /// Reply to a `SystemInfo` query.
    SystemInfoResponse(RetroSystemInfo),
    /// Reply to an `APIVersion` query.
    APIVersionResponse(u32),
    /// Reply to an `AVInfo` query.
    AVInfoResponse(RetroAvInfo),
    /// Reply to a `Run` command.
    RunResponse,
    // Frontend -> backend.
    /// Warm the core up.
    Init,
    /// Shut the core down.
    Deinit,
    /// Load the named content.
    Load(String),
    /// Unload the current content.
    Unload,
    /// Ask for the core's API version.  Blocking.
    APIVersion,
    /// Ask for the core's audio/video requirements.  Blocking.
    AVInfo,
    /// Run the core for one frame.  Blocking.
    Run,
    /// Reset the core to its initial state.
    Reset,
    /// Ask for the core's metadata.  Blocking.
    SystemInfo,
    /// Reply to an `InputState` query.
    InputResponse(i16),
    /// Reply to a `GetVariable` query.
    GetVariableResponse(Option<String>),
}

impl View for ProtocolMessageType {
    type V = MessageTypeView;

    open spec fn view(&self) -> MessageTypeView {
        match self {
            ProtocolMessageType::SetVariables(vars) => MessageTypeView::SetVariables(
                vars@.map_values(|v: RetroVariable| v@),
            ),
            ProtocolMessageType::GetVariable(key) => MessageTypeView::GetVariable(key@),
            ProtocolMessageType::VideoRefresh(refresh) => MessageTypeView::VideoRefresh(refresh@),
            ProtocolMessageType::AudioSample(samples) => MessageTypeView::AudioSample(samples@),
            ProtocolMessageType::PollInput => MessageTypeView::PollInput,
            ProtocolMessageType::InputState { port, device, index, id } => MessageTypeView::InputState {
                port: *port,
                device: *device,
                index: *index,
                id: *id,
            },
            ProtocolMessageType::SystemInfoResponse(info) => MessageTypeView::SystemInfoResponse(
                info@,
            ),
            ProtocolMessageType::APIVersionResponse(version) => MessageTypeView::APIVersionResponse(
                *version,
            ),
            ProtocolMessageType::AVInfoResponse(info) => MessageTypeView::AVInfoResponse(*info),
            ProtocolMessageType::RunResponse => MessageTypeView::RunResponse,
            ProtocolMessageType::Init => MessageTypeView::Init,
            ProtocolMessageType::Deinit => MessageTypeView::Deinit,
            ProtocolMessageType::Load(path) => MessageTypeView::Load(path@),
            ProtocolMessageType::Unload => MessageTypeView::Unload,
            ProtocolMessageType::APIVersion => MessageTypeView::APIVersion,
            ProtocolMessageType::AVInfo => MessageTypeView::AVInfo,
            ProtocolMessageType::Run => MessageTypeView::Run,
            ProtocolMessageType::Reset => MessageTypeView::Reset,
            ProtocolMessageType::SystemInfo => MessageTypeView::SystemInfo,
            ProtocolMessageType::InputResponse(state) => MessageTypeView::InputResponse(*state),
            ProtocolMessageType::GetVariableResponse(value) => MessageTypeView::GetVariableResponse(
                match value {
                    Some(s) => Some(s@),
                    None => None,
                },
            ),
        }
    }
}

/// Whether the sender of this message must wait for a response: a pure
/// function of the tag.
pub open spec fn spec_is_blocking(m: MessageTypeView) -> bool {
    match m {
        MessageTypeView::InputState { .. } => true,
        MessageTypeView::APIVersion => true,
        MessageTypeView::SystemInfo => true,
        MessageTypeView::GetVariable(..) => true,
        MessageTypeView::AVInfo => true,
        MessageTypeView::Run => true,
        _ => false,
    }
}

/// Whether this message is itself the response to an earlier request: a pure
/// function of the tag.
pub open spec fn spec_is_response(m: MessageTypeView) -> bool {
    match m {
        MessageTypeView::InputResponse(..) => true,
        MessageTypeView::SystemInfoResponse(..) => true,
        MessageTypeView::APIVersionResponse(..) => true,
        MessageTypeView::GetVariableResponse(..) => true,
        MessageTypeView::AVInfoResponse(..) => true,
        MessageTypeView::RunResponse => true,
        _ => false,
    }
}

/// Whether `resp` carries the response tag that the blocking request `req`
/// expects.
pub open spec fn spec_reply_matches(req: MessageTypeView, resp: MessageTypeView) -> bool {
    match req {
        MessageTypeView::Run => resp is RunResponse,
        MessageTypeView::SystemInfo => resp is SystemInfoResponse,
        MessageTypeView::APIVersion => resp is APIVersionResponse,
        MessageTypeView::AVInfo => resp is AVInfoResponse,
        MessageTypeView::GetVariable(..) => resp is GetVariableResponse,
        MessageTypeView::InputState { .. } => resp is InputResponse,
        _ => false,
    }
}

impl ProtocolMessageType {
    /// Returns whether this message should be blocked on.
    pub fn is_blocking(&self) -> (r: bool)
        ensures
            r == spec_is_blocking(self@),
    {
        match self {
            ProtocolMessageType::InputState { .. } => true,
            ProtocolMessageType::APIVersion => true,
            ProtocolMessageType::SystemInfo => true,
            ProtocolMessageType::GetVariable(..) => true,
            ProtocolMessageType::AVInfo => true,
            ProtocolMessageType::Run => true,
            _ => false,
        }
    }

    /// Returns whether this message is a response to something, and should be
    /// routed back to the waiting sender.
    pub fn is_response(&self) -> (r: bool)
        ensures
            r == spec_is_response(self@),
    {
        match self {
            ProtocolMessageType::InputResponse(..) => true,
            ProtocolMessageType::SystemInfoResponse(..) => true,
            ProtocolMessageType::APIVersionResponse(..) => true,
            ProtocolMessageType::GetVariableResponse(..) => true,
            ProtocolMessageType::AVInfoResponse(..) => true,
            ProtocolMessageType::RunResponse => true,
            _ => false,
        }
    }
}

/// No response tag is itself blocking, so replying never registers a new
/// waiter: the correlation table only ever holds ids of fresh requests.
pub proof fn lemma_response_never_blocking(m: MessageTypeView)
    ensures
        spec_is_response(m) ==> !spec_is_blocking(m),
{
}

/// Mathematical value of a [`ProtocolMessage`].
pub struct MessageView {
    pub id: u64,
    pub data: MessageTypeView,
}

/// The wire envelope: a correlation id and a payload.
#[derive(Debug, Clone, PartialEq)]
pub struct ProtocolMessage {
    /// Uniquely identifies a message; a response carries the id of the
    /// request it answers.
    pub id: u64,
    pub data: ProtocolMessageType,
}

impl View for ProtocolMessage {
    type V = MessageView;

    open spec fn view(&self) -> MessageView {
        MessageView { id: self.id, data: self.data@ }
    }
}

} // verus!
