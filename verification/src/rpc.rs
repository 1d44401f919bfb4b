//! Routing of the sidecar's JSON-RPC requests: which engine operation a method
//! name selects, with which parameters, and the plain `{ok, error}` reply.
use vstd::prelude::*;
use crate::error::{message_matches, EngineError};

verus! {

/// The `{ok, error}` reply of a request that returns nothing else.
#[derive(Debug)]
pub struct RpcResult {
    pub ok: bool,
    pub error: Option<String>,
}

impl RpcResult {
    pub fn ok() -> (r: Self)
        ensures
            r.ok,
            r.error is None,
    {
        RpcResult { ok: true, error: None }
    }

    pub fn err(msg: String) -> (r: Self)
        ensures
            !r.ok,
            r.error is Some && r.error->0@ == msg@,
    {
        RpcResult { ok: false, error: Some(msg) }
    }

    /// The reply to a request whose engine call returned `r`: success, or the
    /// error's text.
    pub fn from_unit(r: Result<(), EngineError>) -> (reply: Self)
        ensures
            reply.ok == r is Ok,
            match r {
                Ok(()) => reply.error is None,
                Err(e) => reply.error is Some && message_matches(&e, reply.error->0@),
            },
    {
        match r {
            Ok(()) => RpcResult::ok(),
            Err(e) => RpcResult::err(e.message()),
        }
    }

    /// The reply to a method the server does not know.
    pub fn unknown_method(method: &str) -> (r: Self)
        ensures
            !r.ok,
            r.error is Some && r.error->0@ == "Unknown method: "@ + method@,
    {
        let mut text = String::from_str("Unknown method: ");
        text.append(method);
        RpcResult::err(text)
    }
}

/// The parameters a request may carry, as found in its `params` object (the
/// numeric gains are read by the caller, which owns their float form).
#[derive(Debug)]
pub struct RequestParams {
    pub id: Option<String>,
    pub src: Option<String>,
    pub position_ms: Option<u64>,
    pub looping: Option<bool>,
}

/// What a request asks the engine to do.
#[derive(Debug)]
pub enum Command {
    EngineInit,
    EngineShutdown,
    EngineSuspend,
    EngineResume,
    EngineVersion,
    SoundLoad { src: String },
    SoundPlay { id: String },
    SoundPause { id: String },
    SoundStop { id: String },
    SoundSeek { id: String, position_ms: u64 },
    SoundSetVolume { id: String },
    SoundSetRate { id: String },
    SoundSetLoop { id: String, looping: bool },
    SoundDispose { id: String },
    SoundList,
    MasterSetVolume,
    MasterGet,
    DevicesList,
    Unknown { method: String },
}

/// A command with its texts taken by their characters.
pub enum CommandView {
    EngineInit,
    EngineShutdown,
    EngineSuspend,
    EngineResume,
    EngineVersion,
    SoundLoad { src: Seq<char> },
    SoundPlay { id: Seq<char> },
    SoundPause { id: Seq<char> },
    SoundStop { id: Seq<char> },
    SoundSeek { id: Seq<char>, position_ms: u64 },
    SoundSetVolume { id: Seq<char> },
    SoundSetRate { id: Seq<char> },
    SoundSetLoop { id: Seq<char>, looping: bool },
    SoundDispose { id: Seq<char> },
    SoundList,
    MasterSetVolume,
    MasterGet,
    DevicesList,
    Unknown { method: Seq<char> },
}

impl View for Command {
    type V = CommandView;

    open spec fn view(&self) -> CommandView {
        match self {
            Command::EngineInit => CommandView::EngineInit,
            Command::EngineShutdown => CommandView::EngineShutdown,
            Command::EngineSuspend => CommandView::EngineSuspend,
            Command::EngineResume => CommandView::EngineResume,
            Command::EngineVersion => CommandView::EngineVersion,
            Command::SoundLoad { src } => CommandView::SoundLoad { src: src@ },
            Command::SoundPlay { id } => CommandView::SoundPlay { id: id@ },
            Command::SoundPause { id } => CommandView::SoundPause { id: id@ },
            Command::SoundStop { id } => CommandView::SoundStop { id: id@ },
            Command::SoundSeek { id, position_ms } => CommandView::SoundSeek {
                id: id@,
                position_ms: *position_ms,
            },
            Command::SoundSetVolume { id } => CommandView::SoundSetVolume { id: id@ },
            Command::SoundSetRate { id } => CommandView::SoundSetRate { id: id@ },
            Command::SoundSetLoop { id, looping } => CommandView::SoundSetLoop {
                id: id@,
                looping: *looping,
            },
            Command::SoundDispose { id } => CommandView::SoundDispose { id: id@ },
            Command::SoundList => CommandView::SoundList,
            Command::MasterSetVolume => CommandView::MasterSetVolume,
            Command::MasterGet => CommandView::MasterGet,
            Command::DevicesList => CommandView::DevicesList,
            Command::Unknown { method } => CommandView::Unknown { method: method@ },
        }
    }
}

/// A text parameter, or the empty text where it is missing.
pub open spec fn text_or_empty(p: Option<String>) -> Seq<char> {
    match p {
        Some(s) => s@,
        None => Seq::empty(),
    }
}

/// The command a method name selects, with missing parameters taken as the empty
/// text, position 0 and no looping.
pub open spec fn command_spec(method: Seq<char>, p: RequestParams) -> CommandView {
    let id = text_or_empty(p.id);
    if method == "engine.init"@ {
        CommandView::EngineInit
    } else if method == "engine.shutdown"@ {
        CommandView::EngineShutdown
    } else if method == "engine.suspend"@ {
        CommandView::EngineSuspend
    } else if method == "engine.resume"@ {
        CommandView::EngineResume
    } else if method == "engine.version"@ {
        CommandView::EngineVersion
    } else if method == "sound.load"@ {
        CommandView::SoundLoad { src: text_or_empty(p.src) }
    } else if method == "sound.play"@ {
        CommandView::SoundPlay { id }
    } else if method == "sound.pause"@ {
        CommandView::SoundPause { id }
    } else if method == "sound.stop"@ {
        CommandView::SoundStop { id }
    } else if method == "sound.seek"@ {
        CommandView::SoundSeek {
            id,
            position_ms: match p.position_ms {
                Some(v) => v,
                None => 0,
            },
        }
    } else if method == "sound.setVolume"@ {
        CommandView::SoundSetVolume { id }
    } else if method == "sound.setRate"@ {
        CommandView::SoundSetRate { id }
    } else if method == "sound.setLoop"@ {
        CommandView::SoundSetLoop {
            id,
            looping: match p.looping {
                Some(v) => v,
                None => false,
            },
        }
    } else if method == "sound.dispose"@ {
        CommandView::SoundDispose { id }
    } else if method == "sound.list"@ {
        CommandView::SoundList
    } else if method == "master.setVolume"@ {
        CommandView::MasterSetVolume
    } else if method == "master.get"@ {
        CommandView::MasterGet
    } else if method == "devices.list"@ {
        CommandView::DevicesList
    } else {
        CommandView::Unknown { method }
    }
}

fn is(name: &String, literal: &str) -> (b: bool)
    ensures
        b == (name@ == literal@),
{
    *name == String::from_str(literal)
}

fn text_param(p: &Option<String>) -> (s: String)
    ensures
        s@ == text_or_empty(*p),
{
    match p {
        Some(s) => s.clone(),
        None => String::new(),
    }
}

/// Select the command for a request.
pub fn command_from(method: &str, params: &RequestParams) -> (c: Command)
    ensures
        c@ == command_spec(method@, *params),
{
    let name = method.to_owned();
    if is(&name, "engine.init") {
        Command::EngineInit
    } else if is(&name, "engine.shutdown") {
        Command::EngineShutdown
    } else if is(&name, "engine.suspend") {
        Command::EngineSuspend
    } else if is(&name, "engine.resume") {
        Command::EngineResume
    } else if is(&name, "engine.version") {
        Command::EngineVersion
    } else if is(&name, "sound.load") {
        Command::SoundLoad { src: text_param(&params.src) }
    } else if is(&name, "sound.play") {
        Command::SoundPlay { id: text_param(&params.id) }
    } else if is(&name, "sound.pause") {
        Command::SoundPause { id: text_param(&params.id) }
    } else if is(&name, "sound.stop") {
        Command::SoundStop { id: text_param(&params.id) }
    } else if is(&name, "sound.seek") {
        let position_ms = match params.position_ms {
            Some(v) => v,
            None => 0,
        };
        Command::SoundSeek { id: text_param(&params.id), position_ms }
    } else if is(&name, "sound.setVolume") {
        Command::SoundSetVolume { id: text_param(&params.id) }
    } else if is(&name, "sound.setRate") {
        Command::SoundSetRate { id: text_param(&params.id) }
    } else if is(&name, "sound.setLoop") {
        let looping = match params.looping {
            Some(v) => v,
            None => false,
        };
        Command::SoundSetLoop { id: text_param(&params.id), looping }
    } else if is(&name, "sound.dispose") {
        Command::SoundDispose { id: text_param(&params.id) }
    } else if is(&name, "sound.list") {
        Command::SoundList
    } else if is(&name, "master.setVolume") {
        Command::MasterSetVolume
    } else if is(&name, "master.get") {
        Command::MasterGet
    } else if is(&name, "devices.list") {
        Command::DevicesList
    } else {
        Command::Unknown { method: name }
    }
}

} // verus!
