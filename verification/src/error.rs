//! The error types of the engine and of its subsystems.
use vstd::prelude::*;
use crate::sound_id::{decimal, push_decimal};
use vstd::string::to_string_from_display_ensures;

verus! {

/// `std::io::Error`, the error of file and socket I/O. It is carried opaque in
/// the `Io` variants below; nothing is claimed of its contents.
#[verifier::external_type_specification]
#[verifier::external_body]
pub struct ExIoError(std::io::Error);

/// Errors of the engine's control API.
#[derive(Debug)]
pub enum EngineError {
    AlreadyInitialized,
    NotInitialized,
    InvalidSampleRate(u32),
    InvalidBufferSize(usize),
    SoundNotFound(String),
    Io(std::io::Error),
    Other(String),
}

/// An engine error with its text payloads taken by their characters.
pub enum EngineErrorView {
    AlreadyInitialized,
    NotInitialized,
    InvalidSampleRate(u32),
    InvalidBufferSize(usize),
    SoundNotFound(Seq<char>),
    Io,
    Other(Seq<char>),
}

impl View for EngineError {
    type V = EngineErrorView;

    open spec fn view(&self) -> EngineErrorView {
        match self {
            EngineError::AlreadyInitialized => EngineErrorView::AlreadyInitialized,
            EngineError::NotInitialized => EngineErrorView::NotInitialized,
            EngineError::InvalidSampleRate(r) => EngineErrorView::InvalidSampleRate(*r),
            EngineError::InvalidBufferSize(b) => EngineErrorView::InvalidBufferSize(*b),
            EngineError::SoundNotFound(id) => EngineErrorView::SoundNotFound(id@),
            EngineError::Io(_) => EngineErrorView::Io,
            EngineError::Other(msg) => EngineErrorView::Other(msg@),
        }
    }
}

/// The text of an engine error other than an I/O error; for an I/O error, the
/// text's prefix.
pub open spec fn message_spec(e: EngineErrorView) -> Seq<char> {
    match e {
        EngineErrorView::AlreadyInitialized => "Engine already initialized"@,
        EngineErrorView::NotInitialized => "Engine not initialized"@,
        EngineErrorView::InvalidSampleRate(r) => "Invalid sample rate: "@ + decimal(r as nat),
        EngineErrorView::InvalidBufferSize(b) => "Invalid buffer size: "@ + decimal(b as nat),
        EngineErrorView::SoundNotFound(id) => "Sound not found: "@ + id,
        EngineErrorView::Io => "IO error: "@,
        EngineErrorView::Other(msg) => msg,
    }
}

/// Whether `m` is the text of an I/O error: `IO error: ` followed by what
/// `to_string` gives for the underlying error.
pub open spec fn io_message(e: &std::io::Error, m: Seq<char>) -> bool {
    exists|t: String| #[trigger] to_string_from_display_ensures::<std::io::Error>(e, t) && m == "IO error: "@ + t@
}

/// Whether `m` is the text of the engine error `e`.
pub open spec fn message_matches(e: &EngineError, m: Seq<char>) -> bool {
    match e {
        EngineError::Io(inner) => io_message(inner, m),
        _ => m == message_spec(e@),
    }
}

impl EngineError {
    /// The error's text, as the control API reports it.
    pub fn message(&self) -> (m: String)
        ensures
            message_matches(self, m@),
    {
        match self {
            EngineError::AlreadyInitialized => String::from_str("Engine already initialized"),
            EngineError::NotInitialized => String::from_str("Engine not initialized"),
            EngineError::InvalidSampleRate(r) => {
                let mut s = String::from_str("Invalid sample rate: ");
                push_decimal(&mut s, *r as u64);
                s
            },
            EngineError::InvalidBufferSize(b) => {
                let mut s = String::from_str("Invalid buffer size: ");
                push_decimal(&mut s, *b as u64);
                s
            },
            EngineError::SoundNotFound(id) => {
                let mut s = String::from_str("Sound not found: ");
                s.append(id.as_str());
                s
            },
            EngineError::Io(e) => {
                let mut s = String::from_str("IO error: ");
                let t = e.to_string();
                s.append(t.as_str());
                assert(to_string_from_display_ensures::<std::io::Error>(e, t) && s@ == "IO error: "@ + t@);
                s
            },
            EngineError::Other(msg) => msg.clone(),
        }
    }
}

/// Errors of the file decoder.
#[derive(Debug)]
pub enum DecodeError {
    Io(std::io::Error),
    Probe(String),
    Codec(String),
    Decode(String),
    NoAudioTrack,
}

/// Errors of the DSP node library.
#[derive(Debug)]
pub enum DspError {
    InvalidParam(String),
    UnsupportedSampleRate(u32),
    NodeNotFound,
}

/// Errors of the meters.
#[derive(Debug)]
pub enum MeterError {
    InvalidWindowSize(usize),
    UnsupportedChannels(u16),
}

} // verus!
