//! Audio backends.
use vstd::prelude::*;
use crate::backend::pipewire::PipeWireBackend;
use crate::text::{
    ascii_lower, eq_str, is_ascii_text, lowercase_chars, lowercase_of, string_of, to_chars,
};

pub mod pipewire;
pub mod switch;

verus! {

/// Why a backend operation did not succeed.
#[derive(Debug)]
pub enum BackendError {
    /// A backend name that no backend has.
    UnknownBackend(String),
    /// Setting the default device failed, with the runner's message.
    SetDefaultFailed(String),
    /// Reading the device's properties failed, with the runner's message.
    SerialLookupFailed(String),
    /// The device's properties hold no `object.serial`.
    SerialNotFound(u32),
    /// Listing the audio objects failed, with the runner's message.
    StreamListFailed(String),
}

/// The sound servers that the menu can drive.
#[derive(Debug, Clone, Copy, PartialEq, Eq, Structural)]
pub enum Backend {
    PipeWire,
    PulseAudio,
}

/// The backend whose name is `lower` (already in lower case).
pub open spec fn backend_named(lower: Seq<char>) -> Option<Backend> {
    if lower == "pipewire"@ {
        Some(Backend::PipeWire)
    } else if lower == "pulseaudio"@ {
        Some(Backend::PulseAudio)
    } else {
        None
    }
}

impl Backend {
    /// The name of the backend, in lower case.
    pub open spec fn label(self) -> Seq<char> {
        match self {
            Backend::PipeWire => "pipewire"@,
            Backend::PulseAudio => "pulseaudio"@,
        }
    }

    /// The backend itself. Only PipeWire is available.
    pub fn create(self) -> (b: PipeWireBackend)
        requires
            self == Backend::PipeWire,
        ensures
            b == PipeWireBackend,
    {
        PipeWireBackend::new()
    }

    /// The name of the backend, in lower case (`pipewire`, `pulseaudio`).
    pub fn to_string(&self) -> (s: String)
        ensures
            s@ == self.label(),
    {
        match self {
            Backend::PipeWire => String::from_str("pipewire"),
            Backend::PulseAudio => String::from_str("pulseaudio"),
        }
    }

    /// The backend with the given name, already in lower case.
    pub fn from_lowercase_name(lower: &str) -> (r: Option<Backend>)
        ensures
            r == backend_named(lower@),
    {
        let l = to_chars(lower);
        if eq_str(l.as_slice(), "pipewire") {
            Some(Backend::PipeWire)
        } else if eq_str(l.as_slice(), "pulseaudio") {
            Some(Backend::PulseAudio)
        } else {
            None
        }
    }

    /// The backend with the given name, in any case.
    pub fn parse(s: &str) -> (r: Result<Backend, BackendError>)
        ensures
            match backend_named(lowercase_of(s@)) {
                Some(b) => r == Ok::<Backend, BackendError>(b),
                None => r matches Err(BackendError::UnknownBackend(n)) && n@ == s@,
            },
            is_ascii_text(s@) ==> match backend_named(ascii_lower(s@)) {
                Some(b) => r == Ok::<Backend, BackendError>(b),
                None => r is Err,
            },
    {
        let chars = to_chars(s);
        let lower = lowercase_chars(chars.as_slice());
        let lower_text = string_of(lower.as_slice());
        match Backend::from_lowercase_name(lower_text.as_str()) {
            Some(b) => Ok(b),
            None => Err(BackendError::UnknownBackend(String::from_str(s))),
        }
    }
}

impl std::str::FromStr for Backend {
    type Err = BackendError;

    fn from_str(s: &str) -> (r: Result<Backend, BackendError>)
        ensures
            match backend_named(lowercase_of(s@)) {
                Some(b) => r == Ok::<Backend, BackendError>(b),
                None => r matches Err(BackendError::UnknownBackend(n)) && n@ == s@,
            },
            is_ascii_text(s@) ==> match backend_named(ascii_lower(s@)) {
                Some(b) => r == Ok::<Backend, BackendError>(b),
                None => r is Err,
            },
    {
        Backend::parse(s)
    }
}

/// A backend's name reads back as that backend.
///
/// The name is ASCII and already in lower case, so that `from_str` of
/// [`Backend::to_string`] gives the backend back (by the ASCII clause of
/// `from_str`'s contract).
pub proof fn law_backend_name_round_trip(b: Backend)
    ensures
        backend_named(b.label()) == Some(b),
        is_ascii_text(b.label()),
        ascii_lower(b.label()) == b.label(),
{
    reveal_strlit("pipewire");
    reveal_strlit("pulseaudio");
    // The two names differ in length.
    assert("pulseaudio"@.len() != "pipewire"@.len());
}

} // verus!
