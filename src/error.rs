use vstd::prelude::*;

verus! {

/// Errors raised by the library, each with a human-readable message.
#[derive(Debug, Clone)]
pub enum HooverError {
    Audio(String),
    Resample(String),
    Stt(String),
    Config(String),
    Output(String),
    Git(String),
    Crypto(String),
    Network(String),
    Firewall(String),
    Speaker(String),
    Io(String),
    Other(String),
}

impl HooverError {
    /// The message carried by the error.
    pub fn message(&self) -> (r: &String) {
        match self {
            HooverError::Audio(m) => m,
            HooverError::Resample(m) => m,
            HooverError::Stt(m) => m,
            HooverError::Config(m) => m,
            HooverError::Output(m) => m,
            HooverError::Git(m) => m,
            HooverError::Crypto(m) => m,
            HooverError::Network(m) => m,
            HooverError::Firewall(m) => m,
            HooverError::Speaker(m) => m,
            HooverError::Io(m) => m,
            HooverError::Other(m) => m,
        }
    }

    /// The short label that precedes the message when the error is shown.
    pub fn kind_label(&self) -> (r: &'static str) {
        match self {
            HooverError::Audio(_) => "audio error",
            HooverError::Resample(_) => "resample error",
            HooverError::Stt(_) => "STT error",
            HooverError::Config(_) => "config error",
            HooverError::Output(_) => "output error",
            HooverError::Git(_) => "git error",
            HooverError::Crypto(_) => "crypto error",
            HooverError::Network(_) => "network error",
            HooverError::Firewall(_) => "firewall error",
            HooverError::Speaker(_) => "speaker identification error",
            HooverError::Io(_) => "I/O error",
            HooverError::Other(_) => "",
        }
    }
}

} // verus!
