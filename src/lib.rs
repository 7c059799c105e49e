pub mod chunking;
pub mod config;
pub mod crypto;
pub mod error;
pub mod journal;
pub mod profile;
pub mod protocol;
pub mod receiver;
pub mod resolve;
pub mod sender;
pub mod speaker;
pub mod text;
pub mod transcript;
