//! The verified core of the MemStore cache provider.

pub mod big_endian;
pub mod call;
pub mod client;
pub mod config;
pub mod envelope;
pub mod envelope_laws;
pub mod error;
pub mod file_info;
pub mod format_laws;
pub mod frame;
pub mod keys;
pub mod lifecycle;
pub mod mutation;
pub mod outcome_laws;
pub mod outside;
pub mod provider;
pub mod raw_get;
pub mod read_buffer;
pub mod read_laws;
pub mod read_session;
pub mod reader;
pub mod runtime;
pub mod status;
pub mod text;
pub mod tracker;
pub mod yuanrong;
pub mod yuanrong_laws;
