//! Verified core of a memo network node.
//!
//! A node takes compressed audio from a wearable, turns whole utterances
//! into text and replicates the text to its peers. This crate holds what a
//! node decides and computes on that way, each function with its contract:
//!
//! - [`audio`]: the framing of audio bundles, the assembly of decoded PCM and
//!   the link to the wearable with its control channel;
//! - [`transcribe`]: the buffer that cuts the PCM stream into utterances, and
//!   the choice of the model;
//! - [`storage`]: transcription records, peer cursors and the store;
//! - [`sync`]: discovery of peers and the pull protocol between them;
//! - [`api`]: messages of the client socket and the retry policy of the
//!   webhook;
//! - [`config`], [`node`], [`report`]: settings, who is told of a new
//!   record, and what the command line shows.
//!
//! Radio, sockets, files, the codec and the speech-to-text engine are the
//! caller's business: the caller performs, this crate decides.

pub mod api;
pub mod audio;
pub mod config;
pub mod filters;
pub mod node;
pub mod report;
pub mod storage;
pub mod sync;
pub mod text;
pub mod transcribe;
pub mod uuids;
