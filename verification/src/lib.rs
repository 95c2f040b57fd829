//! A portable, versioned binary log format for recording the execution trace
//! of an instrumented program, together with the recorder state machine that
//! produces such logs and the codecs that read and write them.

pub mod codec;
pub mod event_codec;
pub mod format;
pub mod model;
pub mod pack;
pub mod recorder;
pub mod types;
pub mod wire;
pub mod writers;
