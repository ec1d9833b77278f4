//! Session and lifecycle orchestration core for a real-time media
//! streaming server.
//!
//! The library models the layer that sits above an opaque media pipeline
//! executor: a registry of named mount points, a sharing policy deciding
//! whether concurrent clients share one running pipeline instance, a
//! reference-counted instance table with deterministic teardown, and a
//! server-wide start/stop/restart state machine. The executor itself
//! (parsing and running pipeline descriptions, sockets, the event loop)
//! stays outside; its verdicts enter the library as plain values.

pub mod controller;
pub mod instance;
pub mod registry;
pub mod session;
pub mod types;

pub use types::{
    BindOutcome, ControllerError, EngineError, EngineVerdict, InstanceState, PipelineTemplate,
    RegistryError, RunState, SessionError, Sharing,
};
