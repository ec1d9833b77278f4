use vstd::prelude::*;

verus! {

/// Whether concurrent clients attached to a mount share one running
/// pipeline instance (a live source) or each receive an independent
/// instance (fixed content played from its start).
#[derive(Clone, Copy, Debug, PartialEq, Eq, Structural)]
pub enum Sharing {
    Shared,
    PerClient,
}

/// An immutable description of a media processing graph bound to a
/// mount path. The `description` text is opaque to this library; the
/// external pipeline executor validates it at registration time.
#[derive(Debug)]
pub struct PipelineTemplate {
    pub mount_path: String,
    pub description: String,
    pub sharing: Sharing,
}

impl Clone for PipelineTemplate {
    fn clone(&self) -> (r: Self)
        ensures
            r == *self,
    {
        PipelineTemplate {
            mount_path: self.mount_path.clone(),
            description: self.description.clone(),
            sharing: self.sharing,
        }
    }
}

/// The verdict the external pipeline executor gives on a description,
/// either when validating it at registration time or when trying to
/// instantiate it for a session. It is produced outside this library
/// and handed in as a plain value.
#[derive(Debug)]
pub enum EngineVerdict {
    Accepted,
    Rejected(String),
}

/// The outcome of asking the network collaborator to bind the
/// listening endpoint to a port.
#[derive(Clone, Copy, Debug, PartialEq, Eq, Structural)]
pub enum BindOutcome {
    Bound,
    Refused,
}

/// Failures of the external pipeline executor.
#[derive(Debug)]
pub enum EngineError {
    /// The executor could not realize a description (say, a missing
    /// codec) when a session needed an instance.
    InstantiationFailed(String),
    /// The executor rejected a description when asked to validate it.
    /// Validation happens at registration time, so callers meet this
    /// failure as `RegistryError::ValidationFailed` from `register` and
    /// as `ControllerError::InvalidTemplate` from `start`.
    ValidationFailed(String),
}

/// Failures of mount registration and removal.
#[derive(Debug)]
pub enum RegistryError {
    /// The path is already registered and has active sessions.
    DuplicateMount,
    /// A session is still bound to the mount.
    MountInUse,
    /// The external executor rejected the description, or it was empty.
    ValidationFailed(String),
}

/// Failures of opening a session.
#[derive(Debug)]
pub enum SessionError {
    /// No template is registered under the requested path.
    MountNotFound,
    /// The executor could not realize the description.
    EngineError(EngineError),
}

/// Failures of starting the server.
#[derive(Debug)]
pub enum ControllerError {
    /// `start` was called while the controller was not idle.
    AlreadyRunning,
    /// The listening endpoint could not be bound to the port.
    BindError(u16),
    /// A template failed validation: carries its mount path and the reason.
    InvalidTemplate(String, String),
}

/// Lifecycle state of a pipeline instance. In this synchronous core the
/// engine confirms instantiation and teardown immediately, so `Created`
/// and `Stopping` are passed through inside a single operation and every
/// instance at rest is either `Running` or `Stopped`.
#[derive(Clone, Copy, Debug, PartialEq, Eq, Structural)]
pub enum InstanceState {
    Created,
    Running,
    Stopping,
    Stopped,
}

/// Lifecycle state of the whole server. `stop` runs its ordered shutdown
/// sequence to completion, so `Stopping` is passed through inside that
/// single call and the controller at rest is `Idle` or `Running`.
#[derive(Clone, Copy, Debug, PartialEq, Eq, Structural)]
pub enum RunState {
    Idle,
    Running,
    Stopping,
}

} // verus!
