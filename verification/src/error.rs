//! Typed errors with the context in which they arose.

use vstd::prelude::*;

use crate::ids::{BackendId, CapabilityId, MutationId, SessionId, TargetId};

verus! {

/// What went wrong.
#[derive(Clone, Copy, Debug, PartialEq, Eq, Structural)]
pub enum ErrorCode {
    ConfigError,
    CapabilityError,
    Unsupported,
    AuthorizationError,
    TargetError,
    PlanningError,
    SnapshotError,
    DurabilityError,
    TransportError,
    ApplyError,
    VerificationError,
    RestoreConflict,
    RestoreError,
    JournalCorrupt,
    InvariantViolation,
    InvalidInput,
}

/// The step of a session in which an error arose.
#[derive(Clone, Copy, Debug, PartialEq, Eq, Structural)]
pub enum Stage {
    Config,
    Detect,
    Plan,
    Snapshot,
    DurableIntent,
    Transport,
    Apply,
    Verify,
    Restore,
    Recovery,
}

/// Whether the failed step may be tried again.
#[derive(Clone, Copy, Debug, PartialEq, Eq, Structural)]
pub enum Retryability {
    Never,
    Retry,
    AfterRecovery,
    Unknown,
}

/// An error with its context.
#[derive(Debug, PartialEq, Eq)]
pub struct SysboostError {
    pub code: ErrorCode,
    pub message: String,
    pub stage: Option<Stage>,
    pub retryability: Retryability,
    pub session: Option<SessionId>,
    pub mutation: Option<MutationId>,
    pub target: Option<TargetId>,
    pub capability: Option<CapabilityId>,
    pub backend: Option<BackendId>,
}

/// What an error says, with texts as sequences of characters.
#[verifier::ext_equal]
pub struct ErrorView {
    pub code: ErrorCode,
    pub message: Seq<char>,
    pub stage: Option<Stage>,
    pub retryability: Retryability,
    pub session: Option<SessionId>,
    pub mutation: Option<MutationId>,
    pub target: Option<Seq<char>>,
    pub capability: Option<Seq<char>>,
    pub backend: Option<Seq<char>>,
}

/// An error without context, not to be tried again.
pub open spec fn error_view(code: ErrorCode, message: Seq<char>) -> ErrorView {
    ErrorView {
        code,
        message,
        stage: None,
        retryability: Retryability::Never,
        session: None,
        mutation: None,
        target: None,
        capability: None,
        backend: None,
    }
}

/// The same, in a given step.
pub open spec fn staged(code: ErrorCode, message: Seq<char>, stage: Stage) -> ErrorView {
    ErrorView { stage: Some(stage), ..error_view(code, message) }
}

impl View for SysboostError {
    type V = ErrorView;

    open spec fn view(&self) -> ErrorView {
        ErrorView {
            code: self.code,
            message: self.message@,
            stage: self.stage,
            retryability: self.retryability,
            session: self.session,
            mutation: self.mutation,
            target: match self.target {
                Some(id) => Some(id@),
                None => None,
            },
            capability: match self.capability {
                Some(id) => Some(id@),
                None => None,
            },
            backend: match self.backend {
                Some(id) => Some(id@),
                None => None,
            },
        }
    }
}

impl SysboostError {
    /// An error without context.
    pub fn new(code: ErrorCode, message: &str) -> (r: SysboostError)
        ensures
            r@ == error_view(code, message@),
    {
        SysboostError {
            code,
            message: message.to_string(),
            stage: None,
            retryability: Retryability::Never,
            session: None,
            mutation: None,
            target: None,
            capability: None,
            backend: None,
        }
    }

    pub fn with_stage(self, stage: Stage) -> (r: SysboostError)
        ensures
            r@ == (ErrorView { stage: Some(stage), ..self@ }),
    {
        SysboostError { stage: Some(stage), ..self }
    }

    pub fn retryable(self, retryability: Retryability) -> (r: SysboostError)
        ensures
            r@ == (ErrorView { retryability, ..self@ }),
    {
        SysboostError { retryability, ..self }
    }

    pub fn with_session(self, session: SessionId) -> (r: SysboostError)
        ensures
            r@ == (ErrorView { session: Some(session), ..self@ }),
    {
        SysboostError { session: Some(session), ..self }
    }

    pub fn with_mutation(self, mutation: MutationId) -> (r: SysboostError)
        ensures
            r@ == (ErrorView { mutation: Some(mutation), ..self@ }),
    {
        SysboostError { mutation: Some(mutation), ..self }
    }

    pub fn with_target(self, target: TargetId) -> (r: SysboostError)
        ensures
            r@ == (ErrorView { target: Some(target@), ..self@ }),
    {
        SysboostError { target: Some(target), ..self }
    }

    pub fn with_capability(self, capability: CapabilityId) -> (r: SysboostError)
        ensures
            r@ == (ErrorView { capability: Some(capability@), ..self@ }),
    {
        SysboostError { capability: Some(capability), ..self }
    }

    pub fn with_backend(self, backend: BackendId) -> (r: SysboostError)
        ensures
            r@ == (ErrorView { backend: Some(backend@), ..self@ }),
    {
        SysboostError { backend: Some(backend), ..self }
    }
}

impl Clone for SysboostError {
    fn clone(&self) -> (r: SysboostError)
        ensures
            r@ == self@,
    {
        SysboostError {
            code: self.code,
            message: self.message.clone(),
            stage: self.stage,
            retryability: self.retryability,
            session: self.session,
            mutation: self.mutation,
            target: self.target.clone(),
            capability: self.capability.clone(),
            backend: self.backend.clone(),
        }
    }
}

/// An answer without what it holds.
pub open spec fn outcome<T>(r: Result<T, SysboostError>) -> Result<(), ErrorView> {
    match r {
        Ok(_) => Ok(()),
        Err(e) => Err(e@),
    }
}

/// An answer with what it holds.
pub open spec fn plain<T>(r: Result<T, SysboostError>) -> Result<T, ErrorView> {
    match r {
        Ok(x) => Ok(x),
        Err(e) => Err(e@),
    }
}

/// An answer with what it holds as a plain value.
pub open spec fn viewed<T: View>(r: Result<T, SysboostError>) -> Result<T::V, ErrorView> {
    match r {
        Ok(x) => Ok(x@),
        Err(e) => Err(e@),
    }
}

} // verus!
