use vstd::prelude::*;
use vstd::string::StringExecFns;

use crate::event::event_repeater::{AttachError, DetachError};
use crate::event::value::EventValue;

verus! {

/// The lifecycle states a service moves through. The failure variants carry
/// a human-readable reason; two statuses compare equal when they are the same
/// variant, whatever the reason text says.
#[derive(Debug, Clone)]
pub enum Status {
    Started,
    Stopped,
    Starting,
    Stopping,
    FailedToStart(String),
    FailedToStop(String),
    RuntimeError(String),
}

impl Status {
    /// Whether `self` and `other` are the same variant (reasons ignored):
    /// the equality `==` and the observable change gate decide by this.
    pub open spec fn same_variant(self, other: Status) -> bool {
        match self {
            Status::Started => other is Started,
            Status::Stopped => other is Stopped,
            Status::Starting => other is Starting,
            Status::Stopping => other is Stopping,
            Status::FailedToStart(_) => other is FailedToStart,
            Status::FailedToStop(_) => other is FailedToStop,
            Status::RuntimeError(_) => other is RuntimeError,
        }
    }

    /// The text `as_text` renders.
    pub open spec fn text_spec(self) -> Seq<char> {
        match self {
            Status::Started => "Started"@,
            Status::Stopped => "Stopped"@,
            Status::Starting => "Starting"@,
            Status::Stopping => "Stopping"@,
            Status::FailedToStart(reason) => "Failed to start: "@ + reason@,
            Status::FailedToStop(reason) => "Failed to stop: "@ + reason@,
            Status::RuntimeError(reason) => "Runtime error: "@ + reason@,
        }
    }

    /// Renders the status for reports, with the reason on failure variants.
    pub fn as_text(&self) -> (r: String)
        ensures
            r@ == self.text_spec(),
    {
        match self {
            Status::Started => String::from_str("Started"),
            Status::Stopped => String::from_str("Stopped"),
            Status::Starting => String::from_str("Starting"),
            Status::Stopping => String::from_str("Stopping"),
            Status::FailedToStart(reason) => String::from_str("Failed to start: ").concat(
                reason.as_str(),
            ),
            Status::FailedToStop(reason) => String::from_str("Failed to stop: ").concat(
                reason.as_str(),
            ),
            Status::RuntimeError(reason) => String::from_str("Runtime error: ").concat(
                reason.as_str(),
            ),
        }
    }
}

impl PartialEq for Status {
    /// Statuses are equal when they are the same variant; reason texts do
    /// not take part in the comparison.
    fn eq(&self, other: &Self) -> (r: bool) {
        match self {
            Status::Started => matches!(*other, Status::Started),
            Status::Stopped => matches!(*other, Status::Stopped),
            Status::Starting => matches!(*other, Status::Starting),
            Status::Stopping => matches!(*other, Status::Stopping),
            Status::FailedToStart(_) => matches!(*other, Status::FailedToStart(_)),
            Status::FailedToStop(_) => matches!(*other, Status::FailedToStop(_)),
            Status::RuntimeError(_) => matches!(*other, Status::RuntimeError(_)),
        }
    }
}

impl ::vstd::std_specs::cmp::PartialEqSpecImpl for Status {
    open spec fn obeys_eq_spec() -> bool {
        true
    }

    open spec fn eq_spec(&self, other: &Status) -> bool {
        match *self {
            Status::Started => *other is Started,
            Status::Stopped => *other is Stopped,
            Status::Starting => *other is Starting,
            Status::Stopping => *other is Stopping,
            Status::FailedToStart(_) => *other is FailedToStart,
            Status::FailedToStop(_) => *other is FailedToStop,
            Status::RuntimeError(_) => *other is RuntimeError,
        }
    }
}

impl Eq for Status {

}

impl EventValue for Status {
    open spec fn eqv(&self, other: &Self) -> bool {
        self.same_variant(*other)
    }

    proof fn lemma_eqv_reflexive(&self) {
    }

    fn dup(&self) -> (r: Self) {
        match self {
            Status::Started => Status::Started,
            Status::Stopped => Status::Stopped,
            Status::Starting => Status::Starting,
            Status::Stopping => Status::Stopping,
            Status::FailedToStart(reason) => Status::FailedToStart(reason.clone()),
            Status::FailedToStop(reason) => Status::FailedToStop(reason.clone()),
            Status::RuntimeError(reason) => Status::RuntimeError(reason.clone()),
        }
    }

    fn same(&self, other: &Self) -> (r: bool) {
        match self {
            Status::Started => matches!(*other, Status::Started),
            Status::Stopped => matches!(*other, Status::Stopped),
            Status::Starting => matches!(*other, Status::Starting),
            Status::Stopping => matches!(*other, Status::Stopping),
            Status::FailedToStart(_) => matches!(*other, Status::FailedToStart(_)),
            Status::FailedToStop(_) => matches!(*other, Status::FailedToStop(_)),
            Status::RuntimeError(_) => matches!(*other, Status::RuntimeError(_)),
        }
    }
}

/// Aggregate health of a supervisor: `Healthy` exactly when every
/// `Essential` service is `Started`.
#[derive(Debug, PartialEq, Eq, Structural, Hash, Clone, Copy)]
pub enum OverallStatus {
    Healthy,
    Unhealthy,
}

/// How much a service's failure matters to aggregate health: failures of
/// `Optional` services never make the supervisor unhealthy.
#[derive(Debug, PartialEq, Eq, Structural, Hash, Clone, Copy)]
pub enum Priority {
    Essential,
    Optional,
}

/// Why starting a service was refused or failed. Every variant names the
/// service by its id.
#[derive(Debug)]
pub enum StartupError {
    ServiceNotManaged(String),
    ServiceNotStopped(String),
    BackgroundTaskAlreadyRunning(String),
    StatusAttachmentFailed(String, AttachError),
    FailedToStartService(String),
}

/// Why stopping a service was refused or failed. Every variant names the
/// service by its id.
#[derive(Debug)]
pub enum ShutdownError {
    ServiceNotManaged(String),
    ServiceNotStarted(String),
    FailedToStopService(String),
    StatusDetachmentFailed(String, DetachError),
}

} // verus!
