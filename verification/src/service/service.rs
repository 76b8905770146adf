use vstd::prelude::*;
use vstd::string::StringExecFns;

use crate::event::event::EventView;
use crate::event::observable::{Observable, ObservableView};
use crate::service::types::{Priority, Status};

verus! {

/// A service's immutable identity — stable unique id, display name,
/// priority — together with its status observable. Owned by the service for
/// its whole life; the supervisor reads it and moves the status through the
/// observable, never replacing it.
pub struct ServiceInfo {
    pub id: String,
    pub name: String,
    pub priority: Priority,
    pub status: Observable<Status>,
}

/// The mathematical shape of a `ServiceInfo`.
pub struct ServiceInfoView {
    pub id: Seq<char>,
    pub name: Seq<char>,
    pub priority: Priority,
    pub status: ObservableView<Status>,
}

impl View for ServiceInfo {
    type V = ServiceInfoView;

    open spec fn view(&self) -> ServiceInfoView {
        ServiceInfoView {
            id: self.id@,
            name: self.name@,
            priority: self.priority,
            status: self.status@,
        }
    }
}

impl ServiceInfoView {
    /// The status observable is well formed and its change event carries
    /// the name `new` gives it, derived from the service id.
    pub open spec fn wf(self) -> bool {
        &&& self.status.wf()
        &&& self.status.event.name == self.id + "_status_change"@
    }
}

impl ServiceInfo {
    /// Builds the identity of a service: initial status `Stopped`, with a
    /// change event named after the id.
    pub fn new(id: &str, name: &str, priority: Priority) -> (r: Self)
        ensures
            r@.id == id@,
            r@.name == name@,
            r@.priority == priority,
            r@.status.value == Status::Stopped,
            r@.status.event == (EventView::<Status> {
                name: id@ + "_status_change"@,
                subs: Seq::empty(),
                next_id: 0,
            }),
            r@.wf(),
    {
        let event_name = String::from_str(id).concat("_status_change");
        Self {
            id: id.to_owned(),
            name: name.to_owned(),
            priority,
            status: Observable::new(Status::Stopped, event_name),
        }
    }

    /// Whether the service is up: available exactly while `Started`.
    pub fn is_available(&self) -> (r: bool)
        ensures
            r == (self@.status.value is Started),
    {
        matches!(self.status.get(), Status::Started)
    }
}

/// What the supervisor needs to know to manage one service: its identity
/// and status, whether it exposes a supervised background task, and the
/// capability tag under which `get_service` finds it.
pub struct ServiceRecord {
    pub info: ServiceInfo,
    pub has_task: bool,
    pub kind: String,
}

/// The mathematical shape of a `ServiceRecord`.
pub struct ServiceRecordView {
    pub info: ServiceInfoView,
    pub has_task: bool,
    pub kind: Seq<char>,
}

impl View for ServiceRecord {
    type V = ServiceRecordView;

    open spec fn view(&self) -> ServiceRecordView {
        ServiceRecordView { info: self.info@, has_task: self.has_task, kind: self.kind@ }
    }
}

impl ServiceRecordView {
    pub open spec fn wf(self) -> bool {
        self.info.wf()
    }
}

impl ServiceRecord {
    /// Pairs a service identity with its supervision facts.
    pub fn new(info: ServiceInfo, has_task: bool, kind: String) -> (r: Self)
        ensures
            r@ == (ServiceRecordView { info: info@, has_task, kind: kind@ }),
    {
        Self { info, has_task, kind }
    }
}

} // verus!
