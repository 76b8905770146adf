use vstd::prelude::*;
use vstd::string::StringExecFns;

use crate::event::event::{descended_from, lemma_dispatch_spec_shape, EventView};
use crate::event::event_repeater::{
    find_attachment, lemma_find_attachment, AttachmentView, EventRepeater, EventRepeaterView,
};
use crate::event::observable::{set_spec, ObservableView};
use crate::event::subscriber::{CallbackView, SubscriberView};
use crate::event::value::EventValue;
use crate::service::service::{ServiceInfoView, ServiceRecord, ServiceRecordView};
use crate::service::types::{OverallStatus, Priority, ShutdownError, StartupError, Status};

verus! {

/// How many status values the supervisor's subscription on one service may
/// hold before forwarding; older values must be pumped out before more
/// arrive.
pub const STATUS_CHANNEL_BUFFER: usize = 2;

/// The position of the service with id `id` in registration order, or `-1`.
pub open spec fn find_service(services: Seq<ServiceRecordView>, id: Seq<char>) -> int
    decreases services.len(),
{
    if services.len() == 0 {
        -1
    } else if services[0].info.id == id {
        0
    } else {
        let r = find_service(services.drop_first(), id);
        if r == -1 {
            -1
        } else {
            r + 1
        }
    }
}

/// `find_service` returns `-1` exactly when no service carries `id`, and
/// otherwise the first position carrying it.
pub proof fn lemma_find_service(services: Seq<ServiceRecordView>, id: Seq<char>)
    ensures
        find_service(services, id) == -1 ==> forall|i: int|
            0 <= i < services.len() ==> (#[trigger] services[i]).info.id != id,
        find_service(services, id) != -1 ==> {
            &&& 0 <= find_service(services, id) < services.len()
            &&& services[find_service(services, id)].info.id == id
            &&& forall|i: int|
                0 <= i < find_service(services, id) ==> (#[trigger] services[i]).info.id != id
        },
    decreases services.len(),
{
    if services.len() > 0 && services[0].info.id != id {
        lemma_find_service(services.drop_first(), id);
        let r = find_service(services.drop_first(), id);
        assert(forall|i: int|
            0 <= i < services.drop_first().len() ==> (#[trigger] services.drop_first()[i])
                == services[i + 1]);
        if r != -1 {
            assert forall|i: int| 0 <= i < r + 1 implies (#[trigger] services[i]).info.id != id by {
                if i > 0 {
                    assert(services.drop_first()[i - 1] == services[i]);
                }
            }
        } else {
            assert forall|i: int| 0 <= i < services.len() implies (#[trigger] services[i]).info.id
                != id by {
                if i > 0 {
                    assert(services.drop_first()[i - 1] == services[i]);
                }
            }
        }
    }
}

/// Registering a service keeps the registry as it is when the id is taken,
/// and appends the service otherwise.
pub open spec fn register_spec(
    services: Seq<ServiceRecordView>,
    service: ServiceRecordView,
) -> Seq<ServiceRecordView> {
    if find_service(services, service.info.id) != -1 {
        services
    } else {
        services.push(service)
    }
}

/// The first registration wins: after a service is registered on a registry
/// free of its id, registering any second service under the same id leaves
/// the registry exactly as the first registration left it.
pub proof fn lemma_duplicate_registration_keeps_first(
    services: Seq<ServiceRecordView>,
    first: ServiceRecordView,
    second: ServiceRecordView,
)
    requires
        first.info.id == second.info.id,
        find_service(services, first.info.id) == -1,
    ensures
        register_spec(register_spec(services, first), second) == services.push(first),
{
    let one = register_spec(services, first);
    assert(one == services.push(first));
    lemma_find_service(one, second.info.id);
    if find_service(one, second.info.id) == -1 {
        assert(one[services.len() as int].info.id != second.info.id);
        assert(false);
    }
}

/// The supervisor's registry of services, fixed at construction: the
/// ordered service records, the ids whose background task is being
/// supervised, and the repeater aggregating every attached service's status
/// stream into one outward event.
pub struct ServiceManager {
    services: Vec<ServiceRecord>,
    background_tasks: Vec<String>,
    on_status_change: EventRepeater<Status>,
}

/// The mathematical shape of a `ServiceManager`.
pub struct ServiceManagerView {
    pub services: Seq<ServiceRecordView>,
    pub tasks: Seq<Seq<char>>,
    pub repeater: EventRepeaterView<Status>,
}

impl View for ServiceManager {
    type V = ServiceManagerView;

    closed spec fn view(&self) -> ServiceManagerView {
        ServiceManagerView {
            services: self.services@.map_values(|s: ServiceRecord| s@),
            tasks: self.background_tasks@.map_values(|s: String| s@),
            repeater: self.on_status_change@,
        }
    }
}

impl ServiceManagerView {
    /// What the supervisor's invariant asks of the service at position `i`:
    /// the record is well formed, its status event takes channel subscribers
    /// only, its event is attached to the repeater exactly while its status
    /// is away from `Stopped`, and its id sits in the background-task table
    /// exactly while it is `Started` and declares a task.
    pub open spec fn service_ok(self, i: int) -> bool {
        let svc = self.services[i];
        &&& svc.wf()
        &&& svc.info.status.event.channels_only()
        &&& (!(svc.info.status.value is Stopped) <==> self.repeater.attached(
            svc.info.status.event.name,
        ))
        &&& (self.tasks.contains(svc.info.id) <==> (svc.info.status.value is Started
            && svc.has_task))
    }

    /// The supervisor's running invariant: every service satisfies
    /// `service_ok`, ids are distinct, the repeater is well formed, and no
    /// id is supervised twice.
    pub open spec fn wf(self) -> bool {
        &&& forall|i: int| 0 <= i < self.services.len() ==> #[trigger] self.service_ok(i)
        &&& forall|i: int, j: int|
            0 <= i < j < self.services.len() ==> (#[trigger] self.services[i]).info.id != (
            #[trigger] self.services[j]).info.id
        &&& self.repeater.wf()
        &&& forall|k: int, l: int|
            0 <= k < l < self.tasks.len() ==> (#[trigger] self.tasks[k]) != (
            #[trigger] self.tasks[l])
    }

    /// Whether a service with id `id` is registered.
    pub open spec fn manages(self, id: Seq<char>) -> bool {
        find_service(self.services, id) != -1
    }

    /// `Healthy` exactly when every `Essential` service is `Started`;
    /// `Optional` services never count.
    pub open spec fn overall_status_spec(self) -> OverallStatus {
        if forall|i: int|
            0 <= i < self.services.len() && (#[trigger] self.services[i]).info.priority
                is Essential ==> self.services[i].info.status.value is Started {
            OverallStatus::Healthy
        } else {
            OverallStatus::Unhealthy
        }
    }
}

/// Appending the same tail to two different id sequences cannot make them
/// equal; service ids therefore name status events injectively.
pub proof fn lemma_append_injective(a: Seq<char>, b: Seq<char>, tail: Seq<char>)
    requires
        a + tail == b + tail,
    ensures
        a == b,
{
    assert((a + tail).len() == a.len() + tail.len());
    assert((b + tail).len() == b.len() + tail.len());
    assert(a.len() == b.len());
    assert forall|i: int| 0 <= i < a.len() implies a[i] == b[i] by {
        assert((a + tail)[i] == a[i]);
        assert((b + tail)[i] == b[i]);
    }
    assert(a =~= b);
}

/// `find_attachment` finds an entry exactly when one carries the name.
pub proof fn lemma_attached_iff_exists(atts: Seq<AttachmentView>, name: Seq<char>)
    ensures
        find_attachment(atts, name) != -1 <==> exists|k: int|
            0 <= k < atts.len() && (#[trigger] atts[k]).source_name == name,
{
    lemma_find_attachment(atts, name);
    if find_attachment(atts, name) != -1 {
        let f = find_attachment(atts, name);
        assert(atts[f].source_name == name);
    }
}

/// The channel subscriber `attach` opens for the repeater on a service's
/// status event.
pub open spec fn repeater_sub(rep_name: Seq<char>, id: u64) -> SubscriberView<Status> {
    SubscriberView {
        id,
        name: rep_name,
        remove_on_error: true,
        callback: CallbackView::Channel {
            queue: Seq::empty(),
            capacity: STATUS_CHANNEL_BUFFER as nat,
            closed: false,
        },
    }
}

/// `svc` with its status observable replaced.
pub open spec fn with_status(
    svc: ServiceRecordView,
    status: ObservableView<Status>,
) -> ServiceRecordView {
    ServiceRecordView { info: ServiceInfoView { status, ..svc.info }, ..svc }
}

/// One `set` on a status observable, as the supervisor performs it; the
/// callback outcomes play no part, every subscriber being a channel.
pub open spec fn status_set(obs: ObservableView<Status>, status: Status) -> ObservableView<
    Status,
> {
    set_spec(obs, status, Seq::empty()).0
}

/// For a status event of channel subscribers only, `set` gives the same
/// observable whatever callback outcomes are passed.
pub proof fn lemma_status_set_outs(
    obs: ObservableView<Status>,
    v: Status,
    outs: Seq<Option<String>>,
)
    requires
        obs.event.channels_only(),
    ensures
        set_spec(obs, v, outs).0 == status_set(obs, v),
        set_spec(obs, v, outs).1 == set_spec(obs, v, Seq::empty()).1,
        set_spec(obs, v, outs).2 == set_spec(obs, v, Seq::empty()).2,
{
    crate::event::event_repeater::lemma_dispatch_outs_irrelevant(
        obs.event.subs,
        v,
        outs,
        Seq::empty(),
    );
}

/// A status `set` keeps the observable well formed, its event's identity
/// and its channel-only shape, and moves the value exactly when it changed.
pub proof fn lemma_status_set_shape(obs: ObservableView<Status>, v: Status)
    requires
        obs.wf(),
        obs.event.channels_only(),
    ensures
        status_set(obs, v).wf(),
        status_set(obs, v).event.channels_only(),
        status_set(obs, v).event.name == obs.event.name,
        status_set(obs, v).event.next_id == obs.event.next_id,
        status_set(obs, v).value == if v.eqv(&obs.value) {
            obs.value
        } else {
            v
        },
{
    if !v.eqv(&obs.value) {
        lemma_dispatch_spec_shape(obs.event.subs, v, Seq::empty(), obs.event.next_id);
        let subs2 = status_set(obs, v).event.subs;
        assert forall|i: int| 0 <= i < subs2.len() implies !(#[trigger] subs2[i]).is_callback()
        by {
            let j = choose|j: int|
                0 <= j < obs.event.subs.len() && descended_from(subs2[i], obs.event.subs[j], v);
            assert(!obs.event.subs[j].is_callback());
        }
    }
}

/// What a start attempt does to one service record: nothing unless the
/// service is `Stopped`; otherwise its status event first gains the
/// repeater's channel subscription, the status then moves to `Starting`,
/// and finally to `Started` on a successful outcome or to `FailedToStart`
/// carrying the outcome's reason.
pub open spec fn start_record_spec(
    svc: ServiceRecordView,
    rep_name: Seq<char>,
    outcome: Result<(), String>,
) -> ServiceRecordView {
    if !(svc.info.status.value is Stopped) {
        svc
    } else {
        let ev = svc.info.status.event;
        let attached = with_status(
            svc,
            ObservableView {
                value: svc.info.status.value,
                event: EventView {
                    subs: ev.subs.push(repeater_sub(rep_name, ev.next_id)),
                    next_id: (ev.next_id + 1) as u64,
                    ..ev
                },
            },
        );
        let starting = with_status(
            attached,
            status_set(attached.info.status, Status::Starting),
        );
        match outcome {
            Ok(()) => with_status(starting, status_set(starting.info.status, Status::Started)),
            Err(e) => with_status(
                starting,
                status_set(starting.info.status, Status::FailedToStart(e)),
            ),
        }
    }
}

/// The record a start attempt leaves keeps the service's identity, its
/// event's name, its channel-only shape and its well-formedness, and moves
/// a `Stopped` service's status to `Started` or `FailedToStart` as the
/// outcome says.
proof fn lemma_start_record_shape(
    svc: ServiceRecordView,
    rep_name: Seq<char>,
    outcome: Result<(), String>,
)
    requires
        svc.wf(),
        svc.info.status.event.channels_only(),
        svc.info.status.value is Stopped,
        svc.info.status.event.next_id < u64::MAX,
    ensures
        ({
            let out = start_record_spec(svc, rep_name, outcome);
            &&& out.info.id == svc.info.id
            &&& out.info.name == svc.info.name
            &&& out.info.priority == svc.info.priority
            &&& out.has_task == svc.has_task
            &&& out.kind == svc.kind
            &&& out.info.status.event.name == svc.info.status.event.name
            &&& out.wf()
            &&& out.info.status.event.channels_only()
            &&& out.info.status.value == (match outcome {
                Ok(()) => Status::Started,
                Err(e) => Status::FailedToStart(e),
            })
        }),
{
    let ev = svc.info.status.event;
    let newsub = repeater_sub(rep_name, ev.next_id);
    let attached_obs = ObservableView {
        value: svc.info.status.value,
        event: EventView {
            subs: ev.subs.push(newsub),
            next_id: (ev.next_id + 1) as u64,
            ..ev
        },
    };
    assert(attached_obs.event.channels_only() && attached_obs.event.wf()) by {
        let subs = attached_obs.event.subs;
        assert forall|k: int| 0 <= k < subs.len() implies !(#[trigger] subs[k]).is_callback()
            && subs[k].id < attached_obs.event.next_id && match subs[k].callback {
            CallbackView::Channel { capacity, .. } => capacity >= 1,
            _ => true,
        } by {
            if k < subs.len() - 1 {
                assert(subs[k] == ev.subs[k]);
            }
        }
        assert forall|a: int, b: int| 0 <= a < b < subs.len() implies (#[trigger] subs[a]).id != (
        #[trigger] subs[b]).id by {
            if b < subs.len() - 1 {
                assert(subs[a] == ev.subs[a] && subs[b] == ev.subs[b]);
            } else {
                assert(subs[a] == ev.subs[a]);
            }
        }
    }
    lemma_status_set_shape(attached_obs, Status::Starting);
    let starting_obs = status_set(attached_obs, Status::Starting);
    assert(starting_obs.value == Status::Starting);
    lemma_status_set_shape(
        starting_obs,
        match outcome {
            Ok(()) => Status::Started,
            Err(e) => Status::FailedToStart(e),
        },
    );
}

/// A start attempt on a `Stopped` service keeps the supervisor's invariant.
proof fn lemma_start_preserves_wf(
    pre: ServiceManagerView,
    i: int,
    outcome: Result<(), String>,
    final_svc: ServiceRecordView,
    post: ServiceManagerView,
)
    requires
        pre.wf(),
        0 <= i < pre.services.len(),
        pre.services[i].info.status.value is Stopped,
        pre.services[i].info.status.event.next_id < u64::MAX,
        final_svc == start_record_spec(pre.services[i], pre.repeater.event.name, outcome),
        post.services == pre.services.update(i, final_svc),
        post.repeater.event == pre.repeater.event,
        post.repeater.attachments == pre.repeater.attachments.push(
            AttachmentView {
                source_name: pre.services[i].info.status.event.name,
                subscriber_id: pre.services[i].info.status.event.next_id,
            },
        ),
        post.repeater.wf(),
        (outcome is Ok && pre.services[i].has_task) ==> post.tasks == pre.tasks.push(
            pre.services[i].info.id,
        ),
        !(outcome is Ok && pre.services[i].has_task) ==> post.tasks == pre.tasks,
    ensures
        post.wf(),
{
    let svc0 = pre.services[i];
    assert(pre.service_ok(i));
    lemma_start_record_shape(svc0, pre.repeater.event.name, outcome);
    let pushed_task = outcome is Ok && svc0.has_task;
    assert(!pre.tasks.contains(svc0.info.id));
    // identities: ids and event names are unchanged at every position
    assert(forall|j: int|
        0 <= j < post.services.len() ==> (#[trigger] post.services[j]).info.id
            == pre.services[j].info.id && post.services[j].info.status.event.name
            == pre.services[j].info.status.event.name);
    // event names are injective in the ids
    assert forall|a: int, b: int|
        0 <= a < pre.services.len() && 0 <= b < pre.services.len() && a != b implies (
    #[trigger] pre.services[a]).info.status.event.name != (
    #[trigger] pre.services[b]).info.status.event.name by {
        assert(pre.service_ok(a));
        assert(pre.service_ok(b));
        if pre.services[a].info.status.event.name == pre.services[b].info.status.event.name {
            lemma_append_injective(
                pre.services[a].info.id,
                pre.services[b].info.id,
                "_status_change"@,
            );
        }
    }
    assert forall|j: int| 0 <= j < post.services.len() implies #[trigger] post.service_ok(j) by {
        let svc = post.services[j];
        let name_j = svc.info.status.event.name;
        let atts = pre.repeater.attachments;
        let patts = post.repeater.attachments;
        assert(pre.service_ok(j));
        lemma_attached_iff_exists(atts, name_j);
        lemma_attached_iff_exists(patts, name_j);
        if j == i {
            assert(svc == final_svc);
            assert(patts[atts.len() as int].source_name == name_j);
            assert(post.repeater.attached(name_j));
            if pushed_task {
                assert(post.tasks[pre.tasks.len() as int] == svc.info.id);
                assert(post.tasks.contains(svc.info.id));
            } else {
                assert(!post.tasks.contains(svc.info.id)) by {
                    if post.tasks.contains(svc.info.id) {
                        let k = choose|k: int|
                            0 <= k < post.tasks.len() && post.tasks[k] == svc.info.id;
                        assert(pre.tasks[k] == svc0.info.id);
                        assert(pre.tasks.contains(svc0.info.id));
                    }
                }
            }
        } else {
            assert(svc == pre.services[j]);
            assert(name_j != pre.services[i].info.status.event.name);
            // attachment presence is unchanged for other services
            assert(post.repeater.attached(name_j) <==> pre.repeater.attached(name_j)) by {
                if exists|k: int| 0 <= k < atts.len() && (#[trigger] atts[k]).source_name
                    == name_j {
                    let k = choose|k: int|
                        0 <= k < atts.len() && (#[trigger] atts[k]).source_name == name_j;
                    assert(patts[k].source_name == name_j);
                }
                if exists|k: int| 0 <= k < patts.len() && (#[trigger] patts[k]).source_name
                    == name_j {
                    let k = choose|k: int|
                        0 <= k < patts.len() && (#[trigger] patts[k]).source_name == name_j;
                    assert(k < atts.len());
                    assert(atts[k].source_name == name_j);
                }
            }
            // task membership is unchanged for other services
            assert(post.tasks.contains(svc.info.id) <==> pre.tasks.contains(svc.info.id)) by {
                assert(svc.info.id != svc0.info.id);
                if pre.tasks.contains(svc.info.id) {
                    let k = choose|k: int|
                        0 <= k < pre.tasks.len() && pre.tasks[k] == svc.info.id;
                    assert(post.tasks[k] == svc.info.id);
                }
                if post.tasks.contains(svc.info.id) {
                    let k = choose|k: int|
                        0 <= k < post.tasks.len() && post.tasks[k] == svc.info.id;
                    if pushed_task && k == pre.tasks.len() as int {
                        assert(post.tasks[k] == svc0.info.id);
                        assert(false);
                    } else {
                        assert(pre.tasks[k] == svc.info.id);
                    }
                }
            }
        }
    }
    assert forall|k: int, l: int| 0 <= k < l < post.tasks.len() implies (#[trigger] post.tasks[k])
        != (#[trigger] post.tasks[l]) by {
        if l < pre.tasks.len() {
            assert(post.tasks[k] == pre.tasks[k] && post.tasks[l] == pre.tasks[l]);
        } else {
            assert(post.tasks[k] == pre.tasks[k]);
            assert(post.tasks[l] == svc0.info.id);
            if pre.tasks[k] == svc0.info.id {
                assert(pre.tasks.contains(svc0.info.id));
            }
        }
    }
}

/// The position of `id` in the background-task table, or `-1`.
pub open spec fn find_task(tasks: Seq<Seq<char>>, id: Seq<char>) -> int
    decreases tasks.len(),
{
    if tasks.len() == 0 {
        -1
    } else if tasks[0] == id {
        0
    } else {
        let r = find_task(tasks.drop_first(), id);
        if r == -1 {
            -1
        } else {
            r + 1
        }
    }
}

/// `find_task` returns `-1` exactly when `id` is not in the table, and
/// otherwise the first position carrying it.
pub proof fn lemma_find_task(tasks: Seq<Seq<char>>, id: Seq<char>)
    ensures
        find_task(tasks, id) == -1 ==> forall|i: int|
            0 <= i < tasks.len() ==> (#[trigger] tasks[i]) != id,
        find_task(tasks, id) != -1 ==> {
            &&& 0 <= find_task(tasks, id) < tasks.len()
            &&& tasks[find_task(tasks, id)] == id
            &&& forall|i: int| 0 <= i < find_task(tasks, id) ==> (#[trigger] tasks[i]) != id
        },
    decreases tasks.len(),
{
    if tasks.len() > 0 && tasks[0] != id {
        lemma_find_task(tasks.drop_first(), id);
        let r = find_task(tasks.drop_first(), id);
        assert(forall|i: int|
            0 <= i < tasks.drop_first().len() ==> (#[trigger] tasks.drop_first()[i]) == tasks[i
                + 1]);
        if r != -1 {
            assert forall|i: int| 0 <= i < r + 1 implies (#[trigger] tasks[i]) != id by {
                if i > 0 {
                    assert(tasks.drop_first()[i - 1] == tasks[i]);
                }
            }
        } else {
            assert forall|i: int| 0 <= i < tasks.len() implies (#[trigger] tasks[i]) != id by {
                if i > 0 {
                    assert(tasks.drop_first()[i - 1] == tasks[i]);
                }
            }
        }
    }
}

/// What a stop attempt does to one service record: nothing unless the
/// service is `Started`; otherwise the status moves to `Stopping`, then on
/// a successful outcome to `Stopped` — the repeater's subscription `sub_id`
/// on its status event being closed by the detachment — and on a failed
/// outcome to `FailedToStop` with the outcome's reason, the subscription
/// left in place.
pub open spec fn stop_record_spec(
    svc: ServiceRecordView,
    outcome: Result<(), String>,
    sub_id: u64,
) -> ServiceRecordView {
    if !(svc.info.status.value is Started) {
        svc
    } else {
        let stopping = with_status(svc, status_set(svc.info.status, Status::Stopping));
        match outcome {
            Ok(()) => {
                let stopped = with_status(
                    stopping,
                    status_set(stopping.info.status, Status::Stopped),
                );
                with_status(
                    stopped,
                    ObservableView {
                        value: stopped.info.status.value,
                        event: EventView {
                            subs: crate::event::event::close_spec(
                                stopped.info.status.event.subs,
                                sub_id,
                            ).0,
                            ..stopped.info.status.event
                        },
                    },
                )
            },
            Err(e) => with_status(
                stopping,
                status_set(stopping.info.status, Status::FailedToStop(e)),
            ),
        }
    }
}

/// The record a stop attempt leaves keeps the service's identity, its
/// event's name and shape, and moves a `Started` service's status to
/// `Stopped` or `FailedToStop` as the outcome says.
proof fn lemma_stop_record_shape(svc: ServiceRecordView, outcome: Result<(), String>, sub_id: u64)
    requires
        svc.wf(),
        svc.info.status.event.channels_only(),
        svc.info.status.value is Started,
    ensures
        ({
            let out = stop_record_spec(svc, outcome, sub_id);
            &&& out.info.id == svc.info.id
            &&& out.info.name == svc.info.name
            &&& out.info.priority == svc.info.priority
            &&& out.has_task == svc.has_task
            &&& out.kind == svc.kind
            &&& out.info.status.event.name == svc.info.status.event.name
            &&& out.wf()
            &&& out.info.status.event.channels_only()
            &&& out.info.status.value == (match outcome {
                Ok(()) => Status::Stopped,
                Err(e) => Status::FailedToStop(e),
            })
        }),
{
    lemma_status_set_shape(svc.info.status, Status::Stopping);
    let stopping_obs = status_set(svc.info.status, Status::Stopping);
    assert(stopping_obs.value == Status::Stopping);
    match outcome {
        Ok(()) => {
            lemma_status_set_shape(stopping_obs, Status::Stopped);
            let stopped_obs = status_set(stopping_obs, Status::Stopped);
            let closed = crate::event::event::close_spec(stopped_obs.event.subs, sub_id).0;
            crate::event::event::lemma_find_sub(stopped_obs.event.subs, sub_id);
            let f = crate::event::event::find_sub(stopped_obs.event.subs, sub_id);
            assert forall|k: int| 0 <= k < closed.len() implies !(
            #[trigger] closed[k]).is_callback() && closed[k].id == stopped_obs.event.subs[k].id
                && match closed[k].callback {
                CallbackView::Channel { capacity, .. } => capacity >= 1,
                _ => true,
            } by {
                if f == -1 || !(stopped_obs.event.subs[f].callback is Channel) || k != f {
                    assert(closed[k] == stopped_obs.event.subs[k]);
                } else {
                    assert(closed[k].callback is Channel);
                    assert(closed[k].id == stopped_obs.event.subs[k].id);
                }
            }
            assert forall|a: int, b: int| 0 <= a < b < closed.len() implies (
            #[trigger] closed[a]).id != (#[trigger] closed[b]).id by {
                assert(closed[a].id == stopped_obs.event.subs[a].id);
                assert(closed[b].id == stopped_obs.event.subs[b].id);
            }
        },
        Err(e) => {
            lemma_status_set_shape(stopping_obs, Status::FailedToStop(e));
        },
    }
}

/// A stop attempt on a `Started` service keeps the supervisor's invariant.
proof fn lemma_stop_preserves_wf(
    pre: ServiceManagerView,
    i: int,
    outcome: Result<(), String>,
    sub_id: u64,
    final_svc: ServiceRecordView,
    post: ServiceManagerView,
)
    requires
        pre.wf(),
        0 <= i < pre.services.len(),
        pre.services[i].info.status.value is Started,
        final_svc == stop_record_spec(pre.services[i], outcome, sub_id),
        post.services == pre.services.update(i, final_svc),
        post.repeater.event == pre.repeater.event,
        outcome is Ok ==> post.repeater.attachments == pre.repeater.attachments.remove(
            find_attachment(pre.repeater.attachments, pre.services[i].info.status.event.name),
        ) && find_attachment(pre.repeater.attachments, pre.services[i].info.status.event.name)
            != -1,
        outcome is Err ==> post.repeater.attachments == pre.repeater.attachments,
        post.repeater.wf(),
        pre.services[i].has_task ==> post.tasks == pre.tasks.remove(
            find_task(pre.tasks, pre.services[i].info.id),
        ) && find_task(pre.tasks, pre.services[i].info.id) != -1,
        !pre.services[i].has_task ==> post.tasks == pre.tasks,
    ensures
        post.wf(),
{
    let svc0 = pre.services[i];
    assert(pre.service_ok(i));
    lemma_stop_record_shape(svc0, outcome, sub_id);
    let name_i = svc0.info.status.event.name;
    let atts = pre.repeater.attachments;
    let patts = post.repeater.attachments;
    let att_f = find_attachment(atts, name_i);
    lemma_find_attachment(atts, name_i);
    let task_f = find_task(pre.tasks, svc0.info.id);
    lemma_find_task(pre.tasks, svc0.info.id);
    assert(forall|j: int|
        0 <= j < post.services.len() ==> (#[trigger] post.services[j]).info.id
            == pre.services[j].info.id && post.services[j].info.status.event.name
            == pre.services[j].info.status.event.name);
    assert forall|a: int, b: int|
        0 <= a < pre.services.len() && 0 <= b < pre.services.len() && a != b implies (
    #[trigger] pre.services[a]).info.status.event.name != (
    #[trigger] pre.services[b]).info.status.event.name by {
        assert(pre.service_ok(a));
        assert(pre.service_ok(b));
        if pre.services[a].info.status.event.name == pre.services[b].info.status.event.name {
            lemma_append_injective(
                pre.services[a].info.id,
                pre.services[b].info.id,
                "_status_change"@,
            );
        }
    }
    assert forall|j: int| 0 <= j < post.services.len() implies #[trigger] post.service_ok(j) by {
        let svc = post.services[j];
        let name_j = svc.info.status.event.name;
        assert(pre.service_ok(j));
        lemma_attached_iff_exists(atts, name_j);
        lemma_attached_iff_exists(patts, name_j);
        // task membership afterwards
        assert(post.tasks.contains(svc.info.id) <==> (pre.tasks.contains(svc.info.id) && svc.info.id != svc0.info.id)) by {
            if svc0.has_task {
                if post.tasks.contains(svc.info.id) {
                    let k = choose|k: int|
                        0 <= k < post.tasks.len() && post.tasks[k] == svc.info.id;
                    let k0 = if k < task_f {
                        k
                    } else {
                        k + 1
                    };
                    assert(pre.tasks[k0] == svc.info.id);
                    assert(pre.tasks.contains(svc.info.id));
                    if svc.info.id == svc0.info.id {
                        assert(pre.tasks[k0] == pre.tasks[task_f]);
                        assert(false);
                    }
                }
                if pre.tasks.contains(svc.info.id) && svc.info.id != svc0.info.id {
                    let k = choose|k: int|
                        0 <= k < pre.tasks.len() && pre.tasks[k] == svc.info.id;
                    assert(k != task_f);
                    let k1 = if k < task_f {
                        k
                    } else {
                        k - 1
                    };
                    assert(post.tasks[k1] == pre.tasks[k]);
                    assert(post.tasks.contains(svc.info.id));
                }
            } else {
                assert(post.tasks == pre.tasks);
                if pre.tasks.contains(svc.info.id) && svc.info.id == svc0.info.id {
                    assert(svc0.info.status.value is Started && svc0.has_task);
                    assert(false);
                }
                if svc.info.id == svc0.info.id {
                    assert(!pre.tasks.contains(svc0.info.id));
                }
            }
        }
        // attachment presence afterwards
        assert(post.repeater.attached(name_j) <==> (pre.repeater.attached(name_j) && !(outcome
            is Ok && name_j == name_i))) by {
            if outcome is Ok {
                if exists|k: int| 0 <= k < patts.len() && (#[trigger] patts[k]).source_name
                    == name_j {
                    let k = choose|k: int|
                        0 <= k < patts.len() && (#[trigger] patts[k]).source_name == name_j;
                    let k0 = if k < att_f {
                        k
                    } else {
                        k + 1
                    };
                    assert(atts[k0].source_name == name_j);
                    if name_j == name_i {
                        assert(k0 != att_f);
                        assert(atts[k0].source_name == atts[att_f].source_name);
                        assert(false);
                    }
                }
                if pre.repeater.attached(name_j) && name_j != name_i {
                    let k = choose|k: int|
                        0 <= k < atts.len() && (#[trigger] atts[k]).source_name == name_j;
                    assert(k != att_f);
                    let k1 = if k < att_f {
                        k
                    } else {
                        k - 1
                    };
                    assert(patts[k1] == atts[k]);
                }
            } else {
                assert(patts == atts);
            }
        }
        if j == i {
            assert(svc == final_svc);
            if outcome is Ok {
                assert(svc.info.status.value is Stopped);
                assert(!post.repeater.attached(name_j));
            } else {
                assert(svc.info.status.value is FailedToStop);
                assert(pre.repeater.attached(name_i));
            }
            assert(!post.tasks.contains(svc.info.id));
        } else {
            assert(svc == pre.services[j]);
            assert(name_j != name_i);
            assert(svc.info.id != svc0.info.id);
        }
    }
    assert forall|k: int, l: int| 0 <= k < l < post.tasks.len() implies (#[trigger] post.tasks[k])
        != (#[trigger] post.tasks[l]) by {
        let k0 = if svc0.has_task && k >= task_f {
            k + 1
        } else {
            k
        };
        let l0 = if svc0.has_task && l >= task_f {
            l + 1
        } else {
            l
        };
        assert(post.tasks[k] == pre.tasks[k0] && post.tasks[l] == pre.tasks[l0]);
    }
    assert forall|a: int, b: int| 0 <= a < b < post.services.len() implies (
    #[trigger] post.services[a]).info.id != (#[trigger] post.services[b]).info.id by {
        assert(post.services[a].info.id == pre.services[a].info.id);
        assert(post.services[b].info.id == pre.services[b].info.id);
    }
}

/// The number of services registered under capability tag `kind`.
pub open spec fn count_kind(services: Seq<ServiceRecordView>, kind: Seq<char>) -> nat
    decreases services.len(),
{
    if services.len() == 0 {
        0
    } else {
        (if services[0].kind == kind {
            1nat
        } else {
            0nat
        }) + count_kind(services.drop_first(), kind)
    }
}

/// The position of the first service registered under `kind`, or `-1`.
pub open spec fn find_kind(services: Seq<ServiceRecordView>, kind: Seq<char>) -> int
    decreases services.len(),
{
    if services.len() == 0 {
        -1
    } else if services[0].kind == kind {
        0
    } else {
        let r = find_kind(services.drop_first(), kind);
        if r == -1 {
            -1
        } else {
            r + 1
        }
    }
}

/// `find_kind` returns `-1` exactly when no service carries `kind`, and
/// otherwise the first position carrying it.
pub proof fn lemma_find_kind(services: Seq<ServiceRecordView>, kind: Seq<char>)
    ensures
        find_kind(services, kind) == -1 ==> forall|i: int|
            0 <= i < services.len() ==> (#[trigger] services[i]).kind != kind,
        find_kind(services, kind) != -1 ==> {
            &&& 0 <= find_kind(services, kind) < services.len()
            &&& services[find_kind(services, kind)].kind == kind
            &&& forall|i: int|
                0 <= i < find_kind(services, kind) ==> (#[trigger] services[i]).kind != kind
        },
    decreases services.len(),
{
    if services.len() > 0 && services[0].kind != kind {
        lemma_find_kind(services.drop_first(), kind);
        let r = find_kind(services.drop_first(), kind);
        assert(forall|i: int|
            0 <= i < services.drop_first().len() ==> (#[trigger] services.drop_first()[i])
                == services[i + 1]);
        if r != -1 {
            assert forall|i: int| 0 <= i < r + 1 implies (#[trigger] services[i]).kind != kind by {
                if i > 0 {
                    assert(services.drop_first()[i - 1] == services[i]);
                }
            }
        } else {
            assert forall|i: int| 0 <= i < services.len() implies (#[trigger] services[i]).kind
                != kind by {
                if i > 0 {
                    assert(services.drop_first()[i - 1] == services[i]);
                }
            }
        }
    }
}

/// The lifecycle state machine: which direct status movements the
/// supervisor may make. `Stopped` starts towards `Starting`; initialisation
/// resolves to `Started` or `FailedToStart`; a started service stops
/// towards `Stopping`, resolving to `Stopped` or `FailedToStop`, or crashes
/// to `RuntimeError`. No failure state moves anywhere.
pub open spec fn transition_allowed(pre: Status, post: Status) -> bool {
    ||| (pre is Stopped && post is Starting)
    ||| (pre is Starting && (post is Started || post is FailedToStart))
    ||| (pre is Started && (post is Stopping || post is RuntimeError))
    ||| (pre is Stopping && (post is Stopped || post is FailedToStop))
}

/// Every status movement the supervisor performs follows the lifecycle
/// machine: a start attempt on a `Stopped` service walks
/// `Stopped → Starting → Started | FailedToStart`; a stop attempt on a
/// `Started` service walks `Started → Stopping → Stopped | FailedToStop`;
/// a background-task resolution moves `Started → RuntimeError`. Requests in
/// any other state are rejected with the state untouched, as the operations'
/// own contracts say.
pub proof fn lemma_lifecycle_machine(
    svc: ServiceRecordView,
    rep_name: Seq<char>,
    outcome: Result<(), String>,
    sub_id: u64,
    rt: Status,
)
    requires
        svc.wf(),
        svc.info.status.event.channels_only(),
        rt is RuntimeError,
    ensures
        svc.info.status.value is Stopped && svc.info.status.event.next_id < u64::MAX ==> {
            &&& transition_allowed(svc.info.status.value, Status::Starting)
            &&& transition_allowed(
                Status::Starting,
                start_record_spec(svc, rep_name, outcome).info.status.value,
            )
        },
        svc.info.status.value is Started ==> {
            &&& transition_allowed(svc.info.status.value, Status::Stopping)
            &&& transition_allowed(
                Status::Stopping,
                stop_record_spec(svc, outcome, sub_id).info.status.value,
            )
            &&& transition_allowed(svc.info.status.value, rt)
        },
{
    if svc.info.status.value is Stopped && svc.info.status.event.next_id < u64::MAX {
        lemma_start_record_shape(svc, rep_name, outcome);
    }
    if svc.info.status.value is Started {
        lemma_stop_record_shape(svc, outcome, sub_id);
    }
}

/// One failed essential service makes the whole supervisor unhealthy: if
/// any `Essential` service's status is away from `Started`, the aggregate
/// health is `Unhealthy`.
pub proof fn lemma_essential_failure_unhealthy(m: ServiceManagerView, i: int)
    requires
        0 <= i < m.services.len(),
        m.services[i].info.priority is Essential,
        !(m.services[i].info.status.value is Started),
    ensures
        m.overall_status_spec() == OverallStatus::Unhealthy,
{
}

/// The sections of the status overview: failures first, essential before
/// optional, with the transient states (`Starting`, `Stopping`) gathered
/// under "other".
#[derive(Debug, PartialEq, Eq, Structural, Clone, Copy)]
pub enum ReportGroup {
    FailedEssential,
    FailedOptional,
    Essential,
    Optional,
    Other,
}

/// Which overview section a service belongs to.
pub open spec fn group_of(svc: ServiceRecordView) -> ReportGroup {
    match svc.info.status.value {
        Status::Started | Status::Stopped => {
            if svc.info.priority is Essential {
                ReportGroup::Essential
            } else {
                ReportGroup::Optional
            }
        },
        Status::FailedToStart(_) | Status::FailedToStop(_) | Status::RuntimeError(_) => {
            if svc.info.priority is Essential {
                ReportGroup::FailedEssential
            } else {
                ReportGroup::FailedOptional
            }
        },
        _ => ReportGroup::Other,
    }
}

/// The rows of one overview section: name and status of every service of
/// the group, in registration order.
pub open spec fn rows_spec(services: Seq<ServiceRecordView>, g: ReportGroup) -> Seq<
    (Seq<char>, Status),
>
    decreases services.len(),
{
    if services.len() == 0 {
        Seq::empty()
    } else {
        let rest = rows_spec(services.drop_first(), g);
        if group_of(services[0]) == g {
            seq![(services[0].info.name, services[0].info.status.value)] + rest
        } else {
            rest
        }
    }
}

/// One overview row: `" - name: status"` and a line break.
pub open spec fn row_text(name: Seq<char>, status: Status) -> Seq<char> {
    " - "@ + name + ": "@ + status.text_spec() + "\n"@
}

/// The text of a section's rows, one per line.
pub open spec fn rows_text(rows: Seq<(Seq<char>, Status)>) -> Seq<char>
    decreases rows.len(),
{
    if rows.len() == 0 {
        Seq::empty()
    } else {
        row_text(rows[0].0, rows[0].1) + rows_text(rows.drop_first())
    }
}

/// One titled overview section; an empty section is omitted entirely.
pub open spec fn section_text(title: Seq<char>, rows: Seq<(Seq<char>, Status)>) -> Seq<char> {
    if rows.len() == 0 {
        Seq::empty()
    } else {
        title + ":\n"@ + rows_text(rows)
    }
}

/// The whole status overview: a headline, then the five sections.
pub open spec fn overview_spec(services: Seq<ServiceRecordView>) -> Seq<char> {
    "Status overview\n"@ + section_text(
        "Failed essential services"@,
        rows_spec(services, ReportGroup::FailedEssential),
    ) + section_text(
        "Failed optional services"@,
        rows_spec(services, ReportGroup::FailedOptional),
    ) + section_text("Essential services"@, rows_spec(services, ReportGroup::Essential))
        + section_text("Optional services"@, rows_spec(services, ReportGroup::Optional))
        + section_text("Other services"@, rows_spec(services, ReportGroup::Other))
}

/// The view of collected report rows.
pub open spec fn row_views(rows: Seq<(String, Status)>) -> Seq<(Seq<char>, Status)> {
    rows.map_values(|p: (String, Status)| (p.0@, p.1))
}

/// What pumping one service's attachment does to the whole supervisor: the
/// values queued on the repeater's subscription on that service's status
/// event all leave it, and each is dispatched, oldest first, into the
/// repeater's outward event. A service that is not attached — or whose
/// subscription is gone from its event — is left untouched, as is
/// everything else: the task table, the attachments, every other service.
pub open spec fn pump_one_spec(m: ServiceManagerView, i: int) -> ServiceManagerView {
    let svc = m.services[i];
    let ev = svc.info.status.event;
    if !m.repeater.attached(ev.name) {
        m
    } else {
        let att = m.repeater.attachments[find_attachment(m.repeater.attachments, ev.name)];
        let fs = crate::event::event::find_sub(ev.subs, att.subscriber_id);
        if fs != -1 && ev.subs[fs].callback is Channel {
            let drained = SubscriberView {
                callback: CallbackView::Channel {
                    queue: Seq::empty(),
                    capacity: ev.subs[fs].callback->Channel_capacity,
                    closed: ev.subs[fs].callback->Channel_closed,
                },
                ..ev.subs[fs]
            };
            ServiceManagerView {
                services: m.services.update(
                    i,
                    with_status(
                        svc,
                        ObservableView {
                            value: svc.info.status.value,
                            event: EventView { subs: ev.subs.update(fs, drained), ..ev },
                        },
                    ),
                ),
                tasks: m.tasks,
                repeater: EventRepeaterView {
                    event: EventView {
                        subs: crate::event::event_repeater::forward_all(
                            m.repeater.event.subs,
                            ev.subs[fs].callback->Channel_queue,
                        ),
                        ..m.repeater.event
                    },
                    attachments: m.repeater.attachments,
                },
            }
        } else {
            m
        }
    }
}

/// Pumping the first `n` services' attachments, in registration order: the
/// aggregate forwarding pass is exactly this fold.
pub open spec fn pump_all_spec(m: ServiceManagerView, n: int) -> ServiceManagerView
    decreases n,
{
    if n <= 0 {
        m
    } else {
        pump_one_spec(pump_all_spec(m, n - 1), n - 1)
    }
}

/// One pump step moves only event queues: the registry's identities, every
/// status value, the task table and the attachments stay as they are.
pub proof fn lemma_pump_one_shape(m: ServiceManagerView, i: int)
    requires
        0 <= i < m.services.len(),
    ensures
        ({
            let out = pump_one_spec(m, i);
            &&& out.services.len() == m.services.len()
            &&& out.tasks == m.tasks
            &&& out.repeater.attachments == m.repeater.attachments
            &&& out.repeater.event.name == m.repeater.event.name
            &&& out.repeater.event.next_id == m.repeater.event.next_id
            &&& forall|j: int|
                0 <= j < m.services.len() ==> ({
                    let svc = #[trigger] m.services[j];
                    let now = pump_one_spec(m, i).services[j];
                    &&& now.info.id == svc.info.id
                    &&& now.info.name == svc.info.name
                    &&& now.info.priority == svc.info.priority
                    &&& now.has_task == svc.has_task
                    &&& now.kind == svc.kind
                    &&& now.info.status.value == svc.info.status.value
                    &&& now.info.status.event.name == svc.info.status.event.name
                    &&& now.info.status.event.next_id == svc.info.status.event.next_id
                })
        }),
{
}

/// The aggregate forwarding pass moves only event queues, however many
/// services it covers.
pub proof fn lemma_pump_all_shape(m: ServiceManagerView, n: int)
    requires
        0 <= n <= m.services.len(),
    ensures
        ({
            let out = pump_all_spec(m, n);
            &&& out.services.len() == m.services.len()
            &&& out.tasks == m.tasks
            &&& out.repeater.attachments == m.repeater.attachments
            &&& out.repeater.event.name == m.repeater.event.name
            &&& out.repeater.event.next_id == m.repeater.event.next_id
            &&& forall|j: int|
                0 <= j < m.services.len() ==> ({
                    let svc = #[trigger] m.services[j];
                    let now = pump_all_spec(m, n).services[j];
                    &&& now.info.id == svc.info.id
                    &&& now.info.name == svc.info.name
                    &&& now.info.priority == svc.info.priority
                    &&& now.has_task == svc.has_task
                    &&& now.kind == svc.kind
                    &&& now.info.status.value == svc.info.status.value
                    &&& now.info.status.event.name == svc.info.status.event.name
                    &&& now.info.status.event.next_id == svc.info.status.event.next_id
                })
        }),
    decreases n,
{
    if n > 0 {
        lemma_pump_all_shape(m, n - 1);
        lemma_pump_one_shape(pump_all_spec(m, n - 1), n - 1);
    }
}

/// A change confined to the repeater's outward event — a subscription, a
/// receive — keeps the supervisor's invariant.
#[verifier::rlimit(50)]
proof fn lemma_repeater_event_change_preserves_wf(
    pre: ServiceManagerView,
    post: ServiceManagerView,
)
    requires
        pre.wf(),
        post.services == pre.services,
        post.tasks == pre.tasks,
        post.repeater.attachments == pre.repeater.attachments,
        post.repeater.wf(),
    ensures
        post.wf(),
{
    assert forall|j: int| 0 <= j < post.services.len() implies #[trigger] post.service_ok(j) by {
        assert(pre.service_ok(j));
    }
    assert forall|a: int, b: int| 0 <= a < b < post.services.len() implies (
    #[trigger] post.services[a]).info.id != (#[trigger] post.services[b]).info.id by {
        assert(post.services[a] == pre.services[a]);
        assert(post.services[b] == pre.services[b]);
    }
    assert forall|k: int, l: int| 0 <= k < l < post.tasks.len() implies (#[trigger] post.tasks[k])
        != (#[trigger] post.tasks[l]) by {
        assert(post.tasks[k] == pre.tasks[k]);
        assert(post.tasks[l] == pre.tasks[l]);
    }
}

/// Appends one overview section to the report text: nothing for an empty
/// section, else the title and one row per line.
fn append_section(out: &mut String, title: &str, rows: &Vec<(String, Status)>)
    ensures
        final(out)@ == old(out)@ + section_text(title@, row_views(rows@)),
{
    let ghost rv = row_views(rows@);
    if rows.len() == 0 {
        proof {
            assert(rv.len() == 0);
            assert(old(out)@ + section_text(title@, rv) =~= old(out)@);
        }
        return ;
    }
    out.append(title);
    out.append(":\n");
    let n = rows.len();
    let mut i: usize = 0;
    proof {
        assert(rv.skip(0) =~= rv);
        assert(out@ + rows_text(rv.skip(0)) =~= old(out)@ + section_text(title@, rv));
    }
    while i < n
        invariant
            n == rows.len(),
            rv == row_views(rows@),
            0 <= i <= n,
            out@ + rows_text(rv.skip(i as int)) == old(out)@ + section_text(title@, rv),
        decreases n - i,
    {
        proof {
            assert(rv.skip(i as int)[0] == rv[i as int]);
            assert(rv.skip(i as int).drop_first() =~= rv.skip(i as int + 1));
        }
        let ghost pre_out = out@;
        out.append(" - ");
        out.append(rows[i].0.as_str());
        out.append(": ");
        let st = rows[i].1.as_text();
        out.append(st.as_str());
        out.append("\n");
        proof {
            let rt = row_text(rv[i as int].0, rv[i as int].1);
            assert(out@ =~= pre_out + rt);
            assert((pre_out + rt) + rows_text(rv.skip(i as int + 1)) =~= pre_out + (rt
                + rows_text(rv.skip(i as int + 1))));
        }
        i = i + 1;
    }
    proof {
        assert(rv.skip(n as int) =~= Seq::<(Seq<char>, Status)>::empty());
        assert(out@ + rows_text(rv.skip(n as int)) =~= out@);
    }
}

/// The reason recorded when a supervised background task resolves: ending
/// at all is unexpected while the service is `Started`, and an error adds
/// its own text.
pub open spec fn runtime_error_text(error: Option<String>) -> Seq<char> {
    match error {
        None => "Background task ended unexpectedly!"@,
        Some(e) => "Background task ended with error: "@ + e@,
    }
}

/// A background-task resolution on a `Started` service with a task keeps
/// the supervisor's invariant: the status moves to `RuntimeError` and the
/// task entry leaves the table.
proof fn lemma_resolution_preserves_wf(
    pre: ServiceManagerView,
    i: int,
    rt: Status,
    post: ServiceManagerView,
)
    requires
        pre.wf(),
        0 <= i < pre.services.len(),
        pre.services[i].info.status.value is Started,
        pre.services[i].has_task,
        rt is RuntimeError,
        post.services == pre.services.update(
            i,
            with_status(pre.services[i], status_set(pre.services[i].info.status, rt)),
        ),
        post.repeater == pre.repeater,
        post.tasks == pre.tasks.remove(find_task(pre.tasks, pre.services[i].info.id)),
        find_task(pre.tasks, pre.services[i].info.id) != -1,
    ensures
        post.wf(),
{
    let svc0 = pre.services[i];
    assert(pre.service_ok(i));
    lemma_status_set_shape(svc0.info.status, rt);
    let task_f = find_task(pre.tasks, svc0.info.id);
    lemma_find_task(pre.tasks, svc0.info.id);
    assert(forall|j: int|
        0 <= j < post.services.len() ==> (#[trigger] post.services[j]).info.id
            == pre.services[j].info.id && post.services[j].info.status.event.name
            == pre.services[j].info.status.event.name);
    assert forall|j: int| 0 <= j < post.services.len() implies #[trigger] post.service_ok(j) by {
        let svc = post.services[j];
        assert(pre.service_ok(j));
        // task membership afterwards
        assert(post.tasks.contains(svc.info.id) <==> (pre.tasks.contains(svc.info.id)
            && svc.info.id != svc0.info.id)) by {
            if post.tasks.contains(svc.info.id) {
                let k = choose|k: int| 0 <= k < post.tasks.len() && post.tasks[k] == svc.info.id;
                let k0 = if k < task_f {
                    k
                } else {
                    k + 1
                };
                assert(pre.tasks[k0] == svc.info.id);
                assert(pre.tasks.contains(svc.info.id));
                if svc.info.id == svc0.info.id {
                    assert(pre.tasks[k0] == pre.tasks[task_f]);
                    assert(false);
                }
            }
            if pre.tasks.contains(svc.info.id) && svc.info.id != svc0.info.id {
                let k = choose|k: int| 0 <= k < pre.tasks.len() && pre.tasks[k] == svc.info.id;
                assert(k != task_f);
                let k1 = if k < task_f {
                    k
                } else {
                    k - 1
                };
                assert(post.tasks[k1] == pre.tasks[k]);
                assert(post.tasks.contains(svc.info.id));
            }
        }
        if j == i {
            assert(svc.info.status.value == rt);
            assert(!(svc.info.status.value is Stopped));
            assert(pre.repeater.attached(svc.info.status.event.name));
        } else {
            assert(svc == pre.services[j]);
            assert(svc.info.id != svc0.info.id) by {
                if i < j {
                } else {
                }
            }
        }
    }
    assert forall|a: int, b: int| 0 <= a < b < post.services.len() implies (
    #[trigger] post.services[a]).info.id != (#[trigger] post.services[b]).info.id by {
        assert(post.services[a].info.id == pre.services[a].info.id);
        assert(post.services[b].info.id == pre.services[b].info.id);
    }
    assert forall|k: int, l: int| 0 <= k < l < post.tasks.len() implies (#[trigger] post.tasks[k])
        != (#[trigger] post.tasks[l]) by {
        let k0 = if k < task_f {
            k
        } else {
            k + 1
        };
        let l0 = if l < task_f {
            l
        } else {
            l + 1
        };
        assert(post.tasks[k] == pre.tasks[k0] && post.tasks[l] == pre.tasks[l0]);
    }
}

/// Builds the registry for a supervisor, one service at a time, rejecting
/// duplicated ids: the first service registered under an id is kept, later
/// ones are dropped without an error.
pub struct ServiceManagerBuilder {
    services: Vec<ServiceRecord>,
}

impl View for ServiceManagerBuilder {
    type V = Seq<ServiceRecordView>;

    closed spec fn view(&self) -> Seq<ServiceRecordView> {
        self.services@.map_values(|s: ServiceRecord| s@)
    }
}

/// What every record accepted into a registry satisfies: well formed, its
/// status event open to channel subscribers only, and still `Stopped`.
pub open spec fn registrable(svc: ServiceRecordView) -> bool {
    &&& svc.wf()
    &&& svc.info.status.event.channels_only()
    &&& svc.info.status.value is Stopped
}

/// A registry of registrable records with distinct ids.
pub open spec fn registry_ok(services: Seq<ServiceRecordView>) -> bool {
    &&& forall|i: int| 0 <= i < services.len() ==> registrable(#[trigger] services[i])
    &&& forall|i: int, j: int|
        0 <= i < j < services.len() ==> (#[trigger] services[i]).info.id != (
        #[trigger] services[j]).info.id
}

impl ServiceManagerBuilder {
    /// An empty registry.
    pub fn new() -> (r: Self)
        ensures
            r@ == Seq::<ServiceRecordView>::empty(),
            registry_ok(r@),
    {
        let r = Self { services: Vec::new() };
        proof {
            assert(r@ =~= Seq::<ServiceRecordView>::empty());
        }
        r
    }

    /// Registers one service: appended in order, unless its id is already
    /// taken — then the earlier service is kept and this one is dropped,
    /// with no error. Behaves exactly as `register_spec` says.
    pub fn with_service(self, service: ServiceRecord) -> (r: Self)
        requires
            registry_ok(self@),
            registrable(service@),
        ensures
            r@ == register_spec(self@, service@),
            registry_ok(r@),
    {
        let ghost pre = self@;
        let n = self.services.len();
        let mut i: usize = 0;
        while i < n
            invariant
                n == self.services.len(),
                0 <= i <= n,
                pre == self@,
                registry_ok(pre),
                forall|k: int| 0 <= k < i ==> (#[trigger] pre[k]).info.id != service@.info.id,
            decreases n - i,
        {
            if self.services[i].info.id == service.info.id {
                proof {
                    lemma_find_service(pre, service@.info.id);
                    assert(pre[i as int].info.id == service@.info.id);
                    assert(find_service(pre, service@.info.id) != -1);
                }
                return self;
            }
            i = i + 1;
        }
        proof {
            lemma_find_service(pre, service@.info.id);
            assert(find_service(pre, service@.info.id) == -1) by {
                let f = find_service(pre, service@.info.id);
                if f != -1 {
                    assert(pre[f].info.id == service@.info.id);
                }
            }
        }
        let mut out = self;
        let ghost svcv = service@;
        out.services.push(service);
        proof {
            assert(out@ =~= pre.push(svcv));
            assert forall|a: int, b: int| 0 <= a < b < out@.len() implies (
            #[trigger] out@[a]).info.id != (#[trigger] out@[b]).info.id by {
                if b == out@.len() - 1 {
                    lemma_find_service(pre, svcv.info.id);
                }
            }
        }
        out
    }

    /// Wraps the registry into a supervisor: no background task supervised
    /// yet, a fresh aggregate repeater, nothing attached.
    pub fn build(self) -> (r: ServiceManager)
        requires
            registry_ok(self@),
        ensures
            r@.services == self@,
            r@.tasks == Seq::<Seq<char>>::empty(),
            r@.repeater.attachments == Seq::<AttachmentView>::empty(),
            r@.repeater.event == (EventView::<Status> {
                name: "service_manager_on_status_change"@,
                subs: Seq::empty(),
                next_id: 0,
            }),
            r@.wf(),
    {
        let r = ServiceManager {
            services: self.services,
            background_tasks: Vec::new(),
            on_status_change: EventRepeater::new(
                String::from_str("service_manager_on_status_change"),
            ),
        };
        proof {
            assert(r@.tasks =~= Seq::<Seq<char>>::empty());
            assert(r@.services =~= self@);
            assert forall|i: int| 0 <= i < r@.services.len() implies #[trigger] r@.service_ok(i)
            by {
                assert(registrable(r@.services[i]));
                lemma_attached_iff_exists(
                    r@.repeater.attachments,
                    r@.services[i].info.status.event.name,
                );
            }
        }
        r
    }
}

impl ServiceManager {
    /// Opens a registry builder.
    pub fn builder() -> (r: ServiceManagerBuilder)
        ensures
            r@ == Seq::<ServiceRecordView>::empty(),
            registry_ok(r@),
    {
        ServiceManagerBuilder::new()
    }

    /// The number of registered services.
    pub fn service_count(&self) -> (r: usize)
        ensures
            r == self@.services.len(),
    {
        self.services.len()
    }

    /// Whether the machine limit on subscription handles leaves room for
    /// the attachment a start of `service_id` would make — practically
    /// always; a host can check it before calling `start_service`.
    pub fn can_attach_status(&self, service_id: &str) -> (r: bool)
        ensures
            r == ({
                let f = find_service(self@.services, service_id@);
                f != -1 && self@.services[f].info.status.event.next_id < u64::MAX
            }),
    {
        let id = service_id.to_owned();
        match self.find_index(&id) {
            None => false,
            Some(i) => self.services[i].info.status.event_ref().can_take_subscriber(),
        }
    }

    /// Whether the machine limit on subscription handles leaves room for
    /// one more `subscribe_status_changes` subscription.
    pub fn can_subscribe_status_changes(&self) -> (r: bool)
        ensures
            r == (self@.repeater.event.next_id < u64::MAX),
    {
        self.on_status_change.can_subscribe()
    }

    /// The current status of the service with id `service_id`, or `None`
    /// for a service not registered here.
    pub fn service_status(&self, service_id: &str) -> (r: Option<Status>)
        ensures
            !self@.manages(service_id@) ==> r is None,
            self@.manages(service_id@) ==> r == Some(
                self@.services[find_service(self@.services, service_id@)].info.status.value,
            ),
    {
        let id = service_id.to_owned();
        let found = self.find_index(&id);
        match found {
            None => None,
            Some(i) => Some(self.services[i].info.status.get()),
        }
    }

    /// Whether a service with id `service_id` is registered here.
    pub fn manages_service(&self, service_id: &str) -> (r: bool)
        ensures
            r == self@.manages(service_id@),
    {
        let id = service_id.to_owned();
        let ghost svcs = self@.services;
        let n = self.services.len();
        let mut i: usize = 0;
        while i < n
            invariant
                n == self.services.len(),
                svcs == self@.services,
                id@ == service_id@,
                0 <= i <= n,
                forall|k: int| 0 <= k < i ==> (#[trigger] svcs[k]).info.id != service_id@,
            decreases n - i,
        {
            if self.services[i].info.id == id {
                proof {
                    lemma_find_service(svcs, service_id@);
                    assert(svcs[i as int].info.id == service_id@);
                }
                return true;
            }
            i = i + 1;
        }
        proof {
            lemma_find_service(svcs, service_id@);
            assert(find_service(svcs, service_id@) == -1) by {
                let f = find_service(svcs, service_id@);
                if f != -1 {
                    assert(svcs[f].info.id == service_id@);
                }
            }
        }
        false
    }

    /// The position of the service with id `id`.
    fn find_index(&self, id: &String) -> (r: Option<usize>)
        ensures
            match r {
                Some(i) => i == find_service(self@.services, id@) && i < self@.services.len(),
                None => find_service(self@.services, id@) == -1,
            },
    {
        let ghost svcs = self@.services;
        let n = self.services.len();
        let mut i: usize = 0;
        while i < n
            invariant
                n == self.services.len(),
                svcs == self@.services,
                0 <= i <= n,
                forall|k: int| 0 <= k < i ==> (#[trigger] svcs[k]).info.id != id@,
            decreases n - i,
        {
            if self.services[i].info.id == *id {
                proof {
                    lemma_find_service(svcs, id@);
                    assert(svcs[i as int].info.id == id@);
                    assert(find_service(svcs, id@) == i as int) by {
                        let f = find_service(svcs, id@);
                        assert(f != -1);
                        assert(!(f < i) && !(i < f));
                    }
                }
                return Some(i);
            }
            i = i + 1;
        }
        proof {
            lemma_find_service(svcs, id@);
            assert(find_service(svcs, id@) == -1) by {
                let f = find_service(svcs, id@);
                if f != -1 {
                    assert(svcs[f].info.id == id@);
                }
            }
        }
        None
    }

    /// Whether a background task is registered under `id`.
    fn task_registered(&self, id: &String) -> (r: bool)
        ensures
            r == self@.tasks.contains(id@),
    {
        let ghost tasks = self@.tasks;
        let n = self.background_tasks.len();
        let mut i: usize = 0;
        while i < n
            invariant
                n == self.background_tasks.len(),
                tasks == self@.tasks,
                0 <= i <= n,
                forall|k: int| 0 <= k < i ==> (#[trigger] tasks[k]) != id@,
            decreases n - i,
        {
            if self.background_tasks[i] == *id {
                assert(tasks[i as int] == id@);
                return true;
            }
            i = i + 1;
        }
        proof {
            if tasks.contains(id@) {
                let k = choose|k: int| 0 <= k < tasks.len() && tasks[k] == id@;
                assert(tasks[k] == id@);
            }
        }
        false
    }

    /// Begins, runs and records one start attempt. The supervisor rejects a
    /// service it does not manage and one that is not `Stopped`, leaving
    /// everything untouched. Otherwise it attaches the service's status
    /// stream to the aggregate repeater, moves the status to `Starting`,
    /// and applies `outcome` — what the service's own start work returned,
    /// a timeout expiring counting as an error: `Ok` moves the status to
    /// `Started` and, for a service with a background task, registers the
    /// task for supervision; `Err` moves it to `FailedToStart` with the
    /// reason, reported back as `FailedToStartService`.
    pub fn start_service(&mut self, service_id: &str, outcome: Result<(), String>) -> (r: Result<
        (),
        StartupError,
    >)
        requires
            old(self)@.wf(),
            ({
                let f = find_service(old(self)@.services, service_id@);
                f != -1 ==> old(self)@.services[f].info.status.event.next_id < u64::MAX
            }),
        ensures
            final(self)@.wf(),
            !old(self)@.manages(service_id@) ==> final(self)@ == old(self)@ && (r matches Err(
                StartupError::ServiceNotManaged(s),
            ) && s@ == service_id@),
            old(self)@.manages(service_id@) ==> ({
                let f = find_service(old(self)@.services, service_id@);
                let svc = old(self)@.services[f];
                if !(svc.info.status.value is Stopped) {
                    final(self)@ == old(self)@ && (r matches Err(StartupError::ServiceNotStopped(
                        s,
                    )) && s@ == service_id@)
                } else {
                    &&& final(self)@.services == old(self)@.services.update(
                        f,
                        start_record_spec(svc, old(self)@.repeater.event.name, outcome),
                    )
                    &&& final(self)@.repeater.event == old(self)@.repeater.event
                    &&& final(self)@.repeater.attachments == old(
                        self,
                    )@.repeater.attachments.push(
                        AttachmentView {
                            source_name: svc.info.status.event.name,
                            subscriber_id: svc.info.status.event.next_id,
                        },
                    )
                    &&& (outcome is Ok && svc.has_task ==> final(self)@.tasks == old(
                        self,
                    )@.tasks.push(svc.info.id))
                    &&& (!(outcome is Ok && svc.has_task) ==> final(self)@.tasks == old(
                        self,
                    )@.tasks)
                    &&& (outcome is Ok ==> r is Ok)
                    &&& (outcome is Err ==> (r matches Err(StartupError::FailedToStartService(s))
                        && s@ == service_id@))
                }
            }),
    {
        let id = service_id.to_owned();
        let found = self.find_index(&id);
        let i = match found {
            None => {
                return Err(StartupError::ServiceNotManaged(id));
            },
            Some(i) => i,
        };
        let ghost pre = old(self)@;
        let ghost svc0 = pre.services[i as int];
        proof {
            lemma_find_service(pre.services, service_id@);
            assert(svc0.info.id == service_id@);
            assert(pre.service_ok(i as int));
        }
        let status = self.services[i].info.status.get();
        if !matches!(status, Status::Stopped) {
            return Err(StartupError::ServiceNotStopped(id));
        }
        if self.task_registered(&id) {
            proof {
                assert(pre.tasks.contains(svc0.info.id));
                assert(false);
            }
            return Err(StartupError::BackgroundTaskAlreadyRunning(id));
        }
        let has_task = self.services[i].has_task;
        proof {
            assert(!pre.repeater.attached(svc0.info.status.event.name));
        }
        let attach_result = self.on_status_change.attach(
            self.services[i].info.status.event_mut(),
            STATUS_CHANNEL_BUFFER,
        );
        if let Err(err) = attach_result {
            proof {
                assert(false);
            }
            return Err(StartupError::StatusAttachmentFailed(id, err));
        }
        let ghost rep_name = pre.repeater.event.name;
        let ghost attached_svc = with_status(
            svc0,
            ObservableView {
                value: svc0.info.status.value,
                event: EventView {
                    subs: svc0.info.status.event.subs.push(
                        repeater_sub(rep_name, svc0.info.status.event.next_id),
                    ),
                    next_id: (svc0.info.status.event.next_id + 1) as u64,
                    ..svc0.info.status.event
                },
            },
        );
        proof {
            assert(self@.services =~= pre.services.update(i as int, attached_svc));
            assert(attached_svc.info.status.event.channels_only()) by {
                let subs = attached_svc.info.status.event.subs;
                assert forall|k: int| 0 <= k < subs.len() implies !(
                #[trigger] subs[k]).is_callback() by {
                    if k < subs.len() - 1 {
                        assert(subs[k] == svc0.info.status.event.subs[k]);
                    }
                }
            }
            assert(attached_svc.info.status.wf()) by {
                assert(self@.services[i as int] == attached_svc);
            }
        }
        let n_subs = self.services[i].info.status.event_ref().subscriber_count();
        let outs = crate::event::event::no_callback_outcomes(n_subs);
        let _ = self.services[i].info.status.set(Status::Starting, &outs);
        let ghost starting_svc = with_status(
            attached_svc,
            status_set(attached_svc.info.status, Status::Starting),
        );
        proof {
            lemma_status_set_outs(attached_svc.info.status, Status::Starting, outs@);
            lemma_status_set_shape(attached_svc.info.status, Status::Starting);
            assert(self@.services =~= pre.services.update(i as int, starting_svc));
            assert(starting_svc.info.status.value == Status::Starting);
        }
        let started: bool;
        let result: Result<(), StartupError>;
        let ghost mut final_svc: ServiceRecordView;
        match outcome {
            Ok(()) => {
                let n_subs2 = self.services[i].info.status.event_ref().subscriber_count();
                let outs2 = crate::event::event::no_callback_outcomes(n_subs2);
                let _ = self.services[i].info.status.set(Status::Started, &outs2);
                proof {
                    lemma_status_set_outs(starting_svc.info.status, Status::Started, outs2@);
                    lemma_status_set_shape(starting_svc.info.status, Status::Started);
                    final_svc = with_status(
                        starting_svc,
                        status_set(starting_svc.info.status, Status::Started),
                    );
                    assert(self@.services =~= pre.services.update(i as int, final_svc));
                    assert(final_svc.info.status.value == Status::Started);
                }
                started = true;
                result = Ok(());
            },
            Err(reason) => {
                let n_subs2 = self.services[i].info.status.event_ref().subscriber_count();
                let outs2 = crate::event::event::no_callback_outcomes(n_subs2);
                let ghost failed = Status::FailedToStart(reason);
                let _ = self.services[i].info.status.set(
                    Status::FailedToStart(reason),
                    &outs2,
                );
                proof {
                    lemma_status_set_outs(starting_svc.info.status, failed, outs2@);
                    lemma_status_set_shape(starting_svc.info.status, failed);
                    final_svc = with_status(
                        starting_svc,
                        status_set(starting_svc.info.status, failed),
                    );
                    assert(self@.services =~= pre.services.update(i as int, final_svc));
                    assert(final_svc.info.status.value == failed);
                }
                started = false;
                result = Err(StartupError::FailedToStartService(id));
            },
        }
        if started && has_task {
            let task_id = self.services[i].info.id.clone();
            self.background_tasks.push(task_id);
            proof {
                assert(self@.tasks =~= pre.tasks.push(svc0.info.id));
            }
        }
        proof {
            lemma_find_service(pre.services, service_id@);
            assert(final_svc == start_record_spec(svc0, rep_name, outcome));
            lemma_start_preserves_wf(pre, i as int, outcome, final_svc, self@);
        }
        result
    }

    /// Takes `id` out of the background-task table.
    fn remove_task(&mut self, id: &String) -> (r: bool)
        ensures
            final(self)@.services == old(self)@.services,
            final(self)@.repeater == old(self)@.repeater,
            find_task(old(self)@.tasks, id@) == -1 ==> final(self)@.tasks == old(self)@.tasks
                && !r,
            find_task(old(self)@.tasks, id@) != -1 ==> final(self)@.tasks == old(
                self,
            )@.tasks.remove(find_task(old(self)@.tasks, id@)) && r,
    {
        let ghost tasks = self@.tasks;
        let n = self.background_tasks.len();
        let mut i: usize = 0;
        while i < n
            invariant
                n == self.background_tasks.len(),
                *self == *old(self),
                tasks == self@.tasks,
                0 <= i <= n,
                forall|k: int| 0 <= k < i ==> (#[trigger] tasks[k]) != id@,
            decreases n - i,
        {
            if self.background_tasks[i] == *id {
                proof {
                    lemma_find_task(tasks, id@);
                    assert(tasks[i as int] == id@);
                    assert(find_task(tasks, id@) == i as int) by {
                        let f = find_task(tasks, id@);
                        assert(f != -1);
                        assert(!(f < i) && !(i < f));
                    }
                }
                self.background_tasks.remove(i);
                proof {
                    assert(self@.tasks =~= tasks.remove(i as int));
                    assert(self@.services =~= old(self)@.services);
                }
                return true;
            }
            i = i + 1;
        }
        proof {
            lemma_find_task(tasks, id@);
            assert(find_task(tasks, id@) == -1) by {
                let f = find_task(tasks, id@);
                if f != -1 {
                    assert(tasks[f] == id@);
                }
            }
        }
        false
    }

    /// Begins, runs and records one stop attempt. The supervisor rejects a
    /// service it does not manage and one that is not `Started`, leaving
    /// everything untouched. Otherwise it first cancels the service's
    /// supervised background task — so that a deliberate shutdown cannot be
    /// mistaken for a crash — moves the status to `Stopping`, and applies
    /// `outcome`, what the service's own stop work returned, a timeout
    /// counting as an error: `Ok` moves the status to `Stopped` and
    /// detaches the service's status stream from the aggregate repeater;
    /// `Err` moves it to `FailedToStop` with the reason, reported back as
    /// `FailedToStopService`, the stream left attached.
    pub fn stop_service(&mut self, service_id: &str, outcome: Result<(), String>) -> (r: Result<
        (),
        ShutdownError,
    >)
        requires
            old(self)@.wf(),
        ensures
            final(self)@.wf(),
            !old(self)@.manages(service_id@) ==> final(self)@ == old(self)@ && (r matches Err(
                ShutdownError::ServiceNotManaged(s),
            ) && s@ == service_id@),
            old(self)@.manages(service_id@) ==> ({
                let f = find_service(old(self)@.services, service_id@);
                let svc = old(self)@.services[f];
                let att_f = find_attachment(
                    old(self)@.repeater.attachments,
                    svc.info.status.event.name,
                );
                let sub_id = old(self)@.repeater.attachments[att_f].subscriber_id;
                if !(svc.info.status.value is Started) {
                    final(self)@ == old(self)@ && (r matches Err(ShutdownError::ServiceNotStarted(
                        s,
                    )) && s@ == service_id@)
                } else {
                    &&& final(self)@.services == old(self)@.services.update(
                        f,
                        stop_record_spec(svc, outcome, sub_id),
                    )
                    &&& final(self)@.repeater.event == old(self)@.repeater.event
                    &&& (outcome is Ok ==> final(self)@.repeater.attachments == old(
                        self,
                    )@.repeater.attachments.remove(att_f))
                    &&& (outcome is Err ==> final(self)@.repeater.attachments == old(
                        self,
                    )@.repeater.attachments)
                    &&& (svc.has_task ==> final(self)@.tasks == old(self)@.tasks.remove(
                        find_task(old(self)@.tasks, svc.info.id),
                    ))
                    &&& (!svc.has_task ==> final(self)@.tasks == old(self)@.tasks)
                    &&& (outcome is Ok ==> r is Ok)
                    &&& (outcome is Err ==> (r matches Err(ShutdownError::FailedToStopService(s))
                        && s@ == service_id@))
                }
            }),
    {
        let id = service_id.to_owned();
        let found = self.find_index(&id);
        let i = match found {
            None => {
                return Err(ShutdownError::ServiceNotManaged(id));
            },
            Some(i) => i,
        };
        let ghost pre = old(self)@;
        let ghost svc0 = pre.services[i as int];
        proof {
            lemma_find_service(pre.services, service_id@);
            assert(svc0.info.id == service_id@);
            assert(pre.service_ok(i as int));
        }
        let status = self.services[i].info.status.get();
        if !matches!(status, Status::Started) {
            return Err(ShutdownError::ServiceNotStarted(id));
        }
        // cancel the supervised background task before teardown begins
        let had_task = self.remove_task(&id);
        proof {
            lemma_find_task(pre.tasks, svc0.info.id);
            if svc0.has_task {
                assert(pre.tasks.contains(svc0.info.id));
                let k = choose|k: int| 0 <= k < pre.tasks.len() && pre.tasks[k] == svc0.info.id;
                assert(find_task(pre.tasks, svc0.info.id) != -1) by {
                    if find_task(pre.tasks, svc0.info.id) == -1 {
                        assert(pre.tasks[k] != svc0.info.id);
                    }
                }
            } else {
                assert(!pre.tasks.contains(svc0.info.id));
                assert(find_task(pre.tasks, svc0.info.id) == -1) by {
                    if find_task(pre.tasks, svc0.info.id) != -1 {
                        assert(pre.tasks.contains(svc0.info.id));
                    }
                }
            }
        }
        let n_subs = self.services[i].info.status.event_ref().subscriber_count();
        let outs = crate::event::event::no_callback_outcomes(n_subs);
        let _ = self.services[i].info.status.set(Status::Stopping, &outs);
        let ghost stopping_svc = with_status(svc0, status_set(svc0.info.status, Status::Stopping));
        proof {
            lemma_status_set_outs(svc0.info.status, Status::Stopping, outs@);
            lemma_status_set_shape(svc0.info.status, Status::Stopping);
            assert(self@.services =~= pre.services.update(i as int, stopping_svc));
        }
        let ghost att_f = find_attachment(pre.repeater.attachments, svc0.info.status.event.name);
        let ghost sub_id0 = pre.repeater.attachments[att_f].subscriber_id;
        let result: Result<(), ShutdownError>;
        let ghost mut final_svc: ServiceRecordView = stopping_svc;
        match outcome {
            Ok(()) => {
                let n_subs2 = self.services[i].info.status.event_ref().subscriber_count();
                let outs2 = crate::event::event::no_callback_outcomes(n_subs2);
                let _ = self.services[i].info.status.set(Status::Stopped, &outs2);
                let ghost stopped_svc = with_status(
                    stopping_svc,
                    status_set(stopping_svc.info.status, Status::Stopped),
                );
                proof {
                    lemma_status_set_outs(stopping_svc.info.status, Status::Stopped, outs2@);
                    lemma_status_set_shape(stopping_svc.info.status, Status::Stopped);
                    assert(self@.services =~= pre.services.update(i as int, stopped_svc));
                    assert(pre.repeater.attached(svc0.info.status.event.name));
                    lemma_find_attachment(pre.repeater.attachments, svc0.info.status.event.name);
                    assert(stopped_svc.info.status.event.name == svc0.info.status.event.name);
                }
                let detach_result = self.on_status_change.detach(
                    self.services[i].info.status.event_mut(),
                );
                if let Err(err) = detach_result {
                    proof {
                        assert(false);
                    }
                    return Err(ShutdownError::StatusDetachmentFailed(id, err));
                }
                proof {
                    final_svc = stop_record_spec(svc0, outcome, sub_id0);
                    assert(final_svc.info.status.event.subs == crate::event::event::close_spec(
                        stopped_svc.info.status.event.subs,
                        sub_id0,
                    ).0);
                    assert(self@.services =~= pre.services.update(i as int, final_svc));
                }
                result = Ok(());
            },
            Err(reason) => {
                let n_subs2 = self.services[i].info.status.event_ref().subscriber_count();
                let outs2 = crate::event::event::no_callback_outcomes(n_subs2);
                let ghost failed = Status::FailedToStop(reason);
                let _ = self.services[i].info.status.set(Status::FailedToStop(reason), &outs2);
                proof {
                    lemma_status_set_outs(stopping_svc.info.status, failed, outs2@);
                    lemma_status_set_shape(stopping_svc.info.status, failed);
                    final_svc = with_status(
                        stopping_svc,
                        status_set(stopping_svc.info.status, failed),
                    );
                    assert(self@.services =~= pre.services.update(i as int, final_svc));
                    assert(final_svc == stop_record_spec(svc0, Err(reason), sub_id0));
                }
                result = Err(ShutdownError::FailedToStopService(id));
            },
        }
        proof {
            lemma_stop_preserves_wf(pre, i as int, outcome, sub_id0, final_svc, self@);
        }
        result
    }

    /// Records the resolution of a service's supervised background task —
    /// the crash watchdog's reaction. A background task is expected to run
    /// for the service's whole `Started` span, so resolving at all, with
    /// `None` for success or `Some` error text, moves the status to
    /// `RuntimeError` with the reason and ends the task's supervision;
    /// reported back as `true`. A resolution for a service that is not
    /// `Started` with a supervised task — for instance one already stopped
    /// deliberately — changes nothing and reports `false`.
    pub fn background_task_resolved(&mut self, service_id: &str, error: Option<String>) -> (r:
        bool)
        requires
            old(self)@.wf(),
        ensures
            final(self)@.wf(),
            ({
                let f = find_service(old(self)@.services, service_id@);
                let applies = old(self)@.manages(service_id@)
                    && old(self)@.services[f].info.status.value is Started
                    && old(self)@.services[f].has_task;
                &&& r == applies
                &&& !applies ==> final(self)@ == old(self)@
                &&& applies ==> ({
                    let svc = old(self)@.services[f];
                    let new_status = final(self)@.services[f].info.status.value;
                    &&& (new_status matches Status::RuntimeError(m) && m@ == runtime_error_text(
                        error,
                    ))
                    &&& final(self)@.services == old(self)@.services.update(
                        f,
                        with_status(svc, status_set(svc.info.status, new_status)),
                    )
                    &&& final(self)@.repeater == old(self)@.repeater
                    &&& final(self)@.tasks == old(self)@.tasks.remove(
                        find_task(old(self)@.tasks, svc.info.id),
                    )
                })
            }),
    {
        let id = service_id.to_owned();
        let found = self.find_index(&id);
        let i = match found {
            None => {
                return false;
            },
            Some(i) => i,
        };
        let ghost pre = old(self)@;
        let ghost svc0 = pre.services[i as int];
        proof {
            lemma_find_service(pre.services, service_id@);
            assert(svc0.info.id == service_id@);
            assert(pre.service_ok(i as int));
        }
        let status = self.services[i].info.status.get();
        if !matches!(status, Status::Started) {
            return false;
        }
        if !self.services[i].has_task {
            return false;
        }
        let removed = self.remove_task(&id);
        proof {
            assert(pre.tasks.contains(svc0.info.id));
            lemma_find_task(pre.tasks, svc0.info.id);
            assert(find_task(pre.tasks, svc0.info.id) != -1) by {
                if find_task(pre.tasks, svc0.info.id) == -1 {
                    let k = choose|k: int|
                        0 <= k < pre.tasks.len() && pre.tasks[k] == svc0.info.id;
                    assert(pre.tasks[k] != svc0.info.id);
                }
            }
        }
        let message = match error {
            None => String::from_str("Background task ended unexpectedly!"),
            Some(e) => String::from_str("Background task ended with error: ").concat(e.as_str()),
        };
        let ghost rt = Status::RuntimeError(message);
        let n_subs = self.services[i].info.status.event_ref().subscriber_count();
        let outs = crate::event::event::no_callback_outcomes(n_subs);
        let _ = self.services[i].info.status.set(Status::RuntimeError(message), &outs);
        proof {
            lemma_status_set_outs(svc0.info.status, rt, outs@);
            lemma_status_set_shape(svc0.info.status, rt);
            let final_svc = with_status(svc0, status_set(svc0.info.status, rt));
            assert(self@.services =~= pre.services.update(i as int, final_svc));
            assert(final_svc.info.status.value == rt);
            lemma_resolution_preserves_wf(pre, i as int, rt, self@);
        }
        true
    }

    /// Starts every registered service, strictly in registration order, one
    /// fully resolved before the next begins. `outcomes[i]` is what the
    /// `i`-th service's own start work returned. One service's failure
    /// never aborts the pass: every per-service result is collected and
    /// returned, in registration order.
    pub fn start_services(&mut self, outcomes: Vec<Result<(), String>>) -> (r: Vec<
        Result<(), StartupError>,
    >)
        requires
            old(self)@.wf(),
            outcomes@.len() == old(self)@.services.len(),
            forall|i: int|
                0 <= i < old(self)@.services.len() ==> (#[trigger] old(
                    self,
                )@.services[i]).info.status.event.next_id < u64::MAX,
        ensures
            final(self)@.wf(),
            r@.len() == old(self)@.services.len(),
            final(self)@.services.len() == old(self)@.services.len(),
            forall|i: int|
                0 <= i < old(self)@.services.len() ==> ({
                    let svc = #[trigger] old(self)@.services[i];
                    let now = final(self)@.services[i];
                    &&& now.info.id == svc.info.id
                    &&& now.info.name == svc.info.name
                    &&& now.info.priority == svc.info.priority
                    &&& now.has_task == svc.has_task
                    &&& now.kind == svc.kind
                    &&& if svc.info.status.value is Stopped {
                        &&& now.info.status.value == (match outcomes@[i] {
                            Ok(()) => Status::Started,
                            Err(e) => Status::FailedToStart(e),
                        })
                        &&& (outcomes@[i] is Ok ==> r@[i] is Ok)
                        &&& (outcomes@[i] is Err ==> (r@[i] matches Err(
                            StartupError::FailedToStartService(s),
                        ) && s@ == svc.info.id))
                    } else {
                        &&& now == svc
                        &&& (r@[i] matches Err(StartupError::ServiceNotStopped(s)) && s@
                            == svc.info.id)
                    }
                }),
    {
        let ghost pre = old(self)@;
        let ghost outs0 = outcomes@;
        let mut outcomes = outcomes;
        let mut results: Vec<Result<(), StartupError>> = Vec::new();
        let n = self.services.len();
        let mut k: usize = 0;
        proof {
            assert(outcomes@ =~= outs0.skip(0));
        }
        while k < n
            invariant
                pre == old(self)@,
                pre.wf(),
                self@.wf(),
                n == pre.services.len(),
                self@.services.len() == n,
                outs0.len() == n,
                0 <= k <= n,
                outcomes@ == outs0.skip(k as int),
                results@.len() == k,
                self@.repeater.event == pre.repeater.event,
                forall|i: int|
                    0 <= i < n ==> (#[trigger] pre.services[i]).info.status.event.next_id
                        < u64::MAX,
                forall|i: int|
                    k <= i < n ==> (#[trigger] self@.services[i]) == pre.services[i],
                forall|i: int|
                    0 <= i < k ==> ({
                        let svc = #[trigger] pre.services[i];
                        let now = self@.services[i];
                        &&& now.info.id == svc.info.id
                        &&& now.info.name == svc.info.name
                        &&& now.info.priority == svc.info.priority
                        &&& now.has_task == svc.has_task
                        &&& now.kind == svc.kind
                        &&& if svc.info.status.value is Stopped {
                            &&& now.info.status.value == (match outs0[i] {
                                Ok(()) => Status::Started,
                                Err(e) => Status::FailedToStart(e),
                            })
                            &&& (outs0[i] is Ok ==> results@[i] is Ok)
                            &&& (outs0[i] is Err ==> (results@[i] matches Err(
                                StartupError::FailedToStartService(s),
                            ) && s@ == svc.info.id))
                        } else {
                            &&& now == svc
                            &&& (results@[i] matches Err(StartupError::ServiceNotStopped(s))
                                && s@ == svc.info.id)
                        }
                    }),
            decreases n - k,
        {
            let id = self.services[k].info.id.clone();
            let outcome = outcomes.remove(0);
            let ghost cur = self@.services;
            proof {
                assert(outcome == outs0.skip(k as int)[0]);
                assert(outs0.skip(k as int)[0] == outs0[k as int]);
                assert(outcomes@ =~= outs0.skip(k as int).drop_first());
                assert(outs0.skip(k as int).drop_first() =~= outs0.skip(k as int + 1));
                assert(cur[k as int] == pre.services[k as int]);
                assert(cur[k as int].info.id == id@);
                lemma_find_service(cur, id@);
                let f = find_service(cur, id@);
                assert(f != -1);
                assert(f == k as int) by {
                    if f < k as int {
                        assert(cur[f].info.id == cur[k as int].info.id);
                    }
                    if (k as int) < f {
                        assert(cur[k as int].info.id != id@);
                    }
                }
                assert(pre.service_ok(k as int));
            }
            let res = self.start_service(id.as_str(), outcome);
            proof {
                let svc = pre.services[k as int];
                if svc.info.status.value is Stopped {
                    lemma_start_record_shape(svc, pre.repeater.event.name, outcome);
                    assert(self@.services[k as int] == start_record_spec(
                        svc,
                        pre.repeater.event.name,
                        outcome,
                    ));
                }
                assert(forall|i: int|
                    0 <= i < n && i != k as int ==> (#[trigger] self@.services[i]) == cur[i]);
            }
            results.push(res);
            k = k + 1;
        }
        results
    }

    /// Stops every registered service, strictly in registration order, one
    /// fully resolved before the next begins. `outcomes[i]` is what the
    /// `i`-th service's own stop work returned. One service's failure never
    /// aborts the pass: every per-service result is collected and returned,
    /// in registration order.
    pub fn stop_services(&mut self, outcomes: Vec<Result<(), String>>) -> (r: Vec<
        Result<(), ShutdownError>,
    >)
        requires
            old(self)@.wf(),
            outcomes@.len() == old(self)@.services.len(),
        ensures
            final(self)@.wf(),
            r@.len() == old(self)@.services.len(),
            final(self)@.services.len() == old(self)@.services.len(),
            forall|i: int|
                0 <= i < old(self)@.services.len() ==> ({
                    let svc = #[trigger] old(self)@.services[i];
                    let now = final(self)@.services[i];
                    &&& now.info.id == svc.info.id
                    &&& now.info.name == svc.info.name
                    &&& now.info.priority == svc.info.priority
                    &&& now.has_task == svc.has_task
                    &&& now.kind == svc.kind
                    &&& if svc.info.status.value is Started {
                        &&& now.info.status.value == (match outcomes@[i] {
                            Ok(()) => Status::Stopped,
                            Err(e) => Status::FailedToStop(e),
                        })
                        &&& (outcomes@[i] is Ok ==> r@[i] is Ok)
                        &&& (outcomes@[i] is Err ==> (r@[i] matches Err(
                            ShutdownError::FailedToStopService(s),
                        ) && s@ == svc.info.id))
                    } else {
                        &&& now == svc
                        &&& (r@[i] matches Err(ShutdownError::ServiceNotStarted(s)) && s@
                            == svc.info.id)
                    }
                }),
    {
        let ghost pre = old(self)@;
        let ghost outs0 = outcomes@;
        let mut outcomes = outcomes;
        let mut results: Vec<Result<(), ShutdownError>> = Vec::new();
        let n = self.services.len();
        let mut k: usize = 0;
        proof {
            assert(outcomes@ =~= outs0.skip(0));
        }
        while k < n
            invariant
                pre == old(self)@,
                pre.wf(),
                self@.wf(),
                n == pre.services.len(),
                self@.services.len() == n,
                outs0.len() == n,
                0 <= k <= n,
                outcomes@ == outs0.skip(k as int),
                results@.len() == k,
                forall|i: int|
                    k <= i < n ==> (#[trigger] self@.services[i]) == pre.services[i],
                forall|i: int|
                    0 <= i < k ==> ({
                        let svc = #[trigger] pre.services[i];
                        let now = self@.services[i];
                        &&& now.info.id == svc.info.id
                        &&& now.info.name == svc.info.name
                        &&& now.info.priority == svc.info.priority
                        &&& now.has_task == svc.has_task
                        &&& now.kind == svc.kind
                        &&& if svc.info.status.value is Started {
                            &&& now.info.status.value == (match outs0[i] {
                                Ok(()) => Status::Stopped,
                                Err(e) => Status::FailedToStop(e),
                            })
                            &&& (outs0[i] is Ok ==> results@[i] is Ok)
                            &&& (outs0[i] is Err ==> (results@[i] matches Err(
                                ShutdownError::FailedToStopService(s),
                            ) && s@ == svc.info.id))
                        } else {
                            &&& now == svc
                            &&& (results@[i] matches Err(ShutdownError::ServiceNotStarted(s))
                                && s@ == svc.info.id)
                        }
                    }),
            decreases n - k,
        {
            let id = self.services[k].info.id.clone();
            let outcome = outcomes.remove(0);
            let ghost cur = self@.services;
            proof {
                assert(outcome == outs0.skip(k as int)[0]);
                assert(outs0.skip(k as int)[0] == outs0[k as int]);
                assert(outcomes@ =~= outs0.skip(k as int).drop_first());
                assert(outs0.skip(k as int).drop_first() =~= outs0.skip(k as int + 1));
                assert(cur[k as int] == pre.services[k as int]);
                assert(cur[k as int].info.id == id@);
                lemma_find_service(cur, id@);
                let f = find_service(cur, id@);
                assert(f != -1);
                assert(f == k as int) by {
                    if f < k as int {
                        assert(cur[f].info.id == cur[k as int].info.id);
                    }
                    if (k as int) < f {
                        assert(cur[k as int].info.id != id@);
                    }
                }
                assert(pre.service_ok(k as int));
            }
            let ghost atts_cur = self@.repeater.attachments;
            let res = self.stop_service(id.as_str(), outcome);
            proof {
                let svc = pre.services[k as int];
                if svc.info.status.value is Started {
                    let att_f = find_attachment(atts_cur, svc.info.status.event.name);
                    let sub_id = atts_cur[att_f].subscriber_id;
                    assert(self@.services[k as int] == stop_record_spec(svc, outcome, sub_id));
                    lemma_stop_record_shape(svc, outcome, sub_id);
                }
                assert(forall|i: int|
                    0 <= i < n && i != k as int ==> (#[trigger] self@.services[i]) == cur[i]);
            }
            results.push(res);
            k = k + 1;
        }
        results
    }

    /// Builds the grouped human-readable report: a headline, then — each
    /// section omitted when empty — the failed essential services, the
    /// failed optional services, the healthy essential and optional
    /// services, and the services in a transient state, one `"name: status"`
    /// row each, in registration order.
    pub fn status_overview(&self) -> (r: String)
        ensures
            r@ == overview_spec(self@.services),
    {
        let ghost svcs = self@.services;
        let mut fe: Vec<(String, Status)> = Vec::new();
        let mut fo: Vec<(String, Status)> = Vec::new();
        let mut he: Vec<(String, Status)> = Vec::new();
        let mut ho: Vec<(String, Status)> = Vec::new();
        let mut ot: Vec<(String, Status)> = Vec::new();
        let n = self.services.len();
        let mut i: usize = 0;
        proof {
            assert(svcs.skip(0) =~= svcs);
            assert(row_views(fe@) =~= Seq::<(Seq<char>, Status)>::empty());
        }
        while i < n
            invariant
                n == self.services.len(),
                svcs == self@.services,
                0 <= i <= n,
                rows_spec(svcs, ReportGroup::FailedEssential) == row_views(fe@) + rows_spec(
                    svcs.skip(i as int),
                    ReportGroup::FailedEssential,
                ),
                rows_spec(svcs, ReportGroup::FailedOptional) == row_views(fo@) + rows_spec(
                    svcs.skip(i as int),
                    ReportGroup::FailedOptional,
                ),
                rows_spec(svcs, ReportGroup::Essential) == row_views(he@) + rows_spec(
                    svcs.skip(i as int),
                    ReportGroup::Essential,
                ),
                rows_spec(svcs, ReportGroup::Optional) == row_views(ho@) + rows_spec(
                    svcs.skip(i as int),
                    ReportGroup::Optional,
                ),
                rows_spec(svcs, ReportGroup::Other) == row_views(ot@) + rows_spec(
                    svcs.skip(i as int),
                    ReportGroup::Other,
                ),
            decreases n - i,
        {
            let svc = &self.services[i];
            let status = svc.info.status.get();
            let name = svc.info.name.clone();
            let essential = matches!(svc.info.priority, Priority::Essential);
            let ghost row = (svcs[i as int].info.name, svcs[i as int].info.status.value);
            let ghost g = group_of(svcs[i as int]);
            proof {
                assert(svcs.skip(i as int)[0] == svcs[i as int]);
                assert(svcs.skip(i as int).drop_first() =~= svcs.skip(i as int + 1));
            }
            let ghost fe0 = fe@;
            let ghost fo0 = fo@;
            let ghost he0 = he@;
            let ghost ho0 = ho@;
            let ghost ot0 = ot@;
            match status {
                Status::Started | Status::Stopped => {
                    if essential {
                        he.push((name, status));
                    } else {
                        ho.push((name, status));
                    }
                },
                Status::FailedToStart(_) | Status::FailedToStop(_) | Status::RuntimeError(_) => {
                    if essential {
                        fe.push((name, status));
                    } else {
                        fo.push((name, status));
                    }
                },
                _ => {
                    ot.push((name, status));
                },
            }
            proof {
                assert(row_views(fe@) =~= if g is FailedEssential {
                    row_views(fe0).push(row)
                } else {
                    row_views(fe0)
                });
                assert(row_views(fo@) =~= if g is FailedOptional {
                    row_views(fo0).push(row)
                } else {
                    row_views(fo0)
                });
                assert(row_views(he@) =~= if g is Essential {
                    row_views(he0).push(row)
                } else {
                    row_views(he0)
                });
                assert(row_views(ho@) =~= if g is Optional {
                    row_views(ho0).push(row)
                } else {
                    row_views(ho0)
                });
                assert(row_views(ot@) =~= if g is Other {
                    row_views(ot0).push(row)
                } else {
                    row_views(ot0)
                });
                assert(row_views(fe0).push(row) + rows_spec(svcs.skip(i as int + 1), ReportGroup::FailedEssential)
                    =~= row_views(fe0) + (seq![row] + rows_spec(svcs.skip(i as int + 1), ReportGroup::FailedEssential)));
                assert(row_views(fo0).push(row) + rows_spec(svcs.skip(i as int + 1), ReportGroup::FailedOptional)
                    =~= row_views(fo0) + (seq![row] + rows_spec(svcs.skip(i as int + 1), ReportGroup::FailedOptional)));
                assert(row_views(he0).push(row) + rows_spec(svcs.skip(i as int + 1), ReportGroup::Essential)
                    =~= row_views(he0) + (seq![row] + rows_spec(svcs.skip(i as int + 1), ReportGroup::Essential)));
                assert(row_views(ho0).push(row) + rows_spec(svcs.skip(i as int + 1), ReportGroup::Optional)
                    =~= row_views(ho0) + (seq![row] + rows_spec(svcs.skip(i as int + 1), ReportGroup::Optional)));
                assert(row_views(ot0).push(row) + rows_spec(svcs.skip(i as int + 1), ReportGroup::Other)
                    =~= row_views(ot0) + (seq![row] + rows_spec(svcs.skip(i as int + 1), ReportGroup::Other)));
            }
            i = i + 1;
        }
        proof {
            assert(svcs.skip(n as int) =~= Seq::<ServiceRecordView>::empty());
            assert(row_views(fe@) + Seq::<(Seq<char>, Status)>::empty() =~= row_views(fe@));
            assert(row_views(fo@) + Seq::<(Seq<char>, Status)>::empty() =~= row_views(fo@));
            assert(row_views(he@) + Seq::<(Seq<char>, Status)>::empty() =~= row_views(he@));
            assert(row_views(ho@) + Seq::<(Seq<char>, Status)>::empty() =~= row_views(ho@));
            assert(row_views(ot@) + Seq::<(Seq<char>, Status)>::empty() =~= row_views(ot@));
        }
        let mut out = String::new();
        out.append("Status overview\n");
        append_section(&mut out, "Failed essential services", &fe);
        append_section(&mut out, "Failed optional services", &fo);
        append_section(&mut out, "Essential services", &he);
        append_section(&mut out, "Optional services", &ho);
        append_section(&mut out, "Other services", &ot);
        proof {
            assert(out@ =~= overview_spec(svcs));
        }
        out
    }

    /// Opens a channel subscription on the aggregate status stream: one
    /// queue receiving, via `pump_status_changes`, every attached service's
    /// status changes. This is how the owning process learns of failures
    /// without polling. Returns the subscription handle for
    /// `recv_status_change`.
    pub fn subscribe_status_changes(&mut self, name: String, buffer: usize, remove_on_error: bool) -> (r: u64)
        requires
            old(self)@.wf(),
            old(self)@.repeater.event.next_id < u64::MAX,
            buffer >= 1,
        ensures
            final(self)@.wf(),
            r == old(self)@.repeater.event.next_id,
            final(self)@.services == old(self)@.services,
            final(self)@.tasks == old(self)@.tasks,
            final(self)@.repeater.attachments == old(self)@.repeater.attachments,
            final(self)@.repeater.event.name == old(self)@.repeater.event.name,
            final(self)@.repeater.event.next_id == old(self)@.repeater.event.next_id + 1,
            final(self)@.repeater.event.subs == old(self)@.repeater.event.subs.push(
                SubscriberView {
                    id: old(self)@.repeater.event.next_id,
                    name: name@,
                    remove_on_error,
                    callback: CallbackView::Channel {
                        queue: Seq::empty(),
                        capacity: buffer as nat,
                        closed: false,
                    },
                },
            ),
    {
        let ghost pre = self@;
        let r = self.on_status_change.subscribe(name, buffer, remove_on_error);
        proof {
            assert(self@.services =~= pre.services);
            assert(self@.tasks =~= pre.tasks);
            lemma_repeater_event_change_preserves_wf(pre, self@);
        }
        r
    }

    /// Takes the oldest undelivered status out of an aggregate-stream
    /// subscription's queue, or `None` when it is empty.
    pub fn recv_status_change(&mut self, subscription: u64) -> (r: Option<Status>)
        requires
            old(self)@.wf(),
        ensures
            final(self)@.wf(),
            final(self)@.services == old(self)@.services,
            final(self)@.tasks == old(self)@.tasks,
            final(self)@.repeater.attachments == old(self)@.repeater.attachments,
            final(self)@.repeater.event.name == old(self)@.repeater.event.name,
            final(self)@.repeater.event.next_id == old(self)@.repeater.event.next_id,
            final(self)@.repeater.event.subs == crate::event::event::recv_spec(
                old(self)@.repeater.event.subs,
                subscription,
            ).0,
            r == crate::event::event::recv_spec(old(self)@.repeater.event.subs, subscription).1,
    {
        let ghost pre = self@;
        let r = self.on_status_change.recv(subscription);
        proof {
            assert(self@.services =~= pre.services);
            assert(self@.tasks =~= pre.tasks);
            lemma_repeater_event_change_preserves_wf(pre, self@);
        }
        r
    }

    /// Forwards the status changes queued on one service's attachment into
    /// the aggregate stream, oldest first — the synchronous form of the
    /// forwarding task. A service that is not attached (one whose status is
    /// `Stopped`) is left untouched. Behaves exactly as `pump_one_spec`
    /// says.
    pub fn pump_status(&mut self, service_id: &str)
        requires
            old(self)@.wf(),
        ensures
            final(self)@.wf(),
            final(self)@.tasks == old(self)@.tasks,
            final(self)@.repeater.attachments == old(self)@.repeater.attachments,
            final(self)@.repeater.event.name == old(self)@.repeater.event.name,
            final(self)@.repeater.event.next_id == old(self)@.repeater.event.next_id,
            final(self)@.services.len() == old(self)@.services.len(),
            !old(self)@.manages(service_id@) ==> final(self)@ == old(self)@,
            old(self)@.manages(service_id@) ==> final(self)@ == pump_one_spec(
                old(self)@,
                find_service(old(self)@.services, service_id@),
            ),
            old(self)@.manages(service_id@) ==> ({
                let f = find_service(old(self)@.services, service_id@);
                let svc = old(self)@.services[f];
                let ev = svc.info.status.event;
                &&& (forall|j: int|
                    0 <= j < old(self)@.services.len() && j != f ==> (#[trigger] final(self)@.services[j]) == old(self)@.services[j])
                &&& final(self)@.services[f].info.id == svc.info.id
                &&& final(self)@.services[f].info.name == svc.info.name
                &&& final(self)@.services[f].info.priority == svc.info.priority
                &&& final(self)@.services[f].has_task == svc.has_task
                &&& final(self)@.services[f].kind == svc.kind
                &&& final(self)@.services[f].info.status.value == svc.info.status.value
                &&& final(self)@.services[f].info.status.event.name == ev.name
                &&& (!old(self)@.repeater.attached(ev.name) ==> final(self)@ == old(self)@)
                &&& (old(self)@.repeater.attached(ev.name) ==> ({
                    let att = old(self)@.repeater.attachments[find_attachment(
                        old(self)@.repeater.attachments,
                        ev.name,
                    )];
                    let fs = crate::event::event::find_sub(ev.subs, att.subscriber_id);
                    if fs != -1 && ev.subs[fs].callback is Channel {
                        &&& final(self)@.services[f].info.status.event.subs == ev.subs.update(
                            fs,
                            SubscriberView {
                                callback: CallbackView::Channel {
                                    queue: Seq::empty(),
                                    capacity: ev.subs[fs].callback->Channel_capacity,
                                    closed: ev.subs[fs].callback->Channel_closed,
                                },
                                ..ev.subs[fs]
                            },
                        )
                        &&& final(self)@.repeater.event.subs
                            == crate::event::event_repeater::forward_all(
                            old(self)@.repeater.event.subs,
                            ev.subs[fs].callback->Channel_queue,
                        )
                    } else {
                        final(self)@ == old(self)@
                    }
                }))
            }),
    {
        let id = service_id.to_owned();
        let found = self.find_index(&id);
        let i = match found {
            None => {
                return ;
            },
            Some(i) => i,
        };
        let ghost pre = self@;
        let ghost svc0 = pre.services[i as int];
        proof {
            lemma_find_service(pre.services, service_id@);
            assert(svc0.info.id == service_id@);
            assert(pre.service_ok(i as int));
        }
        self.on_status_change.pump(self.services[i].info.status.event_mut());
        proof {
            let ghost now = self@;
            assert(now.tasks =~= pre.tasks);
            let svc1 = now.services[i as int];
            assert(now.services =~= pre.services.update(i as int, svc1));
            assert(svc1.info.status.event.channels_only()) by {
                let ev0 = svc0.info.status.event;
                let subs1 = svc1.info.status.event.subs;
                if !pre.repeater.attached(ev0.name) {
                    assert(subs1 == ev0.subs);
                } else {
                    let att = pre.repeater.attachments[find_attachment(
                        pre.repeater.attachments,
                        ev0.name,
                    )];
                    let fs = crate::event::event::find_sub(ev0.subs, att.subscriber_id);
                    crate::event::event::lemma_find_sub(ev0.subs, att.subscriber_id);
                    if fs != -1 && ev0.subs[fs].callback is Channel {
                        assert(0 <= fs < ev0.subs.len());
                        assert(subs1 == ev0.subs.update(
                            fs,
                            SubscriberView {
                                callback: CallbackView::Channel {
                                    queue: Seq::empty(),
                                    capacity: ev0.subs[fs].callback->Channel_capacity,
                                    closed: ev0.subs[fs].callback->Channel_closed,
                                },
                                ..ev0.subs[fs]
                            },
                        ));
                    }
                    assert forall|k: int| 0 <= k < subs1.len() implies !(
                    #[trigger] subs1[k]).is_callback() by {
                        if fs != -1 && ev0.subs[fs].callback is Channel {
                            if k == fs {
                                assert(subs1[k].callback is Channel);
                            } else {
                                assert(subs1[k] == ev0.subs[k]);
                            }
                        } else {
                            assert(subs1[k] == ev0.subs[k]);
                        }
                    }
                }
            }
            assert forall|j: int| 0 <= j < now.services.len() implies #[trigger] now.service_ok(j)
            by {
                assert(pre.service_ok(j));
                if j == i as int {
                    assert(svc1.info.status.value == svc0.info.status.value);
                    assert(svc1.info.status.event.name == svc0.info.status.event.name);
                } else {
                    assert(now.services[j] == pre.services[j]);
                }
            }
            assert forall|a: int, b: int| 0 <= a < b < now.services.len() implies (
            #[trigger] now.services[a]).info.id != (#[trigger] now.services[b]).info.id by {
                assert(now.services[a].info.id == pre.services[a].info.id);
                assert(now.services[b].info.id == pre.services[b].info.id);
            }
            // the cases in which nothing happened leave the view untouched
            let ev0 = svc0.info.status.event;
            let untouched = if !pre.repeater.attached(ev0.name) {
                true
            } else {
                let att = pre.repeater.attachments[find_attachment(
                    pre.repeater.attachments,
                    ev0.name,
                )];
                let fs = crate::event::event::find_sub(ev0.subs, att.subscriber_id);
                !(fs != -1 && ev0.subs[fs].callback is Channel)
            };
            if untouched {
                assert(svc1 == svc0);
                assert(now.services =~= pre.services);
                assert(now.repeater == pre.repeater);
                assert(now == pre);
                assert(pump_one_spec(pre, i as int) == pre);
            } else {
                let att = pre.repeater.attachments[find_attachment(
                    pre.repeater.attachments,
                    ev0.name,
                )];
                let fs = crate::event::event::find_sub(ev0.subs, att.subscriber_id);
                let drained = SubscriberView {
                    callback: CallbackView::Channel {
                        queue: Seq::empty(),
                        capacity: ev0.subs[fs].callback->Channel_capacity,
                        closed: ev0.subs[fs].callback->Channel_closed,
                    },
                    ..ev0.subs[fs]
                };
                let svc2 = with_status(
                    svc0,
                    ObservableView {
                        value: svc0.info.status.value,
                        event: EventView { subs: ev0.subs.update(fs, drained), ..ev0 },
                    },
                );
                assert(svc1 == svc2);
                assert(now.repeater.attachments =~= pre.repeater.attachments);
                assert(now.repeater == (EventRepeaterView {
                    event: EventView {
                        subs: crate::event::event_repeater::forward_all(
                            pre.repeater.event.subs,
                            ev0.subs[fs].callback->Channel_queue,
                        ),
                        ..pre.repeater.event
                    },
                    attachments: pre.repeater.attachments,
                }));
                assert(now == pump_one_spec(pre, i as int));
            }
        }
    }

    /// Forwards every attached service's queued status changes into the
    /// aggregate stream, one service at a time in registration order —
    /// exactly the fold `pump_all_spec` over the whole registry. Only the
    /// events' queues move: the registry, every status value and the task
    /// table stay as they are.
    pub fn pump_status_changes(&mut self)
        requires
            old(self)@.wf(),
        ensures
            final(self)@.wf(),
            final(self)@ == pump_all_spec(old(self)@, old(self)@.services.len() as int),
            final(self)@.tasks == old(self)@.tasks,
            final(self)@.repeater.attachments == old(self)@.repeater.attachments,
            final(self)@.repeater.event.name == old(self)@.repeater.event.name,
            final(self)@.repeater.event.next_id == old(self)@.repeater.event.next_id,
            final(self)@.services.len() == old(self)@.services.len(),
            forall|i: int|
                0 <= i < old(self)@.services.len() ==> ({
                    let svc = #[trigger] old(self)@.services[i];
                    let now = final(self)@.services[i];
                    &&& now.info.id == svc.info.id
                    &&& now.info.name == svc.info.name
                    &&& now.info.priority == svc.info.priority
                    &&& now.has_task == svc.has_task
                    &&& now.kind == svc.kind
                    &&& now.info.status.value == svc.info.status.value
                    &&& now.info.status.event.name == svc.info.status.event.name
                }),
    {
        let ghost pre = old(self)@;
        let n = self.services.len();
        let mut k: usize = 0;
        while k < n
            invariant
                pre == old(self)@,
                pre.wf(),
                self@.wf(),
                n == pre.services.len(),
                self@.services.len() == n,
                0 <= k <= n,
                self@ == pump_all_spec(pre, k as int),
            decreases n - k,
        {
            proof {
                lemma_pump_all_shape(pre, k as int);
            }
            let id = self.services[k].info.id.clone();
            let ghost cur = self@;
            proof {
                assert(cur.services[k as int].info.id == pre.services[k as int].info.id);
                assert(cur.services[k as int].info.id == id@);
                lemma_find_service(cur.services, id@);
                let f = find_service(cur.services, id@);
                assert(f != -1);
                assert(f == k as int) by {
                    if f < k as int {
                        assert(cur.services[f].info.id == cur.services[k as int].info.id);
                    }
                    if (k as int) < f {
                        assert(cur.services[k as int].info.id != id@);
                    }
                }
            }
            self.pump_status(id.as_str());
            proof {
                assert(self@ == pump_one_spec(cur, k as int));
                assert(pump_all_spec(pre, k as int + 1) == pump_one_spec(
                    pump_all_spec(pre, k as int),
                    k as int,
                ));
            }
            k = k + 1;
        }
        proof {
            lemma_pump_all_shape(pre, n as int);
        }
    }

    /// The single service registered under the capability tag `kind`, or
    /// `None` when no service — or more than one — carries that tag: the
    /// design assumes at most one service per capability.
    pub fn get_service(&self, kind: &str) -> (r: Option<&ServiceRecord>)
        ensures
            count_kind(self@.services, kind@) == 1 ==> (r matches Some(rec) && rec@
                == self@.services[find_kind(self@.services, kind@)]),
            count_kind(self@.services, kind@) != 1 ==> r is None,
    {
        let ghost svcs = self@.services;
        let tag = kind.to_owned();
        let n = self.services.len();
        let mut cnt: usize = 0;
        let mut first: usize = 0;
        let mut i: usize = 0;
        proof {
            assert(svcs.skip(0) =~= svcs);
        }
        while i < n
            invariant
                n == self.services.len(),
                svcs == self@.services,
                tag@ == kind@,
                0 <= i <= n,
                cnt <= i,
                count_kind(svcs, kind@) == cnt + count_kind(svcs.skip(i as int), kind@),
                cnt > 0 ==> {
                    &&& first < i
                    &&& svcs[first as int].kind == kind@
                    &&& find_kind(svcs, kind@) == first as int
                },
                cnt == 0 ==> forall|k: int| 0 <= k < i ==> (#[trigger] svcs[k]).kind != kind@,
            decreases n - i,
        {
            proof {
                assert(svcs.skip(i as int)[0] == svcs[i as int]);
                assert(svcs.skip(i as int).drop_first() =~= svcs.skip(i as int + 1));
            }
            if self.services[i].kind == tag {
                if cnt == 0 {
                    first = i;
                    proof {
                        lemma_find_kind(svcs, kind@);
                        let f = find_kind(svcs, kind@);
                        assert(f != -1);
                        assert(f == i as int) by {
                            if f < i as int {
                                assert(svcs[f].kind == kind@);
                            }
                            if (i as int) < f {
                                assert(svcs[i as int].kind != kind@);
                            }
                        }
                    }
                }
                cnt = cnt + 1;
            }
            i = i + 1;
        }
        proof {
            assert(svcs.skip(n as int) =~= Seq::<ServiceRecordView>::empty());
            assert(count_kind(svcs, kind@) == cnt);
        }
        if cnt == 1 {
            Some(&self.services[first])
        } else {
            None
        }
    }

    /// `Healthy` exactly when every `Essential` service is `Started`.
    pub fn overall_status(&self) -> (r: OverallStatus)
        ensures
            r == self@.overall_status_spec(),
    {
        let ghost svcs = self@.services;
        let n = self.services.len();
        let mut i: usize = 0;
        while i < n
            invariant
                n == self.services.len(),
                svcs == self@.services,
                0 <= i <= n,
                forall|k: int|
                    0 <= k < i && (#[trigger] svcs[k]).info.priority is Essential ==> svcs[k].info.status.value is Started,
            decreases n - i,
        {
            let svc = &self.services[i];
            if matches!(svc.info.priority, Priority::Essential) {
                let status = svc.info.status.get();
                if !matches!(status, Status::Started) {
                    proof {
                        assert(svcs[i as int].info.priority is Essential);
                        assert(!(svcs[i as int].info.status.value is Started));
                    }
                    return OverallStatus::Unhealthy;
                }
            }
            i = i + 1;
        }
        OverallStatus::Healthy
    }
}

} // verus!
