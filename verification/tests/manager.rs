use lum::service::service::{ServiceInfo, ServiceRecord};
use lum::service::service_manager::ServiceManager;
use lum::service::types::{OverallStatus, Priority, ShutdownError, StartupError, Status};

fn record(id: &str, name: &str, priority: Priority, has_task: bool) -> ServiceRecord {
    ServiceRecord::new(ServiceInfo::new(id, name, priority), has_task, String::from(id))
}

#[test]
fn duplicate_id_keeps_the_first_service() {
    let manager = ServiceManager::builder()
        .with_service(record("alpha", "First", Priority::Essential, false))
        .with_service(record("alpha", "Second", Priority::Optional, false))
        .with_service(record("beta", "Third", Priority::Optional, false))
        .build();
    assert_eq!(manager.service_count(), 2);
    assert!(manager.manages_service("alpha"));
    assert!(manager.manages_service("beta"));
    // the retained "alpha" is the first one: its display name appears in the
    // overview, the dropped one's does not
    let overview = manager.status_overview();
    assert!(overview.contains("First"));
    assert!(!overview.contains("Second"));
}

#[test]
fn start_walks_the_lifecycle_machine() {
    let mut manager = ServiceManager::builder()
        .with_service(record("svc", "Service", Priority::Essential, false))
        .build();
    assert_eq!(manager.service_status("svc"), Some(Status::Stopped));

    assert!(manager.start_service("svc", Ok(())).is_ok());
    assert_eq!(manager.service_status("svc"), Some(Status::Started));

    assert!(manager.stop_service("svc", Ok(())).is_ok());
    assert_eq!(manager.service_status("svc"), Some(Status::Stopped));
}

#[test]
fn starting_a_non_stopped_service_is_rejected_and_changes_nothing() {
    let mut manager = ServiceManager::builder()
        .with_service(record("svc", "Service", Priority::Essential, false))
        .build();
    manager.start_service("svc", Ok(())).unwrap();
    let err = manager.start_service("svc", Ok(())).unwrap_err();
    assert!(matches!(err, StartupError::ServiceNotStopped(id) if id == "svc"));
    assert_eq!(manager.service_status("svc"), Some(Status::Started));
}

#[test]
fn stopping_a_non_started_service_is_rejected() {
    let mut manager = ServiceManager::builder()
        .with_service(record("svc", "Service", Priority::Essential, false))
        .build();
    let err = manager.stop_service("svc", Ok(())).unwrap_err();
    assert!(matches!(err, ShutdownError::ServiceNotStarted(id) if id == "svc"));
    assert_eq!(manager.service_status("svc"), Some(Status::Stopped));
}

#[test]
fn unmanaged_services_are_rejected() {
    let mut manager = ServiceManager::builder().build();
    assert!(matches!(
        manager.start_service("ghost", Ok(())),
        Err(StartupError::ServiceNotManaged(id)) if id == "ghost"
    ));
    assert!(matches!(
        manager.stop_service("ghost", Ok(())),
        Err(ShutdownError::ServiceNotManaged(id)) if id == "ghost"
    ));
    assert_eq!(manager.service_status("ghost"), None);
}

#[test]
fn failed_start_records_the_reason() {
    let mut manager = ServiceManager::builder()
        .with_service(record("svc", "Service", Priority::Essential, false))
        .build();
    let err = manager.start_service("svc", Err(String::from("port taken"))).unwrap_err();
    assert!(matches!(err, StartupError::FailedToStartService(id) if id == "svc"));
    assert_eq!(
        manager.service_status("svc"),
        Some(Status::FailedToStart(String::from("anything: equality is by variant")))
    );
    let overview = manager.status_overview();
    assert!(overview.contains(" - Service: Failed to start: port taken\n"));
}

#[test]
fn failed_stop_records_the_reason() {
    let mut manager = ServiceManager::builder()
        .with_service(record("svc", "Service", Priority::Optional, false))
        .build();
    manager.start_service("svc", Ok(())).unwrap();
    let err = manager.stop_service("svc", Err(String::from("stuck"))).unwrap_err();
    assert!(matches!(err, ShutdownError::FailedToStopService(id) if id == "svc"));
    let overview = manager.status_overview();
    assert!(overview.contains(" - Service: Failed to stop: stuck\n"));
}

#[test]
fn background_task_crash_marks_runtime_error() {
    let mut manager = ServiceManager::builder()
        .with_service(record("worker", "Worker", Priority::Essential, true))
        .build();
    manager.start_service("worker", Ok(())).unwrap();
    assert_eq!(manager.overall_status(), OverallStatus::Healthy);

    assert!(manager.background_task_resolved("worker", Some(String::from("boom"))));
    assert_eq!(
        manager.service_status("worker"),
        Some(Status::RuntimeError(String::from("")))
    );
    let overview = manager.status_overview();
    assert!(overview.contains(" - Worker: Runtime error: Background task ended with error: boom\n"));
    assert_eq!(manager.overall_status(), OverallStatus::Unhealthy);
}

#[test]
fn background_task_success_still_counts_as_unexpected() {
    let mut manager = ServiceManager::builder()
        .with_service(record("worker", "Worker", Priority::Essential, true))
        .build();
    manager.start_service("worker", Ok(())).unwrap();
    assert!(manager.background_task_resolved("worker", None));
    let overview = manager.status_overview();
    assert!(overview.contains("Runtime error: Background task ended unexpectedly!"));
}

#[test]
fn task_resolution_after_stop_changes_nothing() {
    let mut manager = ServiceManager::builder()
        .with_service(record("worker", "Worker", Priority::Essential, true))
        .build();
    manager.start_service("worker", Ok(())).unwrap();
    manager.stop_service("worker", Ok(())).unwrap();
    // the deliberate shutdown cancelled supervision; a late resolution is ignored
    assert!(!manager.background_task_resolved("worker", Some(String::from("late"))));
    assert_eq!(manager.service_status("worker"), Some(Status::Stopped));
}

#[test]
fn one_essential_failure_makes_the_supervisor_unhealthy() {
    let mut manager = ServiceManager::builder()
        .with_service(record("one", "One", Priority::Essential, false))
        .with_service(record("two", "Two", Priority::Essential, false))
        .build();
    let results = manager.start_services(vec![Ok(()), Err(String::from("nope"))]);
    assert_eq!(results.len(), 2);
    assert!(results[0].is_ok());
    assert!(matches!(&results[1], Err(StartupError::FailedToStartService(id)) if id == "two"));

    assert_eq!(manager.overall_status(), OverallStatus::Unhealthy);
    let overview = manager.status_overview();
    assert!(overview.contains("Failed essential services:\n - Two: Failed to start: nope\n"));
    assert!(overview.contains("Essential services:\n - One: Started\n"));
}

#[test]
fn optional_failures_do_not_affect_health() {
    let mut manager = ServiceManager::builder()
        .with_service(record("core", "Core", Priority::Essential, false))
        .with_service(record("extra", "Extra", Priority::Optional, false))
        .build();
    let results = manager.start_services(vec![Ok(()), Err(String::from("nope"))]);
    assert!(results[0].is_ok());
    assert!(results[1].is_err());
    assert_eq!(manager.overall_status(), OverallStatus::Healthy);
}

#[test]
fn stop_services_stops_everything_started() {
    let mut manager = ServiceManager::builder()
        .with_service(record("one", "One", Priority::Essential, false))
        .with_service(record("two", "Two", Priority::Optional, false))
        .build();
    manager.start_services(vec![Ok(()), Ok(())]);
    let results = manager.stop_services(vec![Ok(()), Ok(())]);
    assert!(results.iter().all(|r| r.is_ok()));
    assert_eq!(manager.service_status("one"), Some(Status::Stopped));
    assert_eq!(manager.service_status("two"), Some(Status::Stopped));
}

#[test]
fn status_changes_arrive_on_the_aggregate_stream() {
    let mut manager = ServiceManager::builder()
        .with_service(record("svc", "Service", Priority::Essential, false))
        .build();
    let sub = manager.subscribe_status_changes(String::from("owner"), 8, false);
    manager.start_service("svc", Ok(())).unwrap();
    manager.pump_status_changes();
    assert_eq!(manager.recv_status_change(sub), Some(Status::Starting));
    assert_eq!(manager.recv_status_change(sub), Some(Status::Started));
    assert_eq!(manager.recv_status_change(sub), None);
}

#[test]
fn get_service_finds_exactly_one_by_kind() {
    let manager = ServiceManager::builder()
        .with_service(record("a", "A", Priority::Essential, false))
        .with_service(record("b", "B", Priority::Optional, false))
        .build();
    let found = manager.get_service("a").expect("one service of kind a");
    assert_eq!(found.info.id, "a");
    assert!(manager.get_service("missing").is_none());
}

#[test]
fn get_service_rejects_an_ambiguous_kind() {
    let one = ServiceRecord::new(
        ServiceInfo::new("a", "A", Priority::Essential),
        false,
        String::from("shared"),
    );
    let two = ServiceRecord::new(
        ServiceInfo::new("b", "B", Priority::Essential),
        false,
        String::from("shared"),
    );
    let manager = ServiceManager::builder().with_service(one).with_service(two).build();
    assert!(manager.get_service("shared").is_none());
}

#[test]
fn overview_of_an_empty_registry_is_just_the_headline() {
    let manager = ServiceManager::builder().build();
    assert_eq!(manager.status_overview(), "Status overview\n");
}

#[test]
fn overview_groups_transient_states_under_other() {
    let mut manager = ServiceManager::builder()
        .with_service(record("svc", "Service", Priority::Essential, false))
        .build();
    manager.start_service("svc", Ok(())).unwrap();
    // a failing stop leaves the service out of the healthy groups
    manager.stop_service("svc", Err(String::from("wedged"))).unwrap_err();
    let overview = manager.status_overview();
    assert!(overview.starts_with("Status overview\n"));
    assert!(overview.contains("Failed essential services:"));
    assert!(!overview.contains("Other services:"));
}

#[test]
fn a_fresh_service_is_not_available() {
    let info = ServiceInfo::new("svc", "Service", Priority::Essential);
    assert!(!info.is_available());
}

#[test]
fn subscription_handle_room_is_reported() {
    let manager = ServiceManager::builder()
        .with_service(record("svc", "Service", Priority::Essential, false))
        .build();
    assert!(manager.can_attach_status("svc"));
    assert!(!manager.can_attach_status("ghost"));
    assert!(manager.can_subscribe_status_changes());
}
