use alliance_monitor::adm_notification_service::{should_notify, AdmNotificationService};
use alliance_monitor::adm_service::{Status, SystemAdm};

#[test]
fn reported_transitions() {
    assert!(should_notify(Status::Warning(1100), Some(Status::Good(1300))));
    assert!(should_notify(Status::Critical(900), Some(Status::Warning(1100))));
    assert!(should_notify(Status::Warning(1100), None));
    assert!(should_notify(Status::Critical(900), None));
}

#[test]
fn silent_transitions() {
    assert!(!should_notify(Status::Good(1300), Some(Status::Warning(1100))));
    assert!(!should_notify(Status::Warning(1100), Some(Status::Critical(900))));
    assert!(!should_notify(Status::Warning(1100), Some(Status::Warning(1150))));
    assert!(!should_notify(Status::Good(1300), Some(Status::Good(1400))));
    assert!(!should_notify(Status::Critical(900), Some(Status::Critical(800))));
    assert!(!should_notify(Status::Good(1300), None));
    assert!(!should_notify(Status::Critical(900), Some(Status::Good(1300))));
}

#[test]
fn history_is_overwritten_and_changes_reported() {
    let mut service = AdmNotificationService::new();
    let first = vec![
        SystemAdm { system_id: 1, status: Status::Good(3000) },
        SystemAdm { system_id: 2, status: Status::Warning(1100) },
    ];
    assert_eq!(
        service.send_adm_notifications(&first),
        vec![SystemAdm { system_id: 2, status: Status::Warning(1100) }]
    );
    assert_eq!(service.previous_status(1), Some(Status::Good(3000)));

    let second = vec![
        SystemAdm { system_id: 1, status: Status::Warning(1150) },
        SystemAdm { system_id: 2, status: Status::Good(1300) },
    ];
    assert_eq!(
        service.send_adm_notifications(&second),
        vec![SystemAdm { system_id: 1, status: Status::Warning(1150) }]
    );
    assert_eq!(service.previous_status(2), Some(Status::Good(1300)));
    assert_eq!(service.previous_status(3), None);

    let third = vec![SystemAdm { system_id: 1, status: Status::Warning(1100) }];
    assert!(service.send_adm_notifications(&third).is_empty());
}

#[test]
fn repeated_system_in_one_pass_compares_with_the_earlier_entry() {
    let mut service = AdmNotificationService::new();
    let systems = vec![
        SystemAdm { system_id: 4, status: Status::Warning(1100) },
        SystemAdm { system_id: 4, status: Status::Critical(900) },
    ];
    assert_eq!(service.send_adm_notifications(&systems), systems);
    assert_eq!(service.previous_status(4), Some(Status::Critical(900)));
}
