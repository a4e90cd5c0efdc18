use alliance_monitor::adm_service::{Status, SystemAdm};
use alliance_monitor::bot::{
    adm_notice, announces_corporation, join_names, link_name, report_systems, BotNotification,
};
use alliance_monitor::corporations_service::ServiceEvent;
use alliance_monitor::esi::Corporation;

fn corporation(member_count: u64) -> Corporation {
    Corporation {
        alliance_id: Some(99010468),
        ceo_id: 1,
        creator_id: 1,
        date_founded: None,
        description: None,
        faction_id: None,
        home_station_id: None,
        member_count,
        name: "Guns-R-Us Toy Company".to_string(),
        shares: None,
        tax_rate: 100,
        ticker: "GRU".to_string(),
        url: None,
        war_eligible: None,
    }
}

#[test]
fn small_corporations_are_not_announced() {
    assert!(!announces_corporation(&corporation(9)));
    assert!(announces_corporation(&corporation(10)));
    assert!(announces_corporation(&corporation(250)));
}

#[test]
fn link_names_use_underscores() {
    assert_eq!(link_name("Weapons Of Mass Production."), "Weapons_Of_Mass_Production.");
    assert_eq!(link_name("NoSpaces"), "NoSpaces");
}

#[test]
fn notices_per_status() {
    assert!(adm_notice(Status::Good(3000)).is_none());
    let warning = adm_notice(Status::Warning(1100)).unwrap();
    assert_eq!(warning.headline, " ADM is deteriorated!");
    assert_eq!(warning.color, (238, 210, 2));
    assert_eq!(warning.level, 1100);
    let critical = adm_notice(Status::Critical(900)).unwrap();
    assert_eq!(critical.footer, "Do ratting or mining here ASAP!!!");
    assert_eq!(critical.color, (255, 103, 0));
}

#[test]
fn report_splits_critical_and_warning() {
    let systems = vec![
        SystemAdm { system_id: 1, status: Status::Critical(900) },
        SystemAdm { system_id: 2, status: Status::Warning(1100) },
        SystemAdm { system_id: 3, status: Status::Good(4000) },
        SystemAdm { system_id: 4, status: Status::Critical(500) },
    ];
    assert_eq!(report_systems(&systems, true), vec![1, 4]);
    assert_eq!(report_systems(&systems, false), vec![2]);
}

#[test]
fn names_are_joined_with_commas() {
    assert_eq!(join_names(&vec![]), None);
    assert_eq!(join_names(&vec!["A".to_string()]), Some("A".to_string()));
    assert_eq!(
        join_names(&vec!["A".to_string(), "B".to_string(), "C".to_string()]),
        Some("A, B, C".to_string())
    );
}

#[test]
fn service_events_become_notifications() {
    assert_eq!(
        BotNotification::from(ServiceEvent::JoinAlliance(1, 2)),
        BotNotification::NotifyCorpJoinAlliance(1, 2)
    );
    assert_eq!(
        BotNotification::from(ServiceEvent::LeftAlliance(1, 2)),
        BotNotification::NotifyCorpLeftAlliance(1, 2)
    );
}
