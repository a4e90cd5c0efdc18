use alliance_monitor::adm_configuration::{AdmConfiguration, Importance};
use alliance_monitor::adm_service::{
    select_adm_status, system_status, AdmService, Status, SystemAdm, TCU_STRUCTURE_ID,
};
use alliance_monitor::esi::SovereigntyStructure;

fn structure(alliance_id: u64, system: u64, type_id: u64, level: Option<u32>) -> SovereigntyStructure {
    SovereigntyStructure {
        alliance_id,
        solar_system_id: system,
        structure_id: system * 10,
        structure_type_id: type_id,
        vulnerability_occupancy_level: level,
        vulnerable_end_time: None,
        vulnerable_start_time: None,
    }
}

#[test]
fn select_adm_status_critical() {
    let status = select_adm_status(1000, 1200, 1000);

    assert!(status == Status::Critical(1000));
}

#[test]
fn select_adm_status_critical_prio() {
    let status = select_adm_status(1000, 2000, 1200);

    assert!(status == Status::Critical(1000));
}

#[test]
fn select_adm_status_warning() {
    let status = select_adm_status(1200, 1200, 1000);

    assert!(status == Status::Warning(1200));
}

#[test]
fn select_adm_status_good_above_warning() {
    assert_eq!(select_adm_status(1201, 1200, 1000), Status::Good(1201));
    assert_eq!(select_adm_status(6000, 1200, 1000), Status::Good(6000));
    assert_eq!(select_adm_status(0, 1200, 1000), Status::Critical(0));
}

#[test]
fn red_importance_scenario() {
    assert_eq!(system_status(4100, Importance::Red), Status::Warning(4100));
    assert_eq!(system_status(3900, Importance::Red), Status::Critical(3900));
    assert_eq!(system_status(4300, Importance::Red), Status::Good(4300));
    assert_eq!(system_status(4000, Importance::Red), Status::Critical(4000));
    assert_eq!(system_status(4200, Importance::Red), Status::Warning(4200));
}

#[test]
fn classification_is_monotonic() {
    let severity = |s: Status| match s {
        Status::Good(_) => 0,
        Status::Warning(_) => 1,
        Status::Critical(_) => 2,
    };
    let mut last = 2;
    for level in (0..6000).step_by(50) {
        let now = severity(system_status(level, Importance::Yellow));
        assert!(now <= last);
        last = now;
    }
}

#[test]
fn only_own_non_claim_structures_with_levels_count() {
    let service = AdmService::new(7, false);
    let structures = vec![
        structure(7, 100, 1, Some(2500)),
        structure(8, 101, 1, Some(1000)),
        structure(7, 102, TCU_STRUCTURE_ID, Some(1000)),
        structure(7, 103, 1, None),
        structure(7, 104, 2, Some(5000)),
    ];
    assert_eq!(service.monitored_levels(&structures), vec![(100, 2500), (104, 5000)]);
    assert!(!service.is_monitored(&structures[2]));

    let with_claims = AdmService::new(7, true);
    assert_eq!(
        with_claims.monitored_levels(&structures),
        vec![(100, 2500), (102, 1000), (104, 5000)]
    );
}

#[test]
fn statuses_use_configured_importance() {
    let service = AdmService::new(7, false);
    let mut configuration = AdmConfiguration::new();
    configuration.set_importance("ALPHA", Importance::Red);
    let levels = vec![(1, 4100), (2, 4100), (3, 900)];
    let names = vec![Some("ALPHA".to_string()), Some("BETA".to_string()), None];
    let systems = service.get_adm_status(&levels, &names, &configuration);
    assert_eq!(
        systems,
        vec![
            SystemAdm { system_id: 1, status: Status::Warning(4100) },
            SystemAdm { system_id: 2, status: Status::Good(4100) },
        ]
    );
}
