use alliance_monitor::adm_configuration::{
    importance_from_label, parse_importance, same_text, system_key, AdmConfiguration, Importance,
};

#[test]
fn thresholds_per_importance() {
    assert_eq!(Importance::Red.warning_threshold(), 4200);
    assert_eq!(Importance::Red.critical_threshold(), 4000);
    assert_eq!(Importance::Yellow.warning_threshold(), 3200);
    assert_eq!(Importance::Yellow.critical_threshold(), 3000);
    assert_eq!(Importance::Green.warning_threshold(), 1200);
    assert_eq!(Importance::Green.critical_threshold(), 1000);
}

#[test]
fn labels() {
    assert_eq!(Importance::Red.label(), "Red (4.0 - 4.2)");
    assert_eq!(Importance::Yellow.label(), "Yellow (3.0 - 3.2)");
    assert_eq!(Importance::Green.label(), "Green (1.0 - 1.2)");
}

#[test]
fn importance_is_read_in_any_case() {
    assert_eq!(parse_importance("red"), Some(Importance::Red));
    assert_eq!(parse_importance("Yellow"), Some(Importance::Yellow));
    assert_eq!(parse_importance("GREEN"), Some(Importance::Green));
    assert_eq!(parse_importance("blue"), None);
    assert_eq!(parse_importance(""), None);
    assert_eq!(importance_from_label("RED"), Some(Importance::Red));
    assert_eq!(importance_from_label("red"), None);
}

#[test]
fn system_names_are_upper_cased() {
    assert_eq!(system_key("1dq1-a"), "1DQ1-A");
    assert!(same_text("abc", "abc"));
    assert!(!same_text("abc", "abd"));
    assert!(!same_text("abc", "ab"));
}

#[test]
fn unset_systems_have_no_importance() {
    let configuration = AdmConfiguration::new();
    assert_eq!(configuration.get_importance("X-7OMU"), None);
    assert_eq!(configuration.importance_or_default("X-7OMU"), Importance::Green);
}

#[test]
fn later_setting_replaces_earlier() {
    let mut configuration = AdmConfiguration::new();
    configuration.set_importance("A", Importance::Red);
    configuration.set_importance("B", Importance::Yellow);
    configuration.set_importance("A", Importance::Green);
    assert_eq!(configuration.get_importance("A"), Some(Importance::Green));
    assert_eq!(configuration.get_importance("B"), Some(Importance::Yellow));
    assert_eq!(configuration.entries().len(), 2);
}

#[test]
fn configure_stores_upper_case_names() {
    let mut configuration = AdmConfiguration::new();
    let applied = configuration.configure("ls-jev", "yellow");
    assert_eq!(applied, Some(("LS-JEV".to_string(), Importance::Yellow)));
    assert_eq!(configuration.get_importance("LS-JEV"), Some(Importance::Yellow));
    assert_eq!(configuration.get_importance("ls-jev"), None);
    assert_eq!(configuration.configure("ls-jev", "purple"), None);
    assert_eq!(configuration.get_importance("LS-JEV"), Some(Importance::Yellow));
}

#[test]
fn entries_round_trip() {
    let entries = vec![
        ("A".to_string(), Importance::Red),
        ("B".to_string(), Importance::Green),
        ("A".to_string(), Importance::Yellow),
    ];
    let configuration = AdmConfiguration::from_entries(&entries);
    assert_eq!(configuration.get_importance("A"), Some(Importance::Yellow));
    let mut saved = configuration.entries();
    saved.sort_by(|a, b| a.0.cmp(&b.0));
    assert_eq!(
        saved,
        vec![("A".to_string(), Importance::Yellow), ("B".to_string(), Importance::Green)]
    );
    let reloaded = AdmConfiguration::from_entries(&saved);
    assert_eq!(reloaded.get_importance("B"), Some(Importance::Green));
}
