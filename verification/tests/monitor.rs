use eww::monitor::MonitorIdentifier;

#[test]
fn monitor_identifier_parsing() {
    assert_eq!(MonitorIdentifier::Numeric(1), MonitorIdentifier::from_str("1"));
    assert_eq!(MonitorIdentifier::Numeric(-7), MonitorIdentifier::from_str("-7"));
    assert_eq!(MonitorIdentifier::Name("HDMI-1".to_string()), MonitorIdentifier::from_str("HDMI-1"));
    assert_eq!(MonitorIdentifier::Name("99999999999".to_string()), MonitorIdentifier::from_str("99999999999"));
}

#[test]
fn monitor_identifier_text() {
    assert!(MonitorIdentifier::Numeric(0).is_numeric());
    assert!(!MonitorIdentifier::Name("DP-2".to_string()).is_numeric());
    assert_eq!("42", MonitorIdentifier::Numeric(42).to_display_string());
    assert_eq!("DP-2", MonitorIdentifier::Name("DP-2".to_string()).to_display_string());
}

#[test]
fn monitor_selection() {
    let models = vec![Some("DP-1".to_string()), None, Some("HDMI-1".to_string()), Some("HDMI-1".to_string())];
    assert_eq!(MonitorIdentifier::Numeric(2).get_monitor(&models, false), Some(2));
    assert_eq!(MonitorIdentifier::Numeric(9).get_monitor(&models, true), Some(9));
    assert_eq!(MonitorIdentifier::Name("HDMI-1".to_string()).get_monitor(&models, false), Some(2));
    assert_eq!(MonitorIdentifier::Name("DP-1".to_string()).get_monitor(&models, false), Some(0));
    assert_eq!(MonitorIdentifier::Name("eDP-1".to_string()).get_monitor(&models, false), Some(-1));
    assert_eq!(MonitorIdentifier::Name("DP-1".to_string()).get_monitor(&models, true), None);
}
