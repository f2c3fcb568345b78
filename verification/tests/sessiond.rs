use lumelo::protocol::{PlaybackEvent, PlaybackFailureClass};
use lumelo::session::{
    auto_mdns_interfaces, next_quiet_state, parse_resolvectl_mdns_mode, parse_service_list, quiet_service_mode,
    validate_protected_units, MdnsInterfaceConfig, QuietModeState,
};

#[test]
fn playback_start_transitions_to_active() {
    let state = next_quiet_state(
        QuietModeState::Prepare,
        &PlaybackEvent::PlaybackStarted {
            track_id: "demo".to_string(),
        },
    );

    assert_eq!(state, QuietModeState::Active);
}

#[test]
fn recoverable_failure_keeps_quiet_mode() {
    let state = next_quiet_state(
        QuietModeState::Active,
        &PlaybackEvent::PlaybackFailed {
            reason: "file_unreadable".to_string(),
            class: PlaybackFailureClass::Content,
            recoverable: true,
            keep_quiet: true,
        },
    );

    assert_eq!(state, QuietModeState::ErrorHold);
}

#[test]
fn stop_turns_quiet_mode_off() {
    let state = next_quiet_state(
        QuietModeState::Active,
        &PlaybackEvent::PlaybackStopped {
            reason: "user_stop".to_string(),
        },
    );

    assert_eq!(state, QuietModeState::Off);
}

#[test]
fn playback_failure_restores_quiet_service_mode() {
    let state = next_quiet_state(
        QuietModeState::Active,
        &PlaybackEvent::PlaybackFailed {
            reason: "alsa_open_failed".to_string(),
            class: PlaybackFailureClass::Output,
            recoverable: false,
            keep_quiet: false,
        },
    );

    assert!(!quiet_service_mode(state));
}

#[test]
fn error_hold_keeps_quiet_service_mode() {
    assert!(quiet_service_mode(QuietModeState::ErrorHold));
}

#[test]
fn parses_service_lists_from_env_string() {
    assert_eq!(
        parse_service_list("bluetooth.service lumelo-wifi-provisiond.service"),
        vec![
            "bluetooth.service".to_string(),
            "lumelo-wifi-provisiond.service".to_string()
        ]
    );
}

#[test]
fn protected_units_cannot_be_quiet_managed() {
    let err = validate_protected_units(
        &vec!["controld.service".to_string()],
        &vec!["controld.service".to_string()],
        &vec![],
        &vec![],
    )
    .unwrap_err();

    assert!(err.contains("protected unit controld.service"));
}

#[test]
fn mdns_interface_config_supports_auto_off_and_explicit_interfaces() {
    assert_eq!(MdnsInterfaceConfig::parse(""), MdnsInterfaceConfig::Disabled);
    assert_eq!(MdnsInterfaceConfig::parse("auto"), MdnsInterfaceConfig::Auto);
    assert_eq!(
        MdnsInterfaceConfig::parse("eth0 wlan0"),
        MdnsInterfaceConfig::Interfaces(vec!["eth0".to_string(), "wlan0".to_string()])
    );
}

#[test]
fn parses_resolvectl_mdns_modes() {
    assert_eq!(
        parse_resolvectl_mdns_mode("Link 2 (eth0): yes\n"),
        Some("yes".to_string())
    );
    assert_eq!(
        parse_resolvectl_mdns_mode("Global: resolve\nLink 3 (wlan0): no\n"),
        Some("no".to_string())
    );
}

#[test]
fn auto_mdns_interfaces_skip_loopback_in_name_order() {
    let names: Vec<String> = ["wlan0", "lo", "eth1", "eth0", "br-lan"]
        .iter()
        .map(|name| name.to_string())
        .collect();
    assert_eq!(
        auto_mdns_interfaces(&names),
        vec!["br-lan", "eth0", "eth1", "wlan0"]
    );
    assert!(auto_mdns_interfaces(&vec!["lo".to_string()]).is_empty());
    assert!(auto_mdns_interfaces(&Vec::new()).is_empty());
}
