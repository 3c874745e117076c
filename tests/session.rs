use aranet4_logger::names::{contains_text, matches_folded, name_matches};
use aranet4_logger::protocol::{ARANET4_SERVICE, SCAN_DWELL_SECS, SENSOR_CHARACTERISTIC};
use aranet4_logger::session::{
    find_characteristic, select_device, DeviceSession, ServiceInfo, SessionAction, SessionError,
    SessionEvent, SessionState,
};

fn sensor_services() -> Vec<ServiceInfo> {
    vec![
        ServiceInfo { uuid: 0x1800, characteristics: vec![0x2A00, SENSOR_CHARACTERISTIC] },
        ServiceInfo { uuid: ARANET4_SERVICE, characteristics: vec![0x2A19, SENSOR_CHARACTERISTIC] },
    ]
}

#[test]
fn substring_search() {
    assert!(contains_text("aranet4-abcd", "net4"));
    assert!(contains_text("abc", ""));
    assert!(!contains_text("ab", "abc"));
    assert!(!contains_text("aranet", "Aranet"));
    assert!(matches_folded("aranet4-abcd", "aranet4"));
}

#[test]
fn names_match_ignoring_case() {
    assert!(name_matches("Aranet4-ABCD", "Aranet4"));
    assert!(name_matches("Aranet4-ABCD", "aRaNeT4-abcd"));
    assert!(name_matches("aranet4 1234", "ARANET"));
    assert!(!name_matches("Aranet4-ABCD", "Nonexistent"));
}

#[test]
fn first_matching_device_is_selected() {
    let names = vec![None, Some("Headphones".to_string()), Some("Aranet4-ABCD".to_string()), Some("Aranet4-EF01".to_string())];
    assert_eq!(select_device(&names, "aranet4"), Some(2));
    assert_eq!(select_device(&names, "Nonexistent"), None);
    assert_eq!(select_device(&Vec::new(), ""), None);
}

#[test]
fn characteristic_is_located_in_its_service() {
    assert_eq!(find_characteristic(&sensor_services(), ARANET4_SERVICE, SENSOR_CHARACTERISTIC), Some((1, 1)));
    assert_eq!(find_characteristic(&sensor_services(), ARANET4_SERVICE, 0x2A00), None);
    assert_eq!(find_characteristic(&Vec::new(), ARANET4_SERVICE, SENSOR_CHARACTERISTIC), None);
}

#[test]
fn discovery_succeeds_for_matching_name() {
    let mut s = DeviceSession::new("Aranet4");
    assert_eq!(s.step(SessionEvent::AdaptersListed { count: 1 }), SessionAction::Scan { adapter: 0, dwell_secs: SCAN_DWELL_SECS });
    assert_eq!(*s.state(), SessionState::Scanning);
    let names = vec![Some("Aranet4-ABCD".to_string())];
    assert_eq!(s.step(SessionEvent::ScanFinished { names }), SessionAction::Connect { device: 0 });
    assert_eq!(*s.state(), SessionState::Found { device: 0 });
    assert_eq!(s.step(SessionEvent::ConnectFinished { ok: true }), SessionAction::DiscoverServices);
    assert!(s.is_linked());
    assert_eq!(s.step(SessionEvent::DiscoveryFinished { ok: true }), SessionAction::ListServices);
    assert_eq!(*s.state(), SessionState::ServiceDiscovered { device: 0 });
    assert_eq!(
        s.step(SessionEvent::ServicesListed { services: sensor_services() }),
        SessionAction::Read { service: 1, characteristic: 1 }
    );
    assert_eq!(*s.state(), SessionState::Ready { device: 0, service: 1, characteristic: 1 });
    assert_eq!(s.step(SessionEvent::Release), SessionAction::Disconnect);
    assert_eq!(s.step(SessionEvent::DisconnectFinished { ok: true }), SessionAction::Stop);
    assert_eq!(*s.state(), SessionState::Disconnected);
    assert!(!s.is_linked());
}

#[test]
fn discovery_fails_without_match() {
    let mut s = DeviceSession::new("Nonexistent");
    s.step(SessionEvent::AdaptersListed { count: 2 });
    let names = vec![Some("Aranet4-ABCD".to_string()), None];
    assert_eq!(s.step(SessionEvent::ScanFinished { names }), SessionAction::Stop);
    assert_eq!(
        *s.state(),
        SessionState::Failed { error: SessionError::NoMatch { filter: "Nonexistent".to_string() } }
    );
    assert!(!s.is_linked());
}

#[test]
fn missing_adapter_fails_before_scanning() {
    let mut s = DeviceSession::new("Aranet4");
    assert_eq!(s.step(SessionEvent::AdaptersListed { count: 0 }), SessionAction::Stop);
    assert_eq!(*s.state(), SessionState::Failed { error: SessionError::NoAdapter });
}

#[test]
fn connect_failure_needs_no_disconnect() {
    let mut s = DeviceSession::new("Aranet4");
    s.step(SessionEvent::AdaptersListed { count: 1 });
    s.step(SessionEvent::ScanFinished { names: vec![Some("Aranet4-1".to_string())] });
    assert_eq!(s.step(SessionEvent::ConnectFinished { ok: false }), SessionAction::Stop);
    assert_eq!(*s.state(), SessionState::Failed { error: SessionError::ConnectFailed });
}

#[test]
fn missing_characteristic_still_disconnects() {
    let mut s = DeviceSession::new("Aranet4");
    s.step(SessionEvent::AdaptersListed { count: 1 });
    s.step(SessionEvent::ScanFinished { names: vec![Some("Aranet4-1".to_string())] });
    s.step(SessionEvent::ConnectFinished { ok: true });
    s.step(SessionEvent::DiscoveryFinished { ok: true });
    let services = vec![ServiceInfo { uuid: ARANET4_SERVICE, characteristics: vec![0x2A19] }];
    assert_eq!(s.step(SessionEvent::ServicesListed { services }), SessionAction::Disconnect);
    let failed = SessionState::Failed {
        error: SessionError::CharacteristicNotFound { service: ARANET4_SERVICE, characteristic: SENSOR_CHARACTERISTIC },
    };
    assert_eq!(*s.state(), failed);
    assert!(s.is_linked());
    assert_eq!(s.step(SessionEvent::Release), SessionAction::Disconnect);
    assert_eq!(s.step(SessionEvent::DisconnectFinished { ok: true }), SessionAction::Stop);
    assert_eq!(*s.state(), failed);
    assert!(!s.is_linked());
}

#[test]
fn discovery_failure_disconnects() {
    let mut s = DeviceSession::new("Aranet4");
    s.step(SessionEvent::AdaptersListed { count: 1 });
    s.step(SessionEvent::ScanFinished { names: vec![Some("Aranet4-1".to_string())] });
    s.step(SessionEvent::ConnectFinished { ok: true });
    assert_eq!(s.step(SessionEvent::DiscoveryFinished { ok: false }), SessionAction::Disconnect);
    assert_eq!(*s.state(), SessionState::Failed { error: SessionError::DiscoveryFailed });
    assert_eq!(s.step(SessionEvent::DisconnectFinished { ok: false }), SessionAction::Stop);
    assert_eq!(*s.state(), SessionState::Failed { error: SessionError::DiscoveryFailed });
}

#[test]
fn failed_disconnect_is_reported() {
    let mut s = DeviceSession::new("Aranet4");
    s.step(SessionEvent::AdaptersListed { count: 1 });
    s.step(SessionEvent::ScanFinished { names: vec![Some("Aranet4-1".to_string())] });
    s.step(SessionEvent::ConnectFinished { ok: true });
    s.step(SessionEvent::DiscoveryFinished { ok: true });
    s.step(SessionEvent::ServicesListed { services: sensor_services() });
    assert_eq!(s.step(SessionEvent::DisconnectFinished { ok: false }), SessionAction::Stop);
    assert_eq!(*s.state(), SessionState::Failed { error: SessionError::DisconnectFailed });
}

#[test]
fn unexpected_event_changes_nothing() {
    let mut s = DeviceSession::new("Aranet4");
    assert_eq!(s.step(SessionEvent::ConnectFinished { ok: true }), SessionAction::Stop);
    assert_eq!(*s.state(), SessionState::Idle);
    s.step(SessionEvent::AdaptersListed { count: 1 });
    s.step(SessionEvent::ScanFinished { names: vec![Some("Aranet4-1".to_string())] });
    s.step(SessionEvent::ConnectFinished { ok: true });
    assert_eq!(s.step(SessionEvent::AdaptersListed { count: 1 }), SessionAction::Disconnect);
    assert_eq!(*s.state(), SessionState::Connected { device: 0 });
}
