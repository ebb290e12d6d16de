use luck_jingle::instruction::WRITE_UUID;
use luck_jingle::protocol::PrintJob;
use luck_jingle::session::{
    contains_bytes, find_printer, find_write_characteristic, step, FailureKind, SessionAction,
    SessionEvent, SessionState,
};

fn job2() -> PrintJob {
    PrintJob { packets: vec![vec![0x01], vec![0x02]] }
}

#[test]
fn empty_peripheral_list_is_a_discovery_failure() {
    let (state, action) = step(
        SessionState::Discovering,
        SessionEvent::Peripherals { names: Vec::new() },
        &job2(),
    );
    assert_eq!(state, SessionState::Failed { kind: FailureKind::Discovery });
    assert_eq!(action, SessionAction::Finish);
}

#[test]
fn unmatched_names_are_a_discovery_failure() {
    let names = vec![Some(b"SomeOtherDevice".to_vec()), None, Some(b"luckp".to_vec())];
    let (state, _) = step(
        SessionState::Discovering,
        SessionEvent::Peripherals { names },
        &job2(),
    );
    assert_eq!(state, SessionState::Failed { kind: FailureKind::Discovery });
}

#[test]
fn matching_name_is_selected_by_index() {
    let names = vec![
        Some(b"Headphones".to_vec()),
        None,
        Some(b"LuckP_D1-001".to_vec()),
        Some(b"LuckP_D1-002".to_vec()),
    ];
    let (state, action) = step(
        SessionState::Discovering,
        SessionEvent::Peripherals { names },
        &job2(),
    );
    assert_eq!(state, SessionState::Connecting { peripheral: 2 });
    assert_eq!(action, SessionAction::Connect { peripheral: 2 });
}

#[test]
fn full_session_walk_sends_packets_in_order() {
    let job = job2();
    let (s1, a1) = step(SessionState::Idle, SessionEvent::Begin, &job);
    assert_eq!(s1, SessionState::Scanning);
    assert_eq!(a1, SessionAction::StartScan);

    let (s2, a2) = step(s1, SessionEvent::ScanStarted, &job);
    assert_eq!(s2, SessionState::Discovering);
    assert_eq!(a2, SessionAction::DwellAndList);

    let names = vec![Some(b"LuckP_D1".to_vec())];
    let (s3, a3) = step(s2, SessionEvent::Peripherals { names }, &job);
    assert_eq!(s3, SessionState::Connecting { peripheral: 0 });
    assert_eq!(a3, SessionAction::Connect { peripheral: 0 });

    let (s4, a4) = step(s3, SessionEvent::Connected, &job);
    assert_eq!(s4, SessionState::Enumerating { peripheral: 0 });
    assert_eq!(a4, SessionAction::EnumerateServices);

    let characteristics = vec![0x1234u128, WRITE_UUID];
    let (s5, a5) = step(s4, SessionEvent::Services { characteristics }, &job);
    assert_eq!(s5, SessionState::SetupDisable { peripheral: 0, characteristic: 1 });
    assert_eq!(a5, SessionAction::WriteDisableShutdown { characteristic: 1 });

    let (s6, a6) = step(s5, SessionEvent::WriteOk, &job);
    assert_eq!(s6, SessionState::SetupDensity { peripheral: 0, characteristic: 1 });
    assert_eq!(a6, SessionAction::WriteSetThickness { characteristic: 1 });

    let (s7, a7) = step(s6, SessionEvent::WriteOk, &job);
    assert_eq!(s7, SessionState::Sending { peripheral: 0, characteristic: 1, next: 0 });
    assert_eq!(a7, SessionAction::WritePacket { characteristic: 1, packet: 0 });

    let (s8, a8) = step(s7, SessionEvent::WriteOk, &job);
    assert_eq!(s8, SessionState::Sending { peripheral: 0, characteristic: 1, next: 1 });
    assert_eq!(a8, SessionAction::WritePacket { characteristic: 1, packet: 1 });

    let (s9, a9) = step(s8, SessionEvent::WriteOk, &job);
    assert_eq!(s9, SessionState::Done);
    assert_eq!(a9, SessionAction::Finish);
}

#[test]
fn missing_characteristic_is_a_negotiation_failure() {
    let (state, _) = step(
        SessionState::Enumerating { peripheral: 0 },
        SessionEvent::Services { characteristics: vec![0x1u128, 0x2u128] },
        &job2(),
    );
    assert_eq!(state, SessionState::Failed { kind: FailureKind::Negotiation });
}

#[test]
fn connect_failure_is_a_negotiation_failure() {
    let (state, _) = step(
        SessionState::Connecting { peripheral: 0 },
        SessionEvent::ConnectFailed,
        &job2(),
    );
    assert_eq!(state, SessionState::Failed { kind: FailureKind::Negotiation });
}

#[test]
fn write_failure_mid_job_is_a_transmission_failure() {
    let (state, _) = step(
        SessionState::Sending { peripheral: 0, characteristic: 1, next: 1 },
        SessionEvent::WriteFailed,
        &job2(),
    );
    assert_eq!(state, SessionState::Failed { kind: FailureKind::Transmission });
}

#[test]
fn scan_failure_is_a_discovery_failure() {
    let (state, _) = step(SessionState::Scanning, SessionEvent::ScanFailed, &job2());
    assert_eq!(state, SessionState::Failed { kind: FailureKind::Discovery });
}

#[test]
fn terminal_states_absorb_events() {
    let (state, action) = step(SessionState::Done, SessionEvent::WriteOk, &job2());
    assert_eq!(state, SessionState::Done);
    assert_eq!(action, SessionAction::Finish);
    let failed = SessionState::Failed { kind: FailureKind::Transmission };
    let (state2, _) = step(failed, SessionEvent::Begin, &job2());
    assert_eq!(state2, failed);
}

#[test]
fn substring_search_finds_the_fragment() {
    assert!(contains_bytes(&b"xxLuckPyy".to_vec(), &b"LuckP".to_vec()));
    assert!(contains_bytes(&b"LuckP".to_vec(), &b"LuckP".to_vec()));
    assert!(!contains_bytes(&b"LuckXP".to_vec(), &b"LuckP".to_vec()));
    assert!(!contains_bytes(&b"Luck".to_vec(), &b"LuckP".to_vec()));
    assert!(contains_bytes(&b"anything".to_vec(), &Vec::new()));
}

#[test]
fn finders_return_the_first_hit() {
    let names = vec![None, Some(b"aLuckP".to_vec()), Some(b"LuckP".to_vec())];
    assert_eq!(find_printer(&names), Some(1));
    assert_eq!(find_printer(&Vec::new()), None);
    let ids = vec![WRITE_UUID, 0u128, WRITE_UUID];
    assert_eq!(find_write_characteristic(&ids), Some(0));
    assert_eq!(find_write_characteristic(&vec![0u128]), None);
}
