use file_server::address::ClientAddress;
use file_server::cache::ResponseManager;
use file_server::wire::ResponseMarshal;

fn alice() -> ClientAddress {
    ClientAddress::V4 { ip: 0x7f00_0001, port: 5000 }
}

fn bob() -> ClientAddress {
    ClientAddress::V4 { ip: 0x7f00_0001, port: 5001 }
}

#[test]
fn nothing_is_kept_at_first() {
    let manager = ResponseManager::new(true);
    assert!(manager.is_at_most_once());
    assert!(!manager.has_entry(alice(), 1));
    assert_eq!(manager.session(alice()), None);
}

#[test]
fn kept_response_is_found_again() {
    let mut manager = ResponseManager::new(true);
    manager.add_entry(alice(), 7, ResponseMarshal::good(b"WORLD".to_vec()));
    assert!(manager.has_entry(alice(), 7));
    assert_eq!(manager.get_entry(alice(), 7), &ResponseMarshal::good(b"WORLD".to_vec()));
    assert!(!manager.has_entry(alice(), 8));
    assert!(!manager.has_entry(bob(), 7));
}

#[test]
fn responses_are_kept_by_client_and_number() {
    let mut manager = ResponseManager::new(true);
    manager.add_entry(alice(), 1, ResponseMarshal::good(b"a1".to_vec()));
    manager.add_entry(bob(), 1, ResponseMarshal::good(b"b1".to_vec()));
    manager.add_entry(alice(), 2, ResponseMarshal::bad("a2"));
    assert_eq!(manager.get_entry(alice(), 1), &ResponseMarshal::good(b"a1".to_vec()));
    assert_eq!(manager.get_entry(bob(), 1), &ResponseMarshal::good(b"b1".to_vec()));
    assert_eq!(manager.get_entry(alice(), 2), &ResponseMarshal::bad("a2"));
    assert!(!manager.has_entry(bob(), 2));
}

#[test]
fn newer_response_takes_the_place_of_the_older() {
    let mut manager = ResponseManager::new(true);
    manager.add_entry(alice(), 1, ResponseMarshal::good(b"old".to_vec()));
    manager.add_entry(alice(), 2, ResponseMarshal::good(b"other".to_vec()));
    manager.add_entry(alice(), 1, ResponseMarshal::good(b"new".to_vec()));
    assert_eq!(manager.get_entry(alice(), 1), &ResponseMarshal::good(b"new".to_vec()));
    assert_eq!(manager.get_entry(alice(), 2), &ResponseMarshal::good(b"other".to_vec()));
}

#[test]
fn without_memory_nothing_is_kept() {
    let mut manager = ResponseManager::new(false);
    assert!(!manager.is_at_most_once());
    manager.add_entry(alice(), 7, ResponseMarshal::good(b"WORLD".to_vec()));
    assert!(!manager.has_entry(alice(), 7));
}

#[test]
fn flush_forgets_one_client_only() {
    let mut manager = ResponseManager::new(true);
    manager.begin_session(alice(), 10);
    manager.begin_session(bob(), 20);
    manager.add_entry(alice(), 1, ResponseMarshal::good(b"a".to_vec()));
    manager.add_entry(alice(), 2, ResponseMarshal::good(b"a".to_vec()));
    manager.add_entry(bob(), 1, ResponseMarshal::good(b"b".to_vec()));
    manager.flush_client(alice());
    assert!(!manager.has_entry(alice(), 1));
    assert!(!manager.has_entry(alice(), 2));
    assert_eq!(manager.session(alice()), None);
    assert!(manager.has_entry(bob(), 1));
    assert_eq!(manager.session(bob()), Some(20));
}

#[test]
fn flush_of_an_unknown_client_does_nothing() {
    let mut manager = ResponseManager::new(true);
    manager.add_entry(bob(), 1, ResponseMarshal::good(b"b".to_vec()));
    manager.flush_client(alice());
    assert!(manager.has_entry(bob(), 1));
}

#[test]
fn first_handshake_records_the_session_and_keeps_responses() {
    let mut manager = ResponseManager::new(true);
    manager.add_entry(alice(), 1, ResponseMarshal::good(b"a".to_vec()));
    manager.begin_session(alice(), 10);
    assert_eq!(manager.session(alice()), Some(10));
    assert!(manager.has_entry(alice(), 1));
}

#[test]
fn repeated_handshake_keeps_responses() {
    let mut manager = ResponseManager::new(true);
    manager.begin_session(alice(), 10);
    manager.add_entry(alice(), 1, ResponseMarshal::good(b"a".to_vec()));
    manager.begin_session(alice(), 10);
    assert_eq!(manager.session(alice()), Some(10));
    assert!(manager.has_entry(alice(), 1));
}

#[test]
fn handshake_with_another_session_forgets_responses() {
    let mut manager = ResponseManager::new(true);
    manager.begin_session(alice(), 10);
    manager.begin_session(bob(), 10);
    manager.add_entry(alice(), 1, ResponseMarshal::good(b"a".to_vec()));
    manager.add_entry(alice(), 2, ResponseMarshal::good(b"a".to_vec()));
    manager.add_entry(bob(), 1, ResponseMarshal::good(b"b".to_vec()));
    manager.begin_session(alice(), 11);
    assert_eq!(manager.session(alice()), Some(11));
    for req_no in 0..10 {
        assert!(!manager.has_entry(alice(), req_no));
    }
    assert!(manager.has_entry(bob(), 1));
    assert_eq!(manager.session(bob()), Some(10));
}

#[test]
fn ipv6_clients_differ_by_every_part() {
    let base = ClientAddress::V6 { ip6: 1, port: 9, flowinfo: 0, scope_id: 0 };
    let mut manager = ResponseManager::new(true);
    manager.add_entry(base, 1, ResponseMarshal::good(b"x".to_vec()));
    assert!(manager.has_entry(base, 1));
    assert!(!manager.has_entry(ClientAddress::V6 { ip6: 2, port: 9, flowinfo: 0, scope_id: 0 }, 1));
    assert!(!manager.has_entry(ClientAddress::V6 { ip6: 1, port: 8, flowinfo: 0, scope_id: 0 }, 1));
    assert!(!manager.has_entry(ClientAddress::V6 { ip6: 1, port: 9, flowinfo: 1, scope_id: 0 }, 1));
    assert!(!manager.has_entry(ClientAddress::V6 { ip6: 1, port: 9, flowinfo: 0, scope_id: 3 }, 1));
    assert!(!manager.has_entry(ClientAddress::V4 { ip: 1, port: 9 }, 1));
}
