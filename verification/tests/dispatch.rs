use file_server::address::ClientAddress;
use file_server::dispatch::{execute, Completion, Execution, FileLookup, RequestDispatcher, Step};
use file_server::monitor::MonitorInterval;
use file_server::request::{Command, FileAction, FileRequest, Request};
use file_server::wire::{ResponseMarshal, StatusCode};

fn client_a() -> ClientAddress {
    ClientAddress::V4 { ip: 0x7f00_0001, port: 40001 }
}

fn client_b() -> ClientAddress {
    ClientAddress::V4 { ip: 0x7f00_0001, port: 40002 }
}

fn frame(req_no: u32, path: &str, action: FileAction) -> Vec<u8> {
    Request { req_no, command: Command::File(FileRequest { path: path.to_string(), action }) }
        .into_bytes()
        .unwrap()
}

fn handshake(req_no: u32, session_id: u32) -> Vec<u8> {
    Request { req_no, command: Command::Handshake { session_id } }.into_bytes().unwrap()
}

fn disconnect(req_no: u32) -> Vec<u8> {
    Request { req_no, command: Command::Disconnect }.into_bytes().unwrap()
}

/// One file named `greet` and a server in front of it, as the program around
/// the library runs them.
struct Bench {
    server: RequestDispatcher,
    greet: Vec<u8>,
    writes: usize,
    sent: Vec<(ClientAddress, Vec<u8>)>,
}

fn bench(at_most_once: bool, contents: &[u8]) -> Bench {
    Bench {
        server: RequestDispatcher::new(at_most_once),
        greet: contents.to_vec(),
        writes: 0,
        sent: Vec::new(),
    }
}

fn deliver(bench: &mut Bench, datagram: &[u8], from: ClientAddress, now_ms: u128) -> ResponseMarshal {
    let response = match bench.server.process_request(datagram, from) {
        Step::Reply(response) => response,
        Step::Lookup { req_no, request } => {
            let file = if request.path == "greet" {
                FileLookup::Contents(bench.greet.clone())
            } else if request.path == "locked" {
                FileLookup::Unopenable
            } else {
                FileLookup::Missing
            };
            let done = bench.server.finish_request(from, req_no, &request, &file, now_ms);
            if let Some(after) = &done.snapshot {
                bench.greet = after.clone();
                bench.writes += 1;
            }
            if let Some(notice) = done.notification() {
                for monitor in &done.told {
                    bench.sent.push((monitor.addr, notice.into_bytes()));
                }
            }
            done.response
        },
    };
    bench.sent.push((from, response.into_bytes()));
    response
}

#[test]
fn read_scenario() {
    let mut bench = bench(false, b"HELLO WORLD");
    let response =
        deliver(&mut bench, &frame(1, "greet", FileAction::Read { offset: 6, amount: 5 }), client_a(), 0);
    assert_eq!(response, ResponseMarshal { status: StatusCode::Good, data: b"WORLD".to_vec() });
    assert_eq!(bench.greet, b"HELLO WORLD".to_vec());
    assert_eq!(bench.writes, 0);
    assert_eq!(bench.sent, vec![(client_a(), b"\x01WORLD".to_vec())]);
}

#[test]
fn update_scenario() {
    let mut bench = bench(false, b"HELLO WORLD");
    let response = deliver(
        &mut bench,
        &frame(2, "greet", FileAction::Update { offset: 6, data: b"there".to_vec() }),
        client_a(),
        0,
    );
    assert_eq!(response, ResponseMarshal::good_text("Operation Completed"));
    assert_eq!(response.data, b"Operation Completed".to_vec());
    assert_eq!(bench.greet, b"HELLO there".to_vec());
}

#[test]
fn insert_scenario() {
    let mut bench = bench(false, b"HELLO WORLD");
    let response = deliver(
        &mut bench,
        &frame(3, "greet", FileAction::Insert { offset: 5, data: b",".to_vec() }),
        client_a(),
        0,
    );
    assert_eq!(response.status, StatusCode::Good);
    assert_eq!(bench.greet, b"HELLO, WORLD".to_vec());
    assert_eq!(bench.greet.len(), 12);
}

#[test]
fn delete_scenario() {
    let mut bench = bench(false, b"HELLO, WORLD");
    let response =
        deliver(&mut bench, &frame(4, "greet", FileAction::Delete { offset: 5, amount: 2 }), client_a(), 0);
    assert_eq!(response.status, StatusCode::Good);
    assert_eq!(bench.greet, b"HELLOWORLD".to_vec());
    assert_eq!(bench.greet.len(), 10);
}

#[test]
fn duplicate_under_at_most_once_scenario() {
    let mut bench = bench(true, b"HELLO WORLD");
    let datagram = frame(5, "greet", FileAction::Insert { offset: 0, data: b"!".to_vec() });
    let first = deliver(&mut bench, &datagram, client_a(), 0);
    let second = deliver(&mut bench, &datagram, client_a(), 1);
    assert_eq!(bench.greet, b"!HELLO WORLD".to_vec());
    assert_eq!(bench.greet.len(), 12);
    assert_eq!(bench.writes, 1);
    assert_eq!(first.into_bytes(), second.into_bytes());
    assert_eq!(first.status, StatusCode::Good);
}

#[test]
fn duplicate_under_at_least_once_is_carried_out_twice() {
    let mut bench = bench(false, b"HELLO WORLD");
    let datagram = frame(5, "greet", FileAction::Insert { offset: 0, data: b"!".to_vec() });
    deliver(&mut bench, &datagram, client_a(), 0);
    deliver(&mut bench, &datagram, client_a(), 1);
    assert_eq!(bench.greet, b"!!HELLO WORLD".to_vec());
    assert_eq!(bench.writes, 2);
}

#[test]
fn same_number_from_another_client_is_another_request() {
    let mut bench = bench(true, b"HELLO WORLD");
    let datagram = frame(5, "greet", FileAction::Insert { offset: 0, data: b"!".to_vec() });
    deliver(&mut bench, &datagram, client_a(), 0);
    deliver(&mut bench, &datagram, client_b(), 0);
    assert_eq!(bench.greet, b"!!HELLO WORLD".to_vec());
}

#[test]
fn duplicate_is_answered_from_memory_whatever_follows_its_header() {
    let mut bench = bench(true, b"HELLO WORLD");
    let first =
        deliver(&mut bench, &frame(9, "greet", FileAction::Read { offset: 0, amount: 5 }), client_a(), 0);
    assert_eq!(first.data, b"HELLO".to_vec());
    let other = deliver(
        &mut bench,
        &frame(9, "greet", FileAction::Delete { offset: 0, amount: 5 }),
        client_a(),
        0,
    );
    assert_eq!(other, first);
    let cut = deliver(&mut bench, &[0, 0, 0, 9, 3], client_a(), 0);
    assert_eq!(cut, first);
    assert_eq!(bench.greet, b"HELLO WORLD".to_vec());
}

#[test]
fn monitor_scenario() {
    let mut bench = bench(false, b"HELLO WORLD");
    let asked = deliver(
        &mut bench,
        &frame(1, "greet", FileAction::Monitor { interval_ms: 10000 }),
        client_b(),
        50_000,
    );
    assert_eq!(asked, ResponseMarshal::good_text("Operation Completed"));
    bench.sent.clear();
    deliver(
        &mut bench,
        &frame(2, "greet", FileAction::Update { offset: 6, data: b"there".to_vec() }),
        client_a(),
        55_000,
    );
    assert_eq!(
        bench.sent,
        vec![
            (client_b(), b"\x01HELLO there".to_vec()),
            (client_a(), b"\x01Operation Completed".to_vec()),
        ]
    );
    bench.sent.clear();
    deliver(
        &mut bench,
        &frame(3, "greet", FileAction::Update { offset: 0, data: b"J".to_vec() }),
        client_a(),
        60_001,
    );
    assert_eq!(bench.sent, vec![(client_a(), b"\x01Operation Completed".to_vec())]);
    bench.sent.clear();
    deliver(
        &mut bench,
        &frame(4, "greet", FileAction::Update { offset: 0, data: b"H".to_vec() }),
        client_a(),
        55_000,
    );
    assert_eq!(bench.sent, vec![(client_a(), b"\x01Operation Completed".to_vec())]);
}

#[test]
fn bounds_scenario() {
    let mut bench = bench(false, b"HELLO WORLD");
    let response =
        deliver(&mut bench, &frame(7, "greet", FileAction::Read { offset: 10, amount: 5 }), client_a(), 0);
    assert_eq!(
        response,
        ResponseMarshal { status: StatusCode::Bad, data: b"Offset+Amount is too large".to_vec() }
    );
}

#[test]
fn out_of_bounds_requests_change_nothing() {
    let mut bench = bench(false, b"HELLO WORLD");
    deliver(&mut bench, &frame(1, "greet", FileAction::Monitor { interval_ms: 1000 }), client_b(), 0);
    bench.sent.clear();
    let refused = vec![
        (FileAction::Read { offset: 11, amount: 0 }, "Offset is too large"),
        (FileAction::Read { offset: 0, amount: 12 }, "Offset+Amount is too large"),
        (FileAction::Insert { offset: 11, data: b"!".to_vec() }, "Offset is too large"),
        (FileAction::Update { offset: 11, data: Vec::new() }, "Offset is too large"),
        (FileAction::Update { offset: 7, data: b"there".to_vec() }, "Offset+Data is too large"),
        (FileAction::Delete { offset: 200, amount: 1 }, "Offset is too large"),
        (FileAction::Delete { offset: 10, amount: 2 }, "Offset+Amount is too large"),
    ];
    for (action, reason) in refused {
        let response = deliver(&mut bench, &frame(2, "greet", action), client_a(), 10);
        assert_eq!(response, ResponseMarshal::bad(reason));
    }
    assert_eq!(bench.greet, b"HELLO WORLD".to_vec());
    assert_eq!(bench.writes, 0);
    assert!(bench.sent.iter().all(|(to, _)| *to == client_a()));
}

#[test]
fn read_tells_nobody() {
    let mut bench = bench(false, b"HELLO WORLD");
    deliver(&mut bench, &frame(1, "greet", FileAction::Monitor { interval_ms: 1000 }), client_b(), 0);
    bench.sent.clear();
    deliver(&mut bench, &frame(2, "greet", FileAction::Read { offset: 0, amount: 11 }), client_a(), 10);
    assert_eq!(bench.sent, vec![(client_a(), b"\x01HELLO WORLD".to_vec())]);
    assert_eq!(bench.writes, 0);
}

#[test]
fn every_change_tells_each_watcher_once() {
    let mut bench = bench(false, b"HELLO WORLD");
    deliver(&mut bench, &frame(1, "greet", FileAction::Monitor { interval_ms: 1000 }), client_b(), 0);
    deliver(&mut bench, &frame(1, "greet", FileAction::Monitor { interval_ms: 1000 }), client_a(), 0);
    bench.sent.clear();
    deliver(&mut bench, &frame(2, "greet", FileAction::Insert { offset: 5, data: b",".to_vec() }), client_a(), 5);
    deliver(&mut bench, &frame(3, "greet", FileAction::Delete { offset: 5, amount: 1 }), client_a(), 6);
    let to_b: Vec<&Vec<u8>> =
        bench.sent.iter().filter(|(to, _)| *to == client_b()).map(|(_, bytes)| bytes).collect();
    assert_eq!(to_b, vec![&b"\x01HELLO, WORLD".to_vec(), &b"\x01HELLO WORLD".to_vec()]);
    let to_a = bench.sent.iter().filter(|(to, _)| *to == client_a()).count();
    assert_eq!(to_a, 4);
}

#[test]
fn handshake_is_welcomed() {
    let mut bench = bench(true, b"HELLO WORLD");
    let response = deliver(&mut bench, &handshake(1, 77), client_a(), 0);
    assert_eq!(response, ResponseMarshal::good_text("Handshake Completed. Welcome!"));
    assert_eq!(bench.server.responses.session(client_a()), Some(77));
    assert!(!bench.server.responses.has_entry(client_a(), 1));
}

#[test]
fn disconnect_is_answered_and_forgets_the_client() {
    let mut bench = bench(true, b"HELLO WORLD");
    deliver(&mut bench, &handshake(1, 77), client_a(), 0);
    deliver(&mut bench, &frame(2, "greet", FileAction::Read { offset: 0, amount: 1 }), client_a(), 0);
    assert!(bench.server.responses.has_entry(client_a(), 2));
    let response = deliver(&mut bench, &disconnect(3), client_a(), 0);
    assert_eq!(response, ResponseMarshal::good_text("Bye!"));
    assert_eq!(bench.server.responses.session(client_a()), None);
    assert!(!bench.server.responses.has_entry(client_a(), 2));
    assert!(!bench.server.responses.has_entry(client_a(), 3));
}

#[test]
fn new_session_makes_an_old_number_a_new_request() {
    let mut bench = bench(true, b"HELLO WORLD");
    let datagram = frame(5, "greet", FileAction::Insert { offset: 0, data: b"!".to_vec() });
    deliver(&mut bench, &handshake(1, 100), client_a(), 0);
    deliver(&mut bench, &datagram, client_a(), 0);
    deliver(&mut bench, &handshake(1, 100), client_a(), 0);
    deliver(&mut bench, &datagram, client_a(), 0);
    assert_eq!(bench.greet, b"!HELLO WORLD".to_vec());
    deliver(&mut bench, &handshake(1, 101), client_a(), 0);
    for req_no in 0..8 {
        assert!(!bench.server.responses.has_entry(client_a(), req_no));
    }
    deliver(&mut bench, &datagram, client_a(), 0);
    assert_eq!(bench.greet, b"!!HELLO WORLD".to_vec());
}

#[test]
fn file_is_served_without_a_handshake() {
    let mut bench = bench(true, b"HELLO WORLD");
    let response =
        deliver(&mut bench, &frame(1, "greet", FileAction::Read { offset: 0, amount: 5 }), client_a(), 0);
    assert_eq!(response.data, b"HELLO".to_vec());
    assert!(bench.server.responses.has_entry(client_a(), 1));
    assert_eq!(bench.server.responses.session(client_a()), None);
}

#[test]
fn short_datagram_is_a_decode_error_and_touches_nothing() {
    let mut bench = bench(true, b"HELLO WORLD");
    for datagram in [&[][..], &[0, 0, 0][..], &[0, 0, 0, 1][..], &[0, 0, 0, 1, 0, 9][..]] {
        let response = deliver(&mut bench, datagram, client_a(), 0);
        assert_eq!(response, ResponseMarshal::bad("decode error"));
    }
    assert_eq!(bench.server.responses.session(client_a()), None);
    assert!(!bench.server.responses.has_entry(client_a(), 1));
}

#[test]
fn unknown_operation_is_invalid_and_not_kept() {
    let mut bench = bench(true, b"HELLO WORLD");
    let response = deliver(&mut bench, &[0, 0, 0, 1, 7, 1, 2, 3], client_a(), 0);
    assert_eq!(response, ResponseMarshal::bad("Invalid Operation"));
    assert!(!bench.server.responses.has_entry(client_a(), 1));
}

#[test]
fn request_cut_short_is_a_decode_error_and_is_kept() {
    let mut bench = bench(true, b"HELLO WORLD");
    let whole = frame(4, "greet", FileAction::Insert { offset: 0, data: b"!".to_vec() });
    let response = deliver(&mut bench, &whole[..whole.len() - 1], client_a(), 0);
    assert_eq!(response, ResponseMarshal::bad("decode error"));
    assert!(bench.server.responses.has_entry(client_a(), 4));
    let again = deliver(&mut bench, &whole, client_a(), 0);
    assert_eq!(again, ResponseMarshal::bad("decode error"));
    assert_eq!(bench.greet, b"HELLO WORLD".to_vec());
}

#[test]
fn path_that_is_not_utf8_is_a_decode_error() {
    let mut bench = bench(false, b"HELLO WORLD");
    let datagram = [0, 0, 0, 1, 2, 0, 0, 0, 1, 0xff, 0, 0, 0, 0, 0, 0, 0, 1];
    assert_eq!(deliver(&mut bench, &datagram, client_a(), 0), ResponseMarshal::bad("decode error"));
}

#[test]
fn missing_file_is_an_invalid_path() {
    let mut bench = bench(true, b"HELLO WORLD");
    for action in [
        FileAction::Read { offset: 0, amount: 1 },
        FileAction::Insert { offset: 0, data: b"x".to_vec() },
        FileAction::Monitor { interval_ms: 5 },
    ] {
        let response = deliver(&mut bench, &frame(1, "nowhere", action), client_b(), 0);
        assert_eq!(response, ResponseMarshal::bad("Invalid File Path"));
    }
    assert_eq!(bench.writes, 0);
}

#[test]
fn file_that_does_not_open_is_reported() {
    let mut bench = bench(false, b"HELLO WORLD");
    let response =
        deliver(&mut bench, &frame(1, "locked", FileAction::Read { offset: 0, amount: 1 }), client_a(), 0);
    assert_eq!(response, ResponseMarshal::bad("Could not open file"));
}

#[test]
fn monitor_of_a_missing_file_records_nothing() {
    let mut server = RequestDispatcher::new(false);
    let request =
        FileRequest { path: "greet".to_string(), action: FileAction::Monitor { interval_ms: 100 } };
    let done = server.finish_request(client_b(), 1, &request, &FileLookup::Missing, 0);
    assert_eq!(done.response, ResponseMarshal::bad("Invalid File Path"));
    let change = FileRequest {
        path: "greet".to_string(),
        action: FileAction::Update { offset: 0, data: b"J".to_vec() },
    };
    let done = server.finish_request(client_a(), 2, &change, &FileLookup::Contents(b"HELLO".to_vec()), 1);
    assert_eq!(done.told, Vec::new());
    assert_eq!(done.snapshot, Some(b"JELLO".to_vec()));
}

#[test]
fn second_step_hands_back_snapshot_and_watchers() {
    let mut server = RequestDispatcher::new(true);
    let watch =
        FileRequest { path: "greet".to_string(), action: FileAction::Monitor { interval_ms: 100 } };
    let file = FileLookup::Contents(b"HELLO WORLD".to_vec());
    let done = server.finish_request(client_b(), 1, &watch, &file, 1000);
    assert_eq!(
        done,
        Completion {
            response: ResponseMarshal::good_text("Operation Completed"),
            snapshot: None,
            told: Vec::new(),
        }
    );
    assert_eq!(done.notification(), None);
    let change = FileRequest {
        path: "greet".to_string(),
        action: FileAction::Delete { offset: 5, amount: 6 },
    };
    let done = server.finish_request(client_a(), 2, &change, &file, 1100);
    assert_eq!(
        done,
        Completion {
            response: ResponseMarshal::good_text("Operation Completed"),
            snapshot: Some(b"HELLO".to_vec()),
            told: vec![MonitorInterval { addr: client_b(), end_time: 1100 }],
        }
    );
    assert_eq!(done.notification(), Some(ResponseMarshal::good(b"HELLO".to_vec())));
    assert!(server.responses.has_entry(client_a(), 2));
    assert_eq!(server.responses.get_entry(client_a(), 2), &ResponseMarshal::good_text("Operation Completed"));
}

#[test]
fn execute_decides_by_what_was_found() {
    let read = FileAction::Read { offset: 6, amount: 5 };
    assert_eq!(
        execute(&read, &FileLookup::Contents(b"HELLO WORLD".to_vec())),
        Execution { response: ResponseMarshal::good(b"WORLD".to_vec()), snapshot: None }
    );
    assert_eq!(
        execute(&read, &FileLookup::Missing),
        Execution { response: ResponseMarshal::bad("Invalid File Path"), snapshot: None }
    );
    assert_eq!(
        execute(&read, &FileLookup::Unopenable),
        Execution { response: ResponseMarshal::bad("Could not open file"), snapshot: None }
    );
    assert_eq!(
        execute(&read, &FileLookup::Contents(Vec::new())),
        Execution { response: ResponseMarshal::bad("Offset is too large"), snapshot: None }
    );
    assert_eq!(
        execute(
            &FileAction::Insert { offset: 5, data: b",".to_vec() },
            &FileLookup::Contents(b"HELLO WORLD".to_vec())
        ),
        Execution {
            response: ResponseMarshal::good_text("Operation Completed"),
            snapshot: Some(b"HELLO, WORLD".to_vec()),
        }
    );
    assert_eq!(
        execute(&FileAction::Monitor { interval_ms: 1 }, &FileLookup::Contents(Vec::new())),
        Execution { response: ResponseMarshal::good_text("Operation Completed"), snapshot: None }
    );
}

#[test]
fn read_may_return_bytes_that_are_no_text() {
    let mut server = RequestDispatcher::new(false);
    let request =
        FileRequest { path: "blob".to_string(), action: FileAction::Read { offset: 1, amount: 2 } };
    let done =
        server.finish_request(client_a(), 1, &request, &FileLookup::Contents(vec![0, 0xff, 0xfe, 1]), 0);
    assert_eq!(done.response.into_bytes(), vec![1, 0xff, 0xfe]);
}
