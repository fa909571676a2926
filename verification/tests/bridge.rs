use chronik_lib::addr::{AddrParseError, ResolvedAddress};
use chronik_lib::bridge::{
    invalid_host_message, parse_socket_addr, resolve_hosts, setup_chronik, Action, Bridge,
    Chronik, ChronikError, Event, Phase, SetupParams,
};

const LOCAL: [u8; 4] = [127, 0, 0, 1];

fn strings(texts: &[&str]) -> Vec<String> {
    texts.iter().map(|text| text.to_string()).collect()
}

fn invalid(text: &str) -> ChronikError {
    ChronikError::InvalidChronikHost(text.to_string(), AddrParseError::Ip)
}

fn start(texts: &[&str], default_port: u16) -> (Bridge, Action) {
    setup_chronik(SetupParams { hosts: strings(texts), default_port })
}

fn run(texts: &[&str]) -> (Bridge, Chronik) {
    let (mut bridge, mut action) = start(texts, 8331);
    assert!(matches!(action, Action::CreateRuntime));
    (bridge, action) = bridge.step(Event::RuntimeCreated);
    loop {
        match action {
            Action::Bind(_) => (bridge, action) = bridge.step(Event::Bound),
            Action::Serve(handle) => return (bridge, handle),
            other => panic!("{other:?}"),
        }
    }
}

#[test]
fn bare_ip_gets_the_default_port() {
    assert_eq!(
        parse_socket_addr("127.0.0.1".to_string(), 8080),
        Ok(ResolvedAddress::V4 { octets: LOCAL, port: 8080 })
    );
    assert_eq!(
        parse_socket_addr("::1".to_string(), 8331),
        Ok(ResolvedAddress::V6 { segments: [0, 0, 0, 0, 0, 0, 0, 1], port: 8331, scope_id: 0 })
    );
    assert_eq!(
        parse_socket_addr("0.0.0.0".to_string(), 0),
        Ok(ResolvedAddress::V4 { octets: [0, 0, 0, 0], port: 0 })
    );
}

#[test]
fn explicit_port_wins_over_the_default_port() {
    assert_eq!(
        parse_socket_addr("127.0.0.1:9000".to_string(), 8080),
        Ok(ResolvedAddress::V4 { octets: LOCAL, port: 9000 })
    );
    assert_eq!(
        parse_socket_addr("[::1]:9000".to_string(), 8080),
        Ok(ResolvedAddress::V6 { segments: [0, 0, 0, 0, 0, 0, 0, 1], port: 9000, scope_id: 0 })
    );
    assert_eq!(
        parse_socket_addr("[fe80::2%7]:1".to_string(), 8080),
        Ok(ResolvedAddress::V6 {
            segments: [0xfe80, 0, 0, 0, 0, 0, 0, 2],
            port: 1,
            scope_id: 7
        })
    );
}

#[test]
fn other_texts_fail_with_the_text_as_given() {
    assert_eq!(parse_socket_addr("not-an-ip".to_string(), 8080), Err(invalid("not-an-ip")));
    assert_eq!(parse_socket_addr(String::new(), 8080), Err(invalid("")));
    assert_eq!(parse_socket_addr("localhost:80".to_string(), 8080), Err(invalid("localhost:80")));
    assert_eq!(parse_socket_addr(" 127.0.0.1".to_string(), 8080), Err(invalid(" 127.0.0.1")));
    assert_eq!(parse_socket_addr("[::1]".to_string(), 8080), Err(invalid("[::1]")));
    assert_eq!(parse_socket_addr("caf\u{e9}".to_string(), 8080), Err(invalid("caf\u{e9}")));
}

#[test]
fn malformed_port_never_falls_back_to_the_default_port() {
    for text in ["127.0.0.1:", "127.0.0.1:abc", "127.0.0.1:65536", "127.0.0.1:-1", "[::1]:",
        "[::1]:x", "[::1]:70000", "127.0.0.1:80:80"]
    {
        assert_eq!(parse_socket_addr(text.to_string(), 8080), Err(invalid(text)), "{text:?}");
    }
}

#[test]
fn invalid_host_message_quotes_the_text() {
    assert_eq!(
        invalid("not-an-ip").message(),
        "Invalid Chronik host address \"not-an-ip\": invalid IP address syntax"
    );
    assert_eq!(
        invalid("a\"b\\c\n").message(),
        "Invalid Chronik host address \"a\\\"b\\\\c\\n\": invalid IP address syntax"
    );
    assert_eq!(
        invalid_host_message("<x>", AddrParseError::Socket),
        "Invalid Chronik host address <x>: invalid socket address syntax"
    );
}

#[test]
fn outside_errors_say_what_the_system_said() {
    assert_eq!(
        ChronikError::RuntimeCreation("Too many open files (os error 24)".to_string()).message(),
        "Too many open files (os error 24)"
    );
    assert_eq!(
        ChronikError::Bind(
            ResolvedAddress::V4 { octets: LOCAL, port: 80 },
            "Permission denied (os error 13)".to_string()
        )
        .message(),
        "Permission denied (os error 13)"
    );
}

#[test]
fn hosts_resolve_in_order() {
    assert_eq!(
        resolve_hosts(&strings(&["127.0.0.1", "[::1]:9", "10.0.0.1:7"]), 8331),
        Ok(vec![
            ResolvedAddress::V4 { octets: LOCAL, port: 8331 },
            ResolvedAddress::V6 { segments: [0, 0, 0, 0, 0, 0, 0, 1], port: 9, scope_id: 0 },
            ResolvedAddress::V4 { octets: [10, 0, 0, 1], port: 7 },
        ])
    );
    assert_eq!(resolve_hosts(&Vec::new(), 8331), Ok(Vec::new()));
}

#[test]
fn first_unresolved_host_fails_the_list() {
    assert_eq!(
        resolve_hosts(&strings(&["127.0.0.1", "bad-one", "10.0.0.1:7", "bad-two"]), 8331),
        Err(invalid("bad-one"))
    );
    assert_eq!(resolve_hosts(&strings(&["x"]), 1), Err(invalid("x")));
}

#[test]
fn setup_with_an_unresolved_host_fails_at_once() {
    let (bridge, action) = start(&["127.0.0.1", "nowhere"], 8331);
    assert_eq!(bridge.phase(), Phase::Uninitialized);
    assert_eq!(bridge.listeners(), 0);
    assert_eq!(bridge.configured(), 0);
    match action {
        Action::Fail(err) => {
            assert_eq!(err, invalid("nowhere"));
            assert_eq!(
                err.message(),
                "Invalid Chronik host address \"nowhere\": invalid IP address syntax"
            );
        }
        other => panic!("{other:?}"),
    }
}

#[test]
fn setup_binds_every_address_before_it_serves() {
    let (bridge, action) = start(&["0.0.0.0:0", "0.0.0.0:0"], 8331);
    assert_eq!(bridge.phase(), Phase::AwaitingRuntime);
    assert_eq!(bridge.configured(), 2);
    assert_eq!(bridge.listeners(), 0);
    assert!(matches!(action, Action::CreateRuntime));

    let any = ResolvedAddress::V4 { octets: [0, 0, 0, 0], port: 0 };
    let (bridge, action) = bridge.step(Event::RuntimeCreated);
    assert_eq!(bridge.phase(), Phase::Binding);
    assert_eq!(bridge.listeners(), 0);
    assert!(matches!(action, Action::Bind(address) if address == any));

    let (bridge, action) = bridge.step(Event::Bound);
    assert_eq!(bridge.phase(), Phase::Binding);
    assert_eq!(bridge.listeners(), 1);
    assert!(matches!(action, Action::Bind(address) if address == any));

    let (bridge, action) = bridge.step(Event::Bound);
    assert_eq!(bridge.phase(), Phase::Running);
    assert_eq!(bridge.listeners(), 2);
    let handle = match action {
        Action::Serve(handle) => handle,
        other => panic!("{other:?}"),
    };
    assert_eq!(handle.listeners(), 2);

    let (bridge, action) = bridge.step(Event::DestroyRequested(handle));
    assert_eq!(bridge.phase(), Phase::Stopping);
    assert_eq!(bridge.listeners(), 2);
    assert!(matches!(action, Action::Shutdown));

    let (bridge, action) = bridge.step(Event::BackgroundStopped);
    assert_eq!(bridge.phase(), Phase::Terminated);
    assert_eq!(bridge.listeners(), 0);
    assert!(matches!(action, Action::Finished));
}

#[test]
fn addresses_are_bound_in_the_order_configured() {
    let (bridge, _) = start(&["10.0.0.1", "10.0.0.2:5", "[::3]:6"], 4);
    let (bridge, action) = bridge.step(Event::RuntimeCreated);
    assert!(matches!(
        action,
        Action::Bind(ResolvedAddress::V4 { octets: [10, 0, 0, 1], port: 4 })
    ));
    let (bridge, action) = bridge.step(Event::Bound);
    assert!(matches!(
        action,
        Action::Bind(ResolvedAddress::V4 { octets: [10, 0, 0, 2], port: 5 })
    ));
    let (bridge, action) = bridge.step(Event::Bound);
    assert!(matches!(
        action,
        Action::Bind(ResolvedAddress::V6 {
            segments: [0, 0, 0, 0, 0, 0, 0, 3],
            port: 6,
            scope_id: 0
        })
    ));
    let (bridge, action) = bridge.step(Event::Bound);
    assert_eq!(bridge.phase(), Phase::Running);
    assert!(matches!(action, Action::Serve(_)));
}

#[test]
fn setup_without_addresses_serves_without_listeners() {
    let (bridge, action) = start(&[], 8331);
    assert_eq!(bridge.phase(), Phase::AwaitingRuntime);
    assert!(matches!(action, Action::CreateRuntime));
    let (bridge, action) = bridge.step(Event::RuntimeCreated);
    assert_eq!(bridge.phase(), Phase::Running);
    assert_eq!(bridge.listeners(), 0);
    match action {
        Action::Serve(handle) => assert_eq!(handle.listeners(), 0),
        other => panic!("{other:?}"),
    }
}

#[test]
fn runtime_failure_fails_setup() {
    let (bridge, _) = start(&["127.0.0.1"], 8331);
    let (bridge, action) = bridge.step(Event::RuntimeFailed("no threads".to_string()));
    assert_eq!(bridge.phase(), Phase::Uninitialized);
    assert_eq!(bridge.listeners(), 0);
    match action {
        Action::Fail(err) => {
            assert_eq!(err, ChronikError::RuntimeCreation("no threads".to_string()));
            assert_eq!(err.message(), "no threads");
        }
        other => panic!("{other:?}"),
    }
}

#[test]
fn bind_failure_fails_setup_and_leaves_no_listener() {
    let (bridge, _) = start(&["127.0.0.1:1", "127.0.0.1:2", "127.0.0.1:3"], 8331);
    let (bridge, _) = bridge.step(Event::RuntimeCreated);
    let (bridge, _) = bridge.step(Event::Bound);
    assert_eq!(bridge.listeners(), 1);
    let (bridge, action) = bridge.step(Event::BindFailed("Address already in use".to_string()));
    assert_eq!(bridge.phase(), Phase::Uninitialized);
    assert_eq!(bridge.listeners(), 0);
    match action {
        Action::Fail(err) => assert_eq!(
            err,
            ChronikError::Bind(
                ResolvedAddress::V4 { octets: LOCAL, port: 2 },
                "Address already in use".to_string()
            )
        ),
        other => panic!("{other:?}"),
    }
    let (bridge, action) = bridge.step(Event::Bound);
    assert_eq!(bridge.phase(), Phase::Uninitialized);
    assert_eq!(bridge.listeners(), 0);
    assert!(matches!(action, Action::Ignore));
}

#[test]
fn first_bind_failure_names_the_first_address() {
    let (bridge, _) = start(&["127.0.0.1:1", "127.0.0.1:2"], 8331);
    let (bridge, _) = bridge.step(Event::RuntimeCreated);
    let (bridge, action) = bridge.step(Event::BindFailed("denied".to_string()));
    assert_eq!(bridge.phase(), Phase::Uninitialized);
    assert!(matches!(
        action,
        Action::Fail(ChronikError::Bind(ResolvedAddress::V4 { octets: LOCAL, port: 1 }, _))
    ));
}

#[test]
fn serve_failure_after_setup_aborts_the_node() {
    let (bridge, _handle) = run(&["127.0.0.1"]);
    let (bridge, action) = bridge.step(Event::ServeFailed("accept failed".to_string()));
    assert_eq!(bridge.phase(), Phase::Terminated);
    assert_eq!(bridge.listeners(), 0);
    assert!(matches!(action, Action::AbortNode(diagnostic) if diagnostic == "accept failed"));
}

#[test]
fn destroy_ends_only_when_background_work_has_stopped() {
    let (bridge, handle) = run(&["127.0.0.1", "127.0.0.2"]);
    let (bridge, action) = bridge.step(Event::BackgroundStopped);
    assert_eq!(bridge.phase(), Phase::Running);
    assert!(matches!(action, Action::Ignore));
    let (bridge, action) = bridge.step(Event::DestroyRequested(handle));
    assert!(matches!(action, Action::Shutdown));
    let (bridge, action) = bridge.step(Event::Bound);
    assert_eq!(bridge.phase(), Phase::Stopping);
    assert!(matches!(action, Action::Ignore));
    let (bridge, action) = bridge.step(Event::ServeFailed("late".to_string()));
    assert_eq!(bridge.phase(), Phase::Stopping);
    assert!(matches!(action, Action::Ignore));
    let (bridge, action) = bridge.step(Event::BackgroundStopped);
    assert_eq!(bridge.phase(), Phase::Terminated);
    assert!(matches!(action, Action::Finished));
    let (bridge, action) = bridge.step(Event::BackgroundStopped);
    assert_eq!(bridge.phase(), Phase::Terminated);
    assert!(matches!(action, Action::Ignore));
}

#[test]
fn a_second_handle_is_ignored_while_stopping() {
    let (first, first_handle) = run(&["127.0.0.1"]);
    let (_second, second_handle) = run(&["127.0.0.1"]);
    let (first, action) = first.step(Event::DestroyRequested(first_handle));
    assert!(matches!(action, Action::Shutdown));
    let (first, action) = first.step(Event::DestroyRequested(second_handle));
    assert_eq!(first.phase(), Phase::Stopping);
    assert!(matches!(action, Action::Ignore));
}

#[test]
fn events_out_of_phase_change_nothing() {
    let (bridge, _) = start(&["127.0.0.1"], 8331);
    let (bridge, action) = bridge.step(Event::Bound);
    assert_eq!(bridge.phase(), Phase::AwaitingRuntime);
    assert!(matches!(action, Action::Ignore));
    let (bridge, action) = bridge.step(Event::BindFailed("x".to_string()));
    assert_eq!(bridge.phase(), Phase::AwaitingRuntime);
    assert!(matches!(action, Action::Ignore));
    let (bridge, _) = bridge.step(Event::RuntimeCreated);
    let (bridge, action) = bridge.step(Event::RuntimeCreated);
    assert_eq!(bridge.phase(), Phase::Binding);
    assert_eq!(bridge.listeners(), 0);
    assert!(matches!(action, Action::Ignore));
}

#[test]
fn handlers_give_the_lines_to_log() {
    let (_bridge, handle) = run(&["127.0.0.1"]);
    assert_eq!(handle.handle_tx_added_to_mempool(), "Chronik: transaction added to mempool\n");
    assert_eq!(
        handle.handle_tx_removed_from_mempool(),
        "Chronik: transaction removed from mempool\n"
    );
    assert_eq!(handle.handle_block_connected(), "Chronik: block connected\n");
    assert_eq!(handle.handle_block_disconnected(), "Chronik: block disconnected\n");
}
