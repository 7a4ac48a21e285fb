use babushka_core::socket_listener::{
    accept_step, get_socket_path, handle_signals, watched_signals, BindOutcome, ListenStart,
    ListenerEvent, ListenerStep, Signal, SocketListener, SOCKET_FILE_NAME,
};

#[test]
fn socket_path_names_the_process() {
    assert_eq!(SOCKET_FILE_NAME, "babushka-socket");
    assert_eq!(get_socket_path("/tmp", 4242), "/tmp/babushka-socket-4242");
    assert_eq!(get_socket_path("/var/run/user", 0), "/var/run/user/babushka-socket-0");
    assert_eq!(get_socket_path("/tmp", u32::MAX), "/tmp/babushka-socket-4294967295");
    assert_eq!(get_socket_path("/tmp/", 7), "/tmp/babushka-socket-7");
    assert_eq!(get_socket_path("/", 7), "/babushka-socket-7");
    assert_eq!(get_socket_path("", 7), "/babushka-socket-7");
    assert_eq!(get_socket_path("/t\u{e9}mp", 12), "/t\u{e9}mp/babushka-socket-12");
}

#[test]
fn bound_socket_is_reported_and_cleaned_up() {
    let mut listener = SocketListener::new("/tmp/babushka-socket-1".to_string());
    assert!(listener.cleanup_socket());
    let start = listener.listen_on_socket(BindOutcome::Bound);
    assert_eq!(
        start,
        ListenStart { init_result: Ok("/tmp/babushka-socket-1".to_string()), accept: true }
    );
    assert!(listener.cleanup_socket());
    assert_eq!(listener.socket_path(), "/tmp/babushka-socket-1");
    // A signal ends the accept loop, and the listener goes away.
    assert_eq!(accept_step(ListenerEvent::Signalled(Signal::Interrupt)), ListenerStep::Stop);
    assert_eq!(listener.dispose(), Some("/tmp/babushka-socket-1".to_string()));
}

#[test]
fn address_in_use_is_success_without_cleanup() {
    let mut listener = SocketListener::new("/tmp/babushka-socket-2".to_string());
    let start = listener.listen_on_socket(BindOutcome::AddrInUse);
    assert_eq!(
        start,
        ListenStart { init_result: Ok("/tmp/babushka-socket-2".to_string()), accept: false }
    );
    assert!(!listener.cleanup_socket());
    assert_eq!(listener.dispose(), None);
}

#[test]
fn other_bind_errors_are_reported() {
    let mut listener = SocketListener::new("/nowhere/babushka-socket-3".to_string());
    let start = listener.listen_on_socket(BindOutcome::Failed("No such file".to_string()));
    assert_eq!(start, ListenStart { init_result: Err("No such file".to_string()), accept: false });
    assert!(listener.cleanup_socket());
    assert_eq!(listener.dispose(), Some("/nowhere/babushka-socket-3".to_string()));
}

#[test]
fn four_signals_end_the_listener() {
    assert_eq!(
        watched_signals(),
        [Signal::Terminate, Signal::Quit, Signal::Interrupt, Signal::Hangup]
    );
    for signal in watched_signals() {
        assert!(handle_signals(signal));
        assert_eq!(accept_step(ListenerEvent::Signalled(signal)), ListenerStep::Stop);
    }
    assert!(!handle_signals(Signal::Other));
    assert_eq!(accept_step(ListenerEvent::Signalled(Signal::Other)), ListenerStep::Continue);
}

#[test]
fn accept_loop_steps() {
    assert_eq!(accept_step(ListenerEvent::Accepted), ListenerStep::SpawnSession);
    assert_eq!(accept_step(ListenerEvent::AcceptFailed), ListenerStep::Stop);
}
