use lambda_runtime_core::Server;
use lambda_runtime_core::server::SourceEvent;

#[test]
fn factory_failure_does_not_stop_the_listener() {
    let mut server = Server::new();

    // Connection K: the factory fails; the connection is discarded.
    let r = server
        .poll(SourceEvent::Connection(Err(vec![0xBD])))
        .expect("a factory failure is absorbed");
    assert!(r.is_none());
    assert!(!server.done);
    assert!(!server.failed);

    // Connection K + 1 is still accepted and served.
    let r = server
        .poll(SourceEvent::Connection(Ok(())))
        .expect("an accepted connection is not an error");
    let session = r.expect("a built handler starts a session");
    assert!(!session.is_failed());
    assert_eq!(session.inflight_len(), 0);
    assert!(!server.done);
    assert!(!server.failed);
}

#[test]
fn source_exhaustion_ends_the_listener() {
    let mut server = Server::new();
    let r = server.poll(SourceEvent::Closed).expect("exhaustion is a clean end");
    assert!(r.is_none());
    assert!(server.done);
    assert!(!server.failed);
}

#[test]
fn source_failure_is_fatal() {
    let mut server = Server::new();
    match server.poll(SourceEvent::Failed(vec![0x10])) {
        Err(err) => assert_eq!(err, vec![0x10]),
        Ok(_) => panic!("a source failure must propagate"),
    }
    assert!(server.failed);
}

#[test]
fn spawn_service_maps_outcomes() {
    let server = Server::new();
    assert!(server.spawn_service(Ok(())).is_ok());
    assert!(server.spawn_service(Err(vec![1])).is_err());
}

#[test]
fn spawn_starts_a_session_exactly_on_success() {
    let mut server = Server::new();
    assert!(server.spawn(Err(vec![2])).is_none());
    assert!(server.spawn(Ok(())).is_some());
}
