use lambda_runtime_core::Context;
use lambda_runtime_core::proto::DecodeError;
use lambda_runtime_core::proto::Request;
use lambda_runtime_core::proto::Response;
use lambda_runtime_core::session::Completion;
use lambda_runtime_core::session::Invocation;
use lambda_runtime_core::session::Session;

fn ok_invoke(seq: u64, deadline: u64, trace_id: u64, payload: Vec<u8>) -> Result<Request, DecodeError> {
    Ok(Request::Invoke(seq, deadline, Context::new(deadline, trace_id), payload))
}

#[test]
fn end_to_end_scenario() {
    let mut session = Session::spawn();

    // The peer sends one unit of work; its handler work is dispatched with
    // the request's own context and payload, and nothing is emitted yet.
    let out = session
        .poll(vec![ok_invoke(1, 1000, 11, vec![0x50])], false, Vec::new(), true)
        .expect("a well-formed invoke is not fatal");
    assert_eq!(out.dispatches.len(), 1);
    assert_eq!(out.dispatches[0].seq, 1);
    assert_eq!(out.dispatches[0].deadline, 1000);
    assert_eq!(out.dispatches[0].payload, vec![0x50]);
    assert!(out.emit.is_empty());
    assert!(!out.done);

    // The handler succeeds with value R: exactly one correlated response.
    let out = session
        .poll(Vec::new(), false, vec![Completion { seq: 1, outcome: Ok(vec![0x52]) }], true)
        .expect("a handler outcome is not fatal");
    assert!(out.dispatches.is_empty());
    assert_eq!(out.emit.len(), 1);
    match &out.emit[0] {
        Response::Invoke(seq, Ok(p)) => {
            assert_eq!(*seq, 1);
            assert_eq!(p, &vec![0x52]);
        },
        _ => panic!("expected the invocation's success response"),
    }

    // A ping is answered at once, without dispatching any handler work.
    let out = session
        .poll(vec![Ok(Request::Ping(2))], false, Vec::new(), true)
        .expect("a ping is not fatal");
    assert!(out.dispatches.is_empty());
    assert_eq!(out.emit.len(), 1);
    match &out.emit[0] {
        Response::Ping(seq) => assert_eq!(*seq, 2),
        _ => panic!("expected the echoed ping"),
    }

    // A malformed request is answered with a failure response for its own
    // sequence number; the connection stays open.
    let out = session
        .poll(vec![Err(DecodeError::User(3, vec![0xE0]))], false, Vec::new(), true)
        .expect("a user-level decode failure is not fatal");
    assert!(out.dispatches.is_empty());
    assert_eq!(out.emit.len(), 1);
    match &out.emit[0] {
        Response::Invoke(seq, Err(e)) => {
            assert_eq!(*seq, 3);
            assert_eq!(e, &vec![0xE0]);
        },
        _ => panic!("expected the user-level failure response"),
    }
    assert!(!session.is_failed());

    // One more unit of work goes in flight; then the transport corrupts.
    let out = session
        .poll(vec![ok_invoke(4, 2000, 44, vec![0x04])], false, Vec::new(), true)
        .expect("a well-formed invoke is not fatal");
    assert_eq!(out.dispatches.len(), 1);
    assert_eq!(session.inflight_len(), 1);

    match session.poll(vec![Err(DecodeError::Frame(vec![0xFF]))], false, Vec::new(), true) {
        Err(err) => assert_eq!(err, vec![0xFF]),
        Ok(_) => panic!("a framing failure must be fatal"),
    }
    assert!(session.is_failed());
    // The session terminated: no response was emitted for seq 4, and none
    // ever will be, since a failed session is never polled again.
}

#[test]
fn responses_follow_completion_order() {
    let mut session = Session::spawn();
    // A (slow) is decoded before B (fast).
    let out = session
        .poll(
            vec![ok_invoke(1, 500, 1, vec![0xA0]), ok_invoke(2, 500, 2, vec![0xB0])],
            false,
            Vec::new(),
            true,
        )
        .expect("well-formed invokes are not fatal");
    assert_eq!(out.dispatches.len(), 2);

    // B resolves first: its response is encoded before A's.
    let out = session
        .poll(
            Vec::new(),
            false,
            vec![
                Completion { seq: 2, outcome: Ok(vec![0xB1]) },
                Completion { seq: 1, outcome: Ok(vec![0xA1]) },
            ],
            true,
        )
        .expect("handler outcomes are not fatal");
    assert_eq!(out.emit.len(), 2);
    match &out.emit[0] {
        Response::Invoke(seq, Ok(_)) => assert_eq!(*seq, 2),
        _ => panic!("expected the fast invocation's response first"),
    }
    match &out.emit[1] {
        Response::Invoke(seq, Ok(_)) => assert_eq!(*seq, 1),
        _ => panic!("expected the slow invocation's response second"),
    }
}

#[test]
fn user_error_does_not_stop_decoding() {
    let mut session = Session::spawn();
    let out = session
        .poll(
            vec![Err(DecodeError::User(3, vec![0x33])), Ok(Request::Ping(4))],
            false,
            Vec::new(),
            true,
        )
        .expect("a user-level decode failure is not fatal");
    assert_eq!(out.emit.len(), 2);
    match &out.emit[0] {
        Response::Invoke(seq, Err(_)) => assert_eq!(*seq, 3),
        _ => panic!("expected the user-level failure response first"),
    }
    match &out.emit[1] {
        Response::Ping(seq) => assert_eq!(*seq, 4),
        _ => panic!("expected the later ping still to be answered"),
    }
    assert!(!session.is_failed());
}

#[test]
fn every_request_answered() {
    let mut session = Session::spawn();
    let out = session
        .poll(
            vec![
                Ok(Request::Ping(10)),
                ok_invoke(11, 100, 1, vec![1]),
                Ok(Request::Ping(12)),
                ok_invoke(13, 100, 2, vec![2]),
            ],
            true,
            Vec::new(),
            true,
        )
        .expect("well-formed requests are not fatal");
    let mut seqs: Vec<u64> = out.emit.iter().map(response_seq).collect();

    let out = session
        .poll(
            Vec::new(),
            true,
            vec![
                Completion { seq: 13, outcome: Err(vec![9]) },
                Completion { seq: 11, outcome: Ok(vec![8]) },
            ],
            true,
        )
        .expect("handler outcomes are not fatal");
    seqs.extend(out.emit.iter().map(response_seq));
    seqs.sort();
    assert_eq!(seqs, vec![10, 11, 12, 13]);
    assert!(out.done);
}

fn response_seq(r: &Response) -> u64 {
    match r {
        Response::Ping(seq) => *seq,
        Response::Invoke(seq, _) => *seq,
    }
}

#[test]
fn dispatch_carries_own_context() {
    let mut session = Session::spawn();
    let out = session
        .poll(
            vec![ok_invoke(1, 111, 21, vec![0x01]), ok_invoke(2, 222, 22, vec![0x02])],
            false,
            Vec::new(),
            true,
        )
        .expect("well-formed invokes are not fatal");
    assert_eq!(out.dispatches.len(), 2);
    assert_eq!(out.dispatches[0].ctx, Context::new(111, 21));
    assert_eq!(out.dispatches[0].payload, vec![0x01]);
    assert_eq!(out.dispatches[1].ctx, Context::new(222, 22));
    assert_eq!(out.dispatches[1].payload, vec![0x02]);

    // The record each dispatch leaves behind installs exactly its own scope
    // around every poll of the handler work, and tags the terminal value
    // with its own sequence number.
    let record = Invocation { seq: 2, deadline: 222, ctx: out.dispatches[1].ctx };
    assert_eq!(record.scope(), Context::new(222, 22));
    assert!(record.poll(None).is_none());
    match record.poll(Some(Ok(vec![0x99]))) {
        Some(c) => {
            assert_eq!(c.seq, 2);
            assert_eq!(c.outcome, Ok(vec![0x99]));
        },
        None => panic!("a resolved handler must yield a completion"),
    }
}

#[test]
fn completion_without_record_changes_nothing() {
    let mut session = Session::spawn();
    let answered = session.complete(Completion { seq: 9, outcome: Ok(vec![]) });
    assert!(!answered);
    let out = session.poll_encoder();
    assert!(out.is_empty());
}

#[test]
fn frame_error_drops_everything_decoded_after() {
    let mut session = Session::spawn();
    let outcome = session.poll(
        vec![
            Ok(Request::Ping(1)),
            Err(DecodeError::Frame(vec![0x0F])),
            Ok(Request::Ping(2)),
        ],
        false,
        Vec::new(),
        true,
    );
    match outcome {
        Err(err) => assert_eq!(err, vec![0x0F]),
        Ok(_) => panic!("a framing failure must be fatal"),
    }
    assert!(session.is_failed());
}
