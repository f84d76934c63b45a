use firebase_rs_sdk::firestore::remote::persistent::{next_stream_action, Backoff, StreamAction, StreamEvent};

#[test]
fn stream_opens_hands_over_and_reads_until_stopped() {
    let mut backoff = Backoff::new(3);
    assert_eq!(next_stream_action(&mut backoff, true, true, StreamEvent::Started), StreamAction::Open);
    assert_eq!(next_stream_action(&mut backoff, true, true, StreamEvent::Opened), StreamAction::Handshake);
    assert_eq!(next_stream_action(&mut backoff, true, true, StreamEvent::HandshakeDone), StreamAction::Read);
    assert_eq!(next_stream_action(&mut backoff, true, true, StreamEvent::Message(true)), StreamAction::Read);
    assert_eq!(
        next_stream_action(&mut backoff, false, true, StreamEvent::Message(true)),
        StreamAction::Finish { close_stream: true }
    );
}

#[test]
fn failed_opens_back_off_until_the_limit() {
    let mut backoff = Backoff::new(2);
    assert_eq!(next_stream_action(&mut backoff, true, true, StreamEvent::OpenFailed), StreamAction::Retry(0));
    assert_eq!(next_stream_action(&mut backoff, true, true, StreamEvent::OpenFailed), StreamAction::Retry(1));
    assert_eq!(
        next_stream_action(&mut backoff, true, true, StreamEvent::OpenFailed),
        StreamAction::Finish { close_stream: false }
    );
    assert_eq!(backoff.attempt, 2);
}

#[test]
fn handshake_resets_the_back_off() {
    let mut backoff = Backoff::new(0);
    assert_eq!(
        next_stream_action(&mut backoff, true, true, StreamEvent::HandshakeFailed),
        StreamAction::CloseAndRetry(Some(0))
    );
    assert_eq!(next_stream_action(&mut backoff, true, true, StreamEvent::OpenFailed), StreamAction::Retry(1));
    assert_eq!(next_stream_action(&mut backoff, true, true, StreamEvent::HandshakeDone), StreamAction::Read);
    assert_eq!(backoff.attempt, 0);
}

#[test]
fn failures_and_ends_restart_while_running() {
    let mut backoff = Backoff::new(1);
    assert_eq!(
        next_stream_action(&mut backoff, true, false, StreamEvent::Message(false)),
        StreamAction::Restart { close_stream: true }
    );
    assert_eq!(
        next_stream_action(&mut backoff, true, true, StreamEvent::StreamFailed),
        StreamAction::Restart { close_stream: true }
    );
    assert_eq!(
        next_stream_action(&mut backoff, true, true, StreamEvent::StreamEnded),
        StreamAction::Restart { close_stream: false }
    );
    assert_eq!(
        next_stream_action(&mut backoff, false, true, StreamEvent::StreamEnded),
        StreamAction::Finish { close_stream: false }
    );
    assert_eq!(
        next_stream_action(&mut backoff, true, false, StreamEvent::Started),
        StreamAction::Finish { close_stream: false }
    );
    assert_eq!(
        next_stream_action(&mut backoff, true, false, StreamEvent::Opened),
        StreamAction::Finish { close_stream: true }
    );
}
