use localsend_controller::files::{text_item_with_id, OutgoingItem, OutgoingSource};
use localsend_controller::outgoing::{
    check_source, make_offer, prepare_error, ClientFailure, FileToken, OfferReply, OpenedSource,
    OutgoingRun, RunEffect, RunEvent,
};
use localsend_controller::rpc::{ApiError, TransferState};
use std::sync::Arc;

fn item(id: &str, name: &str, size: u64) -> OutgoingItem {
    let mut item = text_item_with_id("x".to_string(), id).unwrap();
    item.file.file_name = name.to_string();
    item.file.size = size;
    item.file.preview = None;
    item
}

fn token(id: &str) -> FileToken {
    FileToken {
        id: id.to_string(),
        token: format!("token-{id}"),
    }
}

fn reply(ids: Vec<&str>) -> RunEvent {
    RunEvent::Answered {
        reply: Some(OfferReply {
            session_id: "session".to_string(),
            tokens: ids.into_iter().map(token).collect(),
        }),
    }
}

/// A short text for effects, to compare them.
fn told(effects: Vec<RunEffect>) -> Vec<String> {
    effects
        .into_iter()
        .map(|effect| match effect {
            RunEffect::SendOffer => "offer".to_string(),
            RunEffect::FillProgress => "fill".to_string(),
            RunEffect::Prepared {
                session_id,
                accepted,
            } => format!("prepared {session_id} {}", accepted.join(",")),
            RunEffect::CheckCancelled => "check".to_string(),
            RunEffect::Upload { file_id, token } => format!("upload {file_id} {token}"),
            RunEffect::FileCompleted { file_id, size } => format!("completed {file_id} {size}"),
            RunEffect::FileFailed { file_id, reason } => {
                format!("failed {file_id} {}: {}", reason.code, reason.message)
            }
            RunEffect::NotifyCancel { session_id } => format!("cancel {session_id}"),
            RunEffect::Finished { state, error } => match error {
                Some(error) => format!("end {state:?} {}", error.code),
                None => format!("end {state:?}"),
            },
        })
        .collect()
}

fn offered(items: Vec<OutgoingItem>) -> OutgoingRun {
    let mut run = OutgoingRun::begin(&items);
    assert_eq!(told(run.advance(RunEvent::Connected)), ["offer"]);
    run
}

#[test]
fn accepted_files_are_sent_by_name() {
    let mut run = offered(vec![
        item("1", "c", 30),
        item("2", "a", 10),
        item("3", "b", 20),
    ]);
    assert_eq!(run.offer().entries().len(), 3);
    assert_eq!(
        told(run.advance(reply(vec!["1", "unknown", "2", "1"]))),
        ["prepared session 2,1", "check"]
    );
    let go = || RunEvent::Checked {
        cancelled: false,
        by_peer: false,
    };
    assert_eq!(told(run.advance(go())), ["upload 2 token-2"]);
    assert_eq!(
        told(run.advance(RunEvent::Uploaded)),
        ["completed 2 10", "check"]
    );
    assert_eq!(told(run.advance(go())), ["upload 1 token-1"]);
    assert!(!run.has_ended());
    assert_eq!(
        told(run.advance(RunEvent::Uploaded)),
        ["completed 1 30", "end Completed"]
    );
    assert!(run.has_ended());
}

#[test]
fn an_offer_without_an_answer_is_declined_or_held_all() {
    let mut run = offered(vec![item("1", "a", 1)]);
    assert_eq!(
        told(run.advance(RunEvent::Answered { reply: None })),
        ["end Declined"]
    );
    let text = text_item_with_id("hello".to_string(), "t").unwrap();
    let mut run = offered(vec![text]);
    assert_eq!(
        told(run.advance(RunEvent::Answered { reply: None })),
        ["fill", "end Completed"]
    );
    let mut run = offered(vec![item("1", "a", 1)]);
    assert_eq!(told(run.advance(reply(vec!["2"]))), ["end Declined"]);
}

#[test]
fn failed_offers_end_the_transfer() {
    let end = |failure: ClientFailure| {
        let mut run = offered(vec![item("1", "a", 1)]);
        told(run.advance(RunEvent::OfferFailed { failure }))
    };
    assert_eq!(end(ClientFailure::Cancelled), ["end Cancelled"]);
    assert_eq!(end(ClientFailure::Status { code: 403 }), ["end Declined"]);
    assert_eq!(
        end(ClientFailure::Status { code: 401 }),
        ["end Failed pin_required"]
    );
    assert_eq!(end(ClientFailure::Json), ["end Failed protocol_error"]);
    assert_eq!(end(ClientFailure::Other), ["end Failed network_error"]);
    let mut run = OutgoingRun::begin(&vec![item("1", "a", 1)]);
    assert_eq!(
        told(run.advance(RunEvent::ConnectFailed)),
        ["end Failed tls_client_error"]
    );
}

#[test]
fn the_receiver_hears_of_a_cancellation_unless_it_was_its_own() {
    let started = || {
        let mut run = offered(vec![item("1", "a", 1), item("2", "b", 2)]);
        run.advance(reply(vec!["1", "2"]));
        run
    };
    let checked = |by_peer: bool| RunEvent::Checked {
        cancelled: true,
        by_peer,
    };
    assert_eq!(
        told(started().advance(checked(false))),
        ["cancel session", "end Cancelled"]
    );
    assert_eq!(told(started().advance(checked(true))), ["end Cancelled"]);

    let uploading = || {
        let mut run = started();
        run.advance(RunEvent::Checked {
            cancelled: false,
            by_peer: false,
        });
        run
    };
    let stopped = |by_peer: bool| RunEvent::UploadFailed {
        failure: ClientFailure::Cancelled,
        by_peer,
    };
    assert_eq!(
        told(uploading().advance(stopped(false))),
        ["cancel session", "end Cancelled"]
    );
    assert_eq!(told(uploading().advance(stopped(true))), ["end Cancelled"]);
    assert_eq!(
        told(uploading().advance(RunEvent::UploadFailed {
            failure: ClientFailure::Status { code: 500 },
            by_peer: false
        })),
        [
            "failed 1 upload_failed: Could not upload a",
            "cancel session",
            "end Failed upload_failed"
        ]
    );
    assert_eq!(
        told(uploading().advance(RunEvent::SourceFailed {
            error: ApiError::new("source_changed", "changed")
        })),
        [
            "failed 1 source_changed: changed",
            "cancel session",
            "end Failed source_changed"
        ]
    );
}

#[test]
fn ends_are_final() {
    let mut run = offered(vec![item("1", "a", 1)]);
    for effect in run.advance(RunEvent::OfferFailed {
        failure: ClientFailure::Other,
    }) {
        if let RunEffect::Finished { state, .. } = effect {
            assert!(state.terminal());
            assert_eq!(state, TransferState::Failed);
        }
    }
}

#[test]
fn failed_offers_are_explained() {
    let pair = |failure: ClientFailure| {
        let error = prepare_error(failure);
        (error.code, error.message)
    };
    let expected = |code: &str, message: &str| (code.to_string(), message.to_string());
    assert_eq!(
        pair(ClientFailure::Status { code: 401 }),
        expected("pin_required", "Receiver requires a PIN")
    );
    assert_eq!(
        pair(ClientFailure::Status { code: 409 }),
        expected("peer_busy", "Receiver is handling another transfer")
    );
    assert_eq!(
        pair(ClientFailure::Status { code: 429 }),
        expected("rate_limited", "Receiver rejected too many requests")
    );
    assert_eq!(
        pair(ClientFailure::Status { code: 503 }),
        expected("remote_error", "Receiver returned HTTP status 503")
    );
    assert_eq!(
        pair(ClientFailure::Json),
        expected(
            "protocol_error",
            "Receiver returned an invalid LocalSend response"
        )
    );
    assert_eq!(
        pair(ClientFailure::Cancelled),
        expected("cancelled", "Transfer was cancelled")
    );
    assert_eq!(
        pair(ClientFailure::Other),
        expected("network_error", "Could not contact the receiver")
    );
}

#[test]
fn the_later_of_two_items_with_one_identifier_is_offered() {
    let offer = make_offer(&vec![
        item("1", "first", 1),
        item("2", "second", 2),
        item("1", "third", 3),
    ]);
    let entries = offer.entries();
    assert_eq!(entries.len(), 2);
    assert_eq!(entries[0].key, "1");
    assert_eq!(entries[0].file.file_name, "third");
    assert_eq!(entries[1].file.file_name, "second");
}

#[test]
fn sources_must_stay_what_they_were() {
    let source = OutgoingSource::Path {
        path: "/a".to_string(),
        device: 1,
        inode: 2,
        size: 3,
    };
    let opened = |is_file: bool, device: u64, inode: u64, size: u64| OpenedSource::Opened {
        is_file,
        device,
        inode,
        size,
    };
    assert!(check_source(&source, opened(true, 1, 2, 3)).is_ok());
    for changed in [
        opened(false, 1, 2, 3),
        opened(true, 9, 2, 3),
        opened(true, 1, 9, 3),
        opened(true, 1, 2, 9),
    ] {
        let error = check_source(&source, changed).unwrap_err();
        assert_eq!(error.code, "source_changed");
        assert_eq!(
            error.message,
            "Selected source file changed before it could be sent"
        );
    }
    assert_eq!(
        check_source(&source, OpenedSource::Unreadable)
            .unwrap_err()
            .message,
        "Selected source file is no longer readable"
    );
    assert_eq!(
        check_source(&source, OpenedSource::Unverifiable)
            .unwrap_err()
            .message,
        "Selected source file could not be verified"
    );
    let bytes = OutgoingSource::Bytes(Arc::new(vec![1]));
    assert!(check_source(&bytes, OpenedSource::Unreadable).is_ok());
}
