use localsend_controller::controller::{Controller, Versions, World};
use localsend_controller::devices::{KnownChannel, KnownDevice};
use localsend_controller::events::{
    AcceptPlan, Cancellation, DiscoveryEvent, Effect, InternalEvent, ReservedFile, RpcAction,
    ServerEvent,
};
use localsend_controller::filemap::FileMap;
use localsend_controller::files::{text_item_with_id, OutgoingItem};
use localsend_controller::identity::Identity;
use localsend_controller::model::{
    DeviceType, FileDto, HttpChannel, ProtocolType, RegisterDto,
};
use localsend_controller::offer::validate_uuid;
use localsend_controller::rpc::{
    ApiError, RpcRequest, Snapshot, TransferDirection, TransferFileState, TransferSnapshot,
    TransferState,
};
use localsend_controller::transfer::{FileProgress, IncomingEnd};

const NOW: i128 = 1_700_000_000_000_000_000;
const STAMP: &str = "2023-11-14T22:13:20Z";
const LATER: i128 = NOW + 1_000_000_000;
const LATER_STAMP: &str = "2023-11-14T22:13:21Z";
const SESSION: &str = "550e8400-e29b-41d4-a716-446655440000";
const OTHER: &str = "550e8400-e29b-41d4-a716-446655440001";
const TRANSFER: &str = "650e8400-e29b-41d4-a716-446655440000";

fn controller() -> Controller {
    let identity = Identity {
        alias: "Desk".to_string(),
        port: 53317,
        cert_pem: "CERT".to_string(),
        key_pem: "KEY".to_string(),
        fingerprint: "OWN".to_string(),
    };
    Controller::new_at(
        identity,
        "/run/sock".to_string(),
        "/dl".to_string(),
        None,
        NOW,
    )
}

fn versions() -> Versions {
    Versions {
        pid: 42,
        protocol_version: "2.1".to_string(),
        controller_version: "0.1.0".to_string(),
    }
}

fn channel(host: &str) -> HttpChannel {
    HttpChannel {
        host: host.to_string(),
        port: 53317,
        protocol: ProtocolType::Https,
    }
}

fn device(fingerprint: &str) -> KnownDevice {
    KnownDevice {
        fingerprint: fingerprint.to_string(),
        alias: "Phone".to_string(),
        device_type: Some(DeviceType::Mobile),
        device_model: None,
        channels: vec![KnownChannel {
            http: Some(channel("10.0.0.2")),
            available: true,
        }],
        best: Some(channel("10.0.0.2")),
        last_seen: Some(NOW),
    }
}

fn world(devices: Vec<KnownDevice>) -> World {
    World {
        devices,
        sent: vec![],
        received: vec![],
        versions: versions(),
    }
}

fn show(controller: &Controller) -> Snapshot {
    controller.snapshot(&vec![], &versions(), NOW)
}

fn request(controller: &mut Controller, request: RpcRequest, world: &World) -> RpcAction {
    controller.handle_rpc_at(request, world, TRANSFER.to_string(), "file-id", NOW)
}

fn failure(action: RpcAction) -> (String, String) {
    match action {
        RpcAction::Fail { error } => (error.code, error.message),
        other => panic!("expected an error, got {other:?}"),
    }
}

fn sender(fingerprint: &str) -> RegisterDto {
    RegisterDto {
        alias: "Phone".to_string(),
        version: "2.1".to_string(),
        device_model: Some("Pixel".to_string()),
        device_type: Some(DeviceType::Mobile),
        fingerprint: fingerprint.to_string(),
        port: 53317,
        protocol: ProtocolType::Https,
        download: true,
    }
}

fn file(id: &str, name: &str, size: u64) -> FileDto {
    FileDto {
        id: id.to_string(),
        file_name: name.to_string(),
        size,
        file_type: "application/octet-stream".to_string(),
        sha256: None,
        preview: None,
        metadata: None,
    }
}

fn offer(files: Vec<FileDto>) -> FileMap {
    let mut map = FileMap::new();
    for file in files {
        map = map.with(file.id.clone(), file);
    }
    map
}

fn two_files() -> FileMap {
    offer(vec![file("1", "b.bin", 10), file("2", "a.bin", 20)])
}

fn text_offer() -> FileMap {
    let mut text = file("t", "t.txt", 5);
    text.file_type = "text/plain".to_string();
    text.preview = Some("hello".to_string());
    offer(vec![text])
}

fn prepare(session: &str, cert: Option<&str>, files: FileMap) -> ServerEvent {
    ServerEvent::PrepareUpload {
        session_id: session.to_string(),
        host: "10.0.0.3".to_string(),
        info: sender("CLAIMED"),
        cert_fingerprint: cert.map(|cert| cert.to_string()),
        files,
    }
}

fn server(controller: &mut Controller, event: ServerEvent) -> Vec<String> {
    told(controller.handle_server_event_at(event, &vec![], NOW))
}

fn internal(controller: &mut Controller, event: InternalEvent) -> Vec<String> {
    told(controller.handle_internal_event_at(event, &vec![], &vec![], LATER))
}

/// A short text for effects, to compare them.
fn told(effects: Vec<Effect>) -> Vec<String> {
    effects
        .into_iter()
        .map(|effect| match effect {
            Effect::ConfirmDevice { device } => format!(
                "confirm {} {}:{}",
                device.fingerprint, device.channel.host, device.channel.port
            ),
            Effect::DeclineOffer => "decline".to_string(),
            Effect::HoldOffer => "hold".to_string(),
            Effect::DropOffer => "drop".to_string(),
            Effect::StoreFile {
                session_id: _,
                file_id,
                path,
            } => format!("store {file_id} {path}"),
            Effect::RemoveFile { path } => format!("remove {path}"),
            Effect::CancelOutgoing => "cancel".to_string(),
            Effect::StopAnswering => "silence".to_string(),
        })
        .collect()
}

fn reserved(id: &str, path: &str) -> ReservedFile {
    ReservedFile {
        id: id.to_string(),
        path: path.as_bytes().to_vec(),
    }
}

fn receiving() -> Controller {
    let mut controller = controller();
    assert_eq!(
        server(&mut controller, prepare(SESSION, Some("CERT"), two_files())),
        ["confirm CERT 10.0.0.3:53317", "hold"]
    );
    let places = vec![reserved("2", "/dl/a.bin"), reserved("1", "/dl/b.bin")];
    controller.accept_files_at(&places, true, NOW).unwrap();
    controller
}

fn items() -> Vec<OutgoingItem> {
    let mut first = text_item_with_id("12345".to_string(), "1").unwrap();
    first.file.file_name = "b".to_string();
    first.source_path = Some("/src/b".to_string());
    let mut second = text_item_with_id("123".to_string(), "2").unwrap();
    second.file.file_name = "a".to_string();
    vec![first, second]
}

fn sending() -> Controller {
    let mut controller = controller();
    controller
        .start_outgoing_at(
            "phone",
            &items(),
            &vec![device("PHONE")],
            TRANSFER.to_string(),
            NOW,
        )
        .unwrap();
    controller
}

fn only(controller: &Controller) -> TransferSnapshot {
    let snapshot = show(controller);
    assert_eq!(snapshot.transfers.len(), 1);
    snapshot.transfers[0].clone()
}

fn states(transfer: &TransferSnapshot) -> Vec<TransferFileState> {
    transfer.files.iter().map(|file| file.state).collect()
}

#[test]
fn a_controller_starts_idle() {
    let controller = controller();
    let snapshot = show(&controller);
    assert_eq!(snapshot.daemon.status, "running");
    assert_eq!(snapshot.daemon.alias, "Desk");
    assert_eq!(snapshot.daemon.fingerprint, "OWN");
    assert_eq!(snapshot.daemon.port, 53317);
    assert_eq!(snapshot.daemon.destination, "/dl");
    assert_eq!(snapshot.daemon.socket, "/run/sock");
    assert_eq!(snapshot.daemon.pid, 42);
    assert_eq!(snapshot.daemon.protocol_version, "2.1");
    assert_eq!(snapshot.daemon.controller_version, "0.1.0");
    assert_eq!(snapshot.daemon.started_at, STAMP);
    assert!(!snapshot.daemon.refreshing);
    assert!(snapshot.incoming.is_none());
    assert!(snapshot.transfers.is_empty());
    assert!(snapshot.error.is_none());
    assert!(controller.should_announce());
    assert!(!controller.has_failed());
}

#[test]
fn discovery_without_multicast_is_shown() {
    let identity = Identity {
        alias: "Desk".to_string(),
        port: 1,
        cert_pem: String::new(),
        key_pem: String::new(),
        fingerprint: String::new(),
    };
    let mut controller = Controller::new(
        identity,
        String::new(),
        String::new(),
        Some("no route".to_string()),
    );
    let error = show(&controller).error.unwrap();
    assert_eq!(error.code, "multicast_unavailable");
    assert_eq!(
        error.message,
        "Discovery is running without multicast: no route"
    );
    controller.handle_discovery_event(DiscoveryEvent::DeviceChanged);
    assert_eq!(
        show(&controller).error.unwrap().code,
        "multicast_unavailable"
    );
    controller.handle_discovery_event(DiscoveryEvent::MulticastFailed);
    let error = show(&controller).error.unwrap();
    assert_eq!(error.code, "multicast_stopped");
    assert_eq!(
        error.message,
        "Multicast discovery stopped; manual HTTP refresh remains available"
    );
}

#[test]
fn a_refresh_is_shared_until_it_ends() {
    let mut controller = controller();
    let devices = world(vec![device("PHONE")]);
    match request(&mut controller, RpcRequest::Refresh {}, &devices) {
        RpcAction::Refresh {
            id,
            started,
            addresses,
        } => {
            assert_eq!(id, TRANSFER);
            assert!(started);
            assert_eq!(addresses.len(), 1);
            assert_eq!(addresses[0].host, "10.0.0.2");
        }
        other => panic!("{other:?}"),
    }
    assert!(!controller.should_announce());
    assert!(show(&controller).daemon.refreshing);
    match controller.handle_rpc(RpcRequest::Refresh {}, &devices) {
        RpcAction::Refresh { id, started, .. } => {
            assert_eq!(id, TRANSFER);
            assert!(!started);
        }
        other => panic!("{other:?}"),
    }
    assert_eq!(controller.start_refresh(), TRANSFER);
    let ended = |completed: bool, id: &str| InternalEvent::RefreshFinished {
        id: id.to_string(),
        completed,
    };
    internal(&mut controller, ended(false, OTHER));
    assert!(show(&controller).daemon.refreshing);
    internal(&mut controller, ended(false, TRANSFER));
    let error = show(&controller).error.unwrap();
    assert_eq!(error.code, "refresh_failed");
    assert_eq!(error.message, "Staged discovery did not complete");
    assert_eq!(error.at, LATER_STAMP);
    let id = controller.start_refresh();
    assert!(validate_uuid(&id, "refresh").is_ok());
    internal(&mut controller, ended(true, &id));
    assert!(show(&controller).error.is_none());
    assert!(controller.should_announce());
}

#[test]
fn registered_devices_are_told_to_discovery() {
    let mut controller = controller();
    let register = |info: RegisterDto| ServerEvent::Register {
        host: "10.0.0.9".to_string(),
        info,
    };
    assert_eq!(
        server(&mut controller, register(sender("PHONE"))),
        ["confirm PHONE 10.0.0.9:53317"]
    );
    assert!(server(&mut controller, register(sender("OWN"))).is_empty());
    assert!(show(&controller).error.is_none());
    assert!(server(&mut controller, register(sender(""))).is_empty());
    let error = show(&controller).error.unwrap();
    assert_eq!(error.code, "invalid_sender");
    assert_eq!(error.message, "Sender fingerprint is invalid or too long");
    assert_eq!(error.at, STAMP);
}

#[test]
fn an_offer_waits_for_a_decision() {
    let mut controller = controller();
    server(&mut controller, prepare(SESSION, Some("CERT"), two_files()));
    let pending = show(&controller).incoming.unwrap();
    assert_eq!(pending.id, SESSION);
    assert_eq!(pending.total_bytes, 30);
    assert_eq!(pending.received_at, STAMP);
    assert_eq!(pending.sender.fingerprint, "CERT");
    assert_eq!(pending.sender.alias, "Phone");
    assert_eq!(pending.sender.device_type.as_deref(), Some("mobile"));
    assert_eq!(pending.sender.model.as_deref(), Some("Pixel"));
    assert_eq!(pending.sender.address.host, "10.0.0.3");
    assert_eq!(pending.sender.address.protocol, "https");
    let names: Vec<&str> = pending.files.iter().map(|file| file.name.as_str()).collect();
    assert_eq!(names, ["a.bin", "b.bin"]);
    assert!(pending.message_preview.is_none());
    assert!(!pending.message_preview_truncated);
}

#[test]
fn offers_are_declined_for_a_reason() {
    let mut controller = controller();
    assert_eq!(
        server(&mut controller, prepare(SESSION, None, two_files())),
        ["decline"]
    );
    let error = show(&controller).error.unwrap();
    assert_eq!(error.code, "unverified_sender");
    assert_eq!(
        error.message,
        "Rejected an incoming request without a TLS certificate"
    );
    assert_eq!(
        server(&mut controller, prepare(SESSION, Some("CERT"), offer(vec![]))),
        ["decline"]
    );
    let error = show(&controller).error.unwrap();
    assert_eq!(error.code, "invalid_offer");
    let mut bad = sender("X");
    bad.alias = String::new();
    assert_eq!(
        server(
            &mut controller,
            ServerEvent::PrepareUpload {
                session_id: SESSION.to_string(),
                host: "h".to_string(),
                info: bad,
                cert_fingerprint: Some("CERT".to_string()),
                files: two_files(),
            }
        ),
        ["decline"]
    );
    assert_eq!(show(&controller).error.unwrap().code, "invalid_sender");
    assert!(show(&controller).incoming.is_none());

    server(&mut controller, prepare(SESSION, Some("CERT"), two_files()));
    assert_eq!(
        server(&mut controller, prepare(OTHER, Some("CERT"), two_files())),
        ["decline"]
    );
    assert_eq!(show(&controller).incoming.unwrap().id, SESSION);
    let mut receiving = receiving();
    assert_eq!(
        server(&mut receiving, prepare(OTHER, Some("CERT"), two_files())),
        ["decline"]
    );
    assert!(show(&receiving).incoming.is_none());
}

#[test]
fn only_the_pending_request_can_be_decided() {
    let mut controller = controller();
    let nobody = world(vec![]);
    let accept = |id: &str| RpcRequest::Accept {
        request: id.to_string(),
    };
    let decline = |id: &str| RpcRequest::Decline {
        request: id.to_string(),
    };
    assert_eq!(
        failure(request(&mut controller, accept(SESSION), &nobody)).0,
        "stale_request"
    );
    server(&mut controller, prepare(SESSION, Some("CERT"), two_files()));
    assert_eq!(
        failure(request(&mut controller, accept("nonsense"), &nobody)),
        (
            "invalid_id".to_string(),
            "request ID must be a valid UUID".to_string()
        )
    );
    assert_eq!(
        failure(request(&mut controller, accept(OTHER), &nobody)).0,
        "stale_request"
    );
    assert_eq!(
        failure(request(&mut controller, decline(OTHER), &nobody)),
        (
            "stale_request".to_string(),
            "Incoming request is no longer pending".to_string()
        )
    );
    match request(&mut controller, accept(SESSION), &nobody) {
        RpcAction::Accept {
            plan: AcceptPlan::ReserveFiles { wanted },
        } => {
            let order: Vec<(&str, &str)> = wanted
                .iter()
                .map(|file| (file.id.as_str(), file.name.as_str()))
                .collect();
            assert_eq!(order, [("2", "a.bin"), ("1", "b.bin")]);
        }
        other => panic!("{other:?}"),
    }
    assert!(matches!(
        request(&mut controller, decline(SESSION), &nobody),
        RpcAction::Decline
    ));
    assert!(show(&controller).incoming.is_some());
}

#[test]
fn declined_offers_are_kept_as_finished_transfers() {
    let mut controller = controller();
    server(&mut controller, prepare(SESSION, Some("CERT"), two_files()));
    let record = controller.decline_pending_at(true, LATER).unwrap();
    assert_eq!(record.id, SESSION);
    assert_eq!(record.state, TransferState::Declined);
    assert_eq!(record.direction, TransferDirection::Incoming);
    assert_eq!(record.created_at, STAMP);
    assert_eq!(record.updated_at, LATER_STAMP);
    assert_eq!(record.finished_at.as_deref(), Some(LATER_STAMP));
    assert!(record.started_at.is_none());
    assert_eq!(states(&record), [TransferFileState::Declined; 2]);
    assert_eq!(only(&controller).state, TransferState::Declined);
    assert!(show(&controller).incoming.is_none());
    assert_eq!(
        controller.decline_pending(true).unwrap_err().code,
        "stale_request"
    );
}

#[test]
fn decisions_that_come_too_late_are_stale() {
    for step in 0..3 {
        let mut controller = controller();
        server(&mut controller, prepare(SESSION, Some("CERT"), text_offer()));
        let error = match step {
            0 => controller.decline_pending(false).unwrap_err(),
            1 => controller.accept_text(false).unwrap_err(),
            _ => controller.accept_files(&vec![], false).unwrap_err(),
        };
        assert_eq!(error.code, "stale_request");
        assert_eq!(error.message, "Incoming request is no longer pending");
        assert!(show(&controller).incoming.is_none());
        assert!(show(&controller).transfers.is_empty());
    }
}

#[test]
fn texts_are_copied_instead_of_transferred() {
    let mut controller = controller();
    server(&mut controller, prepare(SESSION, Some("CERT"), text_offer()));
    assert_eq!(
        show(&controller).incoming.unwrap().message_preview,
        Some("hello".to_string())
    );
    match controller.plan_accept(SESSION).unwrap() {
        AcceptPlan::CopyText { message } => assert_eq!(message, "hello"),
        other => panic!("{other:?}"),
    }
    let record = controller.accept_text_at(true, LATER).unwrap();
    assert_eq!(record.state, TransferState::Completed);
    assert_eq!(record.completed_bytes, 5);
    assert_eq!(record.total_bytes, 5);
    assert_eq!(record.started_at.as_deref(), Some(LATER_STAMP));
    assert_eq!(record.files[0].completed_bytes, 5);
    assert_eq!(states(&record), [TransferFileState::Completed]);
    assert_eq!(only(&controller).id, SESSION);
}

#[test]
fn withdrawn_offers_are_cancelled() {
    let mut controller = controller();
    server(&mut controller, prepare(SESSION, Some("CERT"), two_files()));
    let abort = |id: &str| ServerEvent::PrepareUploadAborted {
        session_id: id.to_string(),
    };
    assert!(server(&mut controller, abort(OTHER)).is_empty());
    assert_eq!(server(&mut controller, abort(SESSION)), ["drop"]);
    let record = only(&controller);
    assert_eq!(record.state, TransferState::Cancelled);
    assert_eq!(states(&record), [TransferFileState::Cancelled; 2]);
    assert!(record.finished_at.is_some());
}

#[test]
fn files_are_received_at_their_places() {
    let mut controller = receiving();
    let record = only(&controller);
    assert_eq!(record.state, TransferState::Transferring);
    assert_eq!(record.started_at.as_deref(), Some(STAMP));
    assert_eq!(record.files[0].destination_path.as_deref(), Some("/dl/a.bin"));
    assert_eq!(record.files[1].destination_path.as_deref(), Some("/dl/b.bin"));
    let upload = |session: &str, id: &str| ServerEvent::FileUpload {
        session_id: session.to_string(),
        file_id: id.to_string(),
    };
    assert_eq!(
        server(&mut controller, upload(SESSION, "1")),
        ["store 1 /dl/b.bin"]
    );
    assert!(server(&mut controller, upload(SESSION, "1")).is_empty());
    assert!(server(&mut controller, upload(SESSION, "3")).is_empty());
    assert!(server(&mut controller, upload(OTHER, "2")).is_empty());
    assert_eq!(
        server(&mut controller, upload(SESSION, "2")),
        ["store 2 /dl/a.bin"]
    );
    let progress = vec![
        FileProgress {
            id: "1".to_string(),
            written: 4,
        },
        FileProgress {
            id: "2".to_string(),
            written: 99,
        },
    ];
    controller.sync_progress_at(&vec![], &progress, LATER);
    let record = only(&controller);
    assert_eq!(record.completed_bytes, 24);
    assert_eq!(record.updated_at, LATER_STAMP);
    controller.sync_progress(&vec![], &progress);
    assert_eq!(only(&controller).updated_at, LATER_STAMP);

    let result = |id: &str, stored: bool| InternalEvent::IncomingFileResult {
        transfer_id: SESSION.to_string(),
        file_id: id.to_string(),
        stored,
    };
    assert!(internal(&mut controller, result("1", true)).is_empty());
    let end = ServerEvent::SessionEnd {
        session_id: SESSION.to_string(),
        reason: IncomingEnd::Finished,
    };
    assert!(server(&mut controller, end).is_empty());
    assert_eq!(only(&controller).state, TransferState::Transferring);
    assert!(internal(&mut controller, result("2", true)).is_empty());
    let record = only(&controller);
    assert_eq!(record.state, TransferState::Completed);
    assert_eq!(record.completed_bytes, 30);
    assert_eq!(states(&record), [TransferFileState::Completed; 2]);
    assert_eq!(record.finished_at.as_deref(), Some(LATER_STAMP));
}

#[test]
fn a_file_that_cannot_be_stored_fails_the_transfer() {
    let mut controller = receiving();
    server(
        &mut controller,
        ServerEvent::FileUpload {
            session_id: SESSION.to_string(),
            file_id: "1".to_string(),
        },
    );
    assert_eq!(
        internal(
            &mut controller,
            InternalEvent::IncomingFileResult {
                transfer_id: SESSION.to_string(),
                file_id: "1".to_string(),
                stored: false,
            }
        ),
        ["remove /dl/b.bin"]
    );
    let record = only(&controller);
    let error = record.files[1].error.as_ref().unwrap();
    assert_eq!(error.code, "receive_file_failed");
    assert_eq!(error.message, "Could not receive b.bin");
    assert_eq!(
        states(&record),
        [TransferFileState::Queued, TransferFileState::Failed]
    );
    let end = ServerEvent::SessionEnd {
        session_id: SESSION.to_string(),
        reason: IncomingEnd::Finished,
    };
    assert!(server(&mut controller, end).is_empty());
    let record = only(&controller);
    assert_eq!(record.state, TransferState::Failed);
    let error = record.error.unwrap();
    assert_eq!(error.code, "receive_failed");
    assert_eq!(error.message, "One or more files could not be received");
}

#[test]
fn cancelled_receptions_remove_what_is_not_done() {
    let mut controller = receiving();
    let end = ServerEvent::SessionEnd {
        session_id: SESSION.to_string(),
        reason: IncomingEnd::Cancelled,
    };
    assert_eq!(
        server(&mut controller, end),
        ["remove /dl/a.bin", "remove /dl/b.bin"]
    );
    let record = only(&controller);
    assert_eq!(record.state, TransferState::Cancelled);
    assert_eq!(states(&record), [TransferFileState::Cancelled; 2]);
    assert!(record.error.is_none());
}

#[test]
fn transfers_are_cancelled_by_their_identifier() {
    let cancel = |id: &str| RpcRequest::Cancel {
        transfer: id.to_string(),
    };
    let nobody = world(vec![]);
    let mut idle = controller();
    assert_eq!(
        failure(request(&mut idle, cancel("x"), &nobody)),
        (
            "invalid_id".to_string(),
            "transfer ID must be a valid UUID".to_string()
        )
    );
    assert_eq!(
        failure(request(&mut idle, cancel(OTHER), &nobody)),
        (
            "stale_transfer".to_string(),
            "Transfer is not active".to_string()
        )
    );

    let mut controller = receiving();
    match request(&mut controller, cancel(SESSION), &nobody) {
        RpcAction::Cancel {
            cancellation:
                Cancellation::Incoming {
                    transfer,
                    sender,
                    removed,
                },
        } => {
            assert_eq!(transfer.state, TransferState::Cancelling);
            assert_eq!(sender.host, "10.0.0.3");
            assert_eq!(sender.fingerprint, "CERT");
            assert_eq!(told(removed), ["remove /dl/a.bin", "remove /dl/b.bin"]);
        }
        other => panic!("{other:?}"),
    }
    assert_eq!(only(&controller).state, TransferState::Cancelled);

    let mut controller = sending();
    match request(&mut controller, cancel(TRANSFER), &nobody) {
        RpcAction::Cancel {
            cancellation: Cancellation::Outgoing { transfer },
        } => assert_eq!(transfer.state, TransferState::Cancelling),
        other => panic!("{other:?}"),
    }
    assert_eq!(only(&controller).state, TransferState::Cancelling);
}

#[test]
fn a_cancelled_reception_waits_for_files_under_way() {
    let mut controller = receiving();
    server(
        &mut controller,
        ServerEvent::FileUpload {
            session_id: SESSION.to_string(),
            file_id: "1".to_string(),
        },
    );
    let nobody = world(vec![]);
    let cancel = RpcRequest::Cancel {
        transfer: SESSION.to_string(),
    };
    request(&mut controller, cancel, &nobody);
    assert_eq!(only(&controller).state, TransferState::Cancelling);
    assert_eq!(
        internal(
            &mut controller,
            InternalEvent::IncomingFileResult {
                transfer_id: SESSION.to_string(),
                file_id: "1".to_string(),
                stored: false,
            }
        ),
        ["remove /dl/b.bin", "remove /dl/a.bin"]
    );
    let record = only(&controller);
    assert_eq!(record.state, TransferState::Cancelled);
    assert_eq!(
        states(&record),
        [TransferFileState::Cancelled, TransferFileState::Failed]
    );
}

#[test]
fn an_outgoing_transfer_begins() {
    let mut controller = controller();
    let launch = controller
        .start_outgoing_at(
            "phone",
            &items(),
            &vec![device("PHONE")],
            TRANSFER.to_string(),
            NOW,
        )
        .unwrap();
    assert_eq!(launch.channel.host, "10.0.0.2");
    assert_eq!(launch.expected_fingerprint.as_deref(), Some("PHONE"));
    let record = launch.transfer;
    assert_eq!(record.id, TRANSFER);
    assert_eq!(record.direction, TransferDirection::Outgoing);
    assert_eq!(record.state, TransferState::Preparing);
    assert_eq!(record.total_bytes, 8);
    assert_eq!(record.completed_bytes, 0);
    assert_eq!(record.file_count, 2);
    assert_eq!(record.created_at, STAMP);
    assert_eq!(record.peer.fingerprint, "PHONE");
    let names: Vec<&str> = record.files.iter().map(|file| file.name.as_str()).collect();
    assert_eq!(names, ["a", "b"]);
    assert_eq!(record.files[1].source_path.as_deref(), Some("/src/b"));

    let error = controller
        .start_outgoing_at("phone", &items(), &vec![], OTHER.to_string(), NOW)
        .unwrap_err();
    assert_eq!(error.code, "outgoing_busy");
    assert_eq!(error.message, "An outgoing transfer is already active");
}

#[test]
fn an_outgoing_transfer_needs_a_device_and_countable_bytes() {
    let mut controller = controller();
    let mut start = |items: Vec<OutgoingItem>, devices: Vec<KnownDevice>| {
        controller
            .start_outgoing_at("phone", &items, &devices, TRANSFER.to_string(), NOW)
            .unwrap_err()
            .code
    };
    assert_eq!(start(items(), vec![]), "device_not_found");
    let mut large = items();
    large[0].file.size = u64::MAX;
    assert_eq!(start(large, vec![device("PHONE")]), "selection_too_large");
    assert!(show(&controller).transfers.is_empty());
}

#[test]
fn files_are_collected_before_they_are_sent() {
    let mut controller = controller();
    let phones = world(vec![device("PHONE")]);
    let send = || RpcRequest::SendFiles {
        device: "phone".to_string(),
        paths: vec!["/a".to_string()],
    };
    match request(&mut controller, send(), &phones) {
        RpcAction::Collect { device, paths } => {
            assert_eq!(device, "phone");
            assert_eq!(paths, ["/a"]);
        }
        other => panic!("{other:?}"),
    }
    assert_eq!(
        failure(request(&mut controller, send(), &phones)).0,
        "outgoing_busy"
    );
    let text = RpcRequest::SendText {
        device: "phone".to_string(),
        text: "hi".to_string(),
    };
    assert_eq!(
        failure(request(&mut controller, text, &phones)).0,
        "outgoing_busy"
    );
    let gone = controller.selection_ready_at(
        "phone",
        &Ok(items()),
        false,
        &phones.devices,
        TRANSFER.to_string(),
        NOW,
    );
    assert!(gone.is_none());
    assert!(show(&controller).transfers.is_empty());

    request(&mut controller, send(), &phones);
    let failed = controller.selection_ready(
        "phone",
        &Err(ApiError::new("empty_selection", "nothing")),
        true,
        &phones.devices,
    );
    assert_eq!(failed.unwrap().unwrap_err().code, "empty_selection");

    request(&mut controller, send(), &phones);
    let launch = controller
        .selection_ready_at(
            "phone",
            &Ok(items()),
            true,
            &phones.devices,
            TRANSFER.to_string(),
            NOW,
        )
        .unwrap()
        .unwrap();
    assert_eq!(launch.transfer.id, TRANSFER);
    assert_eq!(
        failure(request(&mut controller, send(), &phones)).0,
        "outgoing_busy"
    );
}

#[test]
fn texts_are_sent_at_once() {
    let mut controller = controller();
    let phones = world(vec![device("PHONE")]);
    let text = |message: &str| RpcRequest::SendText {
        device: "phone".to_string(),
        text: message.to_string(),
    };
    assert_eq!(
        failure(request(&mut controller, text(""), &phones)).0,
        "empty_text"
    );
    assert_eq!(
        failure(request(&mut controller, text("hi"), &world(vec![]))).0,
        "device_not_found"
    );
    match request(&mut controller, text("hi"), &phones) {
        RpcAction::Start { launch, items } => {
            assert_eq!(launch.transfer.id, TRANSFER);
            assert_eq!(items.len(), 1);
            assert_eq!(items[0].file.id, "file-id");
            assert_eq!(items[0].file.file_name, "file-id.txt");
            assert_eq!(launch.transfer.files[0].mime_type, "text/plain");
        }
        other => panic!("{other:?}"),
    }
}

#[test]
fn an_outgoing_transfer_follows_its_files() {
    let mut controller = sending();
    let id = || TRANSFER.to_string();
    let prepared = InternalEvent::OutgoingPrepared {
        transfer_id: id(),
        session_id: "remote".to_string(),
        accepted: vec!["1".to_string()],
    };
    assert!(internal(&mut controller, prepared).is_empty());
    let record = only(&controller);
    assert_eq!(record.state, TransferState::Transferring);
    assert_eq!(record.started_at.as_deref(), Some(LATER_STAMP));
    assert_eq!(
        states(&record),
        [TransferFileState::Declined, TransferFileState::Queued]
    );
    internal(
        &mut controller,
        InternalEvent::OutgoingFileStarted {
            transfer_id: id(),
            file_id: "1".to_string(),
        },
    );
    assert_eq!(states(&only(&controller))[1], TransferFileState::Transferring);
    internal(
        &mut controller,
        InternalEvent::OutgoingFileFailed {
            transfer_id: id(),
            file_id: "1".to_string(),
            reason: ApiError::new("upload_failed", "no"),
        },
    );
    let record = only(&controller);
    assert_eq!(record.files[1].state, TransferFileState::Failed);
    assert_eq!(record.files[1].error.as_ref().unwrap().code, "upload_failed");
    internal(
        &mut controller,
        InternalEvent::OutgoingFileCompleted {
            transfer_id: id(),
            file_id: "1".to_string(),
        },
    );
    let record = only(&controller);
    assert_eq!(record.files[1].state, TransferFileState::Completed);
    assert_eq!(record.files[1].completed_bytes, 5);
    internal(
        &mut controller,
        InternalEvent::OutgoingFinished {
            transfer_id: OTHER.to_string(),
            state: TransferState::Completed,
            error: None,
        },
    );
    assert_eq!(only(&controller).state, TransferState::Transferring);
    internal(
        &mut controller,
        InternalEvent::OutgoingFinished {
            transfer_id: id(),
            state: TransferState::Completed,
            error: None,
        },
    );
    let record = only(&controller);
    assert_eq!(record.state, TransferState::Completed);
    assert_eq!(record.completed_bytes, 5);
    assert_eq!(
        states(&record),
        [TransferFileState::Declined, TransferFileState::Completed]
    );
    assert!(record.files.iter().all(|file| file.source_path.is_none()));
    assert_eq!(record.finished_at.as_deref(), Some(LATER_STAMP));
}

#[test]
fn the_end_of_an_outgoing_transfer_settles_its_files() {
    let end = |state: TransferState, error: Option<ApiError>| {
        let mut controller = sending();
        let progress = vec![FileProgress {
            id: "1".to_string(),
            written: 3,
        }];
        controller.handle_internal_event_at(
            InternalEvent::OutgoingFinished {
                transfer_id: TRANSFER.to_string(),
                state,
                error,
            },
            &progress,
            &vec![],
            LATER,
        );
        only(&controller)
    };
    let record = end(TransferState::Cancelled, None);
    assert_eq!(states(&record), [TransferFileState::Cancelled; 2]);
    assert_eq!(record.completed_bytes, 3);
    assert!(record.started_at.is_none());
    let record = end(TransferState::Declined, None);
    assert_eq!(states(&record), [TransferFileState::Declined; 2]);
    let record = end(
        TransferState::Failed,
        Some(ApiError::new("network_error", "gone")),
    );
    assert_eq!(states(&record), [TransferFileState::Failed; 2]);
    assert_eq!(record.error.as_ref().unwrap().code, "network_error");
    assert_eq!(
        record.files[0].error.as_ref().unwrap().code,
        "network_error"
    );
    let record = end(TransferState::Completed, None);
    assert_eq!(states(&record), [TransferFileState::Completed; 2]);
    assert_eq!(record.completed_bytes, 8);
    assert_eq!(record.started_at.as_deref(), Some(LATER_STAMP));
}

#[test]
fn the_receiver_can_cancel_before_or_after_its_session_is_known() {
    let cancel = |host: &str| ServerEvent::CancelReceived {
        host: host.to_string(),
        session_id: "remote".to_string(),
    };
    let prepared = || InternalEvent::OutgoingPrepared {
        transfer_id: TRANSFER.to_string(),
        session_id: "remote".to_string(),
        accepted: vec!["1".to_string(), "2".to_string()],
    };
    let mut early = sending();
    assert!(server(&mut early, cancel("10.9.9.9")).is_empty());
    assert!(server(&mut early, cancel("10.0.0.2")).is_empty());
    assert_eq!(only(&early).state, TransferState::Preparing);
    assert_eq!(internal(&mut early, prepared()), ["cancel"]);
    assert_eq!(only(&early).state, TransferState::Cancelling);

    let mut late = sending();
    assert!(internal(&mut late, prepared()).is_empty());
    assert!(server(&mut late, cancel("10.9.9.9")).is_empty());
    let stale = ServerEvent::CancelReceived {
        host: "10.0.0.2".to_string(),
        session_id: "another".to_string(),
    };
    assert!(server(&mut late, stale).is_empty());
    assert_eq!(server(&mut late, cancel("10.0.0.2")), ["cancel"]);
    assert_eq!(only(&late).state, TransferState::Cancelling);

    let mut other = sending();
    let elsewhere = ServerEvent::CancelReceived {
        host: "10.0.0.2".to_string(),
        session_id: "another".to_string(),
    };
    server(&mut other, elsewhere);
    assert!(internal(&mut other, prepared()).is_empty());
    assert_eq!(only(&other).state, TransferState::Transferring);
}

#[test]
fn eight_finished_transfers_are_kept_latest_first() {
    let mut controller = controller();
    for i in 0..10 {
        let session = format!("550e8400-e29b-41d4-a716-44665544000{i}");
        server(&mut controller, prepare(&session, Some("CERT"), two_files()));
        controller.decline_pending(true).unwrap();
    }
    let transfers = show(&controller).transfers;
    assert_eq!(transfers.len(), 8);
    assert!(transfers[0].id.ends_with('9'));
    assert!(transfers[7].id.ends_with('2'));
}

#[test]
fn finished_transfers_keep_32_files() {
    let mut controller = controller();
    let mut files = Vec::new();
    for i in 0..40 {
        files.push(file(&format!("{i:02}"), "same", 1));
    }
    server(&mut controller, prepare(SESSION, Some("CERT"), offer(files)));
    let answered = controller.decline_pending(true).unwrap();
    assert_eq!(answered.files.len(), 40);
    let kept = only(&controller);
    assert_eq!(kept.files.len(), 32);
    assert_eq!(kept.file_count, 40);
    assert_eq!(kept.total_bytes, 40);
}

#[test]
fn the_snapshot_shows_transfers_under_way_first() {
    let mut controller = receiving();
    controller
        .start_outgoing_at(
            "phone",
            &items(),
            &vec![device("PHONE")],
            TRANSFER.to_string(),
            NOW,
        )
        .unwrap();
    let mut given = world(vec![device("PHONE")]);
    given.sent.push(FileProgress {
        id: "1".to_string(),
        written: 2,
    });
    match request(&mut controller, RpcRequest::Snapshot {}, &given) {
        RpcAction::Show { snapshot } => {
            assert_eq!(snapshot.transfers.len(), 2);
            assert_eq!(snapshot.transfers[0].id, SESSION);
            assert_eq!(snapshot.transfers[1].id, TRANSFER);
            assert_eq!(snapshot.transfers[1].completed_bytes, 2);
            assert_eq!(snapshot.devices.len(), 1);
            assert!(snapshot.devices[0].online);
        }
        other => panic!("{other:?}"),
    }
    match request(&mut controller, RpcRequest::Ping {}, &given) {
        RpcAction::Pong { status, alias } => {
            assert_eq!((status.as_str(), alias.as_str()), ("running", "Desk"))
        }
        other => panic!("{other:?}"),
    }
}

#[test]
fn a_receiver_that_stopped_stops_the_daemon() {
    let mut controller = controller();
    let failed = ServerEvent::ListenerFailed {
        error: "port taken".to_string(),
    };
    assert_eq!(server(&mut controller, failed), ["silence"]);
    assert!(controller.has_failed());
    let snapshot = show(&controller);
    assert_eq!(snapshot.daemon.status, "error");
    let error = snapshot.error.unwrap();
    assert_eq!(error.code, "receiver_stopped");
    assert_eq!(error.message, "port taken");
}

#[test]
fn shutting_down_ends_everything() {
    let mut controller = receiving();
    controller
        .start_outgoing_at(
            "phone",
            &items(),
            &vec![device("PHONE")],
            TRANSFER.to_string(),
            NOW,
        )
        .unwrap();
    assert!(matches!(
        request(&mut controller, RpcRequest::Shutdown {}, &world(vec![])),
        RpcAction::Stop
    ));
    let plan = controller.shut_down();
    assert!(!plan.decline_offer);
    assert!(plan.cancel_outgoing);
    let (sender, session) = plan.cancel_incoming.unwrap();
    assert_eq!(sender.host, "10.0.0.3");
    assert_eq!(session, SESSION);
    let snapshot = show(&controller);
    assert_eq!(snapshot.daemon.status, "shutting_down");
    assert!(snapshot.transfers.is_empty());
}

#[test]
fn the_clock_is_read_where_no_moment_is_given() {
    let mut controller = controller();
    let effects = controller.handle_server_event(
        prepare(SESSION, Some("CERT"), two_files()),
        &vec![],
    );
    assert_eq!(told(effects).len(), 2);
    assert!(show(&controller).incoming.unwrap().received_at.as_str() > STAMP);
    let effects = controller.handle_internal_event(
        InternalEvent::RefreshFinished {
            id: "none".to_string(),
            completed: true,
        },
        &vec![],
        &vec![],
    );
    assert!(told(effects).is_empty());
}
