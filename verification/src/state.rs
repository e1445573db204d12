//! The state of the controller, and how each thing that happens changes it.
use crate::clock;
use crate::devices;
use crate::events;
use crate::events::DiscoveryEvent;
use crate::filemap;
use crate::filemap::FileMap;
use crate::files;
use crate::identity;
use crate::model;
use crate::model::SenderTarget;
use crate::offer;
use crate::order;
use crate::rpc;
use crate::rpc::{
    IncomingRequestSnapshot, RpcRequest, TransferDirection, TransferFileState, TransferSnapshot,
    TransferState,
};
use crate::tally;
use crate::text;
use crate::textset::TextSet;
use crate::transfer;
use crate::transfer::IncomingEnd;
use vstd::prelude::*;

verus! {

/// Most finished transfers that are kept.
pub const MAX_RECENT_TRANSFERS: usize = 8;

/// An offer that waits for a decision.
#[derive(Debug)]
pub struct PendingIncoming {
    pub snapshot: IncomingRequestSnapshot,
    pub sender: SenderTarget,
    pub files: FileMap,
}

#[verifier::ext_equal]
pub struct PendingView {
    pub snapshot: rpc::RequestView,
    pub sender: model::TargetView,
    pub files: Seq<model::EntryView>,
}

impl View for PendingIncoming {
    type V = PendingView;

    open spec fn view(&self) -> PendingView {
        PendingView {
            snapshot: self.snapshot@,
            sender: self.sender@,
            files: self.files@,
        }
    }
}

/// A transfer that is being received.
#[derive(Debug)]
pub struct IncomingActive {
    pub record: TransferSnapshot,
    pub sender: SenderTarget,
    /// The files that are being stored.
    pub in_flight: TextSet,
    /// How the transfer came to its end, once it did.
    pub end: Option<IncomingEnd>,
}

#[verifier::ext_equal]
pub struct IncomingView {
    pub record: rpc::TransferView,
    pub sender: model::TargetView,
    pub in_flight: Set<Seq<char>>,
    pub end: Option<IncomingEnd>,
}

impl View for IncomingActive {
    type V = IncomingView;

    open spec fn view(&self) -> IncomingView {
        IncomingView {
            record: self.record@,
            sender: self.sender@,
            in_flight: self.in_flight@,
            end: self.end,
        }
    }
}

/// A transfer that is being sent.
#[derive(Debug)]
pub struct OutgoingActive {
    pub record: TransferSnapshot,
    /// Where the receiver is.
    pub host: String,
    /// The session of the receiver, once it took files.
    pub remote_session_id: Option<String>,
}

#[verifier::ext_equal]
pub struct OutgoingView {
    pub record: rpc::TransferView,
    pub host: Seq<char>,
    pub remote_session_id: Option<Seq<char>>,
}

impl View for OutgoingActive {
    type V = OutgoingView;

    open spec fn view(&self) -> OutgoingView {
        OutgoingView {
            record: self.record@,
            host: self.host@,
            remote_session_id: text::opt_text(self.remote_session_id),
        }
    }
}

/// The state of the controller.
#[verifier::ext_equal]
pub struct ControllerView {
    pub identity: identity::IdentityView,
    pub socket: Seq<char>,
    pub destination: Seq<char>,
    pub started_at: Seq<char>,
    pub status: Seq<char>,
    /// The last thing that went wrong.
    pub error: Option<rpc::ControllerErrorView>,
    pub pending: Option<PendingView>,
    pub incoming: Option<IncomingView>,
    pub outgoing: Option<OutgoingView>,
    /// The files of an outgoing transfer are being collected.
    pub selecting: bool,
    /// Finished transfers, the latest first.
    pub recent: Seq<rpc::TransferView>,
    /// The refresh of the devices that is under way.
    pub refresh_id: Option<Seq<char>>,
    /// The host and the session of a cancellation that came before the session was known.
    pub early_remote_cancel: Option<(Seq<char>, Seq<char>)>,
}

/// A transfer that has not ended, whose bytes add up.
pub open spec fn is_sound_active(record: rpc::TransferView, direction: TransferDirection) -> bool {
    &&& record.direction == direction
    &&& !rpc::is_terminal(record.state)
    &&& record.finished_at is None
    &&& record.file_count == record.files.len()
    &&& transfer::are_sound_files(record.files)
    &&& record.total_bytes == tally::sum_of(record.files, transfer::file_size())
    &&& record.completed_bytes <= record.total_bytes
}

/// A transfer that has ended, as it is kept.
pub open spec fn is_sound_kept(record: rpc::TransferView) -> bool {
    &&& rpc::is_terminal(record.state)
    &&& record.finished_at is Some
    &&& record.files.len() <= transfer::MAX_RECENT_FILES
    &&& record.files.len() <= record.file_count
    &&& record.completed_bytes <= record.total_bytes
    &&& forall|i: int|
        0 <= i < record.files.len() ==> (#[trigger] record.files[i]).source_path is None
}

/// True when one of the files has an identifier.
pub open spec fn has_file(files: Seq<rpc::FileView>, id: Seq<char>) -> bool {
    exists|i: int| 0 <= i < files.len() && (#[trigger] files[i]).id == id
}

/// A transfer that is being received. Only files of the transfer are being stored, and a transfer
/// that came to its end is still there only while one of them is.
pub open spec fn is_sound_incoming(active: IncomingView) -> bool {
    &&& is_sound_active(active.record, TransferDirection::Incoming)
    &&& forall|id: Seq<char>| #[trigger]
        active.in_flight.contains(id) ==> has_file(active.record.files, id)
    &&& active.end is Some ==> active.in_flight != Set::<Seq<char>>::empty()
}

/// The files of an offer as they are shown.
pub open spec fn offered_file(entry: model::EntryView) -> rpc::OfferedView {
    rpc::OfferedView {
        id: entry.file.id,
        name: entry.file.file_name,
        size: entry.file.size,
        mime_type: entry.file.file_type,
    }
}

pub open spec fn offered_files(entries: Seq<model::EntryView>) -> Seq<rpc::OfferedView> {
    Seq::new(entries.len(), |i: int| offered_file(entries[i]))
}

pub open spec fn offered_size() -> spec_fn(rpc::OfferedView) -> nat {
    |file: rpc::OfferedView| file.size as nat
}

/// An offer that waits for a decision is an acceptable one, shown in order.
pub open spec fn is_sound_pending(pending: PendingView) -> bool {
    &&& filemap::has_distinct_keys(pending.files)
    &&& offer::is_acceptable_offer(pending.files)
    &&& pending.snapshot.files == order::stable_sort(offered_files(pending.files))
    &&& pending.snapshot.total_bytes == tally::sum_of(pending.files, offer::entry_size())
}

/// A state that is consistent. In particular no offer waits for a decision while a transfer is
/// being received.
pub open spec fn is_sound(c: ControllerView) -> bool {
    &&& c.pending is Some ==> is_sound_pending(c.pending->0) && c.incoming is None
    &&& c.incoming is Some ==> is_sound_incoming(c.incoming->0)
    &&& c.outgoing is Some ==> is_sound_active(c.outgoing->0.record, TransferDirection::Outgoing)
    &&& c.recent.len() <= MAX_RECENT_TRANSFERS
    &&& forall|i: int| 0 <= i < c.recent.len() ==> is_sound_kept(#[trigger] c.recent[i])
}

/// The state in which the controller starts.
pub open spec fn initial(
    identity: identity::IdentityView,
    socket: Seq<char>,
    destination: Seq<char>,
    now: int,
) -> ControllerView {
    ControllerView {
        identity,
        socket,
        destination,
        started_at: clock::timestamp_text(now),
        status: "running"@,
        error: None,
        pending: None,
        incoming: None,
        outgoing: None,
        selecting: false,
        recent: Seq::empty(),
        refresh_id: None,
        early_remote_cancel: None,
    }
}

/// The state with an error shown.
pub open spec fn with_error(
    c: ControllerView,
    code: Seq<char>,
    message: Seq<char>,
    now: int,
) -> ControllerView {
    ControllerView {
        error: Some(
            rpc::ControllerErrorView { code, message, at: clock::timestamp_text(now) },
        ),
        ..c
    }
}

/// The state with a finished transfer in front of the others. At most eight are kept.
pub open spec fn with_recent(c: ControllerView, record: rpc::TransferView) -> ControllerView {
    ControllerView {
        recent: devices::at_most(
            seq![transfer::kept_record(record)] + c.recent,
            MAX_RECENT_TRANSFERS as nat,
        ),
        ..c
    }
}

/// What discovery is told of a device that showed itself: nothing of this device itself.
pub open spec fn confirmed(
    c: ControllerView,
    host: Seq<char>,
    info: model::RegisterView,
    fingerprint: Seq<char>,
) -> Seq<events::EffectView> {
    if fingerprint == c.identity.fingerprint {
        Seq::empty()
    } else {
        seq![
            events::EffectView::ConfirmDevice {
                device: events::ConfirmedView {
                    alias: info.alias,
                    version: info.version,
                    device_model: info.device_model,
                    device_type: info.device_type,
                    fingerprint,
                    channel: model::ChannelView {
                        host,
                        port: info.port,
                        protocol: info.protocol,
                    },
                    download: info.download,
                },
            },
        ]
    }
}

/// An acceptable offer as it waits for a decision.
pub open spec fn pending_offer(
    session_id: Seq<char>,
    host: Seq<char>,
    info: model::RegisterView,
    fingerprint: Seq<char>,
    files: Seq<model::EntryView>,
    now: int,
) -> PendingView {
    let (preview, truncated) = offer::shortened(offer::offered_text(files));
    PendingView {
        snapshot: rpc::RequestView {
            id: session_id,
            sender: rpc::PeerView {
                fingerprint,
                alias: info.alias,
                device_type: model::opt_device_type_text(info.device_type),
                model: info.device_model,
                address: rpc::AddressView {
                    host,
                    port: info.port,
                    protocol: model::protocol_text(info.protocol),
                },
            },
            files: order::stable_sort(offered_files(files)),
            total_bytes: tally::sum_of(files, offer::entry_size()) as u64,
            message_preview: preview,
            message_preview_truncated: truncated,
            received_at: clock::timestamp_text(now),
        },
        sender: model::TargetView {
            host,
            port: info.port,
            protocol: info.protocol,
            fingerprint,
        },
        files,
    }
}

/// What an offer of a peer comes to. It is declined if the peer showed no certificate, if another
/// offer or incoming transfer is there, or if the peer or the offer is not in order. Else it waits
/// for a decision.
pub open spec fn offer_step(
    c: ControllerView,
    session_id: Seq<char>,
    host: Seq<char>,
    info: model::RegisterView,
    cert_fingerprint: Option<Seq<char>>,
    files: Seq<model::EntryView>,
    now: int,
) -> (ControllerView, Seq<events::EffectView>) {
    let declined = seq![events::EffectView::DeclineOffer];
    match cert_fingerprint {
        None => (
            with_error(
                c,
                "unverified_sender"@,
                "Rejected an incoming request without a TLS certificate"@,
                now,
            ),
            declined,
        ),
        Some(fingerprint) => if c.pending is Some || c.incoming is Some {
            (c, declined)
        } else {
            match offer::sender_verdict(info) {
                Err(error) => (with_error(c, error.code, error.message, now), declined),
                Ok(_) => match offer::offer_complaint(files) {
                    Some(message) => (with_error(c, "invalid_offer"@, message, now), declined),
                    None => (
                        ControllerView {
                            pending: Some(
                                pending_offer(session_id, host, info, fingerprint, files, now),
                            ),
                            ..c
                        },
                        confirmed(c, host, info, fingerprint).push(events::EffectView::HoldOffer),
                    ),
                },
            }
        },
    }
}

/// A file that begins to be stored.
pub open spec fn storing_file(file: rpc::FileView) -> rpc::FileView {
    rpc::FileView {
        state: TransferFileState::Transferring,
        completed_bytes: 0,
        error: None,
        ..file
    }
}

/// What a file that a peer starts to send comes to: it is stored at its place, if it belongs to the
/// transfer and is not being stored.
pub open spec fn upload_step(
    c: ControllerView,
    session_id: Seq<char>,
    file_id: Seq<char>,
    now: int,
) -> (ControllerView, Seq<events::EffectView>) {
    if c.incoming is Some && c.incoming->0.record.id == session_id
        && !c.incoming->0.in_flight.contains(file_id) {
        let active = c.incoming->0;
        let files = active.record.files;
        let place = transfer::file_place(files, file_id, 0);
        if place < files.len() && files[place].destination_path is Some {
            (
                ControllerView {
                    incoming: Some(
                        IncomingView {
                            record: rpc::TransferView {
                                files: files.update(place, storing_file(files[place])),
                                updated_at: clock::timestamp_text(now),
                                ..active.record
                            },
                            in_flight: active.in_flight.insert(file_id),
                            ..active
                        },
                    ),
                    ..c
                },
                seq![
                    events::EffectView::StoreFile {
                        session_id,
                        file_id,
                        path: files[place].destination_path->0,
                    },
                ],
            )
        } else {
            (c, Seq::empty())
        }
    } else {
        (c, Seq::empty())
    }
}

/// An incoming transfer that came to its end is finished once no file of it is being stored.
pub open spec fn finish_step(
    c: ControllerView,
    progress: Seq<transfer::ProgressView>,
    now: int,
) -> (ControllerView, Seq<events::EffectView>) {
    if c.incoming is Some && c.incoming->0.end is Some && c.incoming->0.in_flight == Set::<
        Seq<char>,
    >::empty() {
        let active = c.incoming->0;
        let end = active.end->0;
        (
            with_recent(
                ControllerView { incoming: None, ..c },
                transfer::received(active.record, progress, end, clock::timestamp_text(now)),
            ),
            events::removals(
                transfer::leftover_paths(
                    transfer::synced_files(active.record.files, progress),
                    end,
                ),
            ),
        )
    } else {
        (c, Seq::empty())
    }
}

/// What the end of a session comes to.
pub open spec fn session_end_step(
    c: ControllerView,
    session_id: Seq<char>,
    reason: IncomingEnd,
    progress: Seq<transfer::ProgressView>,
    now: int,
) -> (ControllerView, Seq<events::EffectView>) {
    if c.incoming is Some && c.incoming->0.record.id == session_id {
        finish_step(
            ControllerView {
                incoming: Some(IncomingView { end: Some(reason), ..c.incoming->0 }),
                ..c
            },
            progress,
            now,
        )
    } else {
        (c, Seq::empty())
    }
}

/// The record of a request that ended without a transfer.
pub open spec fn closed_request(
    request: rpc::RequestView,
    state: TransferState,
    now: int,
) -> rpc::TransferView {
    rpc::TransferView {
        updated_at: clock::timestamp_text(now),
        finished_at: Some(clock::timestamp_text(now)),
        ..transfer::record_from_request(request, state)
    }
}

/// What the withdrawal of an offer comes to.
pub open spec fn abort_step(c: ControllerView, session_id: Seq<char>, now: int) -> (
    ControllerView,
    Seq<events::EffectView>,
) {
    if c.pending is Some && c.pending->0.snapshot.id == session_id {
        (
            with_recent(
                ControllerView { pending: None, ..c },
                closed_request(c.pending->0.snapshot, TransferState::Cancelled, now),
            ),
            seq![events::EffectView::DropOffer],
        )
    } else {
        (c, Seq::empty())
    }
}

/// The outgoing transfer after it was told to stop.
pub open spec fn cancelling(record: rpc::TransferView, now: int) -> rpc::TransferView {
    rpc::TransferView {
        state: TransferState::Cancelling,
        updated_at: clock::timestamp_text(now),
        ..record
    }
}

/// What a cancellation by a peer comes to: it must come from where the outgoing transfer goes. One
/// that comes before the session is known is remembered.
pub open spec fn peer_cancel_step(
    c: ControllerView,
    host: Seq<char>,
    session_id: Seq<char>,
    now: int,
) -> (ControllerView, Seq<events::EffectView>) {
    if c.outgoing is Some && c.outgoing->0.host == host {
        let active = c.outgoing->0;
        if active.remote_session_id == Some(session_id) {
            (
                ControllerView {
                    outgoing: Some(
                        OutgoingView { record: cancelling(active.record, now), ..active },
                    ),
                    ..c
                },
                seq![events::EffectView::CancelOutgoing],
            )
        } else if active.remote_session_id is None {
            (
                ControllerView { early_remote_cancel: Some((host, session_id)), ..c },
                Seq::empty(),
            )
        } else {
            (c, Seq::empty())
        }
    } else {
        (c, Seq::empty())
    }
}

/// True of the reports whose offer lists no key twice.
pub open spec fn is_sound_server_event(event: events::ServerEventView) -> bool {
    event is PrepareUpload ==> filemap::has_distinct_keys(event->files)
}

/// How what the receiver reports changes the state, and what is done about it.
pub open spec fn server_step(
    c: ControllerView,
    event: events::ServerEventView,
    progress: Seq<transfer::ProgressView>,
    now: int,
) -> (ControllerView, Seq<events::EffectView>) {
    match event {
        events::ServerEventView::Register { host, info } => match offer::sender_verdict(info) {
            Err(error) => (with_error(c, error.code, error.message, now), Seq::empty()),
            Ok(_) => (c, confirmed(c, host, info, info.fingerprint)),
        },
        events::ServerEventView::PrepareUpload {
            session_id,
            host,
            info,
            cert_fingerprint,
            files,
        } => offer_step(c, session_id, host, info, cert_fingerprint, files, now),
        events::ServerEventView::FileUpload { session_id, file_id } => upload_step(
            c,
            session_id,
            file_id,
            now,
        ),
        events::ServerEventView::SessionEnd { session_id, reason } => session_end_step(
            c,
            session_id,
            reason,
            progress,
            now,
        ),
        events::ServerEventView::PrepareUploadAborted { session_id } => abort_step(
            c,
            session_id,
            now,
        ),
        events::ServerEventView::CancelReceived { host, session_id } => peer_cancel_step(
            c,
            host,
            session_id,
            now,
        ),
        events::ServerEventView::ListenerFailed { error } => (
            with_error(
                ControllerView { status: "error"@, ..c },
                "receiver_stopped"@,
                error,
                now,
            ),
            seq![events::EffectView::StopAnswering],
        ),
    }
}

/// The state after a refresh of the devices ended. An error that an earlier refresh left is cleared
/// by one that completes.
pub open spec fn refresh_step(
    c: ControllerView,
    id: Seq<char>,
    completed: bool,
    now: int,
) -> ControllerView {
    if c.refresh_id == Some(id) {
        let idle = ControllerView { refresh_id: None, ..c };
        if !completed {
            with_error(idle, "refresh_failed"@, "Staged discovery did not complete"@, now)
        } else if c.error is Some && c.error->0.code == "refresh_failed"@ {
            ControllerView { error: None, ..idle }
        } else {
            idle
        }
    } else {
        c
    }
}

/// A file after the receiver said which files it takes.
pub open spec fn chosen_file(file: rpc::FileView, accepted: Seq<Seq<char>>) -> rpc::FileView {
    if accepted.contains(file.id) {
        file
    } else {
        rpc::FileView { state: TransferFileState::Declined, ..file }
    }
}

pub open spec fn chosen_files(files: Seq<rpc::FileView>, accepted: Seq<Seq<char>>) -> Seq<
    rpc::FileView,
> {
    Seq::new(files.len(), |i: int| chosen_file(files[i], accepted))
}

/// What it comes to that the receiver takes files. A cancellation of that session that came before
/// takes effect.
pub open spec fn prepared_step(
    c: ControllerView,
    transfer_id: Seq<char>,
    session_id: Seq<char>,
    accepted: Seq<Seq<char>>,
    now: int,
) -> (ControllerView, Seq<events::EffectView>) {
    if c.outgoing is Some && c.outgoing->0.record.id == transfer_id {
        let active = c.outgoing->0;
        let cancelled = c.early_remote_cancel == Some((active.host, session_id));
        let record = rpc::TransferView {
            state: if cancelled {
                TransferState::Cancelling
            } else {
                TransferState::Transferring
            },
            started_at: Some(clock::timestamp_text(now)),
            updated_at: clock::timestamp_text(now),
            files: chosen_files(active.record.files, accepted),
            ..active.record
        };
        (
            ControllerView {
                outgoing: Some(
                    OutgoingView { record, remote_session_id: Some(session_id), ..active },
                ),
                early_remote_cancel: None,
                ..c
            },
            if cancelled {
                seq![events::EffectView::CancelOutgoing]
            } else {
                Seq::empty()
            },
        )
    } else {
        (c, Seq::empty())
    }
}

/// What happens to a file that is sent.
pub enum FileChange {
    Started,
    Completed,
    Failed(rpc::ApiErrorView),
}

pub open spec fn changed_file(file: rpc::FileView, change: FileChange) -> rpc::FileView {
    match change {
        FileChange::Started => rpc::FileView {
            state: TransferFileState::Transferring,
            error: None,
            ..file
        },
        FileChange::Completed => rpc::FileView {
            state: TransferFileState::Completed,
            completed_bytes: file.size,
            ..file
        },
        FileChange::Failed(error) => rpc::FileView {
            state: TransferFileState::Failed,
            error: Some(error),
            ..file
        },
    }
}

/// Files with the first of an identifier changed.
pub open spec fn with_change(
    files: Seq<rpc::FileView>,
    file_id: Seq<char>,
    change: FileChange,
) -> Seq<rpc::FileView> {
    let place = transfer::file_place(files, file_id, 0);
    if place < files.len() {
        files.update(place, changed_file(files[place], change))
    } else {
        files
    }
}

/// The state after something happened to a file that is sent.
pub open spec fn file_step(
    c: ControllerView,
    transfer_id: Seq<char>,
    file_id: Seq<char>,
    change: FileChange,
    now: int,
) -> ControllerView {
    if c.outgoing is Some && c.outgoing->0.record.id == transfer_id {
        let active = c.outgoing->0;
        ControllerView {
            outgoing: Some(
                OutgoingView {
                    record: rpc::TransferView {
                        updated_at: clock::timestamp_text(now),
                        files: with_change(active.record.files, file_id, change),
                        ..active.record
                    },
                    ..active
                },
            ),
            ..c
        }
    } else {
        c
    }
}

/// The state after an outgoing transfer ended.
pub open spec fn outgoing_end_step(
    c: ControllerView,
    transfer_id: Seq<char>,
    state: TransferState,
    error: Option<rpc::ApiErrorView>,
    progress: Seq<transfer::ProgressView>,
    now: int,
) -> ControllerView {
    if c.outgoing is Some && c.outgoing->0.record.id == transfer_id {
        with_recent(
            ControllerView { outgoing: None, early_remote_cancel: None, ..c },
            transfer::settled(
                c.outgoing->0.record,
                progress,
                state,
                error,
                clock::timestamp_text(now),
            ),
        )
    } else {
        c
    }
}

/// A file after it was stored, or could not be.
pub open spec fn stored_file(file: rpc::FileView, stored: bool) -> rpc::FileView {
    if stored {
        rpc::FileView {
            state: TransferFileState::Completed,
            completed_bytes: file.size,
            error: None,
            ..file
        }
    } else {
        rpc::FileView {
            state: TransferFileState::Failed,
            error: Some(
                rpc::api_error("receive_file_failed"@, "Could not receive "@ + file.name),
            ),
            ..file
        }
    }
}

/// The removal of what was stored of a file that failed.
pub open spec fn failed_removal(file: rpc::FileView, stored: bool) -> Seq<events::EffectView> {
    if !stored && file.destination_path is Some {
        seq![events::EffectView::RemoveFile { path: file.destination_path->0 }]
    } else {
        Seq::empty()
    }
}

/// What it comes to that a file was stored, or could not be. The transfer is finished if it only
/// waited for that.
pub open spec fn stored_step(
    c: ControllerView,
    transfer_id: Seq<char>,
    file_id: Seq<char>,
    stored: bool,
    progress: Seq<transfer::ProgressView>,
    now: int,
) -> (ControllerView, Seq<events::EffectView>) {
    if c.incoming is Some && c.incoming->0.record.id == transfer_id {
        let active = c.incoming->0;
        let files = active.record.files;
        let in_flight = active.in_flight.remove(file_id);
        let place = transfer::file_place(files, file_id, 0);
        if place < files.len() {
            let next = ControllerView {
                incoming: Some(
                    IncomingView {
                        record: rpc::TransferView {
                            files: files.update(place, stored_file(files[place], stored)),
                            updated_at: clock::timestamp_text(now),
                            ..active.record
                        },
                        in_flight,
                        ..active
                    },
                ),
                ..c
            };
            let (done, effects) = finish_step(next, progress, now);
            (done, failed_removal(files[place], stored) + effects)
        } else {
            (
                ControllerView {
                    incoming: Some(IncomingView { in_flight, ..active }),
                    ..c
                },
                Seq::empty(),
            )
        }
    } else {
        (c, Seq::empty())
    }
}

/// True of the reports whose end of a transfer is an end.
pub open spec fn is_sound_report(event: events::InternalEventView) -> bool {
    event is OutgoingFinished ==> rpc::is_terminal(event->OutgoingFinished_state)
}

/// How what a task reports changes the state, and what is done about it. How far files have been
/// sent and received is given.
pub open spec fn internal_step(
    c: ControllerView,
    event: events::InternalEventView,
    sent: Seq<transfer::ProgressView>,
    received: Seq<transfer::ProgressView>,
    now: int,
) -> (ControllerView, Seq<events::EffectView>) {
    match event {
        events::InternalEventView::RefreshFinished { id, completed } => (
            refresh_step(c, id, completed, now),
            Seq::empty(),
        ),
        events::InternalEventView::OutgoingPrepared { transfer_id, session_id, accepted } => {
            prepared_step(c, transfer_id, session_id, accepted, now)
        },
        events::InternalEventView::OutgoingFileStarted { transfer_id, file_id } => (
            file_step(c, transfer_id, file_id, FileChange::Started, now),
            Seq::empty(),
        ),
        events::InternalEventView::OutgoingFileCompleted { transfer_id, file_id } => (
            file_step(c, transfer_id, file_id, FileChange::Completed, now),
            Seq::empty(),
        ),
        events::InternalEventView::OutgoingFileFailed { transfer_id, file_id, reason } => (
            file_step(c, transfer_id, file_id, FileChange::Failed(reason), now),
            Seq::empty(),
        ),
        events::InternalEventView::OutgoingFinished { transfer_id, state, error } => (
            outgoing_end_step(c, transfer_id, state, error, sent, now),
            Seq::empty(),
        ),
        events::InternalEventView::IncomingFileResult { transfer_id, file_id, stored } => {
            stored_step(c, transfer_id, file_id, stored, received, now)
        },
    }
}

/// The state with the transfers brought up to how far their files are.
pub open spec fn synced(
    c: ControllerView,
    sent: Seq<transfer::ProgressView>,
    received: Seq<transfer::ProgressView>,
    now: int,
) -> ControllerView {
    ControllerView {
        outgoing: match c.outgoing {
            Some(active) => Some(
                OutgoingView {
                    record: transfer::synced(active.record, sent, clock::timestamp_text(now)),
                    ..active
                },
            ),
            None => None,
        },
        incoming: match c.incoming {
            Some(active) => Some(
                IncomingView {
                    record: transfer::synced(active.record, received, clock::timestamp_text(now)),
                    ..active
                },
            ),
            None => None,
        },
        ..c
    }
}

/// What is the same in every snapshot of a daemon.
pub struct VersionsView {
    pub pid: u32,
    pub protocol_version: Seq<char>,
    pub controller_version: Seq<char>,
}

/// The transfers that are shown: the incoming one, the outgoing one, then the finished ones.
pub open spec fn shown_transfers(c: ControllerView) -> Seq<rpc::TransferView> {
    (match c.incoming {
        Some(active) => seq![active.record],
        None => Seq::empty(),
    }) + (match c.outgoing {
        Some(active) => seq![active.record],
        None => Seq::empty(),
    }) + c.recent
}

/// What is shown of the state.
pub open spec fn shown(
    c: ControllerView,
    known: Seq<devices::KnownView>,
    versions: VersionsView,
    now: int,
) -> rpc::SnapshotView {
    rpc::SnapshotView {
        daemon: rpc::DaemonView {
            status: c.status,
            alias: c.identity.alias,
            fingerprint: c.identity.fingerprint,
            port: c.identity.port,
            destination: c.destination,
            socket: c.socket,
            pid: versions.pid,
            protocol_version: versions.protocol_version,
            controller_version: versions.controller_version,
            started_at: c.started_at,
            refreshing: c.refresh_id is Some,
        },
        devices: devices::listed_devices(known, now),
        incoming: match c.pending {
            Some(pending) => Some(pending.snapshot),
            None => None,
        },
        transfers: shown_transfers(c),
        error: c.error,
    }
}

/// The state with a refresh of the devices under way, and the identifier of that refresh: the one
/// that is under way, or a fresh one.
pub open spec fn refreshing(c: ControllerView, fresh: Seq<char>) -> (ControllerView, Seq<char>) {
    match c.refresh_id {
        Some(id) => (c, id),
        None => (ControllerView { refresh_id: Some(fresh), ..c }, fresh),
    }
}

pub open spec fn outgoing_busy() -> rpc::ApiErrorView {
    rpc::api_error("outgoing_busy"@, "An outgoing transfer is already active"@)
}

/// An item as a file of a transfer.
pub open spec fn queued_file(item: files::ItemView) -> rpc::FileView {
    rpc::FileView {
        id: item.file.id,
        name: item.file.file_name,
        size: item.file.size,
        mime_type: item.file.file_type,
        state: TransferFileState::Queued,
        completed_bytes: 0,
        source_path: item.source_path,
        destination_path: None,
        error: None,
    }
}

pub open spec fn queued_files(items: Seq<files::ItemView>) -> Seq<rpc::FileView> {
    Seq::new(items.len(), |i: int| queued_file(items[i]))
}

pub open spec fn item_size() -> spec_fn(files::ItemView) -> nat {
    |item: files::ItemView| item.file.size as nat
}

/// The record that an outgoing transfer begins with.
pub open spec fn outgoing_record(
    id: Seq<char>,
    peer: rpc::PeerView,
    items: Seq<files::ItemView>,
    now: int,
) -> rpc::TransferView {
    rpc::TransferView {
        id,
        direction: TransferDirection::Outgoing,
        state: TransferState::Preparing,
        peer,
        file_count: items.len(),
        files: order::stable_sort(queued_files(items)),
        total_bytes: tally::sum_of(items, item_size()) as u64,
        completed_bytes: 0,
        created_at: clock::timestamp_text(now),
        started_at: None,
        updated_at: clock::timestamp_text(now),
        finished_at: None,
        error: None,
    }
}

/// What sending items to a device comes to: nothing else may be on its way out, the device must be
/// reachable, and the sizes must add up.
pub open spec fn start_step(
    c: ControllerView,
    fingerprint: Seq<char>,
    items: Seq<files::ItemView>,
    known: Seq<devices::KnownView>,
    id: Seq<char>,
    now: int,
) -> Result<(ControllerView, events::LaunchView), rpc::ApiErrorView> {
    if c.outgoing is Some {
        Err(outgoing_busy())
    } else {
        match devices::target_of(known, fingerprint, now) {
            Err(error) => Err(error),
            Ok((peer, channel)) => if tally::sum_of(items, item_size()) > u64::MAX {
                Err(rpc::api_error("selection_too_large"@, "Total byte count overflowed"@))
            } else {
                let record = outgoing_record(id, peer, items, now);
                Ok(
                    (
                        ControllerView {
                            outgoing: Some(
                                OutgoingView {
                                    record,
                                    host: channel.host,
                                    remote_session_id: None,
                                },
                            ),
                            ..c
                        },
                        events::LaunchView {
                            transfer: record,
                            channel,
                            expected_fingerprint: model::expected_fingerprint_text(
                                channel.protocol,
                                peer.fingerprint,
                            ),
                        },
                    ),
                )
            },
        }
    }
}

/// What a collected selection comes to. Nobody waits for the answer any more if the caller left.
pub open spec fn selected_step(
    c: ControllerView,
    fingerprint: Seq<char>,
    selection: Result<Seq<files::ItemView>, rpc::ApiErrorView>,
    caller_waits: bool,
    known: Seq<devices::KnownView>,
    id: Seq<char>,
    now: int,
) -> (ControllerView, Option<Result<events::LaunchView, rpc::ApiErrorView>>) {
    let idle = ControllerView { selecting: false, ..c };
    if !caller_waits {
        (idle, None)
    } else {
        match selection {
            Err(error) => (idle, Some(Err(error))),
            Ok(items) => match start_step(idle, fingerprint, items, known, id, now) {
                Err(error) => (idle, Some(Err(error))),
                Ok((next, launch)) => (next, Some(Ok(launch))),
            },
        }
    }
}

/// The files of an offer for which places are reserved, in order.
pub open spec fn wanted_file(entry: model::EntryView) -> events::WantedView {
    events::WantedView { id: entry.key, name: entry.file.file_name }
}

pub open spec fn wanted_files(entries: Seq<model::EntryView>) -> Seq<events::WantedView> {
    order::stable_sort(Seq::new(entries.len(), |i: int| wanted_file(entries[i])))
}

pub open spec fn pending_id(c: ControllerView) -> Option<Seq<char>> {
    match c.pending {
        Some(pending) => Some(pending.snapshot.id),
        None => None,
    }
}

/// What accepting a request takes: the request must be the one that is pending.
pub open spec fn accept_plan(c: ControllerView, request: Seq<char>) -> Result<
    events::AcceptPlanView,
    rpc::ApiErrorView,
> {
    match offer::request_verdict(pending_id(c), request) {
        Err(error) => Err(error),
        Ok(_) => if c.incoming is Some {
            Err(rpc::api_error("incoming_busy"@, "An incoming transfer is already active"@))
        } else {
            match offer::embedded_text(c.pending->0.files) {
                Some(message) => Ok(events::AcceptPlanView::CopyText { message }),
                None => Ok(
                    events::AcceptPlanView::ReserveFiles {
                        wanted: wanted_files(c.pending->0.files),
                    },
                ),
            }
        },
    }
}

/// The record of a request whose text was copied.
pub open spec fn copied_record(request: rpc::RequestView, now: int) -> rpc::TransferView {
    rpc::TransferView {
        completed_bytes: request.total_bytes,
        started_at: Some(clock::timestamp_text(now)),
        updated_at: clock::timestamp_text(now),
        finished_at: Some(clock::timestamp_text(now)),
        ..transfer::record_from_request(request, TransferState::Completed)
    }
}

/// The state after the text of the pending offer was copied and the sender was told, if it still
/// could be.
pub open spec fn copied_step(c: ControllerView, delivered: bool, now: int) -> (
    ControllerView,
    Result<rpc::TransferView, rpc::ApiErrorView>,
) {
    let rest = ControllerView { pending: None, ..c };
    if c.pending is Some && delivered {
        let record = copied_record(c.pending->0.snapshot, now);
        (with_recent(rest, record), Ok(record))
    } else {
        (rest, Err(offer::stale_request_error()))
    }
}

/// The path that was reserved for a file from `i` on, where it is valid UTF-8.
pub open spec fn reserved_path(
    reserved: Seq<events::ReservedView>,
    id: Seq<char>,
    i: int,
) -> Option<Seq<char>>
    decreases reserved.len() - i,
{
    if i < 0 || i >= reserved.len() {
        None
    } else if reserved[i].id == id {
        text::utf8_text(reserved[i].path)
    } else {
        reserved_path(reserved, id, i + 1)
    }
}

pub open spec fn placed_file(file: rpc::FileView, reserved: Seq<events::ReservedView>) -> rpc::FileView {
    rpc::FileView { destination_path: reserved_path(reserved, file.id, 0), ..file }
}

/// The record of a request whose files are about to come.
pub open spec fn accepted_record(
    request: rpc::RequestView,
    reserved: Seq<events::ReservedView>,
    now: int,
) -> rpc::TransferView {
    let record = transfer::record_from_request(request, TransferState::Transferring);
    rpc::TransferView {
        started_at: Some(clock::timestamp_text(now)),
        updated_at: clock::timestamp_text(now),
        files: Seq::new(record.files.len(), |i: int| placed_file(record.files[i], reserved)),
        ..record
    }
}

/// The state after places were reserved for the files of the pending offer and the sender was told,
/// if it still could be.
pub open spec fn accepted_step(
    c: ControllerView,
    reserved: Seq<events::ReservedView>,
    delivered: bool,
    now: int,
) -> (ControllerView, Result<rpc::TransferView, rpc::ApiErrorView>) {
    let rest = ControllerView { pending: None, ..c };
    if c.pending is Some && delivered {
        let record = accepted_record(c.pending->0.snapshot, reserved, now);
        (
            ControllerView {
                incoming: Some(
                    IncomingView {
                        record,
                        sender: c.pending->0.sender,
                        in_flight: Set::empty(),
                        end: None,
                    },
                ),
                ..rest
            },
            Ok(record),
        )
    } else {
        (rest, Err(offer::stale_request_error()))
    }
}

/// The state after the sender was told that the pending offer is declined, if it still could be.
pub open spec fn declined_step(c: ControllerView, delivered: bool, now: int) -> (
    ControllerView,
    Result<rpc::TransferView, rpc::ApiErrorView>,
) {
    let rest = ControllerView { pending: None, ..c };
    if c.pending is Some && delivered {
        let record = closed_request(c.pending->0.snapshot, TransferState::Declined, now);
        (with_recent(rest, record), Ok(record))
    } else {
        (rest, Err(offer::stale_request_error()))
    }
}

/// What stopping a transfer comes to: it must be one that is under way.
pub open spec fn cancel_step(
    c: ControllerView,
    transfer_id: Seq<char>,
    received: Seq<transfer::ProgressView>,
    now: int,
) -> Result<(ControllerView, events::CancellationView), rpc::ApiErrorView> {
    match offer::uuid_verdict(transfer_id, "transfer"@) {
        Err(error) => Err(error),
        Ok(_) => if c.outgoing is Some && c.outgoing->0.record.id == transfer_id {
            let record = cancelling(c.outgoing->0.record, now);
            Ok(
                (
                    ControllerView {
                        outgoing: Some(OutgoingView { record, ..c.outgoing->0 }),
                        ..c
                    },
                    events::CancellationView::Outgoing { transfer: record },
                ),
            )
        } else if c.incoming is Some && c.incoming->0.record.id == transfer_id {
            let record = cancelling(c.incoming->0.record, now);
            let (next, removed) = finish_step(
                ControllerView {
                    incoming: Some(
                        IncomingView {
                            record,
                            end: Some(IncomingEnd::Cancelled),
                            ..c.incoming->0
                        },
                    ),
                    ..c
                },
                received,
                now,
            );
            Ok(
                (
                    next,
                    events::CancellationView::Incoming {
                        transfer: record,
                        sender: c.incoming->0.sender,
                        removed,
                    },
                ),
            )
        } else {
            Err(rpc::api_error("stale_transfer"@, "Transfer is not active"@))
        },
    }
}

/// What the controller is given to answer a request with: the devices, how far files are, fresh
/// identifiers, and the versions.
pub struct WorldView {
    pub known: Seq<devices::KnownView>,
    pub sent: Seq<transfer::ProgressView>,
    pub received: Seq<transfer::ProgressView>,
    pub versions: VersionsView,
}

/// What sending a text comes to, under the identifiers for the transfer and for the file.
pub open spec fn send_text_step(
    c: ControllerView,
    device: Seq<char>,
    message: Seq<char>,
    world: WorldView,
    id: Seq<char>,
    file_id: Seq<char>,
    now: int,
) -> (ControllerView, events::RpcActionView) {
    if c.outgoing is Some || c.selecting {
        (c, events::RpcActionView::Fail { error: outgoing_busy() })
    } else {
        match files::text_outcome(message, file_id) {
            Err(error) => (c, events::RpcActionView::Fail { error }),
            Ok(item) => match start_step(c, device, seq![item], world.known, id, now) {
                Err(error) => (c, events::RpcActionView::Fail { error }),
                Ok((next, launch)) => (
                    next,
                    events::RpcActionView::Start { launch, items: seq![item] },
                ),
            },
        }
    }
}

/// How a request changes the state, and what is done about it, under a fresh identifier for a
/// refresh or a transfer and one for a file.
pub open spec fn rpc_step(
    c: ControllerView,
    request: RpcRequest,
    world: WorldView,
    id: Seq<char>,
    file_id: Seq<char>,
    now: int,
) -> (ControllerView, events::RpcActionView) {
    match request {
        RpcRequest::Ping {  } => (
            c,
            events::RpcActionView::Pong { status: c.status, alias: c.identity.alias },
        ),
        RpcRequest::Snapshot {  } => {
            let next = synced(c, world.sent, world.received, now);
            (
                next,
                events::RpcActionView::Show {
                    snapshot: shown(next, world.known, world.versions, now),
                },
            )
        },
        RpcRequest::Refresh {  } => {
            let (next, refresh) = refreshing(c, id);
            (
                next,
                events::RpcActionView::Refresh { id: refresh, started: c.refresh_id is None },
            )
        },
        RpcRequest::SendFiles { device, paths } => if c.outgoing is Some || c.selecting {
            (c, events::RpcActionView::Fail { error: outgoing_busy() })
        } else {
            (
                ControllerView { selecting: true, ..c },
                events::RpcActionView::Collect { device: device@, paths: text::texts(paths@) },
            )
        },
        RpcRequest::SendText { device, text } => send_text_step(
            c,
            device@,
            text@,
            world,
            id,
            file_id,
            now,
        ),
        RpcRequest::Accept { request } => match accept_plan(c, request@) {
            Err(error) => (c, events::RpcActionView::Fail { error }),
            Ok(plan) => (c, events::RpcActionView::Accept { plan }),
        },
        RpcRequest::Decline { request } => match offer::request_verdict(pending_id(c), request@) {
            Err(error) => (c, events::RpcActionView::Fail { error }),
            Ok(_) => (c, events::RpcActionView::Decline),
        },
        RpcRequest::Cancel { transfer } => match cancel_step(
            c,
            transfer@,
            world.received,
            now,
        ) {
            Err(error) => (c, events::RpcActionView::Fail { error }),
            Ok((next, cancellation)) => (next, events::RpcActionView::Cancel { cancellation }),
        },
        RpcRequest::Shutdown {  } => (c, events::RpcActionView::Stop),
    }
}

/// The state after the daemon was told to stop: nothing is under way any more.
pub open spec fn stopped(c: ControllerView) -> ControllerView {
    ControllerView {
        status: "shutting_down"@,
        pending: None,
        outgoing: None,
        incoming: None,
        ..c
    }
}

/// The state after a report of discovery.
pub open spec fn discovery_step(
    c: ControllerView,
    event: DiscoveryEvent,
    now: int,
) -> ControllerView {
    match event {
        DiscoveryEvent::MulticastFailed => with_error(
            c,
            "multicast_stopped"@,
            "Multicast discovery stopped; manual HTTP refresh remains available"@,
            now,
        ),
        DiscoveryEvent::DeviceChanged => c,
    }
}

} // verus!
