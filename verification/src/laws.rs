//! What holds of the controller whatever happens.
use crate::clock;
use crate::devices;
use crate::events;
use crate::events::DiscoveryEvent;
use crate::filemap;
use crate::files;
use crate::identity;
use crate::ids;
use crate::model;
use crate::offer;
use crate::order;
use crate::rpc;
use crate::rpc::{RpcRequest, TransferDirection, TransferFileState, TransferState};
use crate::state;
use crate::tally;
use crate::transfer;
use crate::transfer::IncomingEnd;
use vstd::prelude::*;

verus! {

/// A record that may be kept once it is cut down.
pub open spec fn is_finished(record: rpc::TransferView) -> bool {
    &&& rpc::is_terminal(record.state)
    &&& record.finished_at is Some
    &&& record.file_count == record.files.len()
    &&& record.completed_bytes <= record.total_bytes
}

/// A finished transfer is kept in front of the others, which keep their order; no more than eight
/// are kept.
pub proof fn lemma_recent_order(c: state::ControllerView, record: rpc::TransferView)
    requires
        state::is_sound(c),
        is_finished(record),
    ensures
        ({
            let next = state::with_recent(c, record);
            &&& state::is_sound(next)
            &&& next.recent.len() > 0
            &&& next.recent[0] == transfer::kept_record(record)
            &&& forall|i: int|
                0 < i < next.recent.len() ==> #[trigger] next.recent[i] == c.recent[i - 1]
            &&& next.recent.len() == (if c.recent.len() < state::MAX_RECENT_TRANSFERS {
                c.recent.len() + 1
            } else {
                c.recent.len()
            })
        }),
{
    let next = state::with_recent(c, record);
    let kept = transfer::kept_record(record);
    assert(state::is_sound_kept(kept));
    assert forall|i: int| 0 <= i < next.recent.len() implies state::is_sound_kept(
        #[trigger] next.recent[i],
    ) by {
        if i > 0 {
            assert(next.recent[i] == c.recent[i - 1]);
        }
    }
}

/// The records that are shown of a request add up.
proof fn lemma_request_files(pending: state::PendingView, state: TransferFileState)
    requires
        state::is_sound_pending(pending),
    ensures
        transfer::are_sound_files(transfer::files_from_offered(pending.snapshot.files, state)),
        tally::sum_of(
            transfer::files_from_offered(pending.snapshot.files, state),
            transfer::file_size(),
        ) == pending.snapshot.total_bytes,
{
    let shown = pending.snapshot.files;
    let offered = state::offered_files(pending.files);
    let files = transfer::files_from_offered(shown, state);
    assert forall|i: int| #![trigger shown[i]] #![trigger files[i]] 0 <= i < shown.len() implies
        state::offered_size()(shown[i]) == transfer::file_size()(files[i]) by {}
    tally::lemma_sums_agree(shown, state::offered_size(), files, transfer::file_size());
    tally::lemma_sum_sorted(offered, state::offered_size());
    assert forall|i: int|
        #![trigger offered[i]]
        #![trigger pending.files[i]]
        0 <= i < offered.len() implies state::offered_size()(offered[i]) == offer::entry_size()(
        pending.files[i],
    ) by {}
    tally::lemma_sums_agree(offered, state::offered_size(), pending.files, offer::entry_size());
}

/// The record of a request that ended without a transfer may be kept.
proof fn lemma_closed_request(pending: state::PendingView, state: TransferState, now: int)
    requires
        state::is_sound_pending(pending),
        rpc::is_terminal(state),
    ensures
        is_finished(state::closed_request(pending.snapshot, state, now)),
        is_finished(state::copied_record(pending.snapshot, now)),
{
}

/// The record of an outgoing transfer that ended may be kept.
proof fn lemma_settled(
    record: rpc::TransferView,
    progress: Seq<transfer::ProgressView>,
    state: TransferState,
    error: Option<rpc::ApiErrorView>,
    now: Seq<char>,
)
    requires
        state::is_sound_active(record, TransferDirection::Outgoing),
        rpc::is_terminal(state),
    ensures
        is_finished(transfer::settled(record, progress, state, error, now)),
{
    let synced = transfer::synced_files(record.files, progress);
    let files = transfer::settled_files(synced, state, error);
    transfer::lemma_synced_sound(record.files, progress);
    transfer::lemma_same_sizes(synced, files);
    transfer::lemma_bytes_done(files);
}

/// The record of an incoming transfer that ended may be kept.
proof fn lemma_received(
    record: rpc::TransferView,
    progress: Seq<transfer::ProgressView>,
    end: IncomingEnd,
    now: Seq<char>,
)
    requires
        state::is_sound_active(record, TransferDirection::Incoming),
    ensures
        is_finished(transfer::received(record, progress, end, now)),
{
    let synced = transfer::synced_files(record.files, progress);
    transfer::lemma_synced_sound(record.files, progress);
    transfer::lemma_same_sizes(synced, transfer::cancelled_files(synced));
    transfer::lemma_bytes_done(synced);
    transfer::lemma_bytes_done(transfer::cancelled_files(synced));
}

/// Changing one file within its size keeps a transfer consistent.
pub proof fn lemma_file_updated(files: Seq<rpc::FileView>, place: int, file: rpc::FileView)
    requires
        transfer::are_sound_files(files),
        0 <= place < files.len(),
        file.size == files[place].size,
        file.completed_bytes <= file.size,
    ensures
        transfer::are_sound_files(files.update(place, file)),
        tally::sum_of(files.update(place, file), transfer::file_size()) == tally::sum_of(
            files,
            transfer::file_size(),
        ),
{
    assert forall|i: int| 0 <= i < files.len() implies (#[trigger] files.update(
        place,
        file,
    )[i]).size == files[i].size && files.update(place, file)[i].completed_bytes
        <= files.update(place, file)[i].size by {
        if i != place {
            assert(files[i].completed_bytes <= files[i].size);
        }
    }
    transfer::lemma_same_sizes(files, files.update(place, file));
}

/// A file stays among files where the identifiers stay.
proof fn lemma_has_file(before: Seq<rpc::FileView>, after: Seq<rpc::FileView>, id: Seq<char>)
    requires
        before.len() == after.len(),
        forall|i: int| 0 <= i < before.len() ==> (#[trigger] after[i]).id == before[i].id,
        state::has_file(before, id),
    ensures
        state::has_file(after, id),
{
    let i = choose|i: int| 0 <= i < before.len() && (#[trigger] before[i]).id == id;
    assert(after[i].id == id);
}

proof fn lemma_offer_step_sound(
    c: state::ControllerView,
    session_id: Seq<char>,
    host: Seq<char>,
    info: model::RegisterView,
    cert_fingerprint: Option<Seq<char>>,
    entries: Seq<model::EntryView>,
    now: int,
)
    requires
        state::is_sound(c),
        filemap::has_distinct_keys(entries),
    ensures
        state::is_sound(
            state::offer_step(c, session_id, host, info, cert_fingerprint, entries, now).0,
        ),
{
    offer::lemma_acceptable_offer(entries);
}

proof fn lemma_upload_step_sound(
    c: state::ControllerView,
    session_id: Seq<char>,
    file_id: Seq<char>,
    now: int,
)
    requires
        state::is_sound(c),
    ensures
        state::is_sound(state::upload_step(c, session_id, file_id, now).0),
{
    let next = state::upload_step(c, session_id, file_id, now).0;
    if next != c {
        let active = c.incoming->0;
        let files = active.record.files;
        let place = transfer::file_place(files, file_id, 0);
        transfer::lemma_file_place(files, file_id, 0);
        lemma_file_updated(files, place, state::storing_file(files[place]));
        let after = next.incoming->0;
        assert forall|id: Seq<char>| #[trigger] after.in_flight.contains(id) implies
            state::has_file(after.record.files, id) by {
            if id == file_id {
                assert(after.record.files[place].id == id);
            } else {
                assert(active.in_flight.contains(id));
                lemma_has_file(files, after.record.files, id);
            }
        }
        assert(after.in_flight.contains(file_id));
    }
}

/// A transfer that is being received stays consistent when it is finished, where it is ready.
proof fn lemma_finish_step_sound(
    c: state::ControllerView,
    progress: Seq<transfer::ProgressView>,
    now: int,
)
    requires
        c.incoming is Some ==> {
            let active = c.incoming->0;
            &&& state::is_sound_active(active.record, TransferDirection::Incoming)
            &&& forall|id: Seq<char>| #[trigger]
                active.in_flight.contains(id) ==> state::has_file(active.record.files, id)
        },
        state::is_sound(state::ControllerView { incoming: None, ..c }),
        c.incoming is Some ==> c.pending is None,
    ensures
        state::is_sound(state::finish_step(c, progress, now).0),
{
    if c.incoming is Some && c.incoming->0.end is Some && c.incoming->0.in_flight == Set::<
        Seq<char>,
    >::empty() {
        let active = c.incoming->0;
        lemma_received(active.record, progress, active.end->0, clock::timestamp_text(now));
        lemma_recent_order(
            state::ControllerView { incoming: None, ..c },
            transfer::received(
                active.record,
                progress,
                active.end->0,
                clock::timestamp_text(now),
            ),
        );
    }
}

/// Whatever the receiver reports, the state stays consistent.
pub proof fn lemma_server_step_sound(
    c: state::ControllerView,
    event: events::ServerEventView,
    progress: Seq<transfer::ProgressView>,
    now: int,
)
    requires
        state::is_sound(c),
        state::is_sound_server_event(event),
    ensures
        state::is_sound(state::server_step(c, event, progress, now).0),
{
    match event {
        events::ServerEventView::Register { .. } => {},
        events::ServerEventView::PrepareUpload {
            session_id,
            host,
            info,
            cert_fingerprint,
            files,
        } => {
            lemma_offer_step_sound(c, session_id, host, info, cert_fingerprint, files, now);
        },
        events::ServerEventView::FileUpload { session_id, file_id } => {
            lemma_upload_step_sound(c, session_id, file_id, now);
        },
        events::ServerEventView::SessionEnd { session_id, reason } => {
            if c.incoming is Some && c.incoming->0.record.id == session_id {
                lemma_finish_step_sound(
                    state::ControllerView {
                        incoming: Some(
                            state::IncomingView { end: Some(reason), ..c.incoming->0 },
                        ),
                        ..c
                    },
                    progress,
                    now,
                );
            }
        },
        events::ServerEventView::PrepareUploadAborted { session_id } => {
            if c.pending is Some && c.pending->0.snapshot.id == session_id {
                lemma_closed_request(c.pending->0, TransferState::Cancelled, now);
                lemma_recent_order(
                    state::ControllerView { pending: None, ..c },
                    state::closed_request(c.pending->0.snapshot, TransferState::Cancelled, now),
                );
            }
        },
        events::ServerEventView::CancelReceived { .. } => {},
        events::ServerEventView::ListenerFailed { .. } => {},
    }
}

proof fn lemma_file_step_sound(
    c: state::ControllerView,
    transfer_id: Seq<char>,
    file_id: Seq<char>,
    change: state::FileChange,
    now: int,
)
    requires
        state::is_sound(c),
    ensures
        state::is_sound(state::file_step(c, transfer_id, file_id, change, now)),
{
    if c.outgoing is Some && c.outgoing->0.record.id == transfer_id {
        let files = c.outgoing->0.record.files;
        let place = transfer::file_place(files, file_id, 0);
        transfer::lemma_file_place(files, file_id, 0);
        if place < files.len() {
            assert(files[place].completed_bytes <= files[place].size);
            lemma_file_updated(files, place, state::changed_file(files[place], change));
        }
    }
}

proof fn lemma_stored_step_sound(
    c: state::ControllerView,
    transfer_id: Seq<char>,
    file_id: Seq<char>,
    stored: bool,
    progress: Seq<transfer::ProgressView>,
    now: int,
)
    requires
        state::is_sound(c),
    ensures
        state::is_sound(state::stored_step(c, transfer_id, file_id, stored, progress, now).0),
{
    if c.incoming is Some && c.incoming->0.record.id == transfer_id {
        let active = c.incoming->0;
        let files = active.record.files;
        let place = transfer::file_place(files, file_id, 0);
        transfer::lemma_file_place(files, file_id, 0);
        let in_flight = active.in_flight.remove(file_id);
        if place < files.len() {
            assert(files[place].completed_bytes <= files[place].size);
            let after = files.update(place, state::stored_file(files[place], stored));
            lemma_file_updated(files, place, state::stored_file(files[place], stored));
            assert forall|id: Seq<char>| #[trigger] in_flight.contains(id) implies
                state::has_file(after, id) by {
                assert(active.in_flight.contains(id));
                lemma_has_file(files, after, id);
            }
            lemma_finish_step_sound(
                state::ControllerView {
                    incoming: Some(
                        state::IncomingView {
                            record: rpc::TransferView {
                                files: after,
                                updated_at: clock::timestamp_text(now),
                                ..active.record
                            },
                            in_flight,
                            ..active
                        },
                    ),
                    ..c
                },
                progress,
                now,
            );
        } else {
            if active.in_flight.contains(file_id) {
                assert(state::has_file(files, file_id));
                lemma_file_is_found(files, file_id, 0);
            }
            assert(in_flight =~= active.in_flight);
        }
    }
}

/// A file that is there is found.
proof fn lemma_file_is_found(files: Seq<rpc::FileView>, id: Seq<char>, i: int)
    requires
        0 <= i <= files.len(),
        exists|k: int| i <= k < files.len() && (#[trigger] files[k]).id == id,
    ensures
        transfer::file_place(files, id, i) < files.len(),
    decreases files.len() - i,
{
    if i < files.len() && files[i].id != id {
        lemma_file_is_found(files, id, i + 1);
    }
}

/// Whatever a task reports, the state stays consistent.
pub proof fn lemma_internal_step_sound(
    c: state::ControllerView,
    event: events::InternalEventView,
    sent: Seq<transfer::ProgressView>,
    received: Seq<transfer::ProgressView>,
    now: int,
)
    requires
        state::is_sound(c),
        state::is_sound_report(event),
    ensures
        state::is_sound(state::internal_step(c, event, sent, received, now).0),
{
    match event {
        events::InternalEventView::RefreshFinished { .. } => {},
        events::InternalEventView::OutgoingPrepared { transfer_id, session_id: _, accepted } => {
            if c.outgoing is Some && c.outgoing->0.record.id == transfer_id {
                let files = c.outgoing->0.record.files;
                transfer::lemma_same_sizes(files, state::chosen_files(files, accepted));
            }
        },
        events::InternalEventView::OutgoingFileStarted { transfer_id, file_id } => {
            lemma_file_step_sound(c, transfer_id, file_id, state::FileChange::Started, now);
        },
        events::InternalEventView::OutgoingFileCompleted { transfer_id, file_id } => {
            lemma_file_step_sound(c, transfer_id, file_id, state::FileChange::Completed, now);
        },
        events::InternalEventView::OutgoingFileFailed { transfer_id, file_id, reason } => {
            lemma_file_step_sound(
                c,
                transfer_id,
                file_id,
                state::FileChange::Failed(reason),
                now,
            );
        },
        events::InternalEventView::OutgoingFinished { transfer_id, state, error } => {
            if c.outgoing is Some && c.outgoing->0.record.id == transfer_id {
                let stamp = clock::timestamp_text(now);
                lemma_settled(c.outgoing->0.record, sent, state, error, stamp);
                lemma_recent_order(
                    state::ControllerView { outgoing: None, early_remote_cancel: None, ..c },
                    transfer::settled(c.outgoing->0.record, sent, state, error, stamp),
                );
            }
        },
        events::InternalEventView::IncomingFileResult { transfer_id, file_id, stored } => {
            lemma_stored_step_sound(c, transfer_id, file_id, stored, received, now);
        },
    }
}

/// However far files are, the state stays consistent.
pub proof fn lemma_synced_sound(
    c: state::ControllerView,
    sent: Seq<transfer::ProgressView>,
    received: Seq<transfer::ProgressView>,
    now: int,
)
    requires
        state::is_sound(c),
    ensures
        state::is_sound(state::synced(c, sent, received, now)),
{
    if c.outgoing is Some {
        let files = c.outgoing->0.record.files;
        transfer::lemma_synced_sound(files, sent);
        transfer::lemma_bytes_done(transfer::synced_files(files, sent));
    }
    if c.incoming is Some {
        let active = c.incoming->0;
        let files = active.record.files;
        let after = transfer::synced_files(files, received);
        transfer::lemma_synced_sound(files, received);
        transfer::lemma_bytes_done(after);
        assert forall|id: Seq<char>| #[trigger] active.in_flight.contains(id) implies
            state::has_file(after, id) by {
            lemma_has_file(files, after, id);
        }
    }
}

/// Sending items keeps the state consistent.
pub proof fn lemma_start_step_sound(
    c: state::ControllerView,
    fingerprint: Seq<char>,
    items: Seq<files::ItemView>,
    known: Seq<devices::KnownView>,
    id: Seq<char>,
    now: int,
)
    requires
        state::is_sound(c),
    ensures
        match state::start_step(c, fingerprint, items, known, id, now) {
            Ok((next, _)) => state::is_sound(next),
            Err(_) => true,
        },
{
    if tally::sum_of(items, state::item_size()) <= u64::MAX {
        let queued = state::queued_files(items);
        assert forall|i: int|
            #![trigger items[i]]
            #![trigger queued[i]]
            0 <= i < items.len() implies state::item_size()(items[i]) == transfer::file_size()(
            queued[i],
        ) by {}
        tally::lemma_sums_agree(items, state::item_size(), queued, transfer::file_size());
        tally::lemma_sum_sorted(queued, transfer::file_size());
        order::lemma_stable_sort(queued);
        let sorted = order::stable_sort(queued);
        assert forall|i: int| 0 <= i < sorted.len() implies (#[trigger] sorted[i]).completed_bytes
            <= sorted[i].size by {
            order::lemma_sort_members(queued, sorted[i]);
            assert(sorted.contains(sorted[i]));
            let k = choose|k: int| 0 <= k < queued.len() && queued[k] == sorted[i];
            assert(queued[k].completed_bytes == 0);
        }
    }
}

/// A collected selection keeps the state consistent.
pub proof fn lemma_selected_step_sound(
    c: state::ControllerView,
    fingerprint: Seq<char>,
    selection: Result<Seq<files::ItemView>, rpc::ApiErrorView>,
    caller_waits: bool,
    known: Seq<devices::KnownView>,
    id: Seq<char>,
    now: int,
)
    requires
        state::is_sound(c),
    ensures
        state::is_sound(
            state::selected_step(c, fingerprint, selection, caller_waits, known, id, now).0,
        ),
{
    match selection {
        Ok(items) => {
            lemma_start_step_sound(
                state::ControllerView { selecting: false, ..c },
                fingerprint,
                items,
                known,
                id,
                now,
            );
        },
        Err(_) => {},
    }
}

/// However the pending offer is decided, the state stays consistent.
pub proof fn lemma_decision_sound(
    c: state::ControllerView,
    reserved: Seq<events::ReservedView>,
    delivered: bool,
    now: int,
)
    requires
        state::is_sound(c),
    ensures
        state::is_sound(state::copied_step(c, delivered, now).0),
        state::is_sound(state::accepted_step(c, reserved, delivered, now).0),
        state::is_sound(state::declined_step(c, delivered, now).0),
{
    if c.pending is Some && delivered {
        let rest = state::ControllerView { pending: None, ..c };
        let request = c.pending->0.snapshot;
        lemma_closed_request(c.pending->0, TransferState::Declined, now);
        lemma_recent_order(rest, state::copied_record(request, now));
        lemma_recent_order(
            rest,
            state::closed_request(request, TransferState::Declined, now),
        );
        lemma_request_files(c.pending->0, TransferFileState::Queued);
        let before = transfer::files_from_offered(request.files, TransferFileState::Queued);
        let after = state::accepted_record(request, reserved, now).files;
        transfer::lemma_same_sizes(before, after);
        let next = state::accepted_step(c, reserved, delivered, now).0;
        assert(state::is_sound_active(next.incoming->0.record, TransferDirection::Incoming));
    }
}

/// Stopping a transfer keeps the state consistent.
pub proof fn lemma_cancel_step_sound(
    c: state::ControllerView,
    transfer_id: Seq<char>,
    received: Seq<transfer::ProgressView>,
    now: int,
)
    requires
        state::is_sound(c),
    ensures
        match state::cancel_step(c, transfer_id, received, now) {
            Ok((next, _)) => state::is_sound(next),
            Err(_) => true,
        },
{
    if c.incoming is Some {
        lemma_finish_step_sound(
            state::ControllerView {
                incoming: Some(
                    state::IncomingView {
                        record: state::cancelling(c.incoming->0.record, now),
                        end: Some(IncomingEnd::Cancelled),
                        ..c.incoming->0
                    },
                ),
                ..c
            },
            received,
            now,
        );
    }
}

/// Whatever is asked for, the state stays consistent.
pub proof fn lemma_rpc_step_sound(
    c: state::ControllerView,
    request: RpcRequest,
    world: state::WorldView,
    id: Seq<char>,
    file_id: Seq<char>,
    now: int,
)
    requires
        state::is_sound(c),
    ensures
        state::is_sound(state::rpc_step(c, request, world, id, file_id, now).0),
{
    match request {
        RpcRequest::Snapshot {  } => {
            lemma_synced_sound(c, world.sent, world.received, now);
        },
        RpcRequest::SendText { device, text } => {
            match files::text_outcome(text@, file_id) {
                Ok(item) => {
                    lemma_start_step_sound(c, device@, seq![item], world.known, id, now);
                },
                Err(_) => {},
            }
        },
        RpcRequest::Cancel { transfer } => {
            lemma_cancel_step_sound(c, transfer@, world.received, now);
        },
        _ => {},
    }
}

/// One thing that happens to the controller.
pub enum Happening {
    Server(events::ServerEventView, Seq<transfer::ProgressView>, int),
    Internal(
        events::InternalEventView,
        Seq<transfer::ProgressView>,
        Seq<transfer::ProgressView>,
        int,
    ),
    Discovery(DiscoveryEvent, int),
    Progress(Seq<transfer::ProgressView>, Seq<transfer::ProgressView>, int),
    Request(RpcRequest, state::WorldView, Seq<char>, Seq<char>, int),
    Selected(
        Seq<char>,
        Result<Seq<files::ItemView>, rpc::ApiErrorView>,
        bool,
        Seq<devices::KnownView>,
        Seq<char>,
        int,
    ),
    TextCopied(bool, int),
    FilesAccepted(Seq<events::ReservedView>, bool, int),
    Declined(bool, int),
    RefreshStarted(Seq<char>),
    Stopped,
}

/// The state after something happened.
pub open spec fn after(c: state::ControllerView, h: Happening) -> state::ControllerView {
    match h {
        Happening::Server(event, progress, now) => state::server_step(c, event, progress, now).0,
        Happening::Internal(event, sent, received, now) => state::internal_step(
            c,
            event,
            sent,
            received,
            now,
        ).0,
        Happening::Discovery(event, now) => state::discovery_step(c, event, now),
        Happening::Progress(sent, received, now) => state::synced(c, sent, received, now),
        Happening::Request(request, world, id, file_id, now) => state::rpc_step(
            c,
            request,
            world,
            id,
            file_id,
            now,
        ).0,
        Happening::Selected(device, selection, waits, known, id, now) => state::selected_step(
            c,
            device,
            selection,
            waits,
            known,
            id,
            now,
        ).0,
        Happening::TextCopied(delivered, now) => state::copied_step(c, delivered, now).0,
        Happening::FilesAccepted(reserved, delivered, now) => state::accepted_step(
            c,
            reserved,
            delivered,
            now,
        ).0,
        Happening::Declined(delivered, now) => state::declined_step(c, delivered, now).0,
        Happening::RefreshStarted(fresh) => state::refreshing(c, fresh).0,
        Happening::Stopped => state::stopped(c),
    }
}

/// A report of the end of a transfer names an end, and an offer lists no key twice.
pub open spec fn is_sound_happening(h: Happening) -> bool {
    &&& h is Internal ==> state::is_sound_report(h->Internal_0)
    &&& h is Server ==> state::is_sound_server_event(h->Server_0)
}

/// The state after things happened, one after the other.
pub open spec fn after_all(c: state::ControllerView, list: Seq<Happening>) -> state::ControllerView
    decreases list.len(),
{
    if list.len() == 0 {
        c
    } else {
        after(after_all(c, list.drop_last()), list.last())
    }
}

/// Whatever happens to a controller, its state stays consistent: no offer waits while a transfer is
/// being received, what is counted adds up, and at most eight finished transfers are kept, each of
/// them ended, with at most 32 files and without the paths that they were read from.
pub proof fn lemma_always_sound(c: state::ControllerView, list: Seq<Happening>)
    requires
        state::is_sound(c),
        forall|i: int| 0 <= i < list.len() ==> is_sound_happening(#[trigger] list[i]),
    ensures
        state::is_sound(after_all(c, list)),
    decreases list.len(),
{
    if list.len() > 0 {
        lemma_always_sound(c, list.drop_last());
        let before = after_all(c, list.drop_last());
        assert(is_sound_happening(list[list.len() - 1]));
        match list.last() {
            Happening::Server(event, progress, now) => {
                lemma_server_step_sound(before, event, progress, now);
            },
            Happening::Internal(event, sent, received, now) => {
                lemma_internal_step_sound(before, event, sent, received, now);
            },
            Happening::Discovery(_, _) => {},
            Happening::Progress(sent, received, now) => {
                lemma_synced_sound(before, sent, received, now);
            },
            Happening::Request(request, world, id, file_id, now) => {
                lemma_rpc_step_sound(before, request, world, id, file_id, now);
            },
            Happening::Selected(device, selection, waits, known, id, now) => {
                lemma_selected_step_sound(before, device, selection, waits, known, id, now);
            },
            Happening::TextCopied(delivered, now) => {
                lemma_decision_sound(before, Seq::empty(), delivered, now);
            },
            Happening::FilesAccepted(reserved, delivered, now) => {
                lemma_decision_sound(before, reserved, delivered, now);
            },
            Happening::Declined(delivered, now) => {
                lemma_decision_sound(before, Seq::empty(), delivered, now);
            },
            Happening::RefreshStarted(_) => {},
            Happening::Stopped => {},
        }
    }
}

/// A controller starts in a consistent state.
pub proof fn lemma_initial_sound(
    identity: identity::IdentityView,
    socket: Seq<char>,
    destination: Seq<char>,
    now: int,
)
    ensures
        state::is_sound(state::initial(identity, socket, destination, now)),
{
}

/// A request that is answered with an error changes nothing.
pub proof fn lemma_failed_request_changes_nothing(
    c: state::ControllerView,
    request: RpcRequest,
    world: state::WorldView,
    id: Seq<char>,
    file_id: Seq<char>,
    now: int,
)
    requires
        state::rpc_step(c, request, world, id, file_id, now).1 is Fail,
    ensures
        state::rpc_step(c, request, world, id, file_id, now).0 == c,
{
}

/// To accept or to decline a request, callers must name the one that is pending, by a UUID; and
/// naming it changes nothing yet.
pub proof fn lemma_only_pending_is_decided(
    c: state::ControllerView,
    request: RpcRequest,
    world: state::WorldView,
    id: Seq<char>,
    file_id: Seq<char>,
    now: int,
)
    requires
        state::is_sound(c),
        request is Accept || request is Decline,
    ensures
        ({
            let named = match request {
                RpcRequest::Accept { request } => request@,
                RpcRequest::Decline { request } => request@,
                _ => Seq::empty(),
            };
            let (next, action) = state::rpc_step(c, request, world, id, file_id, now);
            &&& next == c
            &&& (action is Fail) == !(ids::is_uuid(named) && state::pending_id(c) == Some(named))
        }),
{
}

/// A report about a transfer that is not under way changes nothing.
pub proof fn lemma_stale_report_changes_nothing(
    c: state::ControllerView,
    event: events::InternalEventView,
    sent: Seq<transfer::ProgressView>,
    received: Seq<transfer::ProgressView>,
    now: int,
)
    requires
        match event {
            events::InternalEventView::RefreshFinished { id, .. } => c.refresh_id != Some(id),
            events::InternalEventView::OutgoingPrepared { transfer_id, .. } => c.outgoing is None
                || c.outgoing->0.record.id != transfer_id,
            events::InternalEventView::OutgoingFileStarted { transfer_id, .. } => c.outgoing is None
                || c.outgoing->0.record.id != transfer_id,
            events::InternalEventView::OutgoingFileCompleted { transfer_id, .. } => {
                c.outgoing is None || c.outgoing->0.record.id != transfer_id
            },
            events::InternalEventView::OutgoingFileFailed { transfer_id, .. } => c.outgoing is None
                || c.outgoing->0.record.id != transfer_id,
            events::InternalEventView::OutgoingFinished { transfer_id, .. } => c.outgoing is None
                || c.outgoing->0.record.id != transfer_id,
            events::InternalEventView::IncomingFileResult { transfer_id, .. } => {
                c.incoming is None || c.incoming->0.record.id != transfer_id
            },
        },
    ensures
        state::internal_step(c, event, sent, received, now) == (
            c,
            Seq::<events::EffectView>::empty(),
        ),
{
}

/// What a peer does in a session that is not the one under way changes nothing.
pub proof fn lemma_stale_session_changes_nothing(
    c: state::ControllerView,
    event: events::ServerEventView,
    progress: Seq<transfer::ProgressView>,
    now: int,
)
    requires
        match event {
            events::ServerEventView::FileUpload { session_id, .. } => c.incoming is None
                || c.incoming->0.record.id != session_id,
            events::ServerEventView::SessionEnd { session_id, .. } => c.incoming is None
                || c.incoming->0.record.id != session_id,
            events::ServerEventView::PrepareUploadAborted { session_id } => state::pending_id(c)
                != Some(session_id),
            events::ServerEventView::CancelReceived { host, session_id } => c.outgoing is None
                || c.outgoing->0.host != host || (c.outgoing->0.remote_session_id is Some
                && c.outgoing->0.remote_session_id != Some(session_id)),
            _ => false,
        },
    ensures
        state::server_step(c, event, progress, now) == (c, Seq::<events::EffectView>::empty()),
{
}

/// Every offer is declined or kept, not both; and it is kept exactly when nothing else is there to
/// be decided or received, the sender showed a certificate, and sender and offer are in order. Then
/// it is what waits for a decision.
pub proof fn lemma_offer_is_answered(
    c: state::ControllerView,
    session_id: Seq<char>,
    host: Seq<char>,
    info: model::RegisterView,
    cert_fingerprint: Option<Seq<char>>,
    entries: Seq<model::EntryView>,
    now: int,
)
    ensures
        ({
            let (next, effects) = state::offer_step(
                c,
                session_id,
                host,
                info,
                cert_fingerprint,
                entries,
                now,
            );
            let kept = cert_fingerprint is Some && c.pending is None && c.incoming is None
                && offer::is_sound_sender(info) && offer::is_acceptable_offer(entries);
            &&& effects.len() > 0
            &&& effects.last() == (if kept {
                events::EffectView::HoldOffer
            } else {
                events::EffectView::DeclineOffer
            })
            &&& forall|i: int|
                0 <= i < effects.len() - 1 ==> (#[trigger] effects[i]) is ConfirmDevice
            &&& kept ==> next.pending is Some && next.pending->0.files == entries
                && next.pending->0.snapshot.id == session_id
            &&& !kept ==> next.pending == c.pending
            &&& next.incoming == c.incoming
            &&& next.outgoing == c.outgoing
            &&& next.recent == c.recent
        }),
{
    offer::lemma_acceptable_offer(entries);
}

/// Discovery is never told of this device itself.
pub proof fn lemma_self_is_not_confirmed(
    c: state::ControllerView,
    event: events::ServerEventView,
    progress: Seq<transfer::ProgressView>,
    now: int,
)
    ensures
        forall|i: int|
            #![trigger state::server_step(c, event, progress, now).1[i]]
            {
                let effects = state::server_step(c, event, progress, now).1;
                0 <= i < effects.len() && effects[i] is ConfirmDevice
                    ==> effects[i]->device.fingerprint != c.identity.fingerprint
            },
{
}

/// The outgoing transfer leaves only as a finished one: what a task reports keeps it under its
/// identifier, or puts it in front of the finished transfers.
pub proof fn lemma_outgoing_is_accounted_for(
    c: state::ControllerView,
    event: events::InternalEventView,
    sent: Seq<transfer::ProgressView>,
    received: Seq<transfer::ProgressView>,
    now: int,
)
    requires
        state::is_sound(c),
        state::is_sound_report(event),
        c.outgoing is Some,
    ensures
        ({
            let next = state::internal_step(c, event, sent, received, now).0;
            let id = c.outgoing->0.record.id;
            match next.outgoing {
                Some(active) => active.record.id == id,
                None => next.recent.len() > 0 && next.recent[0].id == id && rpc::is_terminal(
                    next.recent[0].state,
                ) && event is OutgoingFinished && next.recent[0].state
                    == event->OutgoingFinished_state,
            }
        }),
{
    lemma_internal_step_sound(c, event, sent, received, now);
}

/// The incoming transfer leaves only as a finished one: what the receiver or a task reports keeps it
/// under its identifier, or puts it in front of the finished transfers.
pub proof fn lemma_incoming_is_accounted_for(
    c: state::ControllerView,
    server: events::ServerEventView,
    report: events::InternalEventView,
    sent: Seq<transfer::ProgressView>,
    received: Seq<transfer::ProgressView>,
    now: int,
)
    requires
        state::is_sound(c),
        state::is_sound_server_event(server),
        state::is_sound_report(report),
        c.incoming is Some,
    ensures
        ({
            let next = state::server_step(c, server, received, now).0;
            let id = c.incoming->0.record.id;
            match next.incoming {
                Some(active) => active.record.id == id,
                None => next.recent.len() > 0 && next.recent[0].id == id && rpc::is_terminal(
                    next.recent[0].state,
                ),
            }
        }),
        ({
            let next = state::internal_step(c, report, sent, received, now).0;
            let id = c.incoming->0.record.id;
            match next.incoming {
                Some(active) => active.record.id == id,
                None => next.recent.len() > 0 && next.recent[0].id == id && rpc::is_terminal(
                    next.recent[0].state,
                ),
            }
        }),
{
    lemma_server_step_sound(c, server, received, now);
    lemma_internal_step_sound(c, report, sent, received, now);
}

/// It makes no difference whether the receiver cancels before or after it is known which session it
/// cancels: the transfer is told to stop, and the state is the same.
pub proof fn lemma_early_cancel_counts(
    c: state::ControllerView,
    session_id: Seq<char>,
    accepted: Seq<Seq<char>>,
    now: int,
)
    requires
        c.outgoing is Some,
        c.outgoing->0.remote_session_id is None,
        c.early_remote_cancel is None,
    ensures
        ({
            let id = c.outgoing->0.record.id;
            let host = c.outgoing->0.host;
            let (early, nothing) = state::peer_cancel_step(c, host, session_id, now);
            let (first, told_first) = state::prepared_step(early, id, session_id, accepted, now);
            let (prepared, silent) = state::prepared_step(c, id, session_id, accepted, now);
            let (second, told_second) = state::peer_cancel_step(prepared, host, session_id, now);
            &&& first == second
            &&& first.outgoing->0.record.state == TransferState::Cancelling
            &&& nothing + told_first == silent + told_second
            &&& told_first == seq![events::EffectView::CancelOutgoing]
        }),
{
}

/// A refresh that is under way is not started again.
pub proof fn lemma_refresh_is_shared(c: state::ControllerView, fresh: Seq<char>, other: Seq<char>)
    ensures
        ({
            let (next, id) = state::refreshing(c, fresh);
            &&& next.refresh_id == Some(id)
            &&& state::refreshing(next, other) == (next, id)
            &&& c.refresh_id is Some ==> next == c
        }),
{
}

/// Bringing transfers up to the same progress again changes nothing, however much later.
pub proof fn lemma_sync_settles(
    c: state::ControllerView,
    sent: Seq<transfer::ProgressView>,
    received: Seq<transfer::ProgressView>,
    now: int,
    later: int,
)
    requires
        state::is_sound(c),
    ensures
        state::synced(state::synced(c, sent, received, now), sent, received, later)
            == state::synced(c, sent, received, now),
{
    let once = state::synced(c, sent, received, now);
    if c.outgoing is Some {
        lemma_record_sync_settles(
            c.outgoing->0.record,
            sent,
            clock::timestamp_text(now),
            clock::timestamp_text(later),
        );
    }
    if c.incoming is Some {
        lemma_record_sync_settles(
            c.incoming->0.record,
            received,
            clock::timestamp_text(now),
            clock::timestamp_text(later),
        );
    }
}

proof fn lemma_record_sync_settles(
    record: rpc::TransferView,
    progress: Seq<transfer::ProgressView>,
    now: Seq<char>,
    later: Seq<char>,
)
    ensures
        transfer::synced(transfer::synced(record, progress, now), progress, later)
            == transfer::synced(record, progress, now),
{
    let once = transfer::synced_files(record.files, progress);
    assert(transfer::synced_files(once, progress) =~= once);
}

/// What is shown stays within bounds: at most 128 devices and ten transfers, none of them further
/// than its size.
pub proof fn lemma_snapshot_is_bounded(
    c: state::ControllerView,
    known: Seq<devices::KnownView>,
    versions: state::VersionsView,
    now: int,
)
    requires
        state::is_sound(c),
    ensures
        ({
            let snapshot = state::shown(c, known, versions, now);
            &&& snapshot.devices.len() <= devices::MAX_DEVICES
            &&& snapshot.transfers.len() <= state::MAX_RECENT_TRANSFERS + 2
            &&& forall|i: int|
                0 <= i < snapshot.transfers.len() ==> (#[trigger] snapshot.transfers[i]).completed_bytes
                    <= snapshot.transfers[i].total_bytes
        }),
{
    let transfers = state::shown_transfers(c);
    let incoming: int = if c.incoming is Some {
        1
    } else {
        0
    };
    let outgoing: int = if c.outgoing is Some {
        1
    } else {
        0
    };
    assert forall|i: int| 0 <= i < transfers.len() implies (#[trigger] transfers[i]).completed_bytes
        <= transfers[i].total_bytes by {
        if i >= incoming + outgoing {
            assert(transfers[i] == c.recent[i - incoming - outgoing]);
        }
    }
}

/// The devices are listed in order, and what is listed is there.
pub proof fn lemma_devices_in_order(known: Seq<devices::KnownView>, now: int)
    ensures
        order::in_order(devices::listed_devices(known, now)),
        forall|i: int|
            0 <= i < devices::listed_devices(known, now).len() ==> devices::all_shown(
                known,
                now,
            ).contains(#[trigger] devices::listed_devices(known, now)[i]),
        known.len() <= devices::MAX_DEVICES ==> devices::listed_devices(known, now).len()
            == known.len(),
{
    let all = devices::all_shown(known, now);
    let sorted = order::stable_sort(all);
    let listed = devices::listed_devices(known, now);
    order::lemma_stable_sort(all);
    assert forall|i: int, j: int| 0 <= i < j < listed.len() implies !order::Ranked::precedes(
        #[trigger] listed[j],
        #[trigger] listed[i],
    ) by {
        assert(listed[j] == sorted[j]);
        assert(listed[i] == sorted[i]);
    }
    assert forall|i: int| 0 <= i < listed.len() implies all.contains(#[trigger] listed[i]) by {
        assert(listed[i] == sorted[i]);
        order::lemma_sort_members(all, sorted[i]);
        assert(sorted.contains(sorted[i]));
    }
}

/// A file is stored where a place was reserved for it, and nowhere else.
pub proof fn lemma_stored_at_reserved_place(
    c: state::ControllerView,
    session_id: Seq<char>,
    file_id: Seq<char>,
    now: int,
)
    ensures
        ({
            let (next, effects) = state::upload_step(c, session_id, file_id, now);
            &&& effects.len() <= 1
            &&& effects.len() == 1 ==> {
                let place = transfer::file_place(c.incoming->0.record.files, file_id, 0);
                &&& c.incoming is Some
                &&& c.incoming->0.record.id == session_id
                &&& !c.incoming->0.in_flight.contains(file_id)
                &&& next.incoming->0.in_flight.contains(file_id)
                &&& effects[0] == (events::EffectView::StoreFile {
                    session_id,
                    file_id,
                    path: c.incoming->0.record.files[place].destination_path->0,
                })
            }
            &&& effects.len() == 0 ==> next == c
        }),
{
}

/// An accepted transfer has the files of the request, in order, each with the place that was
/// reserved for it.
pub proof fn lemma_accepted_files_are_offered(
    c: state::ControllerView,
    reserved: Seq<events::ReservedView>,
    now: int,
)
    requires
        state::is_sound(c),
        c.pending is Some,
    ensures
        ({
            let request = c.pending->0.snapshot;
            let (next, answer) = state::accepted_step(c, reserved, true, now);
            let files = next.incoming->0.record.files;
            &&& answer == Ok::<_, rpc::ApiErrorView>(next.incoming->0.record)
            &&& next.pending is None
            &&& files.len() == request.files.len()
            &&& forall|i: int|
                #![trigger files[i]]
                0 <= i < files.len() ==> {
                    &&& files[i].id == request.files[i].id
                    &&& files[i].name == request.files[i].name
                    &&& files[i].size == request.files[i].size
                    &&& files[i].state == TransferFileState::Queued
                    &&& files[i].destination_path == state::reserved_path(
                        reserved,
                        files[i].id,
                        0,
                    )
                }
        }),
{
}

/// A text that the offer holds is what is copied, and then the transfer is complete.
pub proof fn lemma_copied_text_is_complete(c: state::ControllerView, request: Seq<char>, now: int)
    requires
        state::is_sound(c),
        state::accept_plan(c, request) is Ok,
        state::accept_plan(c, request)->Ok_0 is CopyText,
    ensures
        offer::embedded_text(c.pending->0.files) == Some(
            (state::accept_plan(c, request)->Ok_0)->message,
        ),
        ({
            let (next, answer) = state::copied_step(c, true, now);
            &&& answer is Ok
            &&& (answer->Ok_0).state == TransferState::Completed
            &&& (answer->Ok_0).completed_bytes == (answer->Ok_0).total_bytes
            &&& next.pending is None
            &&& next.incoming == c.incoming
            &&& next.recent[0].id == request
        }),
{
    lemma_decision_sound(c, Seq::empty(), true, now);
}

/// No two of the files have the same identifier.
pub open spec fn has_distinct_ids(files: Seq<rpc::OfferedView>) -> bool {
    forall|i: int, j: int|
        0 <= i < j < files.len() ==> (#[trigger] files[i]).id != (#[trigger] files[j]).id
}

/// A request that waits for a decision shows no identifier twice.
pub proof fn lemma_pending_ids_are_distinct(pending: state::PendingView)
    requires
        state::is_sound_pending(pending),
    ensures
        has_distinct_ids(pending.snapshot.files),
{
    broadcast use vstd::seq_lib::group_to_multiset_ensures;

    let offered = state::offered_files(pending.files);
    let shown = pending.snapshot.files;
    order::lemma_stable_sort(offered);
    assert forall|i: int, j: int| 0 <= i < j < offered.len() implies (#[trigger] offered[i]).id != (
    #[trigger] offered[j]).id by {
        assert(offer::is_sound_entry(pending.files[i]));
        assert(offer::is_sound_entry(pending.files[j]));
        assert(pending.files[i].key != pending.files[j].key);
    }
    assert(offered.no_duplicates());
    offered.lemma_multiset_has_no_duplicates();
    shown.lemma_multiset_has_no_duplicates_conv();
    assert forall|i: int, j: int| 0 <= i < j < shown.len() implies (#[trigger] shown[i]).id != (
    #[trigger] shown[j]).id by {
        order::lemma_sort_members(offered, shown[i]);
        order::lemma_sort_members(offered, shown[j]);
        assert(shown.contains(shown[i]) && shown.contains(shown[j]));
        let p = choose|p: int| 0 <= p < offered.len() && offered[p] == shown[i];
        let q = choose|q: int| 0 <= q < offered.len() && offered[q] == shown[j];
        assert(shown[i] != shown[j]);
        if p < q {
            assert(offered[p].id != offered[q].id);
        } else {
            assert(offered[q].id != offered[p].id);
        }
    }
}

/// Whatever happens, this device stays who it is, and finished transfers stay as they are and in
/// their order; at most one comes in front of them.
pub proof fn lemma_finished_transfers_stay(c: state::ControllerView, h: Happening)
    requires
        state::is_sound(c),
    ensures
        ({
            let next = after(c, h);
            &&& next.identity == c.identity
            &&& next.socket == c.socket
            &&& next.destination == c.destination
            &&& next.started_at == c.started_at
            &&& next.recent == c.recent || (next.recent.len() > 0 && forall|i: int|
                0 < i < next.recent.len() ==> #[trigger] next.recent[i] == c.recent[i - 1])
        }),
{
    let next = after(c, h);
    if next.recent != c.recent {
        assert forall|i: int| 0 < i < next.recent.len() implies #[trigger] next.recent[i]
            == c.recent[i - 1] by {}
    }
}

/// One transfer goes out at a time: while one does, or its files are being collected, requests to
/// send are refused; and no transfer begins while one goes out.
pub proof fn lemma_one_outgoing_at_a_time(
    c: state::ControllerView,
    request: RpcRequest,
    world: state::WorldView,
    id: Seq<char>,
    file_id: Seq<char>,
    now: int,
)
    requires
        request is SendFiles || request is SendText,
    ensures
        c.outgoing is Some || c.selecting ==> state::rpc_step(
            c,
            request,
            world,
            id,
            file_id,
            now,
        ) == (c, events::RpcActionView::Fail { error: state::outgoing_busy() }),
        forall|device: Seq<char>, items: Seq<files::ItemView>|
            c.outgoing is Some ==> #[trigger] state::start_step(
                c,
                device,
                items,
                world.known,
                id,
                now,
            ) == Err::<(state::ControllerView, events::LaunchView), _>(state::outgoing_busy()),
{
}

/// A transfer that begins is shown as it is kept, has every item among its files, and counts all of
/// their bytes.
pub proof fn lemma_started_transfer(
    c: state::ControllerView,
    fingerprint: Seq<char>,
    items: Seq<files::ItemView>,
    known: Seq<devices::KnownView>,
    id: Seq<char>,
    now: int,
)
    requires
        state::is_sound(c),
        state::start_step(c, fingerprint, items, known, id, now) is Ok,
    ensures
        ({
            let (next, launch) = state::start_step(c, fingerprint, items, known, id, now)->Ok_0;
            &&& next.outgoing is Some
            &&& next.outgoing->0.record == launch.transfer
            &&& launch.transfer.id == id
            &&& launch.transfer.files.to_multiset() == state::queued_files(items).to_multiset()
            &&& order::in_order(launch.transfer.files)
            &&& launch.transfer.total_bytes == tally::sum_of(items, state::item_size())
            &&& launch.channel.protocol == model::ProtocolType::Https
                ==> launch.expected_fingerprint == Some(launch.transfer.peer.fingerprint)
        }),
{
    order::lemma_stable_sort(state::queued_files(items));
}

} // verus!
