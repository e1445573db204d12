//! Laws of the controller, said of single files, records and effects: what each thing that happens
//! changes, and that it changes nothing else.
use crate::clock;
use crate::devices;
use crate::events;
use crate::files;
use crate::identity;
use crate::ids;
use crate::records;
use crate::rpc;
use crate::rpc::{RpcRequest, TransferDirection, TransferFileState, TransferState};
use crate::state;
use crate::transfer;
use crate::transfer::IncomingEnd;
use vstd::prelude::*;
use vstd::utf8::*;

verus! {

/// True of the place of the first file with an identifier.
pub open spec fn is_first_file(files: Seq<rpc::FileView>, id: Seq<char>, k: int) -> bool {
    &&& 0 <= k < files.len()
    &&& files[k].id == id
    &&& forall|j: int| 0 <= j < k ==> (#[trigger] files[j]).id != id
}

proof fn lemma_file_place(files: Seq<rpc::FileView>, id: Seq<char>, i: int)
    requires
        0 <= i <= files.len(),
        forall|j: int| 0 <= j < i ==> (#[trigger] files[j]).id != id,
    ensures
        ({
            let place = transfer::file_place(files, id, i);
            &&& place < files.len() ==> is_first_file(files, id, place)
            &&& place >= files.len() ==> forall|j: int|
                0 <= j < files.len() ==> (#[trigger] files[j]).id != id
            &&& forall|k: int| #[trigger] is_first_file(files, id, k) ==> k == place
        }),
    decreases files.len() - i,
{
    if i < files.len() && files[i].id != id {
        lemma_file_place(files, id, i + 1);
    }
    let place = transfer::file_place(files, id, i);
    assert forall|k: int| #[trigger] is_first_file(files, id, k) implies k == place by {
        if place < files.len() {
            assert(!(place < k) && !(k < place));
        }
    }
}

/// True if the files differ at one place at most.
pub open spec fn differs_only_at(
    before: Seq<rpc::FileView>,
    after: Seq<rpc::FileView>,
    k: int,
) -> bool {
    after.len() == before.len() && forall|i: int|
        0 <= i < before.len() && i != k ==> #[trigger] after[i] == before[i]
}

/// A file that a peer sends is stored exactly when it belongs to the session, has a place reserved
/// and is not being stored already. It is stored at its own place, and it is the only file that
/// changes: it is under way, from its first byte on.
pub proof fn lemma_upload_changes_one_file(
    c: state::ControllerView,
    session_id: Seq<char>,
    file_id: Seq<char>,
    progress: Seq<transfer::ProgressView>,
    now: int,
)
    ensures
        ({
            let (next, effects) = state::server_step(
                c,
                events::ServerEventView::FileUpload { session_id, file_id },
                progress,
                now,
            );
            let files = c.incoming->0.record.files;
            let is_wanted = c.incoming is Some && c.incoming->0.record.id == session_id
                && !c.incoming->0.in_flight.contains(file_id) && exists|k: int| #[trigger]
                is_first_file(files, file_id, k) && files[k].destination_path is Some;
            &&& !is_wanted ==> next == c && effects.len() == 0
            &&& is_wanted ==> forall|k: int| #[trigger]
                is_first_file(files, file_id, k) ==> {
                    let after = next.incoming->0.record.files;
                    &&& effects == seq![
                        events::EffectView::StoreFile {
                            session_id,
                            file_id,
                            path: files[k].destination_path->0,
                        },
                    ]
                    &&& next == (state::ControllerView { incoming: next.incoming, ..c })
                    &&& next.incoming is Some
                    &&& next.incoming->0.sender == c.incoming->0.sender
                    &&& next.incoming->0.end == c.incoming->0.end
                    &&& next.incoming->0.in_flight == c.incoming->0.in_flight.insert(file_id)
                    &&& next.incoming->0.record == (rpc::TransferView {
                        files: after,
                        updated_at: clock::timestamp_text(now),
                        ..c.incoming->0.record
                    })
                    &&& differs_only_at(files, after, k)
                    &&& records::is_same_file(files[k], after[k])
                    &&& after[k].state == TransferFileState::Transferring
                    &&& after[k].completed_bytes == 0
                    &&& after[k].error is None
                }
        }),
{
    if c.incoming is Some {
        let files = c.incoming->0.record.files;
        lemma_file_place(files, file_id, 0);
        let place = transfer::file_place(files, file_id, 0);
        if place < files.len() {
            assert(is_first_file(files, file_id, place));
        }
    }
}

/// While a transfer goes on, a file that was stored is completed in full and one that could not be
/// stored has failed with an error of its own, and what was stored of it is removed. No other file
/// changes, and nothing that was stored well is removed.
pub proof fn lemma_stored_changes_one_file(
    c: state::ControllerView,
    transfer_id: Seq<char>,
    file_id: Seq<char>,
    stored: bool,
    sent: Seq<transfer::ProgressView>,
    received: Seq<transfer::ProgressView>,
    now: int,
    k: int,
)
    requires
        c.incoming is Some,
        c.incoming->0.record.id == transfer_id,
        is_first_file(c.incoming->0.record.files, file_id, k),
        c.incoming->0.end is None || c.incoming->0.in_flight.remove(file_id) != Set::<
            Seq<char>,
        >::empty(),
    ensures
        ({
            let (next, effects) = state::internal_step(
                c,
                events::InternalEventView::IncomingFileResult { transfer_id, file_id, stored },
                sent,
                received,
                now,
            );
            let files = c.incoming->0.record.files;
            let after = next.incoming->0.record.files;
            &&& next == (state::ControllerView { incoming: next.incoming, ..c })
            &&& next.incoming is Some
            &&& next.incoming->0.sender == c.incoming->0.sender
            &&& next.incoming->0.end == c.incoming->0.end
            &&& next.incoming->0.in_flight == c.incoming->0.in_flight.remove(file_id)
            &&& next.incoming->0.record == (rpc::TransferView {
                files: after,
                updated_at: clock::timestamp_text(now),
                ..c.incoming->0.record
            })
            &&& differs_only_at(files, after, k)
            &&& records::is_same_file(files[k], after[k])
            &&& stored ==> {
                &&& after[k].state == TransferFileState::Completed
                &&& after[k].completed_bytes == files[k].size
                &&& after[k].error is None
                &&& effects.len() == 0
            }
            &&& !stored ==> {
                &&& after[k].state == TransferFileState::Failed
                &&& after[k].error is Some
                &&& after[k].error->0.code == "receive_file_failed"@
                &&& after[k].error->0.message == "Could not receive "@ + files[k].name
                &&& after[k].completed_bytes == files[k].completed_bytes
                &&& files[k].destination_path is Some ==> effects == seq![
                    events::EffectView::RemoveFile { path: files[k].destination_path->0 },
                ]
                &&& files[k].destination_path is None ==> effects.len() == 0
            }
        }),
{
    let files = c.incoming->0.record.files;
    lemma_file_place(files, file_id, 0);
    let (next, effects) = state::internal_step(
        c,
        events::InternalEventView::IncomingFileResult { transfer_id, file_id, stored },
        sent,
        received,
        now,
    );
    assert(next.incoming->0.record.files.len() == files.len());
}

/// A record moves to the front of the finished transfers, and the others move back by one; beyond
/// eight the oldest falls out.
pub proof fn lemma_recent_moves_back(c: state::ControllerView, record: rpc::TransferView)
    ensures
        ({
            let next = state::with_recent(c, record);
            &&& next == (state::ControllerView { recent: next.recent, ..c })
            &&& next.recent.len() == (if c.recent.len() < 8 {
                c.recent.len() + 1
            } else {
                8
            })
            &&& next.recent[0] == transfer::kept_record(record)
            &&& forall|i: int|
                1 <= i < next.recent.len() ==> #[trigger] next.recent[i] == c.recent[i - 1]
        }),
{
}

/// What is removed when a transfer has been received.
proof fn lemma_removals(
    record: rpc::TransferView,
    progress: Seq<transfer::ProgressView>,
    end: IncomingEnd,
    path: Seq<char>,
)
    ensures
        ({
            let effects = events::removals(
                transfer::leftover_paths(transfer::synced_files(record.files, progress), end),
            );
            effects.contains(events::EffectView::RemoveFile { path }) <==> end
                == IncomingEnd::Cancelled && is_left_over(record.files, path)
        }),
{
    let paths = transfer::leftover_paths(transfer::synced_files(record.files, progress), end);
    let effects = events::removals(paths);
    records::lemma_cancelled_reception_keeps_what_arrived(record, progress, Seq::empty());
    if effects.contains(events::EffectView::RemoveFile { path }) {
        let i = choose|i: int|
            0 <= i < effects.len() && effects[i] == (events::EffectView::RemoveFile { path });
        assert(paths[i] == path);
        assert(paths.contains(path));
    }
    if paths.contains(path) {
        let i = choose|i: int| 0 <= i < paths.len() && paths[i] == path;
        assert(effects[i] == (events::EffectView::RemoveFile { path }));
    }
}

/// True of a place where a file is, or was to be, stored that was queued or under way.
pub open spec fn is_left_over(files: Seq<rpc::FileView>, path: Seq<char>) -> bool {
    exists|i: int|
        0 <= i < files.len() && ((#[trigger] files[i]).state == TransferFileState::Queued
            || files[i].state == TransferFileState::Transferring) && files[i].destination_path
            == Some(path)
}

/// A session that ends while nothing is being stored ends the transfer. It is recorded as cancelled
/// if it was cancelled, as failed if any of its files failed, and else as completed; a transfer that
/// failed has an error. Only a cancellation removes anything, and only what was stored of files that
/// were queued or under way.
pub proof fn lemma_session_end_is_recorded(
    c: state::ControllerView,
    session_id: Seq<char>,
    reason: IncomingEnd,
    progress: Seq<transfer::ProgressView>,
    now: int,
)
    requires
        c.incoming is Some,
        c.incoming->0.record.id == session_id,
        c.incoming->0.in_flight == Set::<Seq<char>>::empty(),
    ensures
        ({
            let (next, effects) = state::server_step(
                c,
                events::ServerEventView::SessionEnd { session_id, reason },
                progress,
                now,
            );
            let record = c.incoming->0.record;
            let kept = next.recent[0];
            &&& next == (state::ControllerView { incoming: None, recent: next.recent, ..c })
            &&& next.recent.len() > 0
            &&& records::is_same_transfer(record, kept)
            &&& kept.finished_at == Some(clock::timestamp_text(now))
            &&& reason == IncomingEnd::Cancelled ==> kept.state == TransferState::Cancelled
                && kept.error == record.error
            &&& reason == IncomingEnd::Finished ==> {
                &&& kept.state == TransferState::Completed || kept.state == TransferState::Failed
                &&& kept.state == TransferState::Completed <==> forall|i: int|
                    0 <= i < record.files.len() ==> (#[trigger] record.files[i]).state
                        != TransferFileState::Failed
                &&& kept.state == TransferState::Failed ==> kept.error is Some
                    && kept.error->0.code == "receive_failed"@
                &&& effects.len() == 0
            }
            &&& forall|i: int|
                #![trigger record.files[i]]
                0 <= i < kept.files.len() ==> {
                    &&& record.files[i].state == TransferFileState::Completed
                        ==> kept.files[i].state == TransferFileState::Completed
                    &&& kept.files[i].destination_path == record.files[i].destination_path
                    &&& records::follows_reading(
                        record.files[i],
                        progress,
                        kept.files[i].completed_bytes,
                    )
                }
            &&& forall|path: Seq<char>| #[trigger]
                effects.contains(events::EffectView::RemoveFile { path }) <==> reason
                    == IncomingEnd::Cancelled && is_left_over(record.files, path)
            &&& forall|i: int| 0 <= i < effects.len() ==> (#[trigger] effects[i]) is RemoveFile
        }),
{
    let record = c.incoming->0.record;
    let at = clock::timestamp_text(now);
    let (next, effects) = state::server_step(
        c,
        events::ServerEventView::SessionEnd { session_id, reason },
        progress,
        now,
    );
    let done = transfer::received(record, progress, reason, at);
    records::lemma_kept_record_is_the_record(done);
    assert(next.recent[0] == transfer::kept_record(done));
    records::lemma_cancelled_reception_keeps_what_arrived(record, progress, at);
    records::lemma_one_failed_file_fails_the_reception(record, progress, at);
    assert forall|path: Seq<char>| #[trigger]
        effects.contains(events::EffectView::RemoveFile { path }) <==> reason
            == IncomingEnd::Cancelled && is_left_over(record.files, path) by {
        lemma_removals(record, progress, reason, path);
    }
    if reason == IncomingEnd::Finished {
        if done.state == TransferState::Completed {
            assert forall|i: int| 0 <= i < record.files.len() implies (#[trigger] record.files[i]).state
                != TransferFileState::Failed by {
                assert(done.files[i].state != TransferFileState::Failed);
            }
        } else {
            let i = choose|i: int|
                0 <= i < done.files.len() && (#[trigger] done.files[i]).state
                    == TransferFileState::Failed;
            assert(record.files[i].state == TransferFileState::Failed);
        }
    }
    assert forall|i: int| #![trigger record.files[i]] 0 <= i < next.recent[0].files.len() implies {
        &&& record.files[i].state == TransferFileState::Completed
            ==> next.recent[0].files[i].state == TransferFileState::Completed
        &&& next.recent[0].files[i].destination_path == record.files[i].destination_path
        &&& records::follows_reading(
            record.files[i],
            progress,
            next.recent[0].files[i].completed_bytes,
        )
    } by {
        assert(records::is_same_file(record.files[i], done.files[i]));
        assert(next.recent[0].files[i].completed_bytes == done.files[i].completed_bytes);
    }
}

/// A session that ends while files are being stored waits for them: how it ended is remembered, and
/// nothing else happens.
pub proof fn lemma_session_end_waits(
    c: state::ControllerView,
    session_id: Seq<char>,
    reason: IncomingEnd,
    progress: Seq<transfer::ProgressView>,
    now: int,
)
    requires
        c.incoming is None || c.incoming->0.in_flight != Set::<Seq<char>>::empty()
            || c.incoming->0.record.id != session_id,
    ensures
        ({
            let (next, effects) = state::server_step(
                c,
                events::ServerEventView::SessionEnd { session_id, reason },
                progress,
                now,
            );
            &&& effects.len() == 0
            &&& c.incoming is None || c.incoming->0.record.id != session_id ==> next == c
            &&& c.incoming is Some && c.incoming->0.record.id == session_id ==> next == (state::ControllerView {
                incoming: Some(state::IncomingView { end: Some(reason), ..c.incoming->0 }),
                ..c
            })
        }),
{
}

/// The last file that a transfer waited for ends it. What is recorded goes by how the session ended
/// and by all its files, this one among them.
pub proof fn lemma_last_file_ends_the_transfer(
    c: state::ControllerView,
    transfer_id: Seq<char>,
    file_id: Seq<char>,
    stored: bool,
    sent: Seq<transfer::ProgressView>,
    received: Seq<transfer::ProgressView>,
    now: int,
    k: int,
)
    requires
        c.incoming is Some,
        c.incoming->0.record.id == transfer_id,
        is_first_file(c.incoming->0.record.files, file_id, k),
        c.incoming->0.end is Some,
        c.incoming->0.in_flight.remove(file_id) == Set::<Seq<char>>::empty(),
    ensures
        ({
            let (next, effects) = state::internal_step(
                c,
                events::InternalEventView::IncomingFileResult { transfer_id, file_id, stored },
                sent,
                received,
                now,
            );
            let record = c.incoming->0.record;
            let kept = next.recent[0];
            &&& next == (state::ControllerView { incoming: None, recent: next.recent, ..c })
            &&& next.recent.len() > 0
            &&& records::is_same_transfer(record, kept)
            &&& c.incoming->0.end->0 == IncomingEnd::Cancelled ==> kept.state
                == TransferState::Cancelled
            &&& c.incoming->0.end->0 == IncomingEnd::Finished ==> {
                &&& kept.state == TransferState::Completed || kept.state == TransferState::Failed
                &&& kept.state == TransferState::Completed <==> stored && forall|i: int|
                    0 <= i < record.files.len() && i != k ==> (#[trigger] record.files[i]).state
                        != TransferFileState::Failed
                &&& kept.state == TransferState::Failed ==> kept.error is Some
            }
            &&& k < kept.files.len() ==> kept.files[k].state == (if stored {
                TransferFileState::Completed
            } else {
                TransferFileState::Failed
            })
            &&& forall|i: int|
                #![trigger record.files[i]]
                0 <= i < kept.files.len() && i != k ==> {
                    &&& record.files[i].state == TransferFileState::Completed
                        ==> kept.files[i].state == TransferFileState::Completed
                    &&& records::follows_reading(
                        record.files[i],
                        received,
                        kept.files[i].completed_bytes,
                    )
                }
            &&& forall|path: Seq<char>| #[trigger]
                effects.contains(events::EffectView::RemoveFile { path }) ==> {
                    ||| !stored && record.files[k].destination_path == Some(path)
                    ||| c.incoming->0.end->0 == IncomingEnd::Cancelled && exists|i: int|
                        0 <= i < record.files.len() && i != k && ((#[trigger] record.files[i]).state
                            == TransferFileState::Queued || record.files[i].state
                            == TransferFileState::Transferring)
                            && record.files[i].destination_path == Some(path)
                }
            &&& !stored && record.files[k].destination_path is Some ==> effects.contains(
                events::EffectView::RemoveFile { path: record.files[k].destination_path->0 },
            )
            &&& forall|i: int|
                c.incoming->0.end->0 == IncomingEnd::Cancelled && 0 <= i < record.files.len() && i
                    != k && ((#[trigger] record.files[i]).state == TransferFileState::Queued
                    || record.files[i].state == TransferFileState::Transferring)
                    && record.files[i].destination_path is Some ==> effects.contains(
                    events::EffectView::RemoveFile { path: record.files[i].destination_path->0 },
                )
        }),
{
    let record = c.incoming->0.record;
    let end = c.incoming->0.end->0;
    let at = clock::timestamp_text(now);
    lemma_file_place(record.files, file_id, 0);
    let (next, effects) = state::internal_step(
        c,
        events::InternalEventView::IncomingFileResult { transfer_id, file_id, stored },
        sent,
        received,
        now,
    );
    let file = state::stored_file(record.files[k], stored);
    let changed = rpc::TransferView {
        files: record.files.update(k, file),
        updated_at: at,
        ..record
    };
    let done = transfer::received(changed, received, end, at);
    let removal = state::failed_removal(record.files[k], stored);
    let rest = events::removals(
        transfer::leftover_paths(transfer::synced_files(changed.files, received), end),
    );
    assert(effects == removal + rest);
    records::lemma_kept_record_is_the_record(done);
    assert(next.recent[0] == transfer::kept_record(done));
    records::lemma_cancelled_reception_keeps_what_arrived(changed, received, at);
    records::lemma_one_failed_file_fails_the_reception(changed, received, at);
    assert(done.files[k].state == file.state);
    if end == IncomingEnd::Finished {
        if done.state == TransferState::Completed {
            assert forall|i: int| 0 <= i < record.files.len() && i != k implies (
            #[trigger] record.files[i]).state != TransferFileState::Failed by {
                assert(done.files[i].state != TransferFileState::Failed);
            }
        } else {
            let i = choose|i: int|
                0 <= i < done.files.len() && (#[trigger] done.files[i]).state
                    == TransferFileState::Failed;
            assert(changed.files[i].state == TransferFileState::Failed);
            if i != k {
                assert(record.files[i].state == TransferFileState::Failed);
            }
        }
    }
    assert forall|path: Seq<char>| #[trigger]
        effects.contains(events::EffectView::RemoveFile { path }) implies {
        ||| !stored && record.files[k].destination_path == Some(path)
        ||| end == IncomingEnd::Cancelled && exists|i: int|
            0 <= i < record.files.len() && i != k && ((#[trigger] record.files[i]).state
                == TransferFileState::Queued || record.files[i].state
                == TransferFileState::Transferring) && record.files[i].destination_path == Some(
                path,
            )
    } by {
        lemma_removals(changed, received, end, path);
        let e = events::EffectView::RemoveFile { path };
        let i = choose|i: int| 0 <= i < effects.len() && effects[i] == e;
        if i >= removal.len() {
            assert(rest[i - removal.len()] == e);
            assert(rest.contains(e));
            let m = choose|m: int|
                0 <= m < changed.files.len() && ((#[trigger] changed.files[m]).state
                    == TransferFileState::Queued || changed.files[m].state
                    == TransferFileState::Transferring) && changed.files[m].destination_path
                    == Some(path);
            assert(m != k);
            assert(record.files[m] == changed.files[m]);
        }
    }
    if !stored && record.files[k].destination_path is Some {
        assert(effects[0] == removal[0]);
    }
    assert forall|i: int|
        #![trigger record.files[i]]
        0 <= i < next.recent[0].files.len() && i != k implies {
        &&& record.files[i].state == TransferFileState::Completed
            ==> next.recent[0].files[i].state == TransferFileState::Completed
        &&& records::follows_reading(
            record.files[i],
            received,
            next.recent[0].files[i].completed_bytes,
        )
    } by {
        assert(changed.files[i] == record.files[i]);
        assert(records::is_same_file(changed.files[i], done.files[i]));
        assert(next.recent[0].files[i].completed_bytes == done.files[i].completed_bytes);
    }
    assert forall|i: int|
        end == IncomingEnd::Cancelled && 0 <= i < record.files.len() && i != k && ((
        #[trigger] record.files[i]).state == TransferFileState::Queued || record.files[i].state
            == TransferFileState::Transferring) && record.files[i].destination_path
            is Some implies effects.contains(
        events::EffectView::RemoveFile { path: record.files[i].destination_path->0 },
    ) by {
        let path = record.files[i].destination_path->0;
        let e = events::EffectView::RemoveFile { path };
        lemma_removals(changed, received, end, path);
        assert(changed.files[i] == record.files[i]);
        assert(is_left_over(changed.files, path));
        let m = choose|m: int| 0 <= m < rest.len() && rest[m] == e;
        assert(effects[removal.len() + m] == e);
    }
}

/// When the receiver has said what it takes, the transfer is under way, or is being cancelled if the
/// receiver had cancelled that very session before. The files that it takes stay as they were, and
/// all others are declined; nothing else about a file changes.
pub proof fn lemma_prepared_declines_the_rest(
    c: state::ControllerView,
    transfer_id: Seq<char>,
    session_id: Seq<char>,
    accepted: Seq<Seq<char>>,
    sent: Seq<transfer::ProgressView>,
    received: Seq<transfer::ProgressView>,
    now: int,
)
    ensures
        ({
            let (next, effects) = state::internal_step(
                c,
                events::InternalEventView::OutgoingPrepared { transfer_id, session_id, accepted },
                sent,
                received,
                now,
            );
            let is_known = c.outgoing is Some && c.outgoing->0.record.id == transfer_id;
            let was_cancelled = c.early_remote_cancel == Some((c.outgoing->0.host, session_id));
            let before = c.outgoing->0.record;
            let after = next.outgoing->0.record;
            &&& !is_known ==> next == c && effects.len() == 0
            &&& is_known ==> {
                &&& next == (state::ControllerView {
                    outgoing: next.outgoing,
                    early_remote_cancel: None,
                    ..c
                })
                &&& next.outgoing is Some
                &&& next.outgoing->0.host == c.outgoing->0.host
                &&& next.outgoing->0.remote_session_id == Some(session_id)
                &&& after == (rpc::TransferView {
                    state: after.state,
                    files: after.files,
                    started_at: Some(clock::timestamp_text(now)),
                    updated_at: clock::timestamp_text(now),
                    ..before
                })
                &&& was_cancelled ==> after.state == TransferState::Cancelling && effects == seq![
                    events::EffectView::CancelOutgoing,
                ]
                &&& !was_cancelled ==> after.state == TransferState::Transferring && effects.len()
                    == 0
                &&& after.files.len() == before.files.len()
                &&& forall|i: int|
                    #![trigger after.files[i]]
                    0 <= i < before.files.len() ==> {
                        let taken = exists|j: int|
                            0 <= j < accepted.len() && #[trigger] accepted[j] == before.files[i].id;
                        &&& taken ==> after.files[i] == before.files[i]
                        &&& !taken ==> {
                            &&& records::is_same_file(before.files[i], after.files[i])
                            &&& after.files[i].state == TransferFileState::Declined
                            &&& after.files[i].completed_bytes == before.files[i].completed_bytes
                            &&& after.files[i].error == before.files[i].error
                        }
                    }
            }
        }),
{
    let (next, effects) = state::internal_step(
        c,
        events::InternalEventView::OutgoingPrepared { transfer_id, session_id, accepted },
        sent,
        received,
        now,
    );
    if c.outgoing is Some && c.outgoing->0.record.id == transfer_id {
        let before = c.outgoing->0.record;
        let after = next.outgoing->0.record;
        assert forall|i: int| #![trigger after.files[i]] 0 <= i < before.files.len() implies (
        accepted.contains(before.files[i].id) <==> exists|j: int|
            0 <= j < accepted.len() && #[trigger] accepted[j] == before.files[i].id) by {}
    }
}

/// What is reported of a file that is being sent changes that file and no other: one that starts is
/// under way, one that is done is completed in full, and one that failed has the error that was
/// reported. A report about another transfer changes nothing.
pub proof fn lemma_file_report_changes_one_file(
    c: state::ControllerView,
    event: events::InternalEventView,
    transfer_id: Seq<char>,
    file_id: Seq<char>,
    sent: Seq<transfer::ProgressView>,
    received: Seq<transfer::ProgressView>,
    now: int,
)
    requires
        ({
            ||| event == (events::InternalEventView::OutgoingFileStarted { transfer_id, file_id })
            ||| event == (events::InternalEventView::OutgoingFileCompleted {
                transfer_id,
                file_id,
            })
            ||| event is OutgoingFileFailed && event->OutgoingFileFailed_transfer_id == transfer_id
                && event->OutgoingFileFailed_file_id == file_id
        }),
    ensures
        ({
            let (next, effects) = state::internal_step(c, event, sent, received, now);
            let is_known = c.outgoing is Some && c.outgoing->0.record.id == transfer_id;
            let before = c.outgoing->0.record;
            let after = next.outgoing->0.record;
            &&& effects.len() == 0
            &&& !is_known ==> next == c
            &&& is_known ==> {
                &&& next == (state::ControllerView { outgoing: next.outgoing, ..c })
                &&& next.outgoing is Some
                &&& next.outgoing->0.host == c.outgoing->0.host
                &&& next.outgoing->0.remote_session_id == c.outgoing->0.remote_session_id
                &&& after == (rpc::TransferView {
                    files: after.files,
                    updated_at: clock::timestamp_text(now),
                    ..before
                })
                &&& (forall|k: int| !#[trigger] is_first_file(before.files, file_id, k))
                    ==> after.files == before.files
                &&& forall|k: int| #[trigger]
                    is_first_file(before.files, file_id, k) ==> {
                        let file = after.files[k];
                        &&& differs_only_at(before.files, after.files, k)
                        &&& records::is_same_file(before.files[k], file)
                        &&& event is OutgoingFileStarted ==> file.state
                            == TransferFileState::Transferring && file.error is None
                            && file.completed_bytes == before.files[k].completed_bytes
                        &&& event is OutgoingFileCompleted ==> file.state
                            == TransferFileState::Completed && file.completed_bytes == file.size
                            && file.error == before.files[k].error
                        &&& event is OutgoingFileFailed ==> file.state == TransferFileState::Failed
                            && file.error == Some(event->OutgoingFileFailed_reason)
                            && file.completed_bytes == before.files[k].completed_bytes
                    }
            }
        }),
{
    if c.outgoing is Some {
        let files = c.outgoing->0.record.files;
        lemma_file_place(files, file_id, 0);
        let place = transfer::file_place(files, file_id, 0);
        if place < files.len() {
            assert(is_first_file(files, file_id, place));
        }
    }
}

/// The end of an outgoing transfer is recorded as it is reported, once: the transfer is over, the
/// state and the error are the reported ones, and every other thing stays as it is.
pub proof fn lemma_outgoing_end_is_recorded(
    c: state::ControllerView,
    transfer_id: Seq<char>,
    end: TransferState,
    error: Option<rpc::ApiErrorView>,
    sent: Seq<transfer::ProgressView>,
    received: Seq<transfer::ProgressView>,
    now: int,
)
    ensures
        ({
            let (next, effects) = state::internal_step(
                c,
                events::InternalEventView::OutgoingFinished { transfer_id, state: end, error },
                sent,
                received,
                now,
            );
            let is_known = c.outgoing is Some && c.outgoing->0.record.id == transfer_id;
            let kept = next.recent[0];
            &&& effects.len() == 0
            &&& !is_known ==> next == c
            &&& is_known ==> {
                &&& next == (state::ControllerView {
                    outgoing: None,
                    early_remote_cancel: None,
                    recent: next.recent,
                    ..c
                })
                &&& next.recent.len() > 0
                &&& records::is_same_transfer(c.outgoing->0.record, kept)
                &&& kept.state == end
                &&& kept.error == error
                &&& kept.finished_at == Some(clock::timestamp_text(now))
                &&& forall|i: int|
                    #![trigger kept.files[i]]
                    0 <= i < kept.files.len() ==> {
                        let file = c.outgoing->0.record.files[i];
                        &&& kept.files[i].id == file.id
                        &&& kept.files[i].name == file.name
                        &&& kept.files[i].size == file.size
                        &&& end == TransferState::Completed && file.state
                            != TransferFileState::Declined ==> kept.files[i].state
                            == TransferFileState::Completed && kept.files[i].completed_bytes
                            == file.size
                        &&& file.state == TransferFileState::Completed && (end
                            == TransferState::Failed || end == TransferState::Cancelled)
                            ==> kept.files[i].state == TransferFileState::Completed
                        &&& file.state == TransferFileState::Declined ==> kept.files[i].state
                            == TransferFileState::Declined
                        &&& end == TransferState::Failed || end == TransferState::Cancelled
                            ==> records::follows_reading(
                            file,
                            sent,
                            kept.files[i].completed_bytes,
                        )
                    }
            }
        }),
{
    if c.outgoing is Some && c.outgoing->0.record.id == transfer_id {
        let done = transfer::settled(
            c.outgoing->0.record,
            sent,
            end,
            error,
            clock::timestamp_text(now),
        );
        records::lemma_kept_record_is_the_record(done);
        if rpc::is_terminal(end) {
            records::lemma_end_settles_each_file(
                c.outgoing->0.record,
                sent,
                end,
                error,
                clock::timestamp_text(now),
            );
            let kept = transfer::kept_record(done);
            assert forall|i: int|
                #![trigger kept.files[i]]
                0 <= i < kept.files.len() && (end == TransferState::Failed || end
                    == TransferState::Cancelled) implies records::follows_reading(
                c.outgoing->0.record.files[i],
                sent,
                kept.files[i].completed_bytes,
            ) by {
                assert(done.files[i].completed_bytes == kept.files[i].completed_bytes);
            }
        }
    }
}

/// A peer can cancel an outgoing transfer only from where the transfer goes. One that names the
/// session cancels it; one that comes before any session is known is remembered; any other changes
/// nothing.
pub proof fn lemma_peer_cancels_its_own_session(
    c: state::ControllerView,
    host: Seq<char>,
    session_id: Seq<char>,
    progress: Seq<transfer::ProgressView>,
    now: int,
)
    ensures
        ({
            let (next, effects) = state::server_step(
                c,
                events::ServerEventView::CancelReceived { host, session_id },
                progress,
                now,
            );
            let is_from_there = c.outgoing is Some && c.outgoing->0.host == host;
            let before = c.outgoing->0.record;
            let after = next.outgoing->0.record;
            &&& effects.contains(events::EffectView::CancelOutgoing) <==> is_from_there
                && c.outgoing->0.remote_session_id == Some(session_id)
            &&& effects.contains(events::EffectView::CancelOutgoing) ==> {
                &&& effects.len() == 1
                &&& next == (state::ControllerView { outgoing: next.outgoing, ..c })
                &&& next.outgoing is Some
                &&& after.state == TransferState::Cancelling
                &&& after == (rpc::TransferView {
                    state: after.state,
                    updated_at: after.updated_at,
                    ..before
                })
                &&& next.outgoing->0.host == c.outgoing->0.host
                &&& next.outgoing->0.remote_session_id == c.outgoing->0.remote_session_id
            }
            &&& !effects.contains(events::EffectView::CancelOutgoing) ==> {
                &&& effects.len() == 0
                &&& next == (state::ControllerView {
                    early_remote_cancel: next.early_remote_cancel,
                    ..c
                })
                &&& is_from_there && c.outgoing->0.remote_session_id is None
                    ==> next.early_remote_cancel == Some((host, session_id))
                &&& !(is_from_there && c.outgoing->0.remote_session_id is None)
                    ==> next.early_remote_cancel == c.early_remote_cancel
            }
        }),
{
    let effects = state::server_step(
        c,
        events::ServerEventView::CancelReceived { host, session_id },
        progress,
        now,
    ).1;
    if effects.len() > 0 {
        assert(effects[0] == events::EffectView::CancelOutgoing);
    }
}

/// True of the record of a request that ended in a state without that anything was transferred.
pub open spec fn is_closed_from(
    record: rpc::TransferView,
    request: rpc::RequestView,
    end: TransferState,
    now: int,
) -> bool {
    &&& record.id == request.id
    &&& record.state == end
    &&& record.peer == request.sender
    &&& record.total_bytes == request.total_bytes
    &&& record.file_count == request.files.len()
    &&& record.created_at == request.received_at
    &&& record.finished_at == Some(clock::timestamp_text(now))
    &&& record.updated_at == clock::timestamp_text(now)
    &&& record.started_at == (if end == TransferState::Completed {
        Some(clock::timestamp_text(now))
    } else {
        None
    })
    &&& record.direction == TransferDirection::Incoming
    &&& record.error is None
    &&& forall|i: int|
        #![trigger record.files[i]]
        0 <= i < record.files.len() ==> {
            &&& record.files[i].id == request.files[i].id
            &&& record.files[i].name == request.files[i].name
            &&& record.files[i].size == request.files[i].size
            &&& record.files[i].error is None
            &&& end == TransferState::Declined ==> record.files[i].state
                == TransferFileState::Declined && record.files[i].completed_bytes == 0
            &&& end == TransferState::Cancelled ==> record.files[i].state
                == TransferFileState::Cancelled && record.files[i].completed_bytes == 0
            &&& end == TransferState::Completed ==> record.files[i].state
                == TransferFileState::Completed && record.files[i].completed_bytes
                == record.files[i].size
        }
}

/// A sender that withdraws the offer that waits leaves a cancelled transfer behind, and the caller
/// hears that the offer is gone. Any other withdrawal changes nothing.
pub proof fn lemma_withdrawn_offer_is_cancelled(
    c: state::ControllerView,
    session_id: Seq<char>,
    progress: Seq<transfer::ProgressView>,
    now: int,
)
    ensures
        ({
            let (next, effects) = state::server_step(
                c,
                events::ServerEventView::PrepareUploadAborted { session_id },
                progress,
                now,
            );
            let is_waiting = c.pending is Some && c.pending->0.snapshot.id == session_id;
            &&& !is_waiting ==> next == c && effects.len() == 0
            &&& is_waiting ==> {
                &&& next == (state::ControllerView { pending: None, recent: next.recent, ..c })
                &&& effects == seq![events::EffectView::DropOffer]
                &&& next.recent.len() > 0
                &&& is_closed_from(
                    next.recent[0],
                    c.pending->0.snapshot,
                    TransferState::Cancelled,
                    now,
                )
            }
        }),
{
}

/// An offer that is declined, or whose text was copied, waits no longer, whether or not the sender
/// could be told. If it was told, a record of it is kept and returned; if it was not, the request is
/// a stale one and nothing is recorded.
pub proof fn lemma_decision_is_recorded(c: state::ControllerView, delivered: bool, now: int)
    ensures
        ({
            let (declined, decline) = state::declined_step(c, delivered, now);
            let (copied, copy) = state::copied_step(c, delivered, now);
            let request = c.pending->0.snapshot;
            let is_told = c.pending is Some && delivered;
            &&& declined == (state::ControllerView { pending: None, recent: declined.recent, ..c })
            &&& copied == (state::ControllerView { pending: None, recent: copied.recent, ..c })
            &&& decline is Ok <==> is_told
            &&& copy is Ok <==> is_told
            &&& !is_told ==> {
                &&& declined.recent == c.recent
                &&& copied.recent == c.recent
                &&& decline->Err_0.code == "stale_request"@
                &&& copy->Err_0.code == "stale_request"@
            }
            &&& is_told ==> {
                &&& is_closed_from(decline->Ok_0, request, TransferState::Declined, now)
                &&& is_closed_from(copy->Ok_0, request, TransferState::Completed, now)
                &&& decline->Ok_0.files.len() == request.files.len()
                &&& copy->Ok_0.files.len() == request.files.len()
                &&& decline->Ok_0.completed_bytes == 0
                &&& copy->Ok_0.completed_bytes == request.total_bytes
                &&& declined.recent.len() > 0 && is_closed_from(
                    declined.recent[0],
                    request,
                    TransferState::Declined,
                    now,
                )
                &&& copied.recent.len() > 0 && is_closed_from(
                    copied.recent[0],
                    request,
                    TransferState::Completed,
                    now,
                )
            }
        }),
{
}

/// True if the path of the first place that was reserved for a file is the given one, or if there
/// is none to speak of.
pub open spec fn is_reserved_for(
    reserved: Seq<events::ReservedView>,
    id: Seq<char>,
    path: Option<Seq<char>>,
) -> bool {
    match path {
        Some(path) => exists|j: int|
            0 <= j < reserved.len() && (#[trigger] reserved[j]).id == id && valid_utf8(
                reserved[j].path,
            ) && path == decode_utf8(reserved[j].path) && forall|m: int|
                0 <= m < j ==> (#[trigger] reserved[m]).id != id,
        None => forall|j: int|
            0 <= j < reserved.len() && (#[trigger] reserved[j]).id == id && (forall|m: int|
                0 <= m < j ==> (#[trigger] reserved[m]).id != id) ==> !valid_utf8(
                reserved[j].path,
            ),
    }
}

proof fn lemma_reserved_path(reserved: Seq<events::ReservedView>, id: Seq<char>, i: int)
    requires
        0 <= i <= reserved.len(),
        forall|j: int| 0 <= j < i ==> (#[trigger] reserved[j]).id != id,
    ensures
        is_reserved_for(reserved, id, state::reserved_path(reserved, id, i)),
    decreases reserved.len() - i,
{
    if i < reserved.len() {
        if reserved[i].id != id {
            lemma_reserved_path(reserved, id, i + 1);
        }
    }
}

/// An offer whose files are accepted becomes the incoming transfer, if the sender could be told: all
/// its files are queued, each at the place that was reserved for it, nothing is stored yet, and the
/// sender is the one that made the offer. If the sender was gone, there is no transfer.
pub proof fn lemma_accepted_offer_is_received(
    c: state::ControllerView,
    reserved: Seq<events::ReservedView>,
    delivered: bool,
    now: int,
)
    ensures
        ({
            let (next, answer) = state::accepted_step(c, reserved, delivered, now);
            let request = c.pending->0.snapshot;
            let record = answer->Ok_0;
            let is_told = c.pending is Some && delivered;
            &&& answer is Ok <==> is_told
            &&& !is_told ==> next == (state::ControllerView { pending: None, ..c })
                && answer->Err_0.code == "stale_request"@
            &&& is_told ==> {
                &&& next == (state::ControllerView {
                    pending: None,
                    incoming: next.incoming,
                    ..c
                })
                &&& next.incoming is Some
                &&& next.incoming->0.record == record
                &&& next.incoming->0.sender == c.pending->0.sender
                &&& next.incoming->0.end is None
                &&& forall|id: Seq<char>| !#[trigger] next.incoming->0.in_flight.contains(id)
                &&& record.id == request.id
                &&& record.state == TransferState::Transferring
                &&& record.peer == request.sender
                &&& record.total_bytes == request.total_bytes
                &&& record.completed_bytes == 0
                &&& record.started_at == Some(clock::timestamp_text(now))
                &&& record.finished_at is None
                &&& record.updated_at == clock::timestamp_text(now)
                &&& record.created_at == request.received_at
                &&& record.direction == TransferDirection::Incoming
                &&& record.error is None
                &&& record.file_count == request.files.len()
                &&& record.files.len() == request.files.len()
                &&& forall|i: int|
                    #![trigger record.files[i]]
                    0 <= i < record.files.len() ==> {
                        &&& record.files[i].id == request.files[i].id
                        &&& record.files[i].name == request.files[i].name
                        &&& record.files[i].size == request.files[i].size
                        &&& record.files[i].mime_type == request.files[i].mime_type
                        &&& record.files[i].state == TransferFileState::Queued
                        &&& record.files[i].completed_bytes == 0
                        &&& record.files[i].error is None
                        &&& is_reserved_for(
                            reserved,
                            record.files[i].id,
                            record.files[i].destination_path,
                        )
                    }
            }
        }),
{
    let (next, answer) = state::accepted_step(c, reserved, delivered, now);
    if c.pending is Some && delivered {
        let record = answer->Ok_0;
        assert forall|i: int| #![trigger record.files[i]] 0 <= i
            < record.files.len() implies is_reserved_for(
            reserved,
            record.files[i].id,
            record.files[i].destination_path,
        ) by {
            lemma_reserved_path(reserved, record.files[i].id, 0);
        }
    }
}

/// Only a transfer that is under way can be stopped. An outgoing one is told to stop and stays until
/// it has. An incoming one is over at once unless something is being stored: it is recorded as
/// cancelled, what has arrived is kept, and exactly what was stored of files that were queued or
/// under way is removed.
pub proof fn lemma_stopped_transfer(
    c: state::ControllerView,
    transfer_id: Seq<char>,
    received: Seq<transfer::ProgressView>,
    now: int,
)
    ensures
        ({
            let stopped = state::cancel_step(c, transfer_id, received, now);
            let next = stopped->Ok_0.0;
            let answer = stopped->Ok_0.1;
            let is_out = c.outgoing is Some && c.outgoing->0.record.id == transfer_id;
            let is_in = c.incoming is Some && c.incoming->0.record.id == transfer_id;
            let is_idle = c.incoming->0.in_flight == Set::<Seq<char>>::empty();
            &&& stopped is Ok <==> ids::is_uuid(transfer_id) && (is_out || is_in)
            &&& stopped is Err ==> stopped->Err_0.code == (if ids::is_uuid(transfer_id) {
                "stale_transfer"@
            } else {
                "invalid_id"@
            })
            &&& stopped is Ok && is_out ==> {
                &&& next == (state::ControllerView { outgoing: next.outgoing, ..c })
                &&& next.outgoing is Some
                &&& next.outgoing->0.host == c.outgoing->0.host
                &&& next.outgoing->0.remote_session_id == c.outgoing->0.remote_session_id
                &&& next.outgoing->0.record == (rpc::TransferView {
                    state: TransferState::Cancelling,
                    updated_at: clock::timestamp_text(now),
                    ..c.outgoing->0.record
                })
                &&& answer == (events::CancellationView::Outgoing {
                    transfer: next.outgoing->0.record,
                })
            }
            &&& stopped is Ok && !is_out ==> {
                let record = c.incoming->0.record;
                let removed = answer->removed;
                &&& answer is Incoming
                &&& answer->Incoming_sender == c.incoming->0.sender
                &&& answer->Incoming_transfer == (rpc::TransferView {
                    state: TransferState::Cancelling,
                    updated_at: clock::timestamp_text(now),
                    ..record
                })
                &&& !is_idle ==> {
                    &&& removed.len() == 0
                    &&& next == (state::ControllerView { incoming: next.incoming, ..c })
                    &&& next.incoming is Some
                    &&& next.incoming->0.end == Some(IncomingEnd::Cancelled)
                    &&& next.incoming->0.record == answer->Incoming_transfer
                    &&& next.incoming->0.sender == c.incoming->0.sender
                    &&& next.incoming->0.in_flight == c.incoming->0.in_flight
                }
                &&& is_idle ==> {
                    &&& next == (state::ControllerView {
                        incoming: None,
                        recent: next.recent,
                        ..c
                    })
                    &&& next.recent.len() > 0
                    &&& records::is_same_transfer(record, next.recent[0])
                    &&& next.recent[0].state == TransferState::Cancelled
                    &&& forall|path: Seq<char>| #[trigger]
                        removed.contains(events::EffectView::RemoveFile { path })
                            <==> is_left_over(record.files, path)
                    &&& forall|i: int|
                        #![trigger record.files[i]]
                        0 <= i < next.recent[0].files.len() ==> {
                            &&& record.files[i].state == TransferFileState::Completed
                                ==> next.recent[0].files[i].state == TransferFileState::Completed
                            &&& records::follows_reading(
                                record.files[i],
                                received,
                                next.recent[0].files[i].completed_bytes,
                            )
                        }
                }
            }
        }),
{
    let stopped = state::cancel_step(c, transfer_id, received, now);
    let is_out = c.outgoing is Some && c.outgoing->0.record.id == transfer_id;
    if stopped is Ok && !is_out {
        let at = clock::timestamp_text(now);
        let record = c.incoming->0.record;
        let told = state::cancelling(record, now);
        let done = transfer::received(told, received, IncomingEnd::Cancelled, at);
        let next = stopped->Ok_0.0;
        let removed = stopped->Ok_0.1->removed;
        if c.incoming->0.in_flight == Set::<Seq<char>>::empty() {
            records::lemma_cancelled_reception_keeps_what_arrived(told, received, at);
            records::lemma_kept_record_is_the_record(done);
            assert(next.recent[0] == transfer::kept_record(done));
            assert forall|path: Seq<char>| #[trigger]
                removed.contains(events::EffectView::RemoveFile { path }) <==> is_left_over(
                    record.files,
                    path,
                ) by {
                lemma_removals(told, received, IncomingEnd::Cancelled, path);
            }
            assert forall|i: int| #![trigger record.files[i]] 0 <= i
                < next.recent[0].files.len() implies {
                &&& record.files[i].state == TransferFileState::Completed
                    ==> next.recent[0].files[i].state == TransferFileState::Completed
                &&& records::follows_reading(
                    record.files[i],
                    received,
                    next.recent[0].files[i].completed_bytes,
                )
            } by {
                assert(records::is_same_file(told.files[i], done.files[i]));
                assert(next.recent[0].files[i].completed_bytes == done.files[i].completed_bytes);
            }
        }
    }
}

/// Only the end of the refresh that is under way ends it. One that did not complete shows an error;
/// one that did takes back the error of an earlier refresh, and no other error.
pub proof fn lemma_refresh_end(
    c: state::ControllerView,
    id: Seq<char>,
    completed: bool,
    sent: Seq<transfer::ProgressView>,
    received: Seq<transfer::ProgressView>,
    now: int,
)
    ensures
        ({
            let (next, effects) = state::internal_step(
                c,
                events::InternalEventView::RefreshFinished { id, completed },
                sent,
                received,
                now,
            );
            let is_current = c.refresh_id is Some && c.refresh_id->0 == id;
            &&& effects.len() == 0
            &&& !is_current ==> next == c
            &&& is_current ==> next == (state::ControllerView {
                refresh_id: None,
                error: next.error,
                ..c
            })
            &&& is_current && !completed ==> next.error is Some && next.error->0.code
                == "refresh_failed"@ && next.error->0.at == clock::timestamp_text(now)
            &&& is_current && completed && c.error is Some && c.error->0.code == "refresh_failed"@
                ==> next.error is None
            &&& is_current && completed && !(c.error is Some && c.error->0.code
                == "refresh_failed"@) ==> next.error == c.error
        }),
{
}

/// A snapshot shows the state as it is: who the controller is, the offer that waits, the transfers
/// that are under way in front of the finished ones, and the last error.
pub proof fn lemma_snapshot_shows_the_state(
    c: state::ControllerView,
    world: state::WorldView,
    id: Seq<char>,
    file_id: Seq<char>,
    now: int,
)
    ensures
        ({
            let (next, action) = state::rpc_step(
                c,
                RpcRequest::Snapshot {  },
                world,
                id,
                file_id,
                now,
            );
            let shown = action->snapshot;
            let coming = if next.incoming is Some {
                1int
            } else {
                0int
            };
            let going = if next.outgoing is Some {
                1int
            } else {
                0int
            };
            &&& action is Show
            &&& next == (state::ControllerView {
                incoming: next.incoming,
                outgoing: next.outgoing,
                ..c
            })
            &&& next.incoming is Some <==> c.incoming is Some
            &&& next.outgoing is Some <==> c.outgoing is Some
            &&& shown.daemon.status == c.status
            &&& shown.daemon.alias == c.identity.alias
            &&& shown.daemon.fingerprint == c.identity.fingerprint
            &&& shown.daemon.port == c.identity.port
            &&& shown.daemon.destination == c.destination
            &&& shown.daemon.socket == c.socket
            &&& shown.daemon.started_at == c.started_at
            &&& shown.daemon.pid == world.versions.pid
            &&& shown.daemon.protocol_version == world.versions.protocol_version
            &&& shown.daemon.controller_version == world.versions.controller_version
            &&& shown.daemon.refreshing <==> c.refresh_id is Some
            &&& shown.error == c.error
            &&& shown.incoming is Some <==> c.pending is Some
            &&& c.pending is Some ==> shown.incoming->0 == c.pending->0.snapshot
            &&& shown.devices == devices::listed_devices(world.known, now)
            &&& shown.transfers.len() == coming + going + c.recent.len()
            &&& next.incoming is Some ==> shown.transfers[0] == next.incoming->0.record
            &&& next.outgoing is Some ==> shown.transfers[coming] == next.outgoing->0.record
            &&& forall|i: int|
                0 <= i < c.recent.len() ==> shown.transfers[coming + going + i]
                    == #[trigger] c.recent[i]
        }),
{
}

/// A snapshot brings each transfer that is under way up to how far its own files are, and changes
/// nothing else about it.
pub proof fn lemma_snapshot_follows_progress(
    c: state::ControllerView,
    world: state::WorldView,
    id: Seq<char>,
    file_id: Seq<char>,
    now: int,
)
    requires
        state::is_sound(c),
    ensures
        ({
            let next = state::rpc_step(
                c,
                RpcRequest::Snapshot {  },
                world,
                id,
                file_id,
                now,
            ).0;
            &&& c.incoming is Some ==> {
                &&& next.incoming->0.sender == c.incoming->0.sender
                &&& next.incoming->0.in_flight == c.incoming->0.in_flight
                &&& next.incoming->0.end == c.incoming->0.end
                &&& follows_progress(
                    c.incoming->0.record,
                    world.received,
                    next.incoming->0.record,
                )
            }
            &&& c.outgoing is Some ==> {
                &&& next.outgoing->0.host == c.outgoing->0.host
                &&& next.outgoing->0.remote_session_id == c.outgoing->0.remote_session_id
                &&& follows_progress(c.outgoing->0.record, world.sent, next.outgoing->0.record)
            }
        }),
{
    let at = clock::timestamp_text(now);
    if c.incoming is Some {
        records::lemma_progress_is_followed(c.incoming->0.record, world.received, at);
    }
    if c.outgoing is Some {
        records::lemma_progress_is_followed(c.outgoing->0.record, world.sent, at);
    }
}

/// True of a record that differs from another only in how far its files are.
pub open spec fn follows_progress(
    before: rpc::TransferView,
    progress: Seq<transfer::ProgressView>,
    after: rpc::TransferView,
) -> bool {
    &&& records::is_same_transfer(before, after)
    &&& after.state == before.state
    &&& after.error == before.error
    &&& after.started_at == before.started_at
    &&& after.finished_at == before.finished_at
    &&& after.files.len() == before.files.len()
    &&& forall|i: int|
        #![trigger after.files[i]]
        0 <= i < before.files.len() ==> {
            &&& records::is_same_file(before.files[i], after.files[i])
            &&& after.files[i].state == before.files[i].state
            &&& after.files[i].error == before.files[i].error
            &&& records::follows_reading(
                before.files[i],
                progress,
                after.files[i].completed_bytes,
            )
        }
}

/// What is asked for is what is done. Requests that only ask leave the state alone; a refresh joins
/// the one that is under way, or starts one; a selection is collected for the device and from the
/// paths that were named, unless something is on its way out or being collected already.
pub proof fn lemma_requests_do_what_they_say(
    c: state::ControllerView,
    request: RpcRequest,
    world: state::WorldView,
    id: Seq<char>,
    file_id: Seq<char>,
    now: int,
)
    ensures
        ({
            let (next, action) = state::rpc_step(c, request, world, id, file_id, now);
            let is_busy = c.outgoing is Some || c.selecting;
            &&& request is Ping ==> next == c && action == (events::RpcActionView::Pong {
                status: c.status,
                alias: c.identity.alias,
            })
            &&& request is Shutdown ==> next == c && action is Stop
            &&& request is Refresh ==> {
                &&& action is Refresh
                &&& next == (state::ControllerView { refresh_id: next.refresh_id, ..c })
                &&& next.refresh_id == Some(action->Refresh_id)
                &&& c.refresh_id is Some ==> next.refresh_id == c.refresh_id && !action->started
                &&& c.refresh_id is None ==> next.refresh_id == Some(id) && action->started
            }
            &&& request is SendFiles && is_busy ==> next == c && action is Fail
                && action->error.code == "outgoing_busy"@
            &&& request is SendFiles && !is_busy ==> {
                &&& next == (state::ControllerView { selecting: true, ..c })
                &&& action is Collect
                &&& action->device == request->SendFiles_device@
                &&& action->paths.len() == request->paths@.len()
                &&& forall|i: int|
                    0 <= i < action->paths.len() ==> #[trigger] action->paths[i]
                        == request->paths@[i]@
            }
            &&& request is SendText && is_busy ==> next == c && action is Fail
                && action->error.code == "outgoing_busy"@
            &&& request is SendText ==> (next, action) == state::send_text_step(
                c,
                request->SendText_device@,
                request->text@,
                world,
                id,
                file_id,
                now,
            )
            &&& request is Decline ==> {
                let is_pending = c.pending is Some && c.pending->0.snapshot.id
                    == request->Decline_request@;
                &&& next == c
                &&& action is Decline <==> ids::is_uuid(request->Decline_request@) && is_pending
                &&& !(action is Decline) ==> action is Fail && action->error.code == (
                if ids::is_uuid(request->Decline_request@) {
                    "stale_request"@
                } else {
                    "invalid_id"@
                })
            }
            &&& request is Accept ==> {
                let plan = state::accept_plan(c, request->Accept_request@);
                &&& next == c
                &&& plan is Ok ==> action == (events::RpcActionView::Accept { plan: plan->Ok_0 })
                &&& plan is Err ==> action == (events::RpcActionView::Fail { error: plan->Err_0 })
            }
            &&& request is Cancel ==> {
                let stopped = state::cancel_step(
                    c,
                    request->transfer@,
                    world.received,
                    now,
                );
                &&& stopped is Ok ==> next == stopped->Ok_0.0 && action == (
                events::RpcActionView::Cancel { cancellation: stopped->Ok_0.1 })
                &&& stopped is Err ==> next == c && action == (events::RpcActionView::Fail {
                    error: stopped->Err_0,
                })
            }
        }),
{
}

/// A text that is sent goes out as a single file with the whole text as its preview and its content,
/// unless it is empty, too long, or the transfer cannot start; what stands in the way is answered,
/// and changes nothing.
pub proof fn lemma_text_is_sent_whole(
    c: state::ControllerView,
    device: Seq<char>,
    message: Seq<char>,
    world: state::WorldView,
    id: Seq<char>,
    file_id: Seq<char>,
    now: int,
)
    requires
        c.outgoing is None,
        !c.selecting,
    ensures
        ({
            let (next, action) = state::send_text_step(
                c,
                device,
                message,
                world,
                id,
                file_id,
                now,
            );
            let bytes = encode_utf8(message);
            &&& message.len() == 0 ==> action is Fail && action->error.code == "empty_text"@
            &&& bytes.len() > 524_288 && message.len() > 0 ==> action is Fail && action->error.code
                == "text_too_large"@
            &&& action is Fail ==> next == c
            &&& 1 <= message.len() && bytes.len() <= 524_288 && action is Fail ==> exists|
                items: Seq<files::ItemView>,
            |
                #[trigger] state::start_step(c, device, items, world.known, id, now) == Err::<
                    (state::ControllerView, events::LaunchView),
                    _,
                >(action->error) && items.len() == 1 && items[0].file.preview == Some(message)
            &&& action is Fail || action is Start
            &&& action is Start ==> {
                let item = action->items[0];
                &&& action->items.len() == 1
                &&& item.file.preview == Some(message)
                &&& item.source == files::SourceView::Bytes(bytes)
                &&& item.source_path is None
                &&& item.file.size == bytes.len()
                &&& item.file.id == file_id
                &&& item.file.file_name == file_id + seq!['.', 't', 'x', 't']
                &&& item.file.file_type == "text/plain"@
                &&& state::start_step(c, device, action->items, world.known, id, now)
                    == Ok::<_, rpc::ApiErrorView>((next, action->launch))
            }
        }),
{
    reveal_strlit(".txt");
    assert(".txt"@ =~= seq!['.', 't', 'x', 't']);
    if 1 <= message.len() && encode_utf8(message).len() <= 524_288 {
        let item = files::text_outcome(message, file_id)->Ok_0;
        let items = seq![item];
        assert(items[0] == item);
        assert(state::start_step(c, device, items, world.known, id, now) is Ok
            || state::start_step(c, device, items, world.known, id, now) is Err);
    }
}

/// A collected selection is sent to the device that was asked for, if the caller still waits. In any
/// case nothing is being collected any more, and whatever went wrong is answered and starts nothing.
pub proof fn lemma_selection_is_sent(
    c: state::ControllerView,
    fingerprint: Seq<char>,
    selection: Result<Seq<files::ItemView>, rpc::ApiErrorView>,
    caller_waits: bool,
    known: Seq<devices::KnownView>,
    id: Seq<char>,
    now: int,
)
    ensures
        ({
            let (next, answer) = state::selected_step(
                c,
                fingerprint,
                selection,
                caller_waits,
                known,
                id,
                now,
            );
            let idle = state::ControllerView { selecting: false, ..c };
            let started = state::start_step(idle, fingerprint, selection->Ok_0, known, id, now);
            &&& !next.selecting
            &&& answer is Some <==> caller_waits
            &&& !caller_waits ==> next == idle
            &&& caller_waits && selection is Err ==> next == idle && answer->0
                == Err::<events::LaunchView, _>(selection->Err_0)
            &&& caller_waits && selection is Ok && started is Err ==> next == idle && answer->0
                == Err::<events::LaunchView, _>(started->Err_0)
            &&& caller_waits && selection is Ok && started is Ok ==> next == started->Ok_0.0
                && answer->0 == Ok::<_, rpc::ApiErrorView>(started->Ok_0.1)
        }),
{
}

/// Receiving and discovery go on being reported when they fail: the error is shown, and a receiver
/// that has stopped shows in the status. A daemon that is told to stop keeps only what is finished.
pub proof fn lemma_failures_are_shown(
    c: state::ControllerView,
    error: Seq<char>,
    event: events::DiscoveryEvent,
    progress: Seq<transfer::ProgressView>,
    now: int,
)
    ensures
        ({
            let (failed, effects) = state::server_step(
                c,
                events::ServerEventView::ListenerFailed { error },
                progress,
                now,
            );
            let heard = state::discovery_step(c, event, now);
            let stopped = state::stopped(c);
            &&& effects == seq![events::EffectView::StopAnswering]
            &&& failed == (state::ControllerView {
                status: "error"@,
                error: failed.error,
                ..c
            })
            &&& failed.error is Some
            &&& failed.error->0.code == "receiver_stopped"@
            &&& failed.error->0.message == error
            &&& failed.error->0.at == clock::timestamp_text(now)
            &&& event == events::DiscoveryEvent::DeviceChanged ==> heard == c
            &&& event == events::DiscoveryEvent::MulticastFailed ==> heard == (
            state::ControllerView { error: heard.error, ..c }) && heard.error is Some
                && heard.error->0.code == "multicast_stopped"@ && heard.error->0.at
                == clock::timestamp_text(now)
            &&& stopped == (state::ControllerView {
                status: "shutting_down"@,
                pending: None,
                incoming: None,
                outgoing: None,
                ..c
            })
        }),
{
}

/// A daemon starts with nothing under way, nothing finished and no error, as the identity that it
/// was given.
pub proof fn lemma_daemon_starts_empty(
    own: identity::IdentityView,
    socket: Seq<char>,
    destination: Seq<char>,
    now: int,
)
    ensures
        ({
            let c = state::initial(own, socket, destination, now);
            &&& c.identity == own
            &&& c.socket == socket
            &&& c.destination == destination
            &&& c.started_at == clock::timestamp_text(now)
            &&& c.status == "running"@
            &&& c.error is None
            &&& c.pending is None
            &&& c.incoming is None
            &&& c.outgoing is None
            &&& !c.selecting
            &&& c.recent.len() == 0
            &&& c.refresh_id is None
            &&& c.early_remote_cancel is None
        }),
{
}

/// A report that a file was stored is heeded only for a file of the transfer that is coming in. For
/// another transfer it changes nothing, and for another file only that it is not being stored.
pub proof fn lemma_unknown_file_is_not_stored(
    c: state::ControllerView,
    transfer_id: Seq<char>,
    file_id: Seq<char>,
    stored: bool,
    sent: Seq<transfer::ProgressView>,
    received: Seq<transfer::ProgressView>,
    now: int,
)
    requires
        c.incoming is None || c.incoming->0.record.id != transfer_id || forall|k: int|
            !#[trigger] is_first_file(c.incoming->0.record.files, file_id, k),
    ensures
        ({
            let (next, effects) = state::internal_step(
                c,
                events::InternalEventView::IncomingFileResult { transfer_id, file_id, stored },
                sent,
                received,
                now,
            );
            let is_other = c.incoming is None || c.incoming->0.record.id != transfer_id;
            &&& effects.len() == 0
            &&& is_other ==> next == c
            &&& !is_other ==> next == (state::ControllerView {
                incoming: Some(
                    state::IncomingView {
                        in_flight: c.incoming->0.in_flight.remove(file_id),
                        ..c.incoming->0
                    },
                ),
                ..c
            })
        }),
{
    if c.incoming is Some && c.incoming->0.record.id == transfer_id {
        lemma_file_place(c.incoming->0.record.files, file_id, 0);
    }
}

} // verus!
