//! Laws of the record of a transfer, said file by file.
use crate::rpc;
use crate::rpc::{TransferDirection, TransferFileState, TransferState};
use crate::tally;
use crate::transfer;
use crate::transfer::IncomingEnd;
use vstd::prelude::*;

verus! {

/// True if the first reading for a file says how many bytes were written.
pub open spec fn is_reading(
    progress: Seq<transfer::ProgressView>,
    id: Seq<char>,
    written: u64,
) -> bool {
    exists|i: int|
        0 <= i < progress.len() && (#[trigger] progress[i]).id == id && progress[i].written
            == written && forall|j: int| 0 <= j < i ==> (#[trigger] progress[j]).id != id
}

/// True if there is no reading for a file.
pub open spec fn is_unread(progress: Seq<transfer::ProgressView>, id: Seq<char>) -> bool {
    forall|i: int| 0 <= i < progress.len() ==> (#[trigger] progress[i]).id != id
}

proof fn lemma_reading_from(progress: Seq<transfer::ProgressView>, id: Seq<char>, i: int)
    requires
        0 <= i <= progress.len(),
        forall|j: int| 0 <= j < i ==> (#[trigger] progress[j]).id != id,
    ensures
        match transfer::reading_from(progress, id, i) {
            Some(written) => is_reading(progress, id, written),
            None => is_unread(progress, id),
        },
    decreases progress.len() - i,
{
    if i < progress.len() && progress[i].id != id {
        lemma_reading_from(progress, id, i + 1);
    }
}

/// What a file has of its own, whatever happens to it.
pub open spec fn is_same_file(before: rpc::FileView, after: rpc::FileView) -> bool {
    &&& after.id == before.id
    &&& after.name == before.name
    &&& after.size == before.size
    &&& after.mime_type == before.mime_type
    &&& after.source_path == before.source_path
    &&& after.destination_path == before.destination_path
}

/// What a transfer has of its own, whatever happens to it.
pub open spec fn is_same_transfer(before: rpc::TransferView, after: rpc::TransferView) -> bool {
    &&& after.id == before.id
    &&& after.direction == before.direction
    &&& after.peer == before.peer
    &&& after.file_count == before.file_count
    &&& after.total_bytes == before.total_bytes
    &&& after.created_at == before.created_at
}

/// True if a file is as far as its reading says, but no further than its size; without a reading it
/// is as far as it was.
pub open spec fn follows_reading(
    before: rpc::FileView,
    progress: Seq<transfer::ProgressView>,
    completed: u64,
) -> bool {
    &&& is_unread(progress, before.id) ==> completed == before.completed_bytes
    &&& forall|written: u64| #[trigger]
        is_reading(progress, before.id, written) ==> completed == if written <= before.size {
            written
        } else {
            before.size
        }
}

proof fn lemma_follows_reading(file: rpc::FileView, progress: Seq<transfer::ProgressView>)
    ensures
        follows_reading(
            file,
            progress,
            transfer::synced_file(file, progress).completed_bytes,
        ),
{
    lemma_reading_from(progress, file.id, 0);
    assert forall|written: u64| #[trigger] is_reading(progress, file.id, written) implies
        transfer::reading(progress, file.id) == Some(written) by {
        let i = choose|i: int|
            0 <= i < progress.len() && (#[trigger] progress[i]).id == file.id
                && progress[i].written == written && forall|j: int|
                0 <= j < i ==> (#[trigger] progress[j]).id != file.id;
        let found = transfer::reading(progress, file.id)->0;
        let k = choose|k: int|
            0 <= k < progress.len() && (#[trigger] progress[k]).id == file.id
                && progress[k].written == found && forall|j: int|
                0 <= j < k ==> (#[trigger] progress[j]).id != file.id;
        assert(!(i < k) && !(k < i));
    }
}

/// A record follows the readings: each file is as far as its reading says, up to its size, and
/// nothing else about it changes. The record is as far as its files are together.
pub proof fn lemma_progress_is_followed(
    record: rpc::TransferView,
    progress: Seq<transfer::ProgressView>,
    now: Seq<char>,
)
    requires
        transfer::are_sound_files(record.files),
    ensures
        ({
            let after = transfer::synced(record, progress, now);
            &&& is_same_transfer(record, after)
            &&& after.state == record.state
            &&& after.error == record.error
            &&& after.started_at == record.started_at
            &&& after.finished_at == record.finished_at
            &&& after.files.len() == record.files.len()
            &&& forall|i: int|
                #![trigger after.files[i]]
                0 <= i < record.files.len() ==> {
                    &&& is_same_file(record.files[i], after.files[i])
                    &&& after.files[i].state == record.files[i].state
                    &&& after.files[i].error == record.files[i].error
                    &&& follows_reading(
                        record.files[i],
                        progress,
                        after.files[i].completed_bytes,
                    )
                }
            &&& after.completed_bytes == tally::sum_of(
                after.files,
                |file: rpc::FileView| file.completed_bytes as nat,
            )
            &&& after.updated_at == now || after == record
        }),
{
    let after = transfer::synced(record, progress, now);
    assert forall|i: int| #![trigger after.files[i]] 0 <= i < record.files.len() implies
        follows_reading(record.files[i], progress, after.files[i].completed_bytes) by {
        lemma_follows_reading(record.files[i], progress);
    }
    transfer::lemma_synced_sound(record.files, progress);
    transfer::lemma_bytes_done(after.files);
    assert(transfer::completed_bytes() =~= |file: rpc::FileView| file.completed_bytes as nat);
    if after.updated_at != now {
        assert(after =~= record);
    }
}

/// A transfer that was received to its end counts as completed only if none of its files failed. If
/// any file failed, wherever it stands, the transfer failed, with an error. The files stay what
/// they were, but for their progress, and nothing that was stored is removed.
pub proof fn lemma_one_failed_file_fails_the_reception(
    record: rpc::TransferView,
    progress: Seq<transfer::ProgressView>,
    now: Seq<char>,
)
    ensures
        ({
            let after = transfer::received(record, progress, IncomingEnd::Finished, now);
            &&& is_same_transfer(record, after)
            &&& after.files.len() == record.files.len()
            &&& after.state == TransferState::Completed ==> forall|i: int|
                0 <= i < after.files.len() ==> (#[trigger] after.files[i]).state
                    != TransferFileState::Failed
            &&& forall|i: int|
                0 <= i < after.files.len() && (#[trigger] after.files[i]).state
                    == TransferFileState::Failed ==> {
                    &&& after.state == TransferState::Failed
                    &&& after.error is Some
                    &&& after.error->0.code == "receive_failed"@
                }
            &&& after.state != TransferState::Completed ==> exists|i: int|
                0 <= i < after.files.len() && (#[trigger] after.files[i]).state
                    == TransferFileState::Failed
            &&& after.state == TransferState::Completed ==> after.error == record.error
            &&& after.finished_at == Some(now)
            &&& after.started_at == record.started_at
            &&& forall|i: int|
                #![trigger after.files[i]]
                0 <= i < after.files.len() ==> {
                    &&& is_same_file(record.files[i], after.files[i])
                    &&& after.files[i].state == record.files[i].state
                    &&& after.files[i].error == record.files[i].error
                    &&& follows_reading(
                        record.files[i],
                        progress,
                        after.files[i].completed_bytes,
                    )
                }
            &&& transfer::leftover_paths(
                transfer::synced_files(record.files, progress),
                IncomingEnd::Finished,
            ).len() == 0
        }),
{
    let after = transfer::received(record, progress, IncomingEnd::Finished, now);
    assert forall|i: int| #![trigger after.files[i]] 0 <= i < after.files.len() implies
        follows_reading(record.files[i], progress, after.files[i].completed_bytes) by {
        lemma_follows_reading(record.files[i], progress);
    }
}

/// What is left over of files, one by one.
proof fn lemma_open_paths(files: Seq<rpc::FileView>, path: Seq<char>)
    ensures
        transfer::open_paths(files).contains(path) <==> exists|i: int|
            0 <= i < files.len() && ((#[trigger] files[i]).state == TransferFileState::Queued
                || files[i].state == TransferFileState::Transferring) && files[i].destination_path
                == Some(path),
    decreases files.len(),
{
    if files.len() > 0 {
        let front = files.drop_last();
        let last = files.len() - 1;
        let paths = transfer::open_paths(files);
        let before = transfer::open_paths(front);
        lemma_open_paths(front, path);
        if before.contains(path) {
            let i = choose|i: int|
                0 <= i < front.len() && ((#[trigger] front[i]).state == TransferFileState::Queued
                    || front[i].state == TransferFileState::Transferring)
                    && front[i].destination_path == Some(path);
            assert(files[i] == front[i]);
            let k = choose|k: int| 0 <= k < before.len() && before[k] == path;
            assert(paths[k] == path);
        }
        if paths.contains(path) && !before.contains(path) {
            let k = choose|k: int| 0 <= k < paths.len() && paths[k] == path;
            if k < before.len() {
                assert(before[k] == path);
            }
            assert(files[last].destination_path == Some(path));
        }
        if exists|i: int|
            0 <= i < files.len() && ((#[trigger] files[i]).state == TransferFileState::Queued
                || files[i].state == TransferFileState::Transferring)
                && files[i].destination_path == Some(path) {
            let i = choose|i: int|
                0 <= i < files.len() && ((#[trigger] files[i]).state == TransferFileState::Queued
                    || files[i].state == TransferFileState::Transferring)
                    && files[i].destination_path == Some(path);
            if i < last {
                assert(front[i] == files[i]);
            } else {
                assert(paths.last() == path);
            }
        }
    }
}

/// A reception that was cancelled keeps what has arrived: a file that was completed, that failed or
/// that was turned away stays as it was, and only a file that was queued or under way becomes a
/// cancelled one. How far each file is does not depend on how the transfer ended. What is removed is
/// what was stored of the files that were queued or under way, all of it and nothing else.
pub proof fn lemma_cancelled_reception_keeps_what_arrived(
    record: rpc::TransferView,
    progress: Seq<transfer::ProgressView>,
    now: Seq<char>,
)
    ensures
        ({
            let after = transfer::received(record, progress, IncomingEnd::Cancelled, now);
            let removed = transfer::leftover_paths(
                transfer::synced_files(record.files, progress),
                IncomingEnd::Cancelled,
            );
            &&& is_same_transfer(record, after)
            &&& after.state == TransferState::Cancelled
            &&& after.error == record.error
            &&& after.finished_at == Some(now)
            &&& after.started_at == record.started_at
            &&& after.files.len() == record.files.len()
            &&& forall|i: int|
                #![trigger after.files[i]]
                0 <= i < after.files.len() ==> {
                    &&& is_same_file(record.files[i], after.files[i])
                    &&& after.files[i].error == record.files[i].error
                    &&& after.files[i].state == (match record.files[i].state {
                        TransferFileState::Queued => TransferFileState::Cancelled,
                        TransferFileState::Transferring => TransferFileState::Cancelled,
                        TransferFileState::Completed => TransferFileState::Completed,
                        TransferFileState::Failed => TransferFileState::Failed,
                        TransferFileState::Cancelled => TransferFileState::Cancelled,
                        TransferFileState::Declined => TransferFileState::Declined,
                    })
                    &&& follows_reading(
                        record.files[i],
                        progress,
                        after.files[i].completed_bytes,
                    )
                }
            &&& forall|path: Seq<char>| #[trigger]
                removed.contains(path) <==> exists|i: int|
                    0 <= i < record.files.len() && ((#[trigger] record.files[i]).state
                        == TransferFileState::Queued || record.files[i].state
                        == TransferFileState::Transferring) && record.files[i].destination_path
                        == Some(path)
        }),
{
    let after = transfer::received(record, progress, IncomingEnd::Cancelled, now);
    let synced = transfer::synced_files(record.files, progress);
    let removed = transfer::leftover_paths(synced, IncomingEnd::Cancelled);
    assert forall|i: int| #![trigger after.files[i]] 0 <= i < after.files.len() implies
        follows_reading(record.files[i], progress, after.files[i].completed_bytes) by {
        lemma_follows_reading(record.files[i], progress);
    }
    assert forall|path: Seq<char>| #[trigger]
        removed.contains(path) <==> exists|i: int|
            0 <= i < record.files.len() && ((#[trigger] record.files[i]).state
                == TransferFileState::Queued || record.files[i].state
                == TransferFileState::Transferring) && record.files[i].destination_path == Some(
                path,
            ) by {
        lemma_open_paths(synced, path);
        if removed.contains(path) {
            let i = choose|i: int|
                0 <= i < synced.len() && ((#[trigger] synced[i]).state
                    == TransferFileState::Queued || synced[i].state
                    == TransferFileState::Transferring) && synced[i].destination_path == Some(
                    path,
                );
            assert(record.files[i].state == synced[i].state);
        }
        if exists|i: int|
            0 <= i < record.files.len() && ((#[trigger] record.files[i]).state
                == TransferFileState::Queued || record.files[i].state
                == TransferFileState::Transferring) && record.files[i].destination_path == Some(
                path,
            ) {
            let i = choose|i: int|
                0 <= i < record.files.len() && ((#[trigger] record.files[i]).state
                    == TransferFileState::Queued || record.files[i].state
                    == TransferFileState::Transferring) && record.files[i].destination_path
                    == Some(path);
            assert(synced[i].state == record.files[i].state);
        }
    }
}

/// A file that has come to its end, completed or not, stays what it was in every respect when the
/// rest is cancelled, as long as no reading says anything else of how far it is.
pub proof fn lemma_ended_file_survives(
    record: rpc::TransferView,
    progress: Seq<transfer::ProgressView>,
    now: Seq<char>,
    i: int,
)
    requires
        0 <= i < record.files.len(),
        record.files[i].state != TransferFileState::Queued,
        record.files[i].state != TransferFileState::Transferring,
        forall|k: int|
            #![trigger progress[k]]
            0 <= k < progress.len() && progress[k].id == record.files[i].id ==> {
                ||| progress[k].written == record.files[i].completed_bytes && progress[k].written
                    <= record.files[i].size
                ||| progress[k].written > record.files[i].size && record.files[i].completed_bytes
                    == record.files[i].size
            },
    ensures
        transfer::received(record, progress, IncomingEnd::Cancelled, now).files[i]
            == record.files[i],
{
    lemma_reading_from(progress, record.files[i].id, 0);
}

/// The end of an outgoing transfer settles each of its files by itself. At a good end every file
/// that the receiver took is completed in full. A file that has come to its own end keeps it when
/// the transfer fails or is cancelled; a file that was queued or under way shares the end, and the
/// error unless it has one of its own. A declined transfer has declined files only.
pub proof fn lemma_end_settles_each_file(
    record: rpc::TransferView,
    progress: Seq<transfer::ProgressView>,
    state: TransferState,
    error: Option<rpc::ApiErrorView>,
    now: Seq<char>,
)
    requires
        rpc::is_terminal(state),
    ensures
        ({
            let after = transfer::settled(record, progress, state, error, now);
            &&& is_same_transfer(record, after)
            &&& after.state == state
            &&& after.error == error
            &&& after.finished_at == Some(now)
            &&& record.started_at is Some ==> after.started_at == record.started_at
            &&& record.started_at is None ==> (after.started_at is Some <==> state
                == TransferState::Completed)
            &&& after.files.len() == record.files.len()
            &&& forall|i: int|
                #![trigger after.files[i]]
                0 <= i < after.files.len() ==> {
                    let before = record.files[i];
                    let was_under_way = before.state == TransferFileState::Queued || before.state
                        == TransferFileState::Transferring;
                    &&& is_same_file(before, after.files[i])
                    &&& state == TransferState::Completed && before.state
                        != TransferFileState::Declined ==> after.files[i].state
                        == TransferFileState::Completed && after.files[i].completed_bytes
                        == before.size
                    &&& !(state == TransferState::Completed && before.state
                        != TransferFileState::Declined) ==> follows_reading(
                        before,
                        progress,
                        after.files[i].completed_bytes,
                    )
                    &&& before.state == TransferFileState::Declined ==> after.files[i].state
                        == TransferFileState::Declined
                    &&& state == TransferState::Declined ==> after.files[i].state
                        == TransferFileState::Declined
                    &&& state == TransferState::Cancelled || state == TransferState::Failed
                        ==> after.files[i].state == (if !was_under_way {
                        before.state
                    } else if state == TransferState::Failed {
                        TransferFileState::Failed
                    } else {
                        TransferFileState::Cancelled
                    })
                    &&& after.files[i].error == (if state == TransferState::Failed
                        && was_under_way && before.error is None {
                        error
                    } else {
                        before.error
                    })
                }
        }),
{
    let after = transfer::settled(record, progress, state, error, now);
    assert forall|i: int|
        #![trigger after.files[i]]
        0 <= i < after.files.len() && !(state == TransferState::Completed && record.files[i].state
            != TransferFileState::Declined) implies follows_reading(
        record.files[i],
        progress,
        after.files[i].completed_bytes,
    ) by {
        lemma_follows_reading(record.files[i], progress);
    }
}

/// A record begins with the files of the request, one for one and in their order, each in the state
/// that goes with that of the transfer and without any progress unless it is complete.
pub proof fn lemma_record_shows_the_request(request: rpc::RequestView, state: TransferState)
    ensures
        ({
            let record = transfer::record_from_request(request, state);
            &&& record.id == request.id
            &&& record.direction == TransferDirection::Incoming
            &&& record.state == state
            &&& record.peer == request.sender
            &&& record.total_bytes == request.total_bytes
            &&& record.created_at == request.received_at
            &&& record.started_at is None
            &&& record.finished_at is None
            &&& record.error is None
            &&& record.file_count == request.files.len()
            &&& record.files.len() == request.files.len()
            &&& forall|i: int|
                #![trigger record.files[i]]
                0 <= i < record.files.len() ==> {
                    let file = record.files[i];
                    &&& file.id == request.files[i].id
                    &&& file.name == request.files[i].name
                    &&& file.size == request.files[i].size
                    &&& file.mime_type == request.files[i].mime_type
                    &&& file.source_path is None
                    &&& file.destination_path is None
                    &&& file.error is None
                    &&& file.state == TransferFileState::Completed <==> state
                        == TransferState::Completed
                    &&& file.state == TransferFileState::Cancelled <==> state
                        == TransferState::Cancelled
                    &&& file.state == TransferFileState::Declined <==> state
                        == TransferState::Declined
                    &&& file.state != TransferFileState::Failed
                    &&& file.state != TransferFileState::Transferring
                    &&& file.completed_bytes == (if state == TransferState::Completed {
                        file.size
                    } else {
                        0
                    })
                }
        }),
{
}

/// A record that is kept is the record itself with its first files, at most thirty-two of them, and
/// without the paths from which they were sent.
pub proof fn lemma_kept_record_is_the_record(record: rpc::TransferView)
    ensures
        ({
            let kept = transfer::kept_record(record);
            &&& is_same_transfer(record, kept)
            &&& kept.state == record.state
            &&& kept.error == record.error
            &&& kept.completed_bytes == record.completed_bytes
            &&& kept.started_at == record.started_at
            &&& kept.updated_at == record.updated_at
            &&& kept.finished_at == record.finished_at
            &&& kept.files.len() == if record.files.len() <= 32 {
                record.files.len()
            } else {
                32
            }
            &&& forall|i: int|
                #![trigger kept.files[i]]
                0 <= i < kept.files.len() ==> {
                    let file = record.files[i];
                    &&& kept.files[i].id == file.id
                    &&& kept.files[i].name == file.name
                    &&& kept.files[i].size == file.size
                    &&& kept.files[i].mime_type == file.mime_type
                    &&& kept.files[i].state == file.state
                    &&& kept.files[i].completed_bytes == file.completed_bytes
                    &&& kept.files[i].destination_path == file.destination_path
                    &&& kept.files[i].error == file.error
                    &&& kept.files[i].source_path is None
                }
        }),
{
}

/// However a transfer ends, its record is as far as its files are together.
pub proof fn lemma_records_add_up(
    record: rpc::TransferView,
    progress: Seq<transfer::ProgressView>,
    end: IncomingEnd,
    state: TransferState,
    error: Option<rpc::ApiErrorView>,
    now: Seq<char>,
)
    requires
        transfer::are_sound_files(record.files),
    ensures
        ({
            let done = |file: rpc::FileView| file.completed_bytes as nat;
            let received = transfer::received(record, progress, end, now);
            let settled = transfer::settled(record, progress, state, error, now);
            &&& received.completed_bytes == tally::sum_of(received.files, done)
            &&& settled.completed_bytes == tally::sum_of(settled.files, done)
            &&& received.updated_at == now
            &&& settled.updated_at == now
        }),
{
    let done = |file: rpc::FileView| file.completed_bytes as nat;
    assert(transfer::completed_bytes() =~= done);
    let synced = transfer::synced_files(record.files, progress);
    transfer::lemma_synced_sound(record.files, progress);
    let received = transfer::received(record, progress, end, now);
    let settled = transfer::settled(record, progress, state, error, now);
    transfer::lemma_same_sizes(synced, received.files);
    transfer::lemma_same_sizes(synced, settled.files);
    transfer::lemma_bytes_done(received.files);
    transfer::lemma_bytes_done(settled.files);
}

} // verus!
