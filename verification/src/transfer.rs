//! The record of a transfer: how it begins, follows its progress and ends.
use crate::devices;
use crate::order;
use crate::rpc;
use crate::rpc::{
    ApiError, IncomingRequestSnapshot, TransferDirection, TransferFileSnapshot, TransferFileState,
    TransferSnapshot, TransferState,
};
use crate::tally;
use crate::text;
use vstd::prelude::*;

verus! {

/// Most files that the record of a finished transfer keeps.
pub const MAX_RECENT_FILES: usize = 32;

/// How many bytes of a file have been written so far.
#[derive(Debug)]
pub struct FileProgress {
    pub id: String,
    pub written: u64,
}

#[verifier::ext_equal]
pub struct ProgressView {
    pub id: Seq<char>,
    pub written: u64,
}

impl View for FileProgress {
    type V = ProgressView;

    open spec fn view(&self) -> ProgressView {
        ProgressView { id: self.id@, written: self.written }
    }
}

/// How a transfer that is being received came to its end.
#[derive(Clone, Copy, Debug, PartialEq, Eq, Structural)]
pub enum IncomingEnd {
    Finished,
    Cancelled,
}

/// The first reading from `i` on for a file.
pub open spec fn reading_from(progress: Seq<ProgressView>, id: Seq<char>, i: int) -> Option<u64>
    decreases progress.len() - i,
{
    if i < 0 || i >= progress.len() {
        None
    } else if progress[i].id == id {
        Some(progress[i].written)
    } else {
        reading_from(progress, id, i + 1)
    }
}

/// The reading for a file, where there is one.
pub open spec fn reading(progress: Seq<ProgressView>, id: Seq<char>) -> Option<u64> {
    reading_from(progress, id, 0)
}

pub open spec fn completed_bytes() -> spec_fn(rpc::FileView) -> nat {
    |file: rpc::FileView| file.completed_bytes as nat
}

pub open spec fn file_size() -> spec_fn(rpc::FileView) -> nat {
    |file: rpc::FileView| file.size as nat
}

/// No file is further than its size, and the sizes add up.
pub open spec fn are_sound_files(files: Seq<rpc::FileView>) -> bool {
    &&& forall|i: int|
        0 <= i < files.len() ==> (#[trigger] files[i]).completed_bytes <= files[i].size
    &&& tally::sum_of(files, file_size()) <= u64::MAX
}

/// The number of bytes of the files that are done.
pub open spec fn bytes_done(files: Seq<rpc::FileView>) -> u64 {
    tally::sum_of(files, completed_bytes()) as u64
}

/// A file brought up to its reading, which counts up to the size of the file.
pub open spec fn synced_file(file: rpc::FileView, progress: Seq<ProgressView>) -> rpc::FileView {
    match reading(progress, file.id) {
        Some(written) => rpc::FileView {
            completed_bytes: if written < file.size {
                written
            } else {
                file.size
            },
            ..file
        },
        None => file,
    }
}

pub open spec fn synced_files(files: Seq<rpc::FileView>, progress: Seq<ProgressView>) -> Seq<
    rpc::FileView,
> {
    Seq::new(files.len(), |i: int| synced_file(files[i], progress))
}

/// A record brought up to the readings. It counts as updated only if something changed.
pub open spec fn synced(
    record: rpc::TransferView,
    progress: Seq<ProgressView>,
    now: Seq<char>,
) -> rpc::TransferView {
    let files = synced_files(record.files, progress);
    rpc::TransferView {
        files,
        completed_bytes: bytes_done(files),
        updated_at: if files != record.files || bytes_done(files) != record.completed_bytes {
            now
        } else {
            record.updated_at
        },
        ..record
    }
}

/// What is done of sound files adds up.
pub proof fn lemma_bytes_done(files: Seq<rpc::FileView>)
    requires
        are_sound_files(files),
    ensures
        tally::sum_of(files, completed_bytes()) <= tally::sum_of(files, file_size()) <= u64::MAX,
        bytes_done(files) == tally::sum_of(files, completed_bytes()),
{
    tally::lemma_sums_bounded(files, completed_bytes(), files, file_size());
}

/// Files that keep their sizes and stay within them are sound if the files before were.
pub proof fn lemma_same_sizes(files: Seq<rpc::FileView>, others: Seq<rpc::FileView>)
    requires
        are_sound_files(files),
        files.len() == others.len(),
        forall|i: int|
            0 <= i < files.len() ==> (#[trigger] others[i]).size == files[i].size
                && others[i].completed_bytes <= others[i].size,
    ensures
        are_sound_files(others),
        tally::sum_of(others, file_size()) == tally::sum_of(files, file_size()),
{
    assert forall|i: int| #![trigger files[i]] #![trigger others[i]] 0 <= i < files.len() implies
        file_size()(files[i]) == file_size()(others[i]) by {
        assert(others[i].size == files[i].size);
    }
    tally::lemma_sums_agree(files, file_size(), others, file_size());
}

/// Readings leave sound files sound.
pub proof fn lemma_synced_sound(files: Seq<rpc::FileView>, progress: Seq<ProgressView>)
    requires
        are_sound_files(files),
    ensures
        are_sound_files(synced_files(files, progress)),
        tally::sum_of(synced_files(files, progress), file_size()) == tally::sum_of(
            files,
            file_size(),
        ),
{
    lemma_same_sizes(files, synced_files(files, progress));
}

pub fn find_reading(progress: &Vec<FileProgress>, id: &str) -> (written: Option<u64>)
    ensures
        written == reading(order::views(progress@), id@),
{
    let ghost readings = order::views(progress@);
    let mut i: usize = 0;
    while i < progress.len()
        invariant
            readings == order::views(progress@),
            i <= progress@.len(),
            reading(readings, id@) == reading_from(readings, id@, i as int),
        decreases progress@.len() - i,
    {
        assert(readings[i as int] == progress@[i as int]@);
        if text::same_text(progress[i].id.as_str(), id) {
            return Some(progress[i].written);
        }
        i += 1;
    }
    None
}

/// Adds up what is done of the files of a record.
pub fn count_done(files: &Vec<TransferFileSnapshot>) -> (total: u64)
    requires
        are_sound_files(order::views(files@)),
    ensures
        total == bytes_done(order::views(files@)),
{
    let ghost list = order::views(files@);
    let mut total: u64 = 0;
    assert(list.take(0) =~= Seq::<rpc::FileView>::empty());
    for i in 0..files.len()
        invariant
            list == order::views(files@),
            are_sound_files(list),
            total == tally::sum_of(list.take(i as int), completed_bytes()),
    {
        proof {
            assert(list[i as int] == files@[i as int]@);
            tally::lemma_sum_next(list, i as int, completed_bytes());
            tally::lemma_sum_of_part(list, i + 1, completed_bytes());
            lemma_bytes_done(list);
        }
        total = total + files[i].completed_bytes;
    }
    assert(list.take(files@.len() as int) =~= list);
    total
}

/// Brings a record up to the readings.
pub fn sync_record_progress(record: &mut TransferSnapshot, progress: &Vec<FileProgress>, now: &str)
    requires
        are_sound_files(order::views(old(record).files@)),
    ensures
        final(record)@ == synced(old(record)@, order::views(progress@), now@),
        are_sound_files(order::views(final(record).files@)),
{
    let ghost readings = order::views(progress@);
    let ghost before = order::views(record.files@);
    let mut changed = false;
    let count: usize = record.files.len();
    for i in 0..count
        invariant
            count == record.files@.len(),
            readings == order::views(progress@),
            before == order::views(old(record).files@),
            *record == (TransferSnapshot { files: record.files, ..*old(record) }),
            record.files@.len() == old(record).files@.len(),
            forall|j: int|
                0 <= j < i ==> (#[trigger] record.files@[j])@ == synced_file(before[j], readings),
            forall|j: int|
                i <= j < record.files@.len() ==> (#[trigger] record.files@[j]) == old(
                    record,
                ).files@[j],
            changed == exists|j: int|
                0 <= j < i && (#[trigger] before[j]) != synced_file(before[j], readings),
    {
        assert(before[i as int] == record.files@[i as int]@);
        if let Some(written) = find_reading(progress, record.files[i].id.as_str()) {
            let value: u64 = if written < record.files[i].size {
                written
            } else {
                record.files[i].size
            };
            if value != record.files[i].completed_bytes {
                record.files[i].completed_bytes = value;
                assert(before[i as int] != synced_file(before[i as int], readings));
                changed = true;
            }
        }
        assert(record.files@[i as int]@ == synced_file(before[i as int], readings));
    }
    assert(order::views(record.files@) =~= synced_files(before, readings));
    proof {
        lemma_synced_sound(before, readings);
        if synced_files(before, readings) != before {
            assert(!(synced_files(before, readings) =~= before));
            let j = choose|j: int|
                0 <= j < before.len() && synced_files(before, readings)[j] != before[j];
            assert(before[j] != synced_file(before[j], readings));
        }
        if changed {
            let j = choose|j: int|
                0 <= j < before.len() && (#[trigger] before[j]) != synced_file(before[j], readings);
            assert(synced_files(before, readings)[j] != before[j]);
        }
    }
    let total = count_done(&record.files);
    if total != record.completed_bytes {
        record.completed_bytes = total;
        changed = true;
    }
    if changed {
        record.updated_at = now.to_string();
    }
}

/// The state in which the files of a request start a transfer.
pub open spec fn first_file_state(state: TransferState) -> TransferFileState {
    match state {
        TransferState::Declined => TransferFileState::Declined,
        TransferState::Cancelled => TransferFileState::Cancelled,
        TransferState::Completed => TransferFileState::Completed,
        _ => TransferFileState::Queued,
    }
}

/// An offered file as a file of a transfer.
pub open spec fn file_from_offered(
    file: rpc::OfferedView,
    state: TransferFileState,
) -> rpc::FileView {
    rpc::FileView {
        id: file.id,
        name: file.name,
        size: file.size,
        mime_type: file.mime_type,
        state,
        completed_bytes: if state == TransferFileState::Completed {
            file.size
        } else {
            0
        },
        source_path: None,
        destination_path: None,
        error: None,
    }
}

pub open spec fn files_from_offered(
    files: Seq<rpc::OfferedView>,
    state: TransferFileState,
) -> Seq<rpc::FileView> {
    Seq::new(files.len(), |i: int| file_from_offered(files[i], state))
}

/// The record that a request begins with.
pub open spec fn record_from_request(
    request: rpc::RequestView,
    state: TransferState,
) -> rpc::TransferView {
    rpc::TransferView {
        id: request.id,
        direction: TransferDirection::Incoming,
        state,
        peer: request.sender,
        file_count: request.files.len(),
        files: files_from_offered(request.files, first_file_state(state)),
        total_bytes: request.total_bytes,
        completed_bytes: 0,
        created_at: request.received_at,
        started_at: None,
        updated_at: request.received_at,
        finished_at: None,
        error: None,
    }
}

/// The record that a request begins with.
pub fn transfer_from_pending(request: &IncomingRequestSnapshot, state: TransferState) -> (record:
    TransferSnapshot)
    ensures
        record@ == record_from_request(request@, state),
{
    let file_state = match state {
        TransferState::Declined => TransferFileState::Declined,
        TransferState::Cancelled => TransferFileState::Cancelled,
        TransferState::Completed => TransferFileState::Completed,
        _ => TransferFileState::Queued,
    };
    let ghost offered = order::views(request.files@);
    let ghost all = files_from_offered(offered, file_state);
    let mut files: Vec<TransferFileSnapshot> = Vec::new();
    for i in 0..request.files.len()
        invariant
            offered == order::views(request.files@),
            all == files_from_offered(offered, file_state),
            order::views(files@) == all.take(i as int),
    {
        let file = &request.files[i];
        let ghost before = files@;
        files.push(
            TransferFileSnapshot {
                id: file.id.clone(),
                name: file.name.clone(),
                size: file.size,
                mime_type: file.mime_type.clone(),
                state: file_state,
                completed_bytes: if file_state == TransferFileState::Completed {
                    file.size
                } else {
                    0
                },
                source_path: None,
                destination_path: None,
                error: None,
            },
        );
        proof {
            assert(offered[i as int] == file@);
            assert(order::views(files@) =~= order::views(before).push(files@.last()@));
            assert(all.take(i + 1) =~= all.take(i as int).push(all[i as int]));
        }
    }
    assert(order::views(files@) =~= all);
    TransferSnapshot {
        id: request.id.clone(),
        direction: TransferDirection::Incoming,
        state,
        peer: request.sender.clone(),
        file_count: request.files.len(),
        files,
        total_bytes: request.total_bytes,
        completed_bytes: 0,
        created_at: request.received_at.clone(),
        started_at: None,
        updated_at: request.received_at.clone(),
        finished_at: None,
        error: None,
    }
}

/// A file that has not come to an end.
pub open spec fn is_open_file(state: TransferFileState) -> bool {
    state == TransferFileState::Queued || state == TransferFileState::Transferring
}

fn open_file(state: TransferFileState) -> (r: bool)
    ensures
        r == is_open_file(state),
{
    state == TransferFileState::Queued || state == TransferFileState::Transferring
}

/// What becomes of a file when the transfer that sends it ends.
pub open spec fn settled_file(
    file: rpc::FileView,
    state: TransferState,
    error: Option<rpc::ApiErrorView>,
) -> rpc::FileView {
    if state == TransferState::Completed && file.state != TransferFileState::Declined {
        rpc::FileView {
            state: TransferFileState::Completed,
            completed_bytes: file.size,
            ..file
        }
    } else if state == TransferState::Cancelled && is_open_file(file.state) {
        rpc::FileView { state: TransferFileState::Cancelled, ..file }
    } else if state == TransferState::Declined {
        rpc::FileView { state: TransferFileState::Declined, ..file }
    } else if state == TransferState::Failed && is_open_file(file.state) {
        rpc::FileView {
            state: TransferFileState::Failed,
            error: if file.error is None {
                error
            } else {
                file.error
            },
            ..file
        }
    } else {
        file
    }
}

pub open spec fn settled_files(
    files: Seq<rpc::FileView>,
    state: TransferState,
    error: Option<rpc::ApiErrorView>,
) -> Seq<rpc::FileView> {
    Seq::new(files.len(), |i: int| settled_file(files[i], state, error))
}

/// The record of an outgoing transfer at its end.
pub open spec fn settled(
    record: rpc::TransferView,
    progress: Seq<ProgressView>,
    state: TransferState,
    error: Option<rpc::ApiErrorView>,
    now: Seq<char>,
) -> rpc::TransferView {
    let files = settled_files(synced_files(record.files, progress), state, error);
    rpc::TransferView {
        state,
        error,
        files,
        completed_bytes: bytes_done(files),
        started_at: if state == TransferState::Completed && record.started_at is None {
            Some(now)
        } else {
            record.started_at
        },
        updated_at: now,
        finished_at: Some(now),
        ..record
    }
}

fn settle_file(file: &mut TransferFileSnapshot, state: TransferState, error: &Option<ApiError>)
    ensures
        final(file)@ == settled_file(old(file)@, state, rpc::opt_error(*error)),
{
    match state {
        TransferState::Completed => {
            if file.state != TransferFileState::Declined {
                file.state = TransferFileState::Completed;
                file.completed_bytes = file.size;
            }
        },
        TransferState::Cancelled => {
            if open_file(file.state) {
                file.state = TransferFileState::Cancelled;
            }
        },
        TransferState::Declined => {
            file.state = TransferFileState::Declined;
        },
        TransferState::Failed => {
            if open_file(file.state) {
                file.state = TransferFileState::Failed;
                if file.error.is_none() {
                    file.error = rpc::clone_opt_error(error);
                }
            }
        },
        _ => {},
    }
}

/// Brings the record of an outgoing transfer to its end.
pub fn settle_outgoing(
    record: &mut TransferSnapshot,
    progress: &Vec<FileProgress>,
    state: TransferState,
    error: Option<ApiError>,
    now: &str,
)
    requires
        are_sound_files(order::views(old(record).files@)),
    ensures
        final(record)@ == settled(
            old(record)@,
            order::views(progress@),
            state,
            rpc::opt_error(error),
            now@,
        ),
        are_sound_files(order::views(final(record).files@)),
{
    let ghost readings = order::views(progress@);
    let ghost before = synced_files(order::views(record.files@), readings);
    sync_record_progress(record, progress, now);
    if state == TransferState::Completed && record.started_at.is_none() {
        record.started_at = Some(now.to_string());
    }
    record.updated_at = now.to_string();
    record.finished_at = Some(now.to_string());
    let ghost after = settled_files(before, state, rpc::opt_error(error));
    let ghost synced_record = *record;
    let count: usize = record.files.len();
    for i in 0..count
        invariant
            count == record.files@.len() == before.len(),
            after == settled_files(before, state, rpc::opt_error(error)),
            *record == (TransferSnapshot { files: record.files, ..synced_record }),
            forall|j: int| 0 <= j < i ==> (#[trigger] record.files@[j])@ == after[j],
            forall|j: int| i <= j < count ==> (#[trigger] record.files@[j])@ == before[j],
    {
        settle_file(&mut record.files[i], state, &error);
    }
    assert(order::views(record.files@) =~= after);
    proof {
        lemma_same_sizes(before, after);
    }
    record.completed_bytes = count_done(&record.files);
    record.state = state;
    record.error = error;
}

/// The paths of the files that have not come to an end, in order.
pub open spec fn open_paths(files: Seq<rpc::FileView>) -> Seq<Seq<char>>
    decreases files.len(),
{
    if files.len() == 0 {
        Seq::empty()
    } else if is_open_file(files.last().state) && files.last().destination_path is Some {
        open_paths(files.drop_last()).push(files.last().destination_path->0)
    } else {
        open_paths(files.drop_last())
    }
}

/// A file after its transfer was cancelled.
pub open spec fn cancelled_file(file: rpc::FileView) -> rpc::FileView {
    if is_open_file(file.state) {
        rpc::FileView { state: TransferFileState::Cancelled, ..file }
    } else {
        file
    }
}

pub open spec fn cancelled_files(files: Seq<rpc::FileView>) -> Seq<rpc::FileView> {
    Seq::new(files.len(), |i: int| cancelled_file(files[i]))
}

pub open spec fn some_failed(files: Seq<rpc::FileView>) -> bool {
    exists|i: int|
        0 <= i < files.len() && (#[trigger] files[i]).state == TransferFileState::Failed
}

pub open spec fn receive_error() -> rpc::ApiErrorView {
    rpc::api_error("receive_failed"@, "One or more files could not be received"@)
}

/// The record of an incoming transfer at its end. A transfer that was cancelled cancels the files
/// that were open; one that ran through has failed if a file has.
pub open spec fn received(
    record: rpc::TransferView,
    progress: Seq<ProgressView>,
    end: IncomingEnd,
    now: Seq<char>,
) -> rpc::TransferView {
    let synced = synced_files(record.files, progress);
    let files = if end == IncomingEnd::Cancelled {
        cancelled_files(synced)
    } else {
        synced
    };
    rpc::TransferView {
        state: if end == IncomingEnd::Cancelled {
            TransferState::Cancelled
        } else if some_failed(files) {
            TransferState::Failed
        } else {
            TransferState::Completed
        },
        error: if end == IncomingEnd::Finished && some_failed(files) {
            Some(receive_error())
        } else {
            record.error
        },
        files,
        completed_bytes: bytes_done(files),
        updated_at: now,
        finished_at: Some(now),
        ..record
    }
}

/// The files that are removed when an incoming transfer ends.
pub open spec fn leftover_paths(files: Seq<rpc::FileView>, end: IncomingEnd) -> Seq<Seq<char>> {
    if end == IncomingEnd::Cancelled {
        open_paths(files)
    } else {
        Seq::empty()
    }
}

fn cancel_files(files: &mut Vec<TransferFileSnapshot>) -> (paths: Vec<String>)
    ensures
        order::views(final(files)@) == cancelled_files(order::views(old(files)@)),
        text::texts(paths@) == open_paths(order::views(old(files)@)),
{
    let ghost before = order::views(files@);
    let mut paths: Vec<String> = Vec::new();
    let count: usize = files.len();
    assert(before.take(0) =~= Seq::<rpc::FileView>::empty());
    assert(text::texts(paths@) =~= Seq::<Seq<char>>::empty());
    for i in 0..count
        invariant
            count == files@.len() == before.len(),
            forall|j: int| 0 <= j < i ==> (#[trigger] files@[j])@ == cancelled_file(before[j]),
            forall|j: int| i <= j < count ==> (#[trigger] files@[j])@ == before[j],
            text::texts(paths@) == open_paths(before.take(i as int)),
    {
        proof {
            assert(before.take(i + 1).drop_last() =~= before.take(i as int));
            assert(files@[i as int]@ == before[i as int]);
        }
        if open_file(files[i].state) {
            if let Some(path) = &files[i].destination_path {
                let ghost held = text::texts(paths@);
                paths.push(path.clone());
                assert(text::texts(paths@) =~= held.push(path@));
            }
            files[i].state = TransferFileState::Cancelled;
        }
        assert(text::texts(paths@) == open_paths(before.take(i + 1)));
    }
    assert(before.take(count as int) =~= before);
    assert(order::views(files@) =~= cancelled_files(before));
    paths
}

fn any_failed(files: &Vec<TransferFileSnapshot>) -> (r: bool)
    ensures
        r == some_failed(order::views(files@)),
{
    for i in 0..files.len()
        invariant
            forall|j: int|
                0 <= j < i ==> (#[trigger] order::views(files@)[j]).state
                    != TransferFileState::Failed,
    {
        assert(order::views(files@)[i as int] == files@[i as int]@);
        if files[i].state == TransferFileState::Failed {
            return true;
        }
    }
    false
}

/// Brings the record of an incoming transfer to its end, and hands out the paths of the files that
/// are to be removed.
pub fn settle_incoming(
    record: &mut TransferSnapshot,
    progress: &Vec<FileProgress>,
    end: IncomingEnd,
    now: &str,
) -> (leftover: Vec<String>)
    requires
        are_sound_files(order::views(old(record).files@)),
    ensures
        final(record)@ == received(old(record)@, order::views(progress@), end, now@),
        text::texts(leftover@) == leftover_paths(
            synced_files(old(record)@.files, order::views(progress@)),
            end,
        ),
        are_sound_files(order::views(final(record).files@)),
{
    sync_record_progress(record, progress, now);
    let ghost before = order::views(record.files@);
    let leftover: Vec<String> = match end {
        IncomingEnd::Cancelled => {
            record.state = TransferState::Cancelled;
            let paths = cancel_files(&mut record.files);
            proof {
                lemma_same_sizes(before, cancelled_files(before));
            }
            paths
        },
        IncomingEnd::Finished => {
            if any_failed(&record.files) {
                record.state = TransferState::Failed;
                record.error = Some(
                    ApiError::new("receive_failed", "One or more files could not be received"),
                );
            } else {
                record.state = TransferState::Completed;
            }
            let none: Vec<String> = Vec::new();
            assert(text::texts(none@) =~= Seq::<Seq<char>>::empty());
            none
        },
    };
    record.completed_bytes = count_done(&record.files);
    record.updated_at = now.to_string();
    record.finished_at = Some(now.to_string());
    leftover
}

/// A file as the record of a finished transfer keeps it.
pub open spec fn kept_file(file: rpc::FileView) -> rpc::FileView {
    rpc::FileView { source_path: None, ..file }
}

/// The record of a finished transfer as it is kept: the first 32 files, without the paths that
/// they were read from.
pub open spec fn kept_record(record: rpc::TransferView) -> rpc::TransferView {
    let first = devices::at_most(record.files, MAX_RECENT_FILES as nat);
    rpc::TransferView { files: Seq::new(first.len(), |i: int| kept_file(first[i])), ..record }
}

/// Cuts the record of a finished transfer down to what is kept of it.
pub fn trim_record(record: &mut TransferSnapshot)
    ensures
        final(record)@ == kept_record(old(record)@),
{
    let ghost first = devices::at_most(order::views(record.files@), MAX_RECENT_FILES as nat);
    if record.files.len() > MAX_RECENT_FILES {
        record.files.truncate(MAX_RECENT_FILES);
    }
    let count: usize = record.files.len();
    assert(order::views(record.files@) =~= first);
    assert forall|j: int| 0 <= j < count implies (#[trigger] record.files@[j])@ == first[j] by {
        assert(order::views(record.files@)[j] == record.files@[j]@);
    }
    for i in 0..count
        invariant
            count == record.files@.len() == first.len(),
            *record == (TransferSnapshot { files: record.files, ..*old(record) }),
            forall|j: int| 0 <= j < i ==> (#[trigger] record.files@[j])@ == kept_file(first[j]),
            forall|j: int| i <= j < count ==> (#[trigger] record.files@[j])@ == first[j],
    {
        record.files[i].source_path = None;
    }
    assert(order::views(record.files@) =~= kept_record(old(record)@).files);
}

/// The place of the first file from `i` on with an identifier; the number of files where there is
/// none.
pub open spec fn file_place(files: Seq<rpc::FileView>, id: Seq<char>, i: int) -> int
    decreases files.len() - i,
{
    if i < 0 || i >= files.len() {
        files.len() as int
    } else if files[i].id == id {
        i
    } else {
        file_place(files, id, i + 1)
    }
}

pub proof fn lemma_file_place(files: Seq<rpc::FileView>, id: Seq<char>, i: int)
    requires
        0 <= i <= files.len(),
    ensures
        i <= file_place(files, id, i) <= files.len(),
        file_place(files, id, i) < files.len() ==> files[file_place(files, id, i)].id == id,
    decreases files.len() - i,
{
    if i < files.len() && files[i].id != id {
        lemma_file_place(files, id, i + 1);
    }
}

/// Finds the first file with an identifier.
pub fn find_file(files: &Vec<TransferFileSnapshot>, id: &str) -> (place: usize)
    ensures
        place == file_place(order::views(files@), id@, 0),
        place <= files@.len(),
        place < files@.len() ==> files@[place as int].id@ == id@,
{
    let ghost list = order::views(files@);
    let mut i: usize = 0;
    while i < files.len()
        invariant
            list == order::views(files@),
            i <= files@.len(),
            file_place(list, id@, 0) == file_place(list, id@, i as int),
        decreases files@.len() - i,
    {
        assert(list[i as int] == files@[i as int]@);
        if text::same_text(files[i].id.as_str(), id) {
            return i;
        }
        i += 1;
    }
    i
}

} // verus!
