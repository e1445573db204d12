//! The course of an outgoing transfer, step by step.
//!
//! The caller performs what a transfer asks for and hands back what came of it.
use crate::filemap;
use crate::filemap::FileMap;
use crate::files;
use crate::files::{OutgoingItem, OutgoingSource};
use crate::model;
use crate::offer;
use crate::order;
use crate::rpc;
use crate::rpc::{ApiError, ApiResult, TransferState};
use crate::text;
use vstd::prelude::*;

verus! {

/// Why a request to the receiver failed.
#[derive(Clone, Copy, Debug, PartialEq, Eq, Structural)]
pub enum ClientFailure {
    Cancelled,
    Status { code: u16 },
    Json,
    Other,
}

/// The error for a failed offer.
pub open spec fn offer_error(failure: ClientFailure) -> rpc::ApiErrorView {
    match failure {
        ClientFailure::Status { code } => if code == 401 {
            rpc::api_error("pin_required"@, "Receiver requires a PIN"@)
        } else if code == 409 {
            rpc::api_error("peer_busy"@, "Receiver is handling another transfer"@)
        } else if code == 429 {
            rpc::api_error("rate_limited"@, "Receiver rejected too many requests"@)
        } else {
            rpc::api_error(
                "remote_error"@,
                "Receiver returned HTTP status "@ + text::decimal_text(code as nat),
            )
        },
        ClientFailure::Json => rpc::api_error(
            "protocol_error"@,
            "Receiver returned an invalid LocalSend response"@,
        ),
        ClientFailure::Cancelled => rpc::api_error("cancelled"@, "Transfer was cancelled"@),
        ClientFailure::Other => rpc::api_error(
            "network_error"@,
            "Could not contact the receiver"@,
        ),
    }
}

pub fn prepare_error(failure: ClientFailure) -> (error: ApiError)
    ensures
        error@ == offer_error(failure),
{
    match failure {
        ClientFailure::Status { code } => if code == 401 {
            ApiError::new("pin_required", "Receiver requires a PIN")
        } else if code == 409 {
            ApiError::new("peer_busy", "Receiver is handling another transfer")
        } else if code == 429 {
            ApiError::new("rate_limited", "Receiver rejected too many requests")
        } else {
            let number = text::decimal(code as u64);
            let message = text::join2("Receiver returned HTTP status ", number.as_str());
            ApiError::new("remote_error", message.as_str())
        },
        ClientFailure::Json => ApiError::new(
            "protocol_error",
            "Receiver returned an invalid LocalSend response",
        ),
        ClientFailure::Cancelled => ApiError::new("cancelled", "Transfer was cancelled"),
        ClientFailure::Other => ApiError::new("network_error", "Could not contact the receiver"),
    }
}

/// What opening a source for reading comes to.
#[derive(Clone, Copy, Debug, PartialEq, Eq, Structural)]
pub enum OpenedSource {
    Unreadable,
    Unverifiable,
    Opened { is_file: bool, device: u64, inode: u64, size: u64 },
}

/// The verdict on a source that was opened: a file must be the regular file that was selected, of
/// the same size.
pub open spec fn source_verdict(source: files::SourceView, opened: OpenedSource) -> Result<
    (),
    rpc::ApiErrorView,
> {
    match source {
        files::SourceView::Bytes(_) => Ok(()),
        files::SourceView::Path { path: _, device, inode, size } => match opened {
            OpenedSource::Unreadable => Err(
                rpc::api_error(
                    "source_changed"@,
                    "Selected source file is no longer readable"@,
                ),
            ),
            OpenedSource::Unverifiable => Err(
                rpc::api_error(
                    "source_changed"@,
                    "Selected source file could not be verified"@,
                ),
            ),
            OpenedSource::Opened { is_file, device: d, inode: i, size: s } => if is_file && d
                == device && i == inode && s == size {
                Ok(())
            } else {
                Err(
                    rpc::api_error(
                        "source_changed"@,
                        "Selected source file changed before it could be sent"@,
                    ),
                )
            },
        },
    }
}

/// Checks a source that was opened for reading.
pub fn check_source(source: &OutgoingSource, opened: OpenedSource) -> (r: ApiResult<()>)
    ensures
        rpc::verdict(r) == source_verdict(source@, opened),
{
    match source {
        OutgoingSource::Bytes(_) => Ok(()),
        OutgoingSource::Path { path: _, device, inode, size } => match opened {
            OpenedSource::Unreadable => Err(
                ApiError::new("source_changed", "Selected source file is no longer readable"),
            ),
            OpenedSource::Unverifiable => Err(
                ApiError::new("source_changed", "Selected source file could not be verified"),
            ),
            OpenedSource::Opened { is_file, device: d, inode: i, size: s } => {
                if is_file && d == *device && i == *inode && s == *size {
                    Ok(())
                } else {
                    Err(
                        ApiError::new(
                            "source_changed",
                            "Selected source file changed before it could be sent",
                        ),
                    )
                }
            },
        },
    }
}

/// The offer of items: each file under its identifier, the later of two with the same one.
pub open spec fn offer_of(items: Seq<files::ItemView>) -> Seq<model::EntryView>
    decreases items.len(),
{
    if items.len() == 0 {
        Seq::empty()
    } else {
        let file = items.last().file;
        filemap::with_entry(
            offer_of(items.drop_last()),
            model::EntryView { key: file.id, file },
        )
    }
}

/// An offer lists no identifier twice, and each file stands under its identifier.
pub proof fn lemma_offer_is_keyed(items: Seq<files::ItemView>)
    ensures
        filemap::has_distinct_keys(offer_of(items)),
        forall|i: int|
            0 <= i < offer_of(items).len() ==> (#[trigger] offer_of(items)[i]).file.id == offer_of(
                items,
            )[i].key,
    decreases items.len(),
{
    if items.len() > 0 {
        lemma_offer_is_keyed(items.drop_last());
        let before = offer_of(items.drop_last());
        let file = items.last().file;
        filemap::lemma_key_place(before, file.id, 0);
        filemap::lemma_with_entry(before, model::EntryView { key: file.id, file });
    }
}

/// The offer of items.
pub fn make_offer(items: &Vec<OutgoingItem>) -> (offer: FileMap)
    ensures
        offer@ == offer_of(order::views(items@)),
{
    let ghost all = order::views(items@);
    let mut offer = FileMap::new();
    assert(all.take(0) =~= Seq::<files::ItemView>::empty());
    for i in 0..items.len()
        invariant
            all == order::views(items@),
            offer@ == offer_of(all.take(i as int)),
    {
        let file = &items[i].file;
        assert(all[i as int] == items@[i as int]@);
        assert(all.take(i + 1).drop_last() =~= all.take(i as int));
        offer = offer.with(file.id.clone(), file.clone());
    }
    assert(all.take(items@.len() as int) =~= all);
    offer
}

/// The token with which the receiver takes a file.
#[derive(Debug)]
pub struct FileToken {
    pub id: String,
    pub token: String,
}

#[verifier::ext_equal]
pub struct TokenView {
    pub id: Seq<char>,
    pub token: Seq<char>,
}

impl View for FileToken {
    type V = TokenView;

    open spec fn view(&self) -> TokenView {
        TokenView { id: self.id@, token: self.token@ }
    }
}

/// A file that the receiver takes.
#[derive(Debug)]
pub struct QueuedFile {
    pub id: String,
    pub name: String,
    pub size: u64,
    pub token: String,
}

#[verifier::ext_equal]
pub struct QueuedView {
    pub id: Seq<char>,
    pub name: Seq<char>,
    pub size: u64,
    pub token: Seq<char>,
}

impl View for QueuedFile {
    type V = QueuedView;

    open spec fn view(&self) -> QueuedView {
        QueuedView { id: self.id@, name: self.name@, size: self.size, token: self.token@ }
    }
}

/// Files are sent in the order of their names.
impl order::Ranked for QueuedView {
    open spec fn precedes(self, other: Self) -> bool {
        text::text_before(self.name, other.name)
    }

    proof fn precedes_asymmetric(a: Self, b: Self) {
        order::lemma_text_before_asymmetric(a.name, b.name);
    }

    proof fn follows_transitive(a: Self, b: Self, c: Self) {
        order::lemma_text_follows_transitive(a.name, b.name, c.name);
    }
}

impl order::Sortable for QueuedFile {
    fn is_before(&self, other: &Self) -> bool {
        text::text_precedes(self.name.as_str(), other.name.as_str())
    }
}

/// True when a list holds a file with an identifier.
pub open spec fn has_id(list: Seq<QueuedView>, id: Seq<char>) -> bool {
    exists|i: int| 0 <= i < list.len() && (#[trigger] list[i]).id == id
}

/// The offered files that the receiver gave a token for, each once.
pub open spec fn accepted_files(
    entries: Seq<model::EntryView>,
    tokens: Seq<TokenView>,
) -> Seq<QueuedView>
    decreases tokens.len(),
{
    if tokens.len() == 0 {
        Seq::empty()
    } else {
        let before = accepted_files(entries, tokens.drop_last());
        let id = tokens.last().id;
        let place = filemap::key_place(entries, id, 0);
        if place >= entries.len() || has_id(before, id) {
            before
        } else {
            before.push(
                QueuedView {
                    id,
                    name: entries[place].file.file_name,
                    size: entries[place].file.size,
                    token: tokens.last().token,
                },
            )
        }
    }
}

fn holds_id(list: &Vec<QueuedFile>, id: &str) -> (r: bool)
    ensures
        r == has_id(order::views(list@), id@),
{
    for i in 0..list.len()
        invariant
            forall|j: int| 0 <= j < i ==> (#[trigger] order::views(list@)[j]).id != id@,
    {
        assert(order::views(list@)[i as int] == list@[i as int]@);
        if text::same_text(list[i].id.as_str(), id) {
            return true;
        }
    }
    false
}

fn accept_tokens(offer: &FileMap, tokens: &Vec<FileToken>) -> (list: Vec<QueuedFile>)
    ensures
        order::views(list@) == accepted_files(offer@, order::views(tokens@)),
{
    let entries = offer.entries();
    let ghost offered = offer@;
    let ghost all = order::views(tokens@);
    let mut list: Vec<QueuedFile> = Vec::new();
    assert(all.take(0) =~= Seq::<TokenView>::empty());
    assert(order::views(list@) =~= Seq::<QueuedView>::empty());
    for i in 0..tokens.len()
        invariant
            offered == offer@,
            offered == order::views(entries@),
            all == order::views(tokens@),
            order::views(list@) == accepted_files(offered, all.take(i as int)),
    {
        let token = &tokens[i];
        assert(all[i as int] == token@);
        assert(all.take(i + 1).drop_last() =~= all.take(i as int));
        let place = offer.find(token.id.as_str());
        if place < entries.len() && !holds_id(&list, token.id.as_str()) {
            let ghost before = order::views(list@);
            let file = &entries[place].file;
            assert(offered[place as int] == entries@[place as int]@);
            list.push(
                QueuedFile {
                    id: token.id.clone(),
                    name: file.file_name.clone(),
                    size: file.size,
                    token: token.token.clone(),
                },
            );
            assert(order::views(list@) =~= before.push(list@.last()@));
        }
    }
    assert(all.take(tokens@.len() as int) =~= all);
    list
}

/// The receiver takes a file exactly if it was offered and got a token, and takes none twice.
pub proof fn lemma_accepted_files(
    entries: Seq<model::EntryView>,
    tokens: Seq<TokenView>,
    id: Seq<char>,
)
    ensures
        has_id(accepted_files(entries, tokens), id) == (filemap::key_place(entries, id, 0) < entries.len()
            && exists|i: int| 0 <= i < tokens.len() && (#[trigger] tokens[i]).id == id),
        forall|i: int, j: int|
            0 <= i < j < accepted_files(entries, tokens).len() ==> (
            #[trigger] accepted_files(entries, tokens)[i]).id != (
            #[trigger] accepted_files(entries, tokens)[j]).id,
    decreases tokens.len(),
{
    if tokens.len() > 0 {
        let shorter = tokens.drop_last();
        let last = tokens.last();
        lemma_accepted_files(entries, shorter, id);
        filemap::lemma_key_place(entries, id, 0);
        let before = accepted_files(entries, shorter);
        let after = accepted_files(entries, tokens);
        if exists|i: int| 0 <= i < shorter.len() && (#[trigger] shorter[i]).id == id {
            let i = choose|i: int| 0 <= i < shorter.len() && (#[trigger] shorter[i]).id == id;
            assert(tokens[i].id == id);
        }
        if last.id == id {
            assert(tokens[tokens.len() - 1].id == id);
        }
        assert(forall|i: int| 0 <= i < tokens.len() - 1 ==> #[trigger] tokens[i] == shorter[i]);
        if has_id(before, id) {
            let k = choose|k: int| 0 <= k < before.len() && (#[trigger] before[k]).id == id;
            assert(after[k].id == id);
        }
        if after.len() > before.len() {
            assert(after[before.len() as int].id == last.id);
        }
        if has_id(after, id) {
            let k = choose|k: int| 0 <= k < after.len() && (#[trigger] after[k]).id == id;
            if k < before.len() {
                assert(before[k].id == id);
            }
        }
    }
}

/// What the receiver answers to an offer: the session, and tokens for the files that it takes.
#[derive(Debug)]
pub struct OfferReply {
    pub session_id: String,
    pub tokens: Vec<FileToken>,
}

#[verifier::ext_equal]
pub struct ReplyView {
    pub session_id: Seq<char>,
    pub tokens: Seq<TokenView>,
}

impl View for OfferReply {
    type V = ReplyView;

    open spec fn view(&self) -> ReplyView {
        ReplyView { session_id: self.session_id@, tokens: order::views(self.tokens@) }
    }
}

/// What a transfer waits for.
#[derive(Clone, Copy, Debug, PartialEq, Eq, Structural)]
pub enum RunStage {
    /// The client for the receiver.
    Connecting,
    /// The answer to the offer.
    Offering,
    /// Whether the transfer was cancelled.
    Checking,
    /// The upload of a file.
    Uploading,
    /// Nothing: it has ended.
    Ended,
}

/// What came of what a transfer asked for.
#[derive(Debug)]
pub enum RunEvent {
    Connected,
    ConnectFailed,
    /// The receiver answered, or had nothing to say.
    Answered { reply: Option<OfferReply> },
    OfferFailed { failure: ClientFailure },
    /// Whether the transfer was cancelled, and whether by the receiver.
    Checked { cancelled: bool, by_peer: bool },
    /// The source of the file could not be read.
    SourceFailed { error: ApiError },
    Uploaded,
    UploadFailed { failure: ClientFailure, by_peer: bool },
}

#[verifier::ext_equal]
pub enum RunEventView {
    Connected,
    ConnectFailed,
    Answered { reply: Option<ReplyView> },
    OfferFailed { failure: ClientFailure },
    Checked { cancelled: bool, by_peer: bool },
    SourceFailed { error: rpc::ApiErrorView },
    Uploaded,
    UploadFailed { failure: ClientFailure, by_peer: bool },
}

impl View for RunEvent {
    type V = RunEventView;

    open spec fn view(&self) -> RunEventView {
        match self {
            RunEvent::Connected => RunEventView::Connected,
            RunEvent::ConnectFailed => RunEventView::ConnectFailed,
            RunEvent::Answered { reply } => RunEventView::Answered {
                reply: match reply {
                    Some(reply) => Some(reply@),
                    None => None,
                },
            },
            RunEvent::OfferFailed { failure } => RunEventView::OfferFailed { failure: *failure },
            RunEvent::Checked { cancelled, by_peer } => RunEventView::Checked {
                cancelled: *cancelled,
                by_peer: *by_peer,
            },
            RunEvent::SourceFailed { error } => RunEventView::SourceFailed { error: error@ },
            RunEvent::Uploaded => RunEventView::Uploaded,
            RunEvent::UploadFailed { failure, by_peer } => RunEventView::UploadFailed {
                failure: *failure,
                by_peer: *by_peer,
            },
        }
    }
}

/// True of the events that can come of what a stage asks for.
pub open spec fn answers(stage: RunStage, event: RunEventView) -> bool {
    match stage {
        RunStage::Connecting => event is Connected || event is ConnectFailed,
        RunStage::Offering => event is Answered || event is OfferFailed,
        RunStage::Checking => event is Checked,
        RunStage::Uploading => event is SourceFailed || event is Uploaded || event is UploadFailed,
        RunStage::Ended => false,
    }
}

/// What a transfer does, in order.
#[derive(Debug)]
pub enum RunEffect {
    /// Send the offer.
    SendOffer,
    /// All that was offered counts as sent.
    FillProgress,
    /// Tell the controller that the receiver takes these files.
    Prepared { session_id: String, accepted: Vec<String> },
    /// Look whether the transfer was cancelled.
    CheckCancelled,
    /// Tell the controller that a file is being sent, and send it.
    Upload { file_id: String, token: String },
    /// Tell the controller that a file was sent, and count all of it as sent.
    FileCompleted { file_id: String, size: u64 },
    /// Tell the controller that a file could not be sent.
    FileFailed { file_id: String, reason: ApiError },
    /// Tell the receiver that the session is over.
    NotifyCancel { session_id: String },
    /// Tell the controller that the transfer has ended.
    Finished { state: TransferState, error: Option<ApiError> },
}

#[verifier::ext_equal]
pub enum RunEffectView {
    SendOffer,
    FillProgress,
    Prepared { session_id: Seq<char>, accepted: Seq<Seq<char>> },
    CheckCancelled,
    Upload { file_id: Seq<char>, token: Seq<char> },
    FileCompleted { file_id: Seq<char>, size: u64 },
    FileFailed { file_id: Seq<char>, reason: rpc::ApiErrorView },
    NotifyCancel { session_id: Seq<char> },
    Finished { state: TransferState, error: Option<rpc::ApiErrorView> },
}

impl View for RunEffect {
    type V = RunEffectView;

    open spec fn view(&self) -> RunEffectView {
        match self {
            RunEffect::SendOffer => RunEffectView::SendOffer,
            RunEffect::FillProgress => RunEffectView::FillProgress,
            RunEffect::Prepared { session_id, accepted } => RunEffectView::Prepared {
                session_id: session_id@,
                accepted: text::texts(accepted@),
            },
            RunEffect::CheckCancelled => RunEffectView::CheckCancelled,
            RunEffect::Upload { file_id, token } => RunEffectView::Upload {
                file_id: file_id@,
                token: token@,
            },
            RunEffect::FileCompleted { file_id, size } => RunEffectView::FileCompleted {
                file_id: file_id@,
                size: *size,
            },
            RunEffect::FileFailed { file_id, reason } => RunEffectView::FileFailed {
                file_id: file_id@,
                reason: reason@,
            },
            RunEffect::NotifyCancel { session_id } => RunEffectView::NotifyCancel {
                session_id: session_id@,
            },
            RunEffect::Finished { state, error } => RunEffectView::Finished {
                state: *state,
                error: rpc::opt_error(*error),
            },
        }
    }
}

/// An outgoing transfer under way.
#[derive(Debug)]
pub struct OutgoingRun {
    offer: FileMap,
    stage: RunStage,
    session_id: String,
    queue: Vec<QueuedFile>,
    next: usize,
}

#[verifier::ext_equal]
pub struct RunView {
    /// What is offered.
    pub offer: Seq<model::EntryView>,
    pub stage: RunStage,
    /// The session of the receiver.
    pub session_id: Seq<char>,
    /// The files that the receiver takes, in the order in which they are sent.
    pub queue: Seq<QueuedView>,
    /// How many files were sent.
    pub next: nat,
}

impl View for OutgoingRun {
    type V = RunView;

    closed spec fn view(&self) -> RunView {
        RunView {
            offer: self.offer@,
            stage: self.stage,
            session_id: self.session_id@,
            queue: order::views(self.queue@),
            next: self.next as nat,
        }
    }
}

/// The state of a transfer that is consistent.
pub open spec fn is_sound(run: RunView) -> bool {
    &&& run.next <= run.queue.len()
    &&& run.stage == RunStage::Checking || run.stage == RunStage::Uploading ==> run.next
        < run.queue.len()
    &&& run.stage == RunStage::Connecting || run.stage == RunStage::Offering ==> run.queue.len()
        == 0
}

pub open spec fn finished(state: TransferState, error: Option<rpc::ApiErrorView>) -> RunEffectView {
    RunEffectView::Finished { state, error }
}

/// The beginning of a transfer of items.
pub open spec fn begun(items: Seq<files::ItemView>) -> RunView {
    RunView {
        offer: offer_of(items),
        stage: RunStage::Connecting,
        session_id: Seq::empty(),
        queue: Seq::empty(),
        next: 0,
    }
}

pub open spec fn ended(run: RunView) -> RunView {
    RunView { stage: RunStage::Ended, ..run }
}

/// The identifiers of files.
pub open spec fn ids_of(list: Seq<QueuedView>) -> Seq<Seq<char>> {
    Seq::new(list.len(), |i: int| list[i].id)
}

/// What the answer of the receiver comes to. Without an answer, a text that the offer held in full
/// has arrived; else the offer was declined. So it was where no offered file is taken.
pub open spec fn answered(run: RunView, reply: Option<ReplyView>) -> (RunView, Seq<RunEffectView>) {
    match reply {
        None => if offer::embedded_text(run.offer) is Some {
            (
                ended(run),
                seq![RunEffectView::FillProgress, finished(TransferState::Completed, None)],
            )
        } else {
            (ended(run), seq![finished(TransferState::Declined, None)])
        },
        Some(reply) => {
            let accepted = accepted_files(run.offer, reply.tokens);
            if accepted.len() == 0 {
                (ended(run), seq![finished(TransferState::Declined, None)])
            } else {
                let queue = order::stable_sort(accepted);
                (
                    RunView {
                        stage: RunStage::Checking,
                        session_id: reply.session_id,
                        queue,
                        ..run
                    },
                    seq![
                        RunEffectView::Prepared {
                            session_id: reply.session_id,
                            accepted: ids_of(queue),
                        },
                        RunEffectView::CheckCancelled,
                    ],
                )
            }
        },
    }
}

/// How a transfer ends that was cancelled: the receiver is told unless it was the receiver.
pub open spec fn cancelled_effects(run: RunView, by_peer: bool) -> Seq<RunEffectView> {
    if by_peer {
        seq![finished(TransferState::Cancelled, None)]
    } else {
        seq![
            RunEffectView::NotifyCancel { session_id: run.session_id },
            finished(TransferState::Cancelled, None),
        ]
    }
}

/// How a transfer ends that failed at the next file: the receiver is told.
pub open spec fn failed_effects(run: RunView, error: rpc::ApiErrorView) -> Seq<RunEffectView> {
    seq![
        RunEffectView::FileFailed { file_id: run.queue[run.next as int].id, reason: error },
        RunEffectView::NotifyCancel { session_id: run.session_id },
        finished(TransferState::Failed, Some(error)),
    ]
}

pub open spec fn upload_error(name: Seq<char>) -> rpc::ApiErrorView {
    rpc::api_error("upload_failed"@, "Could not upload "@ + name)
}

/// How a transfer goes on after an event, and what it does.
pub open spec fn advanced(run: RunView, event: RunEventView) -> (RunView, Seq<RunEffectView>) {
    match event {
        RunEventView::Connected => (
            RunView { stage: RunStage::Offering, ..run },
            seq![RunEffectView::SendOffer],
        ),
        RunEventView::ConnectFailed => (
            ended(run),
            seq![
                finished(
                    TransferState::Failed,
                    Some(
                        rpc::api_error(
                            "tls_client_error"@,
                            "Could not initialize the LocalSend TLS client"@,
                        ),
                    ),
                ),
            ],
        ),
        RunEventView::Answered { reply } => answered(run, reply),
        RunEventView::OfferFailed { failure } => if failure == ClientFailure::Cancelled {
            (ended(run), seq![finished(TransferState::Cancelled, None)])
        } else if failure == (ClientFailure::Status { code: 403 }) {
            (ended(run), seq![finished(TransferState::Declined, None)])
        } else {
            (ended(run), seq![finished(TransferState::Failed, Some(offer_error(failure)))])
        },
        RunEventView::Checked { cancelled, by_peer } => if cancelled {
            (ended(run), cancelled_effects(run, by_peer))
        } else {
            let file = run.queue[run.next as int];
            (
                RunView { stage: RunStage::Uploading, ..run },
                seq![RunEffectView::Upload { file_id: file.id, token: file.token }],
            )
        },
        RunEventView::SourceFailed { error } => (ended(run), failed_effects(run, error)),
        RunEventView::Uploaded => {
            let file = run.queue[run.next as int];
            let completed = RunEffectView::FileCompleted { file_id: file.id, size: file.size };
            let sent = RunView { next: run.next + 1, ..run };
            if sent.next < run.queue.len() {
                (
                    RunView { stage: RunStage::Checking, ..sent },
                    seq![completed, RunEffectView::CheckCancelled],
                )
            } else {
                (ended(sent), seq![completed, finished(TransferState::Completed, None)])
            }
        },
        RunEventView::UploadFailed { failure, by_peer } => if failure
            == ClientFailure::Cancelled {
            (ended(run), cancelled_effects(run, by_peer))
        } else {
            (
                ended(run),
                failed_effects(run, upload_error(run.queue[run.next as int].name)),
            )
        },
    }
}

fn one(effect: RunEffect) -> (list: Vec<RunEffect>)
    ensures
        order::views(list@) == seq![effect@],
{
    let mut list: Vec<RunEffect> = Vec::new();
    list.push(effect);
    assert(order::views(list@) =~= seq![effect@]);
    list
}

fn two(first: RunEffect, second: RunEffect) -> (list: Vec<RunEffect>)
    ensures
        order::views(list@) == seq![first@, second@],
{
    let mut list: Vec<RunEffect> = Vec::new();
    list.push(first);
    list.push(second);
    assert(order::views(list@) =~= seq![first@, second@]);
    list
}

fn three(first: RunEffect, second: RunEffect, third: RunEffect) -> (list: Vec<RunEffect>)
    ensures
        order::views(list@) == seq![first@, second@, third@],
{
    let mut list: Vec<RunEffect> = Vec::new();
    list.push(first);
    list.push(second);
    list.push(third);
    assert(order::views(list@) =~= seq![first@, second@, third@]);
    list
}

fn end_with(state: TransferState, error: Option<ApiError>) -> (list: Vec<RunEffect>)
    ensures
        order::views(list@) == seq![finished(state, rpc::opt_error(error))],
{
    one(RunEffect::Finished { state, error })
}

fn collect_ids(queue: &Vec<QueuedFile>) -> (list: Vec<String>)
    ensures
        text::texts(list@) == ids_of(order::views(queue@)),
{
    let ghost all = ids_of(order::views(queue@));
    let mut list: Vec<String> = Vec::new();
    for i in 0..queue.len()
        invariant
            all == ids_of(order::views(queue@)),
            text::texts(list@) == all.take(i as int),
    {
        let ghost before = text::texts(list@);
        list.push(queue[i].id.clone());
        proof {
            assert(all[i as int] == queue@[i as int].id@);
            assert(text::texts(list@) =~= before.push(list@.last()@));
            assert(all.take(i + 1) =~= all.take(i as int).push(all[i as int]));
        }
    }
    assert(all.take(queue@.len() as int) =~= all);
    list
}

impl OutgoingRun {
    pub open spec fn wf(&self) -> bool {
        is_sound(self@)
    }

    /// Begins to send items.
    pub fn begin(items: &Vec<OutgoingItem>) -> (run: OutgoingRun)
        ensures
            run@ == begun(order::views(items@)),
            run.wf(),
    {
        let run = OutgoingRun {
            offer: make_offer(items),
            stage: RunStage::Connecting,
            session_id: String::new(),
            queue: Vec::new(),
            next: 0,
        };
        assert(run@ =~= begun(order::views(items@)));
        run
    }

    /// What is offered to the receiver.
    pub fn offer(&self) -> (offer: &FileMap)
        ensures
            offer@ == self@.offer,
    {
        &self.offer
    }

    pub fn has_ended(&self) -> (r: bool)
        ensures
            r == (self@.stage == RunStage::Ended),
    {
        self.stage == RunStage::Ended
    }

    fn take_reply(&mut self, reply: Option<OfferReply>) -> (effects: Vec<RunEffect>)
        requires
            old(self).wf(),
            old(self)@.stage == RunStage::Offering,
        ensures
            (final(self)@, order::views(effects@)) == answered(
                old(self)@,
                match reply {
                    Some(reply) => Some(reply@),
                    None => None,
                },
            ),
            final(self).wf(),
    {
        match reply {
            None => {
                self.stage = RunStage::Ended;
                if offer::embedded_message(&self.offer).is_some() {
                    two(
                        RunEffect::FillProgress,
                        RunEffect::Finished { state: TransferState::Completed, error: None },
                    )
                } else {
                    end_with(TransferState::Declined, None)
                }
            },
            Some(reply) => {
                let accepted = accept_tokens(&self.offer, &reply.tokens);
                if accepted.len() == 0 {
                    self.stage = RunStage::Ended;
                    end_with(TransferState::Declined, None)
                } else {
                    proof {
                        order::lemma_stable_sort(order::views(accepted@));
                    }
                    self.queue = order::sort_list(accepted);
                    self.stage = RunStage::Checking;
                    self.session_id = reply.session_id.clone();
                    let ids = collect_ids(&self.queue);
                    proof {
                        assert(self.queue@.len() == order::views(self.queue@).len());
                    }
                    two(
                        RunEffect::Prepared { session_id: reply.session_id, accepted: ids },
                        RunEffect::CheckCancelled,
                    )
                }
            },
        }
    }

    fn cancel(&mut self, by_peer: bool) -> (effects: Vec<RunEffect>)
        requires
            old(self).wf(),
        ensures
            final(self)@ == ended(old(self)@),
            order::views(effects@) == cancelled_effects(old(self)@, by_peer),
            final(self).wf(),
    {
        self.stage = RunStage::Ended;
        if by_peer {
            end_with(TransferState::Cancelled, None)
        } else {
            two(
                RunEffect::NotifyCancel { session_id: self.session_id.clone() },
                RunEffect::Finished { state: TransferState::Cancelled, error: None },
            )
        }
    }

    fn fail(&mut self, error: ApiError) -> (effects: Vec<RunEffect>)
        requires
            old(self).wf(),
            old(self)@.stage == RunStage::Uploading,
        ensures
            final(self)@ == ended(old(self)@),
            order::views(effects@) == failed_effects(old(self)@, error@),
            final(self).wf(),
    {
        self.stage = RunStage::Ended;
        assert(order::views(self.queue@)[self.next as int] == self.queue@[self.next as int]@);
        three(
            RunEffect::FileFailed {
                file_id: self.queue[self.next].id.clone(),
                reason: error.clone(),
            },
            RunEffect::NotifyCancel { session_id: self.session_id.clone() },
            RunEffect::Finished { state: TransferState::Failed, error: Some(error) },
        )
    }

    /// Takes what came of what was asked for, and says what is to be done.
    pub fn advance(&mut self, event: RunEvent) -> (effects: Vec<RunEffect>)
        requires
            old(self).wf(),
            answers(old(self)@.stage, event@),
        ensures
            (final(self)@, order::views(effects@)) == advanced(old(self)@, event@),
            final(self).wf(),
    {
        match event {
            RunEvent::Connected => {
                self.stage = RunStage::Offering;
                one(RunEffect::SendOffer)
            },
            RunEvent::ConnectFailed => {
                self.stage = RunStage::Ended;
                end_with(
                    TransferState::Failed,
                    Some(
                        ApiError::new(
                            "tls_client_error",
                            "Could not initialize the LocalSend TLS client",
                        ),
                    ),
                )
            },
            RunEvent::Answered { reply } => self.take_reply(reply),
            RunEvent::OfferFailed { failure } => {
                self.stage = RunStage::Ended;
                match failure {
                    ClientFailure::Cancelled => end_with(TransferState::Cancelled, None),
                    ClientFailure::Status { code } => if code == 403 {
                        end_with(TransferState::Declined, None)
                    } else {
                        end_with(TransferState::Failed, Some(prepare_error(failure)))
                    },
                    _ => end_with(TransferState::Failed, Some(prepare_error(failure))),
                }
            },
            RunEvent::Checked { cancelled, by_peer } => {
                if cancelled {
                    return self.cancel(by_peer);
                }
                self.stage = RunStage::Uploading;
                let file = &self.queue[self.next];
                assert(order::views(self.queue@)[self.next as int] == file@);
                one(RunEffect::Upload { file_id: file.id.clone(), token: file.token.clone() })
            },
            RunEvent::SourceFailed { error } => self.fail(error),
            RunEvent::Uploaded => {
                let file = &self.queue[self.next];
                assert(order::views(self.queue@)[self.next as int] == file@);
                let completed = RunEffect::FileCompleted {
                    file_id: file.id.clone(),
                    size: file.size,
                };
                let count: usize = self.queue.len();
                self.next = self.next + 1;
                if self.next < count {
                    self.stage = RunStage::Checking;
                    two(completed, RunEffect::CheckCancelled)
                } else {
                    self.stage = RunStage::Ended;
                    two(
                        completed,
                        RunEffect::Finished { state: TransferState::Completed, error: None },
                    )
                }
            },
            RunEvent::UploadFailed { failure, by_peer } => match failure {
                ClientFailure::Cancelled => self.cancel(by_peer),
                _ => {
                    let file = &self.queue[self.next];
                    assert(order::views(self.queue@)[self.next as int] == file@);
                    let message = text::join2("Could not upload ", file.name.as_str());
                    self.fail(ApiError::new("upload_failed", message.as_str()))
                },
            },
        }
    }
}

/// How often effects tell the controller that the transfer has ended.
pub open spec fn count_finished(effects: Seq<RunEffectView>) -> nat
    decreases effects.len(),
{
    if effects.len() == 0 {
        0
    } else {
        count_finished(effects.drop_last()) + (if effects.last() is Finished {
            1nat
        } else {
            0nat
        })
    }
}

/// A transfer tells the controller that it has ended exactly when it ends, once, last of all and
/// with a state that is final. A transfer that goes on asks for something as the last of all.
pub proof fn lemma_ends_once(run: RunView, event: RunEventView)
    requires
        is_sound(run),
        answers(run.stage, event),
    ensures
        ({
            let (next, effects) = advanced(run, event);
            &&& is_sound(next)
            &&& effects.len() > 0
            &&& count_finished(effects) == (if next.stage == RunStage::Ended {
                1nat
            } else {
                0nat
            })
            &&& next.stage == RunStage::Ended ==> effects.last() is Finished && rpc::is_terminal(
                effects.last()->Finished_state,
            )
            &&& next.stage == RunStage::Offering ==> effects.last() is SendOffer
            &&& next.stage == RunStage::Checking ==> effects.last() is CheckCancelled
            &&& next.stage == RunStage::Uploading ==> effects.last() is Upload
        }),
{
    reveal_with_fuel(count_finished, 4);
    let (next, effects) = advanced(run, event);
    if event is Answered {
        match event->reply {
            Some(reply) => {
                order::lemma_stable_sort(accepted_files(run.offer, reply.tokens));
            },
            None => {},
        }
    }
    if effects.len() == 2 {
        assert(effects.drop_last() =~= seq![effects[0]]);
        assert(effects.drop_last().drop_last() =~= Seq::<RunEffectView>::empty());
    } else if effects.len() == 3 {
        assert(effects.drop_last() =~= seq![effects[0], effects[1]]);
        assert(effects.drop_last().drop_last() =~= seq![effects[0]]);
    } else {
        assert(effects.drop_last() =~= Seq::<RunEffectView>::empty());
    }
}

/// Most events that are left to a transfer that sends files.
pub open spec fn steps_left(run: RunView) -> nat {
    match run.stage {
        RunStage::Checking => (2 * (run.queue.len() - run.next)) as nat,
        RunStage::Uploading => (2 * (run.queue.len() - run.next) - 1) as nat,
        _ => 0,
    }
}

/// The offer, the session and the files stay the same while files are sent, and the files that were
/// sent count up one by one. What is done is done for the next file, and with every event the end
/// comes closer.
pub proof fn lemma_sends_in_order(run: RunView, event: RunEventView)
    requires
        is_sound(run),
        answers(run.stage, event),
        run.stage == RunStage::Checking || run.stage == RunStage::Uploading,
    ensures
        ({
            let (next, effects) = advanced(run, event);
            &&& next.offer == run.offer
            &&& next.session_id == run.session_id
            &&& next.queue == run.queue
            &&& next.next == (if event is Uploaded {
                run.next + 1
            } else {
                run.next
            })
            &&& steps_left(next) < steps_left(run)
            &&& forall|i: int|
                #![trigger effects[i]]
                0 <= i < effects.len() ==> {
                    &&& effects[i] is Upload ==> effects[i]->Upload_file_id
                        == run.queue[run.next as int].id
                    &&& effects[i] is FileCompleted ==> event is Uploaded
                        && effects[i]->FileCompleted_file_id == run.queue[run.next as int].id
                    &&& effects[i] is FileFailed ==> effects[i]->FileFailed_file_id
                        == run.queue[run.next as int].id
                }
        }),
{
}

/// A transfer is completed only when every file that the receiver took was sent, or when the offer
/// held all there was to send.
pub proof fn lemma_completed_means_sent(run: RunView, event: RunEventView)
    requires
        is_sound(run),
        answers(run.stage, event),
        advanced(run, event).1.last() == finished(TransferState::Completed, None),
    ensures
        (event is Uploaded && advanced(run, event).0.next == run.queue.len()) || (
        offer::embedded_text(run.offer) is Some && event == (RunEventView::Answered {
            reply: None,
        })),
{
}

/// The receiver hears of every end that it did not bring about after it had taken files: it is told
/// that the session is over unless all files were sent or it cancelled itself.
pub proof fn lemma_receiver_is_told(run: RunView, event: RunEventView)
    requires
        is_sound(run),
        answers(run.stage, event),
        run.stage == RunStage::Checking || run.stage == RunStage::Uploading,
        advanced(run, event).0.stage == RunStage::Ended,
        !(event is Uploaded),
        !(event is Checked && event->Checked_by_peer),
        !(event is UploadFailed && event->UploadFailed_by_peer && event->UploadFailed_failure
            == ClientFailure::Cancelled),
    ensures
        advanced(run, event).1.contains(
            RunEffectView::NotifyCancel { session_id: run.session_id },
        ),
{
    let effects = advanced(run, event).1;
    if event is Checked || (event is UploadFailed && event->UploadFailed_failure
        == ClientFailure::Cancelled) {
        assert(effects[0] == (RunEffectView::NotifyCancel { session_id: run.session_id }));
    } else {
        assert(effects[1] == (RunEffectView::NotifyCancel { session_id: run.session_id }));
    }
}

} // verus!
