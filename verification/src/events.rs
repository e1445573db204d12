//! What happens to the controller, and what the controller has others do.
use crate::model;
use crate::model::{DeviceType, HttpChannel, RegisterDto, SenderTarget};
use crate::filemap::FileMap;
use crate::files;
use crate::files::OutgoingItem;
use crate::order;
use crate::rpc;
use crate::rpc::{ApiError, Snapshot, TransferSnapshot, TransferState};
use crate::text;
use crate::transfer::IncomingEnd;
use vstd::prelude::*;

verus! {

/// What the receiver reports.
#[derive(Debug)]
pub enum ServerEvent {
    /// A device registered.
    Register { host: String, info: RegisterDto },
    /// A peer offers files, with the fingerprint of the certificate that it showed.
    PrepareUpload {
        session_id: String,
        host: String,
        info: RegisterDto,
        cert_fingerprint: Option<String>,
        files: FileMap,
    },
    /// A peer starts to send a file.
    FileUpload { session_id: String, file_id: String },
    /// A session came to its end.
    SessionEnd { session_id: String, reason: IncomingEnd },
    /// A peer withdrew its offer.
    PrepareUploadAborted { session_id: String },
    /// A peer cancelled a transfer that goes to it.
    CancelReceived { host: String, session_id: String },
    /// The receiver stopped.
    ListenerFailed { error: String },
}

#[verifier::ext_equal]
pub enum ServerEventView {
    Register { host: Seq<char>, info: model::RegisterView },
    PrepareUpload {
        session_id: Seq<char>,
        host: Seq<char>,
        info: model::RegisterView,
        cert_fingerprint: Option<Seq<char>>,
        files: Seq<model::EntryView>,
    },
    FileUpload { session_id: Seq<char>, file_id: Seq<char> },
    SessionEnd { session_id: Seq<char>, reason: IncomingEnd },
    PrepareUploadAborted { session_id: Seq<char> },
    CancelReceived { host: Seq<char>, session_id: Seq<char> },
    ListenerFailed { error: Seq<char> },
}

impl View for ServerEvent {
    type V = ServerEventView;

    open spec fn view(&self) -> ServerEventView {
        match self {
            ServerEvent::Register { host, info } => ServerEventView::Register {
                host: host@,
                info: info@,
            },
            ServerEvent::PrepareUpload { session_id, host, info, cert_fingerprint, files } => {
                ServerEventView::PrepareUpload {
                    session_id: session_id@,
                    host: host@,
                    info: info@,
                    cert_fingerprint: text::opt_text(*cert_fingerprint),
                    files: files@,
                }
            },
            ServerEvent::FileUpload { session_id, file_id } => ServerEventView::FileUpload {
                session_id: session_id@,
                file_id: file_id@,
            },
            ServerEvent::SessionEnd { session_id, reason } => ServerEventView::SessionEnd {
                session_id: session_id@,
                reason: *reason,
            },
            ServerEvent::PrepareUploadAborted { session_id } => {
                ServerEventView::PrepareUploadAborted { session_id: session_id@ }
            },
            ServerEvent::CancelReceived { host, session_id } => ServerEventView::CancelReceived {
                host: host@,
                session_id: session_id@,
            },
            ServerEvent::ListenerFailed { error } => ServerEventView::ListenerFailed {
                error: error@,
            },
        }
    }
}

/// What tasks of the controller report.
#[derive(Debug)]
pub enum InternalEvent {
    /// A refresh of the devices ended, completely or not.
    RefreshFinished { id: String, completed: bool },
    /// The receiver takes files.
    OutgoingPrepared { transfer_id: String, session_id: String, accepted: Vec<String> },
    OutgoingFileStarted { transfer_id: String, file_id: String },
    OutgoingFileCompleted { transfer_id: String, file_id: String },
    OutgoingFileFailed { transfer_id: String, file_id: String, reason: ApiError },
    OutgoingFinished { transfer_id: String, state: TransferState, error: Option<ApiError> },
    /// A file was stored, or could not be.
    IncomingFileResult { transfer_id: String, file_id: String, stored: bool },
}

#[verifier::ext_equal]
pub enum InternalEventView {
    RefreshFinished { id: Seq<char>, completed: bool },
    OutgoingPrepared {
        transfer_id: Seq<char>,
        session_id: Seq<char>,
        accepted: Seq<Seq<char>>,
    },
    OutgoingFileStarted { transfer_id: Seq<char>, file_id: Seq<char> },
    OutgoingFileCompleted { transfer_id: Seq<char>, file_id: Seq<char> },
    OutgoingFileFailed {
        transfer_id: Seq<char>,
        file_id: Seq<char>,
        reason: rpc::ApiErrorView,
    },
    OutgoingFinished {
        transfer_id: Seq<char>,
        state: TransferState,
        error: Option<rpc::ApiErrorView>,
    },
    IncomingFileResult { transfer_id: Seq<char>, file_id: Seq<char>, stored: bool },
}

impl View for InternalEvent {
    type V = InternalEventView;

    open spec fn view(&self) -> InternalEventView {
        match self {
            InternalEvent::RefreshFinished { id, completed } => {
                InternalEventView::RefreshFinished { id: id@, completed: *completed }
            },
            InternalEvent::OutgoingPrepared { transfer_id, session_id, accepted } => {
                InternalEventView::OutgoingPrepared {
                    transfer_id: transfer_id@,
                    session_id: session_id@,
                    accepted: text::texts(accepted@),
                }
            },
            InternalEvent::OutgoingFileStarted { transfer_id, file_id } => {
                InternalEventView::OutgoingFileStarted {
                    transfer_id: transfer_id@,
                    file_id: file_id@,
                }
            },
            InternalEvent::OutgoingFileCompleted { transfer_id, file_id } => {
                InternalEventView::OutgoingFileCompleted {
                    transfer_id: transfer_id@,
                    file_id: file_id@,
                }
            },
            InternalEvent::OutgoingFileFailed { transfer_id, file_id, reason } => {
                InternalEventView::OutgoingFileFailed {
                    transfer_id: transfer_id@,
                    file_id: file_id@,
                    reason: reason@,
                }
            },
            InternalEvent::OutgoingFinished { transfer_id, state, error } => {
                InternalEventView::OutgoingFinished {
                    transfer_id: transfer_id@,
                    state: *state,
                    error: rpc::opt_error(*error),
                }
            },
            InternalEvent::IncomingFileResult { transfer_id, file_id, stored } => {
                InternalEventView::IncomingFileResult {
                    transfer_id: transfer_id@,
                    file_id: file_id@,
                    stored: *stored,
                }
            },
        }
    }
}

/// What discovery reports.
#[derive(Clone, Copy, Debug, PartialEq, Eq, Structural)]
pub enum DiscoveryEvent {
    /// Multicast stopped working.
    MulticastFailed,
    /// Something about a device, which discovery itself keeps.
    DeviceChanged,
}

/// A device that showed itself at an address.
#[derive(Debug)]
pub struct ConfirmedDevice {
    pub alias: String,
    pub version: String,
    pub device_model: Option<String>,
    pub device_type: Option<DeviceType>,
    pub fingerprint: String,
    pub channel: HttpChannel,
    pub download: bool,
}

#[verifier::ext_equal]
pub struct ConfirmedView {
    pub alias: Seq<char>,
    pub version: Seq<char>,
    pub device_model: Option<Seq<char>>,
    pub device_type: Option<DeviceType>,
    pub fingerprint: Seq<char>,
    pub channel: model::ChannelView,
    pub download: bool,
}

impl View for ConfirmedDevice {
    type V = ConfirmedView;

    open spec fn view(&self) -> ConfirmedView {
        ConfirmedView {
            alias: self.alias@,
            version: self.version@,
            device_model: text::opt_text(self.device_model),
            device_type: self.device_type,
            fingerprint: self.fingerprint@,
            channel: self.channel@,
            download: self.download,
        }
    }
}

/// What the controller has others do.
#[derive(Debug)]
pub enum Effect {
    /// Tell discovery of a device.
    ConfirmDevice { device: ConfirmedDevice },
    /// Decline the offer that was just made.
    DeclineOffer,
    /// Keep the offer that was just made for a decision.
    HoldOffer,
    /// Forget the offer that was kept for a decision.
    DropOffer,
    /// Store a file at a path, counting from nothing, and report the result.
    StoreFile { session_id: String, file_id: String, path: String },
    RemoveFile { path: String },
    /// Stop the outgoing transfer; the receiver asked for it.
    CancelOutgoing,
    /// Answer no more announcements.
    StopAnswering,
}

#[verifier::ext_equal]
pub enum EffectView {
    ConfirmDevice { device: ConfirmedView },
    DeclineOffer,
    HoldOffer,
    DropOffer,
    StoreFile { session_id: Seq<char>, file_id: Seq<char>, path: Seq<char> },
    RemoveFile { path: Seq<char> },
    CancelOutgoing,
    StopAnswering,
}

impl View for Effect {
    type V = EffectView;

    open spec fn view(&self) -> EffectView {
        match self {
            Effect::ConfirmDevice { device } => EffectView::ConfirmDevice { device: device@ },
            Effect::DeclineOffer => EffectView::DeclineOffer,
            Effect::HoldOffer => EffectView::HoldOffer,
            Effect::DropOffer => EffectView::DropOffer,
            Effect::StoreFile { session_id, file_id, path } => EffectView::StoreFile {
                session_id: session_id@,
                file_id: file_id@,
                path: path@,
            },
            Effect::RemoveFile { path } => EffectView::RemoveFile { path: path@ },
            Effect::CancelOutgoing => EffectView::CancelOutgoing,
            Effect::StopAnswering => EffectView::StopAnswering,
        }
    }
}

/// Removals of files, in order.
pub open spec fn removals(paths: Seq<Seq<char>>) -> Seq<EffectView> {
    Seq::new(paths.len(), |i: int| EffectView::RemoveFile { path: paths[i] })
}

pub fn remove_all(paths: Vec<String>) -> (effects: Vec<Effect>)
    ensures
        order::views(effects@) == removals(text::texts(paths@)),
{
    let ghost all = removals(text::texts(paths@));
    let mut effects: Vec<Effect> = Vec::new();
    for i in 0..paths.len()
        invariant
            all == removals(text::texts(paths@)),
            order::views(effects@) == all.take(i as int),
    {
        let ghost before = order::views(effects@);
        effects.push(Effect::RemoveFile { path: paths[i].clone() });
        proof {
            assert(text::texts(paths@)[i as int] == paths@[i as int]@);
            assert(order::views(effects@) =~= before.push(effects@.last()@));
            assert(all.take(i + 1) =~= all.take(i as int).push(all[i as int]));
        }
    }
    assert(all.take(paths@.len() as int) =~= all);
    effects
}

pub fn no_effects() -> (effects: Vec<Effect>)
    ensures
        order::views(effects@) == Seq::<EffectView>::empty(),
{
    let effects: Vec<Effect> = Vec::new();
    assert(order::views(effects@) =~= Seq::<EffectView>::empty());
    effects
}

pub fn one_effect(effect: Effect) -> (effects: Vec<Effect>)
    ensures
        order::views(effects@) == seq![effect@],
{
    let mut effects: Vec<Effect> = Vec::new();
    effects.push(effect);
    assert(order::views(effects@) =~= seq![effect@]);
    effects
}

/// An outgoing transfer that begins.
#[derive(Debug)]
pub struct Launch {
    pub transfer: TransferSnapshot,
    pub channel: HttpChannel,
    /// The fingerprint that the receiver must show, where it must show one.
    pub expected_fingerprint: Option<String>,
}

#[verifier::ext_equal]
pub struct LaunchView {
    pub transfer: rpc::TransferView,
    pub channel: model::ChannelView,
    pub expected_fingerprint: Option<Seq<char>>,
}

impl View for Launch {
    type V = LaunchView;

    open spec fn view(&self) -> LaunchView {
        LaunchView {
            transfer: self.transfer@,
            channel: self.channel@,
            expected_fingerprint: text::opt_text(self.expected_fingerprint),
        }
    }
}

/// A file for which a place is to be reserved.
#[derive(Debug)]
pub struct WantedFile {
    pub id: String,
    pub name: String,
}

#[verifier::ext_equal]
pub struct WantedView {
    pub id: Seq<char>,
    pub name: Seq<char>,
}

impl View for WantedFile {
    type V = WantedView;

    open spec fn view(&self) -> WantedView {
        WantedView { id: self.id@, name: self.name@ }
    }
}

/// Places are reserved in the order of the names, and of the identifiers where names are equal.
impl order::Ranked for WantedView {
    open spec fn precedes(self, other: Self) -> bool {
        order::pair_before(self.name, self.id, other.name, other.id)
    }

    proof fn precedes_asymmetric(a: Self, b: Self) {
        order::lemma_pair_before_asymmetric(a.name, a.id, b.name, b.id);
    }

    proof fn follows_transitive(a: Self, b: Self, c: Self) {
        order::lemma_pair_follows_transitive(a.name, a.id, b.name, b.id, c.name, c.id);
    }
}

impl order::Sortable for WantedFile {
    fn is_before(&self, other: &Self) -> bool {
        order::pair_precedes(
            self.name.as_str(),
            self.id.as_str(),
            other.name.as_str(),
            other.id.as_str(),
        )
    }
}

/// A place that was reserved for a file.
#[derive(Debug)]
pub struct ReservedFile {
    pub id: String,
    pub path: Vec<u8>,
}

#[verifier::ext_equal]
pub struct ReservedView {
    pub id: Seq<char>,
    pub path: Seq<u8>,
}

impl View for ReservedFile {
    type V = ReservedView;

    open spec fn view(&self) -> ReservedView {
        ReservedView { id: self.id@, path: self.path@ }
    }
}

/// What accepting a request takes.
#[derive(Debug)]
pub enum AcceptPlan {
    /// Copy the text that the offer holds to the clipboard.
    CopyText { message: String },
    /// Reserve places for files.
    ReserveFiles { wanted: Vec<WantedFile> },
}

#[verifier::ext_equal]
pub enum AcceptPlanView {
    CopyText { message: Seq<char> },
    ReserveFiles { wanted: Seq<WantedView> },
}

impl View for AcceptPlan {
    type V = AcceptPlanView;

    open spec fn view(&self) -> AcceptPlanView {
        match self {
            AcceptPlan::CopyText { message } => AcceptPlanView::CopyText { message: message@ },
            AcceptPlan::ReserveFiles { wanted } => AcceptPlanView::ReserveFiles {
                wanted: order::views(wanted@),
            },
        }
    }
}

/// A transfer that was told to stop.
#[derive(Debug)]
pub enum Cancellation {
    /// Stop the outgoing transfer.
    Outgoing { transfer: TransferSnapshot },
    /// End the session of the incoming transfer, tell the sender, and remove files.
    Incoming { transfer: TransferSnapshot, sender: SenderTarget, removed: Vec<Effect> },
}

#[verifier::ext_equal]
pub enum CancellationView {
    Outgoing { transfer: rpc::TransferView },
    Incoming {
        transfer: rpc::TransferView,
        sender: model::TargetView,
        removed: Seq<EffectView>,
    },
}

impl View for Cancellation {
    type V = CancellationView;

    open spec fn view(&self) -> CancellationView {
        match self {
            Cancellation::Outgoing { transfer } => CancellationView::Outgoing {
                transfer: transfer@,
            },
            Cancellation::Incoming { transfer, sender, removed } => CancellationView::Incoming {
                transfer: transfer@,
                sender: sender@,
                removed: order::views(removed@),
            },
        }
    }
}

/// What the controller does about a request.
#[derive(Debug)]
pub enum RpcAction {
    /// Say who is there.
    Pong { status: String, alias: String },
    /// Show the state.
    Show { snapshot: Snapshot },
    /// Name the refresh of the devices, and start it unless it is under way.
    Refresh { id: String, started: bool, addresses: Vec<HttpChannel> },
    /// Collect the files below paths, then report them for the device.
    Collect { device: String, paths: Vec<String> },
    /// Start to send items, and show the transfer.
    Start { launch: Launch, items: Vec<OutgoingItem> },
    /// Take the steps to accept the request that is pending.
    Accept { plan: AcceptPlan },
    /// Decline the request that is pending.
    Decline,
    /// Stop a transfer, and show it.
    Cancel { cancellation: Cancellation },
    /// Answer, then stop the daemon.
    Stop,
    /// Answer with an error.
    Fail { error: ApiError },
}

#[verifier::ext_equal]
pub enum RpcActionView {
    Pong { status: Seq<char>, alias: Seq<char> },
    Show { snapshot: rpc::SnapshotView },
    Refresh { id: Seq<char>, started: bool },
    Collect { device: Seq<char>, paths: Seq<Seq<char>> },
    Start { launch: LaunchView, items: Seq<files::ItemView> },
    Accept { plan: AcceptPlanView },
    Decline,
    Cancel { cancellation: CancellationView },
    Stop,
    Fail { error: rpc::ApiErrorView },
}

impl View for RpcAction {
    type V = RpcActionView;

    open spec fn view(&self) -> RpcActionView {
        match self {
            RpcAction::Pong { status, alias } => RpcActionView::Pong {
                status: status@,
                alias: alias@,
            },
            RpcAction::Show { snapshot } => RpcActionView::Show { snapshot: snapshot@ },
            RpcAction::Refresh { id, started, .. } => RpcActionView::Refresh {
                id: id@,
                started: *started,
            },
            RpcAction::Collect { device, paths } => RpcActionView::Collect {
                device: device@,
                paths: text::texts(paths@),
            },
            RpcAction::Start { launch, items } => RpcActionView::Start {
                launch: launch@,
                items: order::views(items@),
            },
            RpcAction::Accept { plan } => RpcActionView::Accept { plan: plan@ },
            RpcAction::Decline => RpcActionView::Decline,
            RpcAction::Cancel { cancellation } => RpcActionView::Cancel {
                cancellation: cancellation@,
            },
            RpcAction::Stop => RpcActionView::Stop,
            RpcAction::Fail { error } => RpcActionView::Fail { error: error@ },
        }
    }
}

} // verus!
