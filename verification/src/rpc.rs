//! Requests, responses and snapshots of the management interface.
use crate::order;
use crate::text;
use serde_json::Value;
use vstd::prelude::*;

verus! {

/// A JSON value, carried through unopened.
#[verifier::external_type_specification]
#[verifier::external_body]
pub struct ExValue(serde_json::Value);

/// The reason why a value could not be turned into JSON, carried through unopened.
#[verifier::external_type_specification]
#[verifier::external_body]
pub struct ExJsonError(serde_json::Error);

/// `Value::clone`, which `derive` wrote for the tree of a JSON value. Claimed: the copy is the same
/// value.
pub assume_specification[ <serde_json::Value as Clone>::clone ](value: &serde_json::Value) -> (copy:
    serde_json::Value)
    ensures
        copy == *value,
;

/// An error as callers of the management interface see it.
#[derive(Debug, PartialEq)]
pub struct ApiError {
    pub code: String,
    pub message: String,
    pub details: Option<Value>,
}

#[verifier::ext_equal]
pub struct ApiErrorView {
    pub code: Seq<char>,
    pub message: Seq<char>,
    pub details: Option<Value>,
}

impl View for ApiError {
    type V = ApiErrorView;

    open spec fn view(&self) -> ApiErrorView {
        ApiErrorView { code: self.code@, message: self.message@, details: self.details }
    }
}

/// The error with a code, a message and no details.
pub open spec fn api_error(code: Seq<char>, message: Seq<char>) -> ApiErrorView {
    ApiErrorView { code, message, details: None }
}

impl Clone for ApiError {
    fn clone(&self) -> (copy: Self)
        ensures
            copy == *self,
    {
        let details = match &self.details {
            Some(value) => Some(value.clone()),
            None => None,
        };
        ApiError { code: self.code.clone(), message: self.message.clone(), details }
    }
}

impl ApiError {
    pub fn new(code: &str, message: &str) -> (error: Self)
        ensures
            error@ == api_error(code@, message@),
    {
        ApiError { code: code.to_string(), message: message.to_string(), details: None }
    }
}

pub type ApiResult<T> = Result<T, ApiError>;

/// The model of an optional error.
pub open spec fn opt_error(error: Option<ApiError>) -> Option<ApiErrorView> {
    match error {
        Some(error) => Some(error@),
        None => None,
    }
}

/// What a check without a value of its own came to.
pub open spec fn verdict(result: ApiResult<()>) -> Result<(), ApiErrorView> {
    match result {
        Ok(_) => Ok(()),
        Err(error) => Err(error@),
    }
}

pub fn clone_opt_error(error: &Option<ApiError>) -> (copy: Option<ApiError>)
    ensures
        copy == *error,
{
    match error {
        Some(error) => Some(error.clone()),
        None => None,
    }
}

/// A request to the daemon.
#[derive(Clone, Debug)]
pub enum RpcRequest {
    Ping {  },
    Snapshot {  },
    Refresh {  },
    SendFiles { device: String, paths: Vec<String> },
    SendText { device: String, text: String },
    Accept { request: String },
    Decline { request: String },
    Cancel { transfer: String },
    Shutdown {  },
}

/// The answer to a request: a result or an error.
#[derive(Clone, Debug)]
pub struct RpcResponse {
    pub ok: bool,
    pub result: Option<Value>,
    pub error: Option<ApiError>,
}

#[verifier::ext_equal]
pub struct RpcResponseView {
    pub ok: bool,
    pub result: Option<Value>,
    pub error: Option<ApiErrorView>,
}

impl View for RpcResponse {
    type V = RpcResponseView;

    open spec fn view(&self) -> RpcResponseView {
        RpcResponseView { ok: self.ok, result: self.result, error: opt_error(self.error) }
    }
}

/// The response that carries a result.
pub open spec fn success_response(result: Value) -> RpcResponseView {
    RpcResponseView { ok: true, result: Some(result), error: None }
}

/// The response that carries an error.
pub open spec fn failure_response(error: ApiErrorView) -> RpcResponseView {
    RpcResponseView { ok: false, result: None, error: Some(error) }
}

/// A response carries a result or an error, never both, and says which.
pub open spec fn has_one_branch(response: RpcResponseView) -> bool {
    &&& response.ok == (response.result is Some)
    &&& response.ok == (response.error is None)
}

impl RpcResponse {
    /// The response to a request whose result was serialised, or could not be.
    pub fn success(result: Result<Value, serde_json::Error>) -> (response: Self)
        ensures
            response@ == (match result {
                Ok(value) => success_response(value),
                Err(_) => failure_response(
                    api_error("serialization_error"@, "Could not serialize the response"@),
                ),
            }),
            has_one_branch(response@),
    {
        match result {
            Ok(value) => RpcResponse { ok: true, result: Some(value), error: None },
            Err(_) => RpcResponse::failure(
                ApiError::new("serialization_error", "Could not serialize the response"),
            ),
        }
    }

    pub fn failure(error: ApiError) -> (response: Self)
        ensures
            response@ == failure_response(error@),
            has_one_branch(response@),
    {
        RpcResponse { ok: false, result: None, error: Some(error) }
    }

    /// The response to a request that came to a serialised result or to an error.
    pub fn from_result(result: ApiResult<Result<Value, serde_json::Error>>) -> (response: Self)
        ensures
            response@ == (match result {
                Ok(Ok(value)) => success_response(value),
                Ok(Err(_)) => failure_response(
                    api_error("serialization_error"@, "Could not serialize the response"@),
                ),
                Err(error) => failure_response(error@),
            }),
            has_one_branch(response@),
    {
        match result {
            Ok(value) => RpcResponse::success(value),
            Err(error) => RpcResponse::failure(error),
        }
    }
}

/// All that the daemon shows of itself.
#[derive(Clone, Debug)]
pub struct Snapshot {
    pub daemon: DaemonSnapshot,
    pub devices: Vec<DeviceSnapshot>,
    pub incoming: Option<IncomingRequestSnapshot>,
    pub transfers: Vec<TransferSnapshot>,
    pub error: Option<ControllerError>,
}

#[verifier::ext_equal]
pub struct SnapshotView {
    pub daemon: DaemonView,
    pub devices: Seq<DeviceView>,
    pub incoming: Option<RequestView>,
    pub transfers: Seq<TransferView>,
    pub error: Option<ControllerErrorView>,
}

impl View for Snapshot {
    type V = SnapshotView;

    open spec fn view(&self) -> SnapshotView {
        SnapshotView {
            daemon: self.daemon@,
            devices: order::views(self.devices@),
            incoming: match self.incoming {
                Some(request) => Some(request@),
                None => None,
            },
            transfers: order::views(self.transfers@),
            error: opt_controller_error(self.error),
        }
    }
}

#[derive(Clone, Debug)]
pub struct DaemonSnapshot {
    pub status: String,
    pub alias: String,
    pub fingerprint: String,
    pub port: u16,
    pub destination: String,
    pub socket: String,
    pub pid: u32,
    pub protocol_version: String,
    pub controller_version: String,
    pub started_at: String,
    pub refreshing: bool,
}

#[verifier::ext_equal]
pub struct DaemonView {
    pub status: Seq<char>,
    pub alias: Seq<char>,
    pub fingerprint: Seq<char>,
    pub port: u16,
    pub destination: Seq<char>,
    pub socket: Seq<char>,
    pub pid: u32,
    pub protocol_version: Seq<char>,
    pub controller_version: Seq<char>,
    pub started_at: Seq<char>,
    pub refreshing: bool,
}

impl View for DaemonSnapshot {
    type V = DaemonView;

    open spec fn view(&self) -> DaemonView {
        DaemonView {
            status: self.status@,
            alias: self.alias@,
            fingerprint: self.fingerprint@,
            port: self.port,
            destination: self.destination@,
            socket: self.socket@,
            pid: self.pid,
            protocol_version: self.protocol_version@,
            controller_version: self.controller_version@,
            started_at: self.started_at@,
            refreshing: self.refreshing,
        }
    }
}

/// The last thing that went wrong in the daemon.
#[derive(Debug)]
pub struct ControllerError {
    pub code: String,
    pub message: String,
    pub at: String,
}

#[verifier::ext_equal]
pub struct ControllerErrorView {
    pub code: Seq<char>,
    pub message: Seq<char>,
    pub at: Seq<char>,
}

impl View for ControllerError {
    type V = ControllerErrorView;

    open spec fn view(&self) -> ControllerErrorView {
        ControllerErrorView { code: self.code@, message: self.message@, at: self.at@ }
    }
}

impl Clone for ControllerError {
    fn clone(&self) -> (copy: Self)
        ensures
            copy == *self,
    {
        ControllerError {
            code: self.code.clone(),
            message: self.message.clone(),
            at: self.at.clone(),
        }
    }
}

pub open spec fn opt_controller_error(error: Option<ControllerError>) -> Option<
    ControllerErrorView,
> {
    match error {
        Some(error) => Some(error@),
        None => None,
    }
}

/// A device of the network as it is shown.
#[derive(Clone, Debug)]
pub struct DeviceSnapshot {
    pub fingerprint: String,
    pub alias: String,
    pub device_type: Option<String>,
    pub model: Option<String>,
    pub address: Option<AddressSnapshot>,
    pub online: bool,
    pub last_seen_at: Option<String>,
}

#[verifier::ext_equal]
pub struct DeviceView {
    pub fingerprint: Seq<char>,
    pub alias: Seq<char>,
    pub device_type: Option<Seq<char>>,
    pub model: Option<Seq<char>>,
    pub address: Option<AddressView>,
    pub online: bool,
    pub last_seen_at: Option<Seq<char>>,
}

impl View for DeviceSnapshot {
    type V = DeviceView;

    open spec fn view(&self) -> DeviceView {
        DeviceView {
            fingerprint: self.fingerprint@,
            alias: self.alias@,
            device_type: text::opt_text(self.device_type),
            model: text::opt_text(self.model),
            address: match self.address {
                Some(address) => Some(address@),
                None => None,
            },
            online: self.online,
            last_seen_at: text::opt_text(self.last_seen_at),
        }
    }
}

#[derive(Debug)]
pub struct AddressSnapshot {
    pub host: String,
    pub port: u16,
    pub protocol: String,
}

#[verifier::ext_equal]
pub struct AddressView {
    pub host: Seq<char>,
    pub port: u16,
    pub protocol: Seq<char>,
}

impl View for AddressSnapshot {
    type V = AddressView;

    open spec fn view(&self) -> AddressView {
        AddressView { host: self.host@, port: self.port, protocol: self.protocol@ }
    }
}

impl Clone for AddressSnapshot {
    fn clone(&self) -> (copy: Self)
        ensures
            copy == *self,
    {
        AddressSnapshot {
            host: self.host.clone(),
            port: self.port,
            protocol: self.protocol.clone(),
        }
    }
}

/// The other side of a transfer.
#[derive(Debug)]
pub struct PeerSnapshot {
    pub fingerprint: String,
    pub alias: String,
    pub device_type: Option<String>,
    pub model: Option<String>,
    pub address: AddressSnapshot,
}

#[verifier::ext_equal]
pub struct PeerView {
    pub fingerprint: Seq<char>,
    pub alias: Seq<char>,
    pub device_type: Option<Seq<char>>,
    pub model: Option<Seq<char>>,
    pub address: AddressView,
}

impl View for PeerSnapshot {
    type V = PeerView;

    open spec fn view(&self) -> PeerView {
        PeerView {
            fingerprint: self.fingerprint@,
            alias: self.alias@,
            device_type: text::opt_text(self.device_type),
            model: text::opt_text(self.model),
            address: self.address@,
        }
    }
}

impl Clone for PeerSnapshot {
    fn clone(&self) -> (copy: Self)
        ensures
            copy == *self,
    {
        PeerSnapshot {
            fingerprint: self.fingerprint.clone(),
            alias: self.alias.clone(),
            device_type: text::clone_opt(&self.device_type),
            model: text::clone_opt(&self.model),
            address: self.address.clone(),
        }
    }
}

/// A request of a peer to send files, waiting for a decision.
#[derive(Debug)]
pub struct IncomingRequestSnapshot {
    pub id: String,
    pub sender: PeerSnapshot,
    pub files: Vec<OfferedFileSnapshot>,
    pub total_bytes: u64,
    pub message_preview: Option<String>,
    pub message_preview_truncated: bool,
    pub received_at: String,
}

#[verifier::ext_equal]
pub struct RequestView {
    pub id: Seq<char>,
    pub sender: PeerView,
    pub files: Seq<OfferedView>,
    pub total_bytes: u64,
    pub message_preview: Option<Seq<char>>,
    pub message_preview_truncated: bool,
    pub received_at: Seq<char>,
}

impl View for IncomingRequestSnapshot {
    type V = RequestView;

    open spec fn view(&self) -> RequestView {
        RequestView {
            id: self.id@,
            sender: self.sender@,
            files: order::views(self.files@),
            total_bytes: self.total_bytes,
            message_preview: text::opt_text(self.message_preview),
            message_preview_truncated: self.message_preview_truncated,
            received_at: self.received_at@,
        }
    }
}

impl Clone for IncomingRequestSnapshot {
    fn clone(&self) -> (copy: Self)
        ensures
            copy@ == self@,
    {
        let mut files: Vec<OfferedFileSnapshot> = Vec::new();
        for i in 0..self.files.len()
            invariant
                files@ == self.files@.take(i as int),
        {
            files.push(self.files[i].clone());
            assert(self.files@.take(i + 1) =~= self.files@.take(i as int).push(self.files@[i as int]));
        }
        assert(files@ =~= self.files@);
        IncomingRequestSnapshot {
            id: self.id.clone(),
            sender: self.sender.clone(),
            files,
            total_bytes: self.total_bytes,
            message_preview: text::clone_opt(&self.message_preview),
            message_preview_truncated: self.message_preview_truncated,
            received_at: self.received_at.clone(),
        }
    }
}

#[derive(Debug)]
pub struct OfferedFileSnapshot {
    pub id: String,
    pub name: String,
    pub size: u64,
    pub mime_type: String,
}

#[verifier::ext_equal]
pub struct OfferedView {
    pub id: Seq<char>,
    pub name: Seq<char>,
    pub size: u64,
    pub mime_type: Seq<char>,
}

impl View for OfferedFileSnapshot {
    type V = OfferedView;

    open spec fn view(&self) -> OfferedView {
        OfferedView {
            id: self.id@,
            name: self.name@,
            size: self.size,
            mime_type: self.mime_type@,
        }
    }
}

impl Clone for OfferedFileSnapshot {
    fn clone(&self) -> (copy: Self)
        ensures
            copy == *self,
    {
        OfferedFileSnapshot {
            id: self.id.clone(),
            name: self.name.clone(),
            size: self.size,
            mime_type: self.mime_type.clone(),
        }
    }
}

/// Offered files are listed by name, and by identifier where names are equal.
impl order::Ranked for OfferedView {
    open spec fn precedes(self, other: Self) -> bool {
        order::pair_before(self.name, self.id, other.name, other.id)
    }

    proof fn precedes_asymmetric(a: Self, b: Self) {
        order::lemma_pair_before_asymmetric(a.name, a.id, b.name, b.id);
    }

    proof fn follows_transitive(a: Self, b: Self, c: Self) {
        order::lemma_pair_follows_transitive(a.name, a.id, b.name, b.id, c.name, c.id);
    }
}

impl order::Sortable for OfferedFileSnapshot {
    fn is_before(&self, other: &Self) -> bool {
        order::pair_precedes(
            self.name.as_str(),
            self.id.as_str(),
            other.name.as_str(),
            other.id.as_str(),
        )
    }
}

#[derive(Clone, Copy, Debug, PartialEq, Eq, Structural)]
pub enum TransferDirection {
    Incoming,
    Outgoing,
}

#[derive(Clone, Copy, Debug, PartialEq, Eq, Structural)]
pub enum TransferState {
    Preparing,
    Transferring,
    Cancelling,
    Completed,
    Declined,
    Cancelled,
    Failed,
}

/// True of the states that a transfer never leaves.
pub open spec fn is_terminal(state: TransferState) -> bool {
    ||| state == TransferState::Completed
    ||| state == TransferState::Declined
    ||| state == TransferState::Cancelled
    ||| state == TransferState::Failed
}

impl TransferState {
    pub fn terminal(self) -> (r: bool)
        ensures
            r == is_terminal(self),
    {
        match self {
            TransferState::Completed => true,
            TransferState::Declined => true,
            TransferState::Cancelled => true,
            TransferState::Failed => true,
            _ => false,
        }
    }
}

#[derive(Clone, Copy, Debug, PartialEq, Eq, Structural)]
pub enum TransferFileState {
    Queued,
    Transferring,
    Completed,
    Declined,
    Cancelled,
    Failed,
}

/// One file of a transfer.
#[derive(Debug)]
pub struct TransferFileSnapshot {
    pub id: String,
    pub name: String,
    pub size: u64,
    pub mime_type: String,
    pub state: TransferFileState,
    pub completed_bytes: u64,
    pub source_path: Option<String>,
    pub destination_path: Option<String>,
    pub error: Option<ApiError>,
}

#[verifier::ext_equal]
pub struct FileView {
    pub id: Seq<char>,
    pub name: Seq<char>,
    pub size: u64,
    pub mime_type: Seq<char>,
    pub state: TransferFileState,
    pub completed_bytes: u64,
    pub source_path: Option<Seq<char>>,
    pub destination_path: Option<Seq<char>>,
    pub error: Option<ApiErrorView>,
}

impl View for TransferFileSnapshot {
    type V = FileView;

    open spec fn view(&self) -> FileView {
        FileView {
            id: self.id@,
            name: self.name@,
            size: self.size,
            mime_type: self.mime_type@,
            state: self.state,
            completed_bytes: self.completed_bytes,
            source_path: text::opt_text(self.source_path),
            destination_path: text::opt_text(self.destination_path),
            error: opt_error(self.error),
        }
    }
}

impl Clone for TransferFileSnapshot {
    fn clone(&self) -> (copy: Self)
        ensures
            copy == *self,
    {
        TransferFileSnapshot {
            id: self.id.clone(),
            name: self.name.clone(),
            size: self.size,
            mime_type: self.mime_type.clone(),
            state: self.state,
            completed_bytes: self.completed_bytes,
            source_path: text::clone_opt(&self.source_path),
            destination_path: text::clone_opt(&self.destination_path),
            error: clone_opt_error(&self.error),
        }
    }
}

/// The files of a transfer are listed by name, and by identifier where names are equal.
impl order::Ranked for FileView {
    open spec fn precedes(self, other: Self) -> bool {
        order::pair_before(self.name, self.id, other.name, other.id)
    }

    proof fn precedes_asymmetric(a: Self, b: Self) {
        order::lemma_pair_before_asymmetric(a.name, a.id, b.name, b.id);
    }

    proof fn follows_transitive(a: Self, b: Self, c: Self) {
        order::lemma_pair_follows_transitive(a.name, a.id, b.name, b.id, c.name, c.id);
    }
}

impl order::Sortable for TransferFileSnapshot {
    fn is_before(&self, other: &Self) -> bool {
        order::pair_precedes(
            self.name.as_str(),
            self.id.as_str(),
            other.name.as_str(),
            other.id.as_str(),
        )
    }
}

/// A transfer in either direction.
#[derive(Debug)]
pub struct TransferSnapshot {
    pub id: String,
    pub direction: TransferDirection,
    pub state: TransferState,
    pub peer: PeerSnapshot,
    pub file_count: usize,
    pub files: Vec<TransferFileSnapshot>,
    pub total_bytes: u64,
    pub completed_bytes: u64,
    pub created_at: String,
    pub started_at: Option<String>,
    pub updated_at: String,
    pub finished_at: Option<String>,
    pub error: Option<ApiError>,
}

#[verifier::ext_equal]
pub struct TransferView {
    pub id: Seq<char>,
    pub direction: TransferDirection,
    pub state: TransferState,
    pub peer: PeerView,
    pub file_count: nat,
    pub files: Seq<FileView>,
    pub total_bytes: u64,
    pub completed_bytes: u64,
    pub created_at: Seq<char>,
    pub started_at: Option<Seq<char>>,
    pub updated_at: Seq<char>,
    pub finished_at: Option<Seq<char>>,
    pub error: Option<ApiErrorView>,
}

impl View for TransferSnapshot {
    type V = TransferView;

    open spec fn view(&self) -> TransferView {
        TransferView {
            id: self.id@,
            direction: self.direction,
            state: self.state,
            peer: self.peer@,
            file_count: self.file_count as nat,
            files: order::views(self.files@),
            total_bytes: self.total_bytes,
            completed_bytes: self.completed_bytes,
            created_at: self.created_at@,
            started_at: text::opt_text(self.started_at),
            updated_at: self.updated_at@,
            finished_at: text::opt_text(self.finished_at),
            error: opt_error(self.error),
        }
    }
}

impl Clone for TransferSnapshot {
    fn clone(&self) -> (copy: Self)
        ensures
            copy@ == self@,
    {
        let mut files: Vec<TransferFileSnapshot> = Vec::new();
        for i in 0..self.files.len()
            invariant
                files@ == self.files@.take(i as int),
        {
            files.push(self.files[i].clone());
            assert(self.files@.take(i + 1) =~= self.files@.take(i as int).push(self.files@[i as int]));
        }
        assert(files@ =~= self.files@);
        TransferSnapshot {
            id: self.id.clone(),
            direction: self.direction,
            state: self.state,
            peer: self.peer.clone(),
            file_count: self.file_count,
            files,
            total_bytes: self.total_bytes,
            completed_bytes: self.completed_bytes,
            created_at: self.created_at.clone(),
            started_at: text::clone_opt(&self.started_at),
            updated_at: self.updated_at.clone(),
            finished_at: text::clone_opt(&self.finished_at),
            error: clone_opt_error(&self.error),
        }
    }
}

} // verus!
