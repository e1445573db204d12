//! The controller: it takes what happens, keeps the state and says what is to be done.
use crate::clock;
use crate::devices;
use crate::devices::KnownDevice;
use crate::events;
use crate::events::{
    AcceptPlan, Cancellation, ConfirmedDevice, DiscoveryEvent, Effect, InternalEvent, Launch,
    ReservedFile, RpcAction, ServerEvent, WantedFile,
};
use crate::filemap::FileMap;
use crate::files;
use crate::files::OutgoingItem;
use crate::identity::Identity;
use crate::ids;
use crate::laws;
use crate::model;
use crate::model::{HttpChannel, RegisterDto, SenderTarget};
use crate::offer;
use crate::order;
use crate::rpc;
use crate::rpc::{
    AddressSnapshot, ApiError, ApiResult, ControllerError, DaemonSnapshot,
    IncomingRequestSnapshot, OfferedFileSnapshot, PeerSnapshot, RpcRequest, Snapshot,
    TransferDirection, TransferFileSnapshot, TransferFileState, TransferSnapshot, TransferState,
};
use crate::state;
use crate::state::{IncomingActive, OutgoingActive, PendingIncoming};
use crate::tally;
use crate::text;
use crate::textset::TextSet;
use crate::transfer;
use crate::transfer::{FileProgress, IncomingEnd};
use vstd::prelude::*;

verus! {

/// The controller.
#[derive(Debug)]
pub struct Controller {
    identity: Identity,
    socket: String,
    destination: String,
    started_at: String,
    status: String,
    error: Option<ControllerError>,
    pending: Option<PendingIncoming>,
    incoming: Option<IncomingActive>,
    outgoing: Option<OutgoingActive>,
    selecting_outgoing: bool,
    recent: Vec<TransferSnapshot>,
    refresh_id: Option<String>,
    early_remote_cancel: Option<(String, String)>,
}

impl View for Controller {
    type V = state::ControllerView;

    closed spec fn view(&self) -> state::ControllerView {
        state::ControllerView {
            identity: self.identity@,
            socket: self.socket@,
            destination: self.destination@,
            started_at: self.started_at@,
            status: self.status@,
            error: rpc::opt_controller_error(self.error),
            pending: match self.pending {
                Some(pending) => Some(pending@),
                None => None,
            },
            incoming: match self.incoming {
                Some(active) => Some(active@),
                None => None,
            },
            outgoing: match self.outgoing {
                Some(active) => Some(active@),
                None => None,
            },
            selecting: self.selecting_outgoing,
            recent: order::views(self.recent@),
            refresh_id: text::opt_text(self.refresh_id),
            early_remote_cancel: match self.early_remote_cancel {
                Some((host, session_id)) => Some((host@, session_id@)),
                None => None,
            },
        }
    }
}

/// What is the same in every snapshot of a daemon.
#[derive(Debug)]
pub struct Versions {
    pub pid: u32,
    pub protocol_version: String,
    pub controller_version: String,
}

impl View for Versions {
    type V = state::VersionsView;

    open spec fn view(&self) -> state::VersionsView {
        state::VersionsView {
            pid: self.pid,
            protocol_version: self.protocol_version@,
            controller_version: self.controller_version@,
        }
    }
}

/// What the controller is given to answer a request with.
#[derive(Debug)]
pub struct World {
    /// The devices that discovery knows of.
    pub devices: Vec<KnownDevice>,
    /// How far files have been sent.
    pub sent: Vec<FileProgress>,
    /// How far files have been received.
    pub received: Vec<FileProgress>,
    pub versions: Versions,
}

impl View for World {
    type V = state::WorldView;

    open spec fn view(&self) -> state::WorldView {
        state::WorldView {
            known: order::views(self.devices@),
            sent: order::views(self.sent@),
            received: order::views(self.received@),
            versions: self.versions@,
        }
    }
}

/// Offers as they are shown.
fn show_offered(map: &FileMap) -> (shown: Vec<OfferedFileSnapshot>)
    ensures
        order::views(shown@) == state::offered_files(map@),
{
    let entries = map.entries();
    let ghost all = state::offered_files(order::views(entries@));
    let mut shown: Vec<OfferedFileSnapshot> = Vec::new();
    for i in 0..entries.len()
        invariant
            all == state::offered_files(order::views(entries@)),
            order::views(shown@) == all.take(i as int),
    {
        let file = &entries[i].file;
        let ghost before = order::views(shown@);
        shown.push(
            OfferedFileSnapshot {
                id: file.id.clone(),
                name: file.file_name.clone(),
                size: file.size,
                mime_type: file.file_type.clone(),
            },
        );
        proof {
            assert(order::views(entries@)[i as int] == entries@[i as int]@);
            assert(order::views(shown@) =~= before.push(shown@.last()@));
            assert(all.take(i + 1) =~= all.take(i as int).push(all[i as int]));
        }
    }
    assert(all.take(entries@.len() as int) =~= all);
    shown
}

/// The size of an offer whose sizes add up.
fn offer_size(map: &FileMap) -> (total: u64)
    requires
        tally::sum_of(map@, offer::entry_size()) <= u64::MAX,
    ensures
        total == tally::sum_of(map@, offer::entry_size()),
{
    let entries = map.entries();
    let ghost all = map@;
    let mut total: u64 = 0;
    assert(all.take(0) =~= Seq::<model::EntryView>::empty());
    for i in 0..entries.len()
        invariant
            all == order::views(entries@),
            tally::sum_of(all, offer::entry_size()) <= u64::MAX,
            total == tally::sum_of(all.take(i as int), offer::entry_size()),
    {
        proof {
            assert(all[i as int] == entries@[i as int]@);
            tally::lemma_sum_next(all, i as int, offer::entry_size());
            tally::lemma_sum_of_part(all, i + 1, offer::entry_size());
        }
        total = total + entries[i].file.size;
    }
    assert(all.take(entries@.len() as int) =~= all);
    total
}

/// The files of an outgoing transfer.
fn queue_files(items: &Vec<OutgoingItem>) -> (list: Vec<TransferFileSnapshot>)
    ensures
        order::views(list@) == state::queued_files(order::views(items@)),
{
    let ghost all = state::queued_files(order::views(items@));
    let mut list: Vec<TransferFileSnapshot> = Vec::new();
    for i in 0..items.len()
        invariant
            all == state::queued_files(order::views(items@)),
            order::views(list@) == all.take(i as int),
    {
        let item = &items[i];
        let ghost before = order::views(list@);
        list.push(
            TransferFileSnapshot {
                id: item.file.id.clone(),
                name: item.file.file_name.clone(),
                size: item.file.size,
                mime_type: item.file.file_type.clone(),
                state: TransferFileState::Queued,
                completed_bytes: 0,
                source_path: text::clone_opt(&item.source_path),
                destination_path: None,
                error: None,
            },
        );
        proof {
            assert(order::views(items@)[i as int] == items@[i as int]@);
            assert(order::views(list@) =~= before.push(list@.last()@));
            assert(all.take(i + 1) =~= all.take(i as int).push(all[i as int]));
        }
    }
    assert(all.take(items@.len() as int) =~= all);
    list
}

/// The size of items, where it can be counted.
fn items_size(items: &Vec<OutgoingItem>) -> (total: Option<u64>)
    ensures
        match total {
            Some(total) => total == tally::sum_of(order::views(items@), state::item_size()),
            None => tally::sum_of(order::views(items@), state::item_size()) > u64::MAX,
        },
{
    let ghost all = order::views(items@);
    let mut total: u64 = 0;
    assert(all.take(0) =~= Seq::<files::ItemView>::empty());
    for i in 0..items.len()
        invariant
            all == order::views(items@),
            total == tally::sum_of(all.take(i as int), state::item_size()),
    {
        proof {
            assert(all[i as int] == items@[i as int]@);
            tally::lemma_sum_next(all, i as int, state::item_size());
            tally::lemma_sum_of_part(all, i + 1, state::item_size());
        }
        match total.checked_add(items[i].file.size) {
            Some(sum) => {
                total = sum;
            },
            None => {
                return None;
            },
        }
    }
    assert(all.take(items@.len() as int) =~= all);
    Some(total)
}

/// The files for which places are reserved, in order.
fn want_files(map: &FileMap) -> (wanted: Vec<WantedFile>)
    ensures
        order::views(wanted@) == state::wanted_files(map@),
{
    let entries = map.entries();
    let ghost offered = map@;
    let ghost all = Seq::new(offered.len(), |i: int| state::wanted_file(offered[i]));
    let mut wanted: Vec<WantedFile> = Vec::new();
    for i in 0..entries.len()
        invariant
            offered == order::views(entries@),
            all == Seq::new(offered.len(), |i: int| state::wanted_file(offered[i])),
            order::views(wanted@) == all.take(i as int),
    {
        let entry = &entries[i];
        let ghost before = order::views(wanted@);
        wanted.push(WantedFile { id: entry.key.clone(), name: entry.file.file_name.clone() });
        proof {
            assert(offered[i as int] == entries@[i as int]@);
            assert(order::views(wanted@) =~= before.push(wanted@.last()@));
            assert(all.take(i + 1) =~= all.take(i as int).push(all[i as int]));
        }
    }
    assert(all.take(entries@.len() as int) =~= all);
    order::sort_list(wanted)
}

/// An offer lists no key twice.
fn check_keys(event: &ServerEvent)
    ensures
        state::is_sound_server_event(event@),
{
    match event {
        ServerEvent::PrepareUpload { files, .. } => {
            let _ = files.entries();
        },
        _ => {},
    }
}

/// The path that was reserved for a file, where it is valid UTF-8.
fn find_reserved(reserved: &Vec<ReservedFile>, id: &str) -> (path: Option<String>)
    ensures
        text::opt_text(path) == state::reserved_path(order::views(reserved@), id@, 0),
{
    let ghost all = order::views(reserved@);
    let mut i: usize = 0;
    while i < reserved.len()
        invariant
            all == order::views(reserved@),
            i <= reserved@.len(),
            state::reserved_path(all, id@, 0) == state::reserved_path(all, id@, i as int),
        decreases reserved@.len() - i,
    {
        assert(all[i as int] == reserved@[i as int]@);
        if text::same_text(reserved[i].id.as_str(), id) {
            return text::text_from_utf8(crate::paths::owned(reserved[i].path.as_slice()));
        }
        i += 1;
    }
    None
}

impl Controller {
    pub open spec fn wf(&self) -> bool {
        state::is_sound(self@)
    }

    /// The controller as it starts at a moment. Discovery may have started without multicast.
    pub fn new_at(
        identity: Identity,
        socket: String,
        destination: String,
        multicast_error: Option<String>,
        now: i128,
    ) -> (c: Controller)
        ensures
            c.wf(),
            c@ == (match multicast_error {
                Some(error) => state::with_error(
                    state::initial(identity@, socket@, destination@, now as int),
                    "multicast_unavailable"@,
                    "Discovery is running without multicast: "@ + error@,
                    now as int,
                ),
                None => state::initial(identity@, socket@, destination@, now as int),
            }),
    {
        let mut c = Controller {
            identity,
            socket,
            destination,
            started_at: clock::format_system_time(now),
            status: "running".to_string(),
            error: None,
            pending: None,
            incoming: None,
            outgoing: None,
            selecting_outgoing: false,
            recent: Vec::new(),
            refresh_id: None,
            early_remote_cancel: None,
        };
        assert(c@ =~= state::initial(identity@, socket@, destination@, now as int));
        if let Some(error) = multicast_error {
            let message = text::join2("Discovery is running without multicast: ", error.as_str());
            c.set_error("multicast_unavailable", message.as_str(), now);
        }
        c
    }

    /// Shows an error.
    fn set_error(&mut self, code: &str, message: &str, now: i128)
        ensures
            final(self)@ == state::with_error(old(self)@, code@, message@, now as int),
    {
        self.error = Some(
            ControllerError {
                code: code.to_string(),
                message: message.to_string(),
                at: clock::format_system_time(now),
            },
        );
    }

    /// Keeps a finished transfer in front of the others.
    fn push_recent(&mut self, record: TransferSnapshot)
        ensures
            final(self)@ == state::with_recent(old(self)@, record@),
    {
        let mut kept = record;
        transfer::trim_record(&mut kept);
        let ghost before = order::views(self.recent@);
        self.recent.insert(0, kept);
        assert(order::views(self.recent@) =~= seq![kept@] + before);
        let ghost all = order::views(self.recent@);
        if self.recent.len() > state::MAX_RECENT_TRANSFERS {
            self.recent.truncate(state::MAX_RECENT_TRANSFERS);
            assert(order::views(self.recent@) =~= all.take(state::MAX_RECENT_TRANSFERS as int));
        }
    }

    /// What discovery is told of a device that showed itself.
    fn add_confirmed_device(&self, host: &str, info: &RegisterDto, fingerprint: &str) -> (effects:
        Vec<Effect>)
        ensures
            order::views(effects@) == state::confirmed(self@, host@, info@, fingerprint@),
    {
        if text::same_text(fingerprint, self.identity.fingerprint.as_str()) {
            return events::no_effects();
        }
        events::one_effect(
            Effect::ConfirmDevice {
                device: ConfirmedDevice {
                    alias: info.alias.clone(),
                    version: info.version.clone(),
                    device_model: text::clone_opt(&info.device_model),
                    device_type: info.device_type,
                    fingerprint: fingerprint.to_string(),
                    channel: HttpChannel {
                        host: host.to_string(),
                        port: info.port,
                        protocol: info.protocol,
                    },
                    download: info.download,
                },
            },
        )
    }

    /// Takes an offer of a peer.
    fn take_offer(
        &mut self,
        session_id: String,
        host: String,
        info: RegisterDto,
        cert_fingerprint: Option<String>,
        entries: FileMap,
        now: i128,
    ) -> (effects: Vec<Effect>)
        ensures
            (final(self)@, order::views(effects@)) == state::offer_step(
                old(self)@,
                session_id@,
                host@,
                info@,
                text::opt_text(cert_fingerprint),
                entries@,
                now as int,
            ),
    {
        let fingerprint = match cert_fingerprint {
            Some(fingerprint) => fingerprint,
            None => {
                self.set_error(
                    "unverified_sender",
                    "Rejected an incoming request without a TLS certificate",
                    now,
                );
                return events::one_effect(Effect::DeclineOffer);
            },
        };
        if self.pending.is_some() || self.incoming.is_some() {
            return events::one_effect(Effect::DeclineOffer);
        }
        if let Err(error) = offer::validate_sender_info(&info) {
            self.set_error(error.code.as_str(), error.message.as_str(), now);
            return events::one_effect(Effect::DeclineOffer);
        }
        if let Err(error) = offer::validate_incoming_offer(&entries) {
            self.set_error(error.code.as_str(), error.message.as_str(), now);
            return events::one_effect(Effect::DeclineOffer);
        }
        let mut effects = self.add_confirmed_device(
            host.as_str(),
            &info,
            fingerprint.as_str(),
        );
        let ghost told = order::views(effects@);
        let total_bytes = offer_size(&entries);
        let (message_preview, message_preview_truncated) = offer::message_preview(&entries);
        let snapshot = IncomingRequestSnapshot {
            id: session_id,
            sender: PeerSnapshot {
                fingerprint: fingerprint.clone(),
                alias: info.alias,
                device_type: model::opt_device_type_name(&info.device_type),
                model: info.device_model,
                address: AddressSnapshot {
                    host: host.clone(),
                    port: info.port,
                    protocol: model::protocol_name(info.protocol).to_string(),
                },
            },
            files: order::sort_list(show_offered(&entries)),
            total_bytes,
            message_preview,
            message_preview_truncated,
            received_at: clock::format_system_time(now),
        };
        let sender = SenderTarget {
            host,
            port: info.port,
            protocol: info.protocol,
            fingerprint,
        };
        self.pending = Some(PendingIncoming { snapshot, sender, files: entries });
        effects.push(Effect::HoldOffer);
        assert(order::views(effects@) =~= told.push(events::EffectView::HoldOffer));
        effects
    }

    /// Takes a file that a peer starts to send.
    fn handle_file_upload(&mut self, session_id: String, file_id: String, now: i128) -> (effects:
        Vec<Effect>)
        ensures
            (final(self)@, order::views(effects@)) == state::upload_step(
                old(self)@,
                session_id@,
                file_id@,
                now as int,
            ),
    {
        match &mut self.incoming {
            None => events::no_effects(),
            Some(active) => {
                if active.record.id != session_id || active.in_flight.contains(file_id.as_str()) {
                    return events::no_effects();
                }
                let place = transfer::find_file(&active.record.files, file_id.as_str());
                if place >= active.record.files.len() {
                    return events::no_effects();
                }
                let ghost list = order::views(active.record.files@);
                assert(list[place as int] == active.record.files@[place as int]@);
                let path = match &active.record.files[place].destination_path {
                    Some(path) => path.clone(),
                    None => {
                        return events::no_effects();
                    },
                };
                active.record.files[place].state = TransferFileState::Transferring;
                active.record.files[place].completed_bytes = 0;
                active.record.files[place].error = None;
                assert(order::views(active.record.files@) =~= list.update(
                    place as int,
                    state::storing_file(list[place as int]),
                ));
                active.in_flight.insert(file_id.as_str());
                active.record.updated_at = clock::format_system_time(now);
                events::one_effect(Effect::StoreFile { session_id, file_id, path })
            },
        }
    }

    /// Finishes the incoming transfer if it came to its end and no file of it is being stored.
    fn finish_incoming_if_ready(&mut self, progress: &Vec<FileProgress>, now: i128) -> (effects:
        Vec<Effect>)
        requires
            old(self)@.incoming is Some ==> transfer::are_sound_files(
                old(self)@.incoming->0.record.files,
            ),
        ensures
            (final(self)@, order::views(effects@)) == state::finish_step(
                old(self)@,
                order::views(progress@),
                now as int,
            ),
    {
        let end = match &self.incoming {
            Some(active) => if active.in_flight.is_empty() {
                active.end
            } else {
                None
            },
            None => None,
        };
        match end {
            None => events::no_effects(),
            Some(end) => {
                let stamp = clock::format_system_time(now);
                match self.incoming.take() {
                    Some(active) => {
                        let mut record = active.record;
                        let leftover = transfer::settle_incoming(
                            &mut record,
                            progress,
                            end,
                            stamp.as_str(),
                        );
                        self.push_recent(record);
                        events::remove_all(leftover)
                    },
                    None => events::no_effects(),
                }
            },
        }
    }

    /// Takes the end of a session.
    fn end_session(
        &mut self,
        session_id: String,
        reason: IncomingEnd,
        progress: &Vec<FileProgress>,
        now: i128,
    ) -> (effects: Vec<Effect>)
        requires
            old(self).wf(),
        ensures
            (final(self)@, order::views(effects@)) == state::session_end_step(
                old(self)@,
                session_id@,
                reason,
                order::views(progress@),
                now as int,
            ),
    {
        match &mut self.incoming {
            None => {
                return events::no_effects();
            },
            Some(active) => {
                if active.record.id != session_id {
                    return events::no_effects();
                }
                active.end = Some(reason);
            },
        }
        self.finish_incoming_if_ready(progress, now)
    }

    /// Takes the withdrawal of an offer.
    fn abort_pending(&mut self, session_id: String, now: i128) -> (effects: Vec<Effect>)
        ensures
            (final(self)@, order::views(effects@)) == state::abort_step(
                old(self)@,
                session_id@,
                now as int,
            ),
    {
        let matches = match &self.pending {
            Some(pending) => pending.snapshot.id == session_id,
            None => false,
        };
        if !matches {
            return events::no_effects();
        }
        match self.pending.take() {
            Some(pending) => {
                let mut record = transfer::transfer_from_pending(
                    &pending.snapshot,
                    TransferState::Cancelled,
                );
                let finished = clock::format_system_time(now);
                record.updated_at = finished.clone();
                record.finished_at = Some(finished);
                self.push_recent(record);
                events::one_effect(Effect::DropOffer)
            },
            None => events::no_effects(),
        }
    }

    /// Takes a cancellation by a peer.
    fn cancel_by_peer(&mut self, host: String, session_id: String, now: i128) -> (effects: Vec<
        Effect,
    >)
        ensures
            (final(self)@, order::views(effects@)) == state::peer_cancel_step(
                old(self)@,
                host@,
                session_id@,
                now as int,
            ),
    {
        let early = match &mut self.outgoing {
            None => {
                return events::no_effects();
            },
            Some(active) => {
                if active.host != host {
                    return events::no_effects();
                }
                match &active.remote_session_id {
                    None => true,
                    Some(remote) => {
                        if *remote == session_id {
                            active.record.state = TransferState::Cancelling;
                            active.record.updated_at = clock::format_system_time(now);
                            return events::one_effect(Effect::CancelOutgoing);
                        }
                        false
                    },
                }
            },
        };
        if early {
            self.early_remote_cancel = Some((host, session_id));
        }
        events::no_effects()
    }

    /// Takes what the receiver reports at a moment. How far files have been received is given.
    pub fn handle_server_event_at(
        &mut self,
        event: ServerEvent,
        progress: &Vec<FileProgress>,
        now: i128,
    ) -> (effects: Vec<Effect>)
        requires
            old(self).wf(),
        ensures
            final(self).wf(),
            (final(self)@, order::views(effects@)) == state::server_step(
                old(self)@,
                event@,
                order::views(progress@),
                now as int,
            ),
    {
        check_keys(&event);
        proof {
            laws::lemma_server_step_sound(self@, event@, order::views(progress@), now as int);
        }
        match event {
            ServerEvent::Register { host, info } => {
                if let Err(error) = offer::validate_sender_info(&info) {
                    self.set_error(error.code.as_str(), error.message.as_str(), now);
                    return events::no_effects();
                }
                self.add_confirmed_device(host.as_str(), &info, info.fingerprint.as_str())
            },
            ServerEvent::PrepareUpload { session_id, host, info, cert_fingerprint, files } => {
                self.take_offer(session_id, host, info, cert_fingerprint, files, now)
            },
            ServerEvent::FileUpload { session_id, file_id } => {
                self.handle_file_upload(session_id, file_id, now)
            },
            ServerEvent::SessionEnd { session_id, reason } => {
                self.end_session(session_id, reason, progress, now)
            },
            ServerEvent::PrepareUploadAborted { session_id } => {
                self.abort_pending(session_id, now)
            },
            ServerEvent::CancelReceived { host, session_id } => {
                self.cancel_by_peer(host, session_id, now)
            },
            ServerEvent::ListenerFailed { error } => {
                self.status = "error".to_string();
                self.set_error("receiver_stopped", error.as_str(), now);
                events::one_effect(Effect::StopAnswering)
            },
        }
    }

    /// Takes what the receiver reports now. How far files have been received is given.
    pub fn handle_server_event(&mut self, event: ServerEvent, progress: &Vec<FileProgress>) -> (effects:
        Vec<Effect>)
        requires
            old(self).wf(),
        ensures
            final(self).wf(),
            exists|now: int|
                (final(self)@, order::views(effects@)) == #[trigger] state::server_step(
                    old(self)@,
                    event@,
                    order::views(progress@),
                    now,
                ),
    {
        let now: i128 = clock::unix_nanos_now();
        self.handle_server_event_at(event, progress, now)
    }

    /// Takes what discovery reports at a moment.
    pub fn handle_discovery_event_at(&mut self, event: DiscoveryEvent, now: i128)
        requires
            old(self).wf(),
        ensures
            final(self).wf(),
            final(self)@ == state::discovery_step(old(self)@, event, now as int),
    {
        match event {
            DiscoveryEvent::MulticastFailed => {
                self.set_error(
                    "multicast_stopped",
                    "Multicast discovery stopped; manual HTTP refresh remains available",
                    now,
                );
            },
            DiscoveryEvent::DeviceChanged => {},
        }
    }

    /// Takes what discovery reports now.
    pub fn handle_discovery_event(&mut self, event: DiscoveryEvent)
        requires
            old(self).wf(),
        ensures
            final(self).wf(),
            exists|now: int|
                final(self)@ == #[trigger] state::discovery_step(old(self)@, event, now),
    {
        let now: i128 = clock::unix_nanos_now();
        self.handle_discovery_event_at(event, now);
    }

    /// Takes the end of a refresh.
    fn end_refresh(&mut self, id: String, completed: bool, now: i128)
        ensures
            final(self)@ == state::refresh_step(old(self)@, id@, completed, now as int),
    {
        let matches = match &self.refresh_id {
            Some(current) => *current == id,
            None => false,
        };
        if !matches {
            return ;
        }
        self.refresh_id = None;
        if !completed {
            self.set_error("refresh_failed", "Staged discovery did not complete", now);
            return ;
        }
        let clears = match &self.error {
            Some(error) => text::same_text(error.code.as_str(), "refresh_failed"),
            None => false,
        };
        if clears {
            self.error = None;
        }
    }

    /// Takes the files that the receiver takes.
    fn prepare_outgoing(
        &mut self,
        transfer_id: String,
        session_id: String,
        accepted: Vec<String>,
        now: i128,
    ) -> (effects: Vec<Effect>)
        ensures
            (final(self)@, order::views(effects@)) == state::prepared_step(
                old(self)@,
                transfer_id@,
                session_id@,
                text::texts(accepted@),
                now as int,
            ),
    {
        match &mut self.outgoing {
            None => {
                return events::no_effects();
            },
            Some(active) => {
                if active.record.id != transfer_id {
                    return events::no_effects();
                }
                active.record.state = TransferState::Transferring;
                active.record.started_at = Some(clock::format_system_time(now));
                active.record.updated_at = clock::format_system_time(now);
                decline_others(&mut active.record.files, &accepted);
                let cancelled = match &self.early_remote_cancel {
                    Some((host, remote)) => *host == active.host && *remote == session_id,
                    None => false,
                };
                active.remote_session_id = Some(session_id);
                self.early_remote_cancel = None;
                if cancelled {
                    active.record.state = TransferState::Cancelling;
                    return events::one_effect(Effect::CancelOutgoing);
                }
            },
        }
        events::no_effects()
    }

    /// The outgoing transfer, marked as updated, if it is the given one.
    fn touch_outgoing(&mut self, transfer_id: &str, file_id: &str, now: i128) -> (place: Option<usize>)
        ensures
            match place {
                Some(place) => {
                    &&& old(self)@.outgoing is Some
                    &&& old(self)@.outgoing->0.record.id == transfer_id@
                    &&& final(self).outgoing is Some
                    &&& place == transfer::file_place(
                        old(self)@.outgoing->0.record.files,
                        file_id@,
                        0,
                    )
                    &&& place < (final(self).outgoing->0).record.files@.len()
                    &&& final(self)@.outgoing == Some(
                        (state::OutgoingView {
                            record: rpc::TransferView {
                                updated_at: clock::timestamp_text(now as int),
                                ..old(self)@.outgoing->0.record
                            },
                            ..old(self)@.outgoing->0
                        }),
                    )
                    &&& final(self)@ == (state::ControllerView {
                        outgoing: final(self)@.outgoing,
                        ..old(self)@
                    })
                },
                None => forall|change: state::FileChange|
                    final(self)@ == #[trigger] state::file_step(
                        old(self)@,
                        transfer_id@,
                        file_id@,
                        change,
                        now as int,
                    ),
            },
    {
        match &mut self.outgoing {
            None => None,
            Some(active) => {
                if !text::same_text(active.record.id.as_str(), transfer_id) {
                    return None;
                }
                active.record.updated_at = clock::format_system_time(now);
                let place = transfer::find_file(&active.record.files, file_id);
                if place >= active.record.files.len() {
                    return None;
                }
                Some(place)
            },
        }
    }

    fn start_file(&mut self, transfer_id: String, file_id: String, now: i128)
        ensures
            final(self)@ == state::file_step(
                old(self)@,
                transfer_id@,
                file_id@,
                state::FileChange::Started,
                now as int,
            ),
    {
        if let Some(place) = self.touch_outgoing(transfer_id.as_str(), file_id.as_str(), now) {
            if let Some(active) = &mut self.outgoing {
                let ghost list = order::views(active.record.files@);
                assert(list[place as int] == active.record.files@[place as int]@);
                active.record.files[place].state = TransferFileState::Transferring;
                active.record.files[place].error = None;
                assert(order::views(active.record.files@) =~= list.update(
                    place as int,
                    state::changed_file(list[place as int], state::FileChange::Started),
                ));
            }
        }
    }

    fn complete_file(&mut self, transfer_id: String, file_id: String, now: i128)
        ensures
            final(self)@ == state::file_step(
                old(self)@,
                transfer_id@,
                file_id@,
                state::FileChange::Completed,
                now as int,
            ),
    {
        if let Some(place) = self.touch_outgoing(transfer_id.as_str(), file_id.as_str(), now) {
            if let Some(active) = &mut self.outgoing {
                let ghost list = order::views(active.record.files@);
                assert(list[place as int] == active.record.files@[place as int]@);
                let size: u64 = active.record.files[place].size;
                active.record.files[place].state = TransferFileState::Completed;
                active.record.files[place].completed_bytes = size;
                assert(order::views(active.record.files@) =~= list.update(
                    place as int,
                    state::changed_file(list[place as int], state::FileChange::Completed),
                ));
            }
        }
    }

    fn fail_file(&mut self, transfer_id: String, file_id: String, error: ApiError, now: i128)
        ensures
            final(self)@ == state::file_step(
                old(self)@,
                transfer_id@,
                file_id@,
                state::FileChange::Failed(error@),
                now as int,
            ),
    {
        if let Some(place) = self.touch_outgoing(transfer_id.as_str(), file_id.as_str(), now) {
            if let Some(active) = &mut self.outgoing {
                let ghost list = order::views(active.record.files@);
                assert(list[place as int] == active.record.files@[place as int]@);
                active.record.files[place].state = TransferFileState::Failed;
                active.record.files[place].error = Some(error);
                assert(order::views(active.record.files@) =~= list.update(
                    place as int,
                    state::changed_file(list[place as int], state::FileChange::Failed(error@)),
                ));
            }
        }
    }

    /// Takes the end of an outgoing transfer.
    fn finish_outgoing(
        &mut self,
        transfer_id: String,
        state: TransferState,
        error: Option<ApiError>,
        progress: &Vec<FileProgress>,
        now: i128,
    )
        requires
            old(self).wf(),
        ensures
            final(self)@ == state::outgoing_end_step(
                old(self)@,
                transfer_id@,
                state,
                rpc::opt_error(error),
                order::views(progress@),
                now as int,
            ),
    {
        let matches = match &self.outgoing {
            Some(active) => active.record.id == transfer_id,
            None => false,
        };
        if !matches {
            return ;
        }
        if let Some(active) = self.outgoing.take() {
            let mut record = active.record;
            let stamp = clock::format_system_time(now);
            transfer::settle_outgoing(&mut record, progress, state, error, stamp.as_str());
            self.early_remote_cancel = None;
            self.push_recent(record);
        }
    }

    /// Takes whether a file was stored.
    fn handle_incoming_file_result(
        &mut self,
        transfer_id: String,
        file_id: String,
        stored: bool,
        progress: &Vec<FileProgress>,
        now: i128,
    ) -> (effects: Vec<Effect>)
        requires
            old(self).wf(),
        ensures
            (final(self)@, order::views(effects@)) == state::stored_step(
                old(self)@,
                transfer_id@,
                file_id@,
                stored,
                order::views(progress@),
                now as int,
            ),
    {
        let mut effects = events::no_effects();
        match &mut self.incoming {
            None => {
                return effects;
            },
            Some(active) => {
                if active.record.id != transfer_id {
                    return effects;
                }
                active.in_flight.remove(file_id.as_str());
                let place = transfer::find_file(&active.record.files, file_id.as_str());
                if place >= active.record.files.len() {
                    return effects;
                }
                let ghost list = order::views(active.record.files@);
                assert(list[place as int] == active.record.files@[place as int]@);
                if stored {
                    let size: u64 = active.record.files[place].size;
                    active.record.files[place].state = TransferFileState::Completed;
                    active.record.files[place].completed_bytes = size;
                    active.record.files[place].error = None;
                } else {
                    if let Some(path) = &active.record.files[place].destination_path {
                        effects.push(Effect::RemoveFile { path: path.clone() });
                    }
                    let message = text::join2(
                        "Could not receive ",
                        active.record.files[place].name.as_str(),
                    );
                    active.record.files[place].state = TransferFileState::Failed;
                    active.record.files[place].error = Some(
                        ApiError::new("receive_file_failed", message.as_str()),
                    );
                }
                assert(order::views(effects@) =~= state::failed_removal(
                    list[place as int],
                    stored,
                ));
                assert(order::views(active.record.files@) =~= list.update(
                    place as int,
                    state::stored_file(list[place as int], stored),
                ));
                active.record.updated_at = clock::format_system_time(now);
                proof {
                    assert(list[place as int].completed_bytes <= list[place as int].size);
                    laws::lemma_file_updated(
                        list,
                        place as int,
                        state::stored_file(list[place as int], stored),
                    );
                }
            },
        }
        let ghost removed = order::views(effects@);
        let mut more = self.finish_incoming_if_ready(progress, now);
        let ghost finished = order::views(more@);
        effects.append(&mut more);
        assert(order::views(effects@) =~= removed + finished);
        effects
    }

    /// Takes what a task reports at a moment. How far files have been sent and received is given.
    pub fn handle_internal_event_at(
        &mut self,
        event: InternalEvent,
        sent: &Vec<FileProgress>,
        received: &Vec<FileProgress>,
        now: i128,
    ) -> (effects: Vec<Effect>)
        requires
            old(self).wf(),
            state::is_sound_report(event@),
        ensures
            final(self).wf(),
            (final(self)@, order::views(effects@)) == state::internal_step(
                old(self)@,
                event@,
                order::views(sent@),
                order::views(received@),
                now as int,
            ),
    {
        proof {
            laws::lemma_internal_step_sound(
                self@,
                event@,
                order::views(sent@),
                order::views(received@),
                now as int,
            );
        }
        match event {
            InternalEvent::RefreshFinished { id, completed } => {
                self.end_refresh(id, completed, now);
                events::no_effects()
            },
            InternalEvent::OutgoingPrepared { transfer_id, session_id, accepted } => {
                self.prepare_outgoing(transfer_id, session_id, accepted, now)
            },
            InternalEvent::OutgoingFileStarted { transfer_id, file_id } => {
                self.start_file(transfer_id, file_id, now);
                events::no_effects()
            },
            InternalEvent::OutgoingFileCompleted { transfer_id, file_id } => {
                self.complete_file(transfer_id, file_id, now);
                events::no_effects()
            },
            InternalEvent::OutgoingFileFailed { transfer_id, file_id, reason } => {
                self.fail_file(transfer_id, file_id, reason, now);
                events::no_effects()
            },
            InternalEvent::OutgoingFinished { transfer_id, state, error } => {
                self.finish_outgoing(transfer_id, state, error, sent, now);
                events::no_effects()
            },
            InternalEvent::IncomingFileResult { transfer_id, file_id, stored } => {
                self.handle_incoming_file_result(transfer_id, file_id, stored, received, now)
            },
        }
    }

    /// Takes what a task reports now. How far files have been sent and received is given.
    pub fn handle_internal_event(
        &mut self,
        event: InternalEvent,
        sent: &Vec<FileProgress>,
        received: &Vec<FileProgress>,
    ) -> (effects: Vec<Effect>)
        requires
            old(self).wf(),
            state::is_sound_report(event@),
        ensures
            final(self).wf(),
            exists|now: int|
                (final(self)@, order::views(effects@)) == #[trigger] state::internal_step(
                    old(self)@,
                    event@,
                    order::views(sent@),
                    order::views(received@),
                    now,
                ),
    {
        let now: i128 = clock::unix_nanos_now();
        self.handle_internal_event_at(event, sent, received, now)
    }

    /// Brings the transfers up to how far their files are at a moment.
    pub fn sync_progress_at(
        &mut self,
        sent: &Vec<FileProgress>,
        received: &Vec<FileProgress>,
        now: i128,
    )
        requires
            old(self).wf(),
        ensures
            final(self).wf(),
            final(self)@ == state::synced(
                old(self)@,
                order::views(sent@),
                order::views(received@),
                now as int,
            ),
    {
        proof {
            laws::lemma_synced_sound(
                self@,
                order::views(sent@),
                order::views(received@),
                now as int,
            );
        }
        let stamp = clock::format_system_time(now);
        if let Some(active) = &mut self.outgoing {
            transfer::sync_record_progress(&mut active.record, sent, stamp.as_str());
        }
        if let Some(active) = &mut self.incoming {
            transfer::sync_record_progress(&mut active.record, received, stamp.as_str());
        }
    }

    /// Brings the transfers up to how far their files are now.
    pub fn sync_progress(&mut self, sent: &Vec<FileProgress>, received: &Vec<FileProgress>)
        requires
            old(self).wf(),
        ensures
            final(self).wf(),
            exists|now: int|
                final(self)@ == #[trigger] state::synced(
                    old(self)@,
                    order::views(sent@),
                    order::views(received@),
                    now,
                ),
    {
        let now: i128 = clock::unix_nanos_now();
        self.sync_progress_at(sent, received, now);
    }

    /// The transfers that are shown.
    fn show_transfers(&self) -> (transfers: Vec<TransferSnapshot>)
        ensures
            order::views(transfers@) == state::shown_transfers(self@),
    {
        let mut transfers: Vec<TransferSnapshot> = Vec::new();
        if let Some(active) = &self.incoming {
            transfers.push(active.record.clone());
        }
        if let Some(active) = &self.outgoing {
            transfers.push(active.record.clone());
        }
        let ghost running = order::views(transfers@);
        let ghost recent = order::views(self.recent@);
        assert(running + recent =~= state::shown_transfers(self@));
        assert(running + recent.take(0) =~= running);
        for i in 0..self.recent.len()
            invariant
                recent == order::views(self.recent@),
                order::views(transfers@) == running + recent.take(i as int),
        {
            let ghost before = order::views(transfers@);
            transfers.push(self.recent[i].clone());
            proof {
                assert(recent[i as int] == self.recent@[i as int]@);
                assert(order::views(transfers@) =~= before.push(transfers@.last()@));
                assert(recent.take(i + 1) =~= recent.take(i as int).push(recent[i as int]));
                assert(running + recent.take(i + 1) =~= (running + recent.take(i as int)).push(
                    recent[i as int],
                ));
            }
        }
        assert(recent.take(self.recent@.len() as int) =~= recent);
        transfers
    }

    /// What is shown of the state at a moment.
    pub fn snapshot(&self, known: &Vec<KnownDevice>, versions: &Versions, now: i128) -> (snapshot:
        Snapshot)
        ensures
            snapshot@ == state::shown(self@, order::views(known@), versions@, now as int),
    {
        Snapshot {
            daemon: DaemonSnapshot {
                status: self.status.clone(),
                alias: self.identity.alias.clone(),
                fingerprint: self.identity.fingerprint.clone(),
                port: self.identity.port,
                destination: self.destination.clone(),
                socket: self.socket.clone(),
                pid: versions.pid,
                protocol_version: versions.protocol_version.clone(),
                controller_version: versions.controller_version.clone(),
                started_at: self.started_at.clone(),
                refreshing: self.refresh_id.is_some(),
            },
            devices: devices::list_devices(known, now),
            incoming: match &self.pending {
                Some(pending) => Some(pending.snapshot.clone()),
                None => None,
            },
            transfers: self.show_transfers(),
            error: match &self.error {
                Some(error) => Some(error.clone()),
                None => None,
            },
        }
    }

    /// The refresh that is under way, which begins under the given identifier if none is.
    fn begin_refresh(&mut self, fresh: String) -> (id: String)
        ensures
            (final(self)@, id@) == state::refreshing(old(self)@, fresh@),
    {
        if let Some(id) = &self.refresh_id {
            return id.clone();
        }
        self.refresh_id = Some(fresh.clone());
        fresh
    }

    /// The refresh that is under way, which begins under a fresh identifier if none is.
    pub fn start_refresh(&mut self) -> (id: String)
        requires
            old(self).wf(),
        ensures
            final(self).wf(),
            exists|fresh: Seq<char>|
                ids::is_hyphenated_uuid(fresh) && (final(self)@, id@)
                    == #[trigger] state::refreshing(old(self)@, fresh),
    {
        let fresh = ids::fresh_id();
        self.begin_refresh(fresh)
    }

    /// Starts to send items to a device at a moment, under the given identifier.
    pub fn start_outgoing_at(
        &mut self,
        fingerprint: &str,
        items: &Vec<OutgoingItem>,
        known: &Vec<KnownDevice>,
        id: String,
        now: i128,
    ) -> (r: ApiResult<Launch>)
        requires
            old(self).wf(),
        ensures
            final(self).wf(),
            match state::start_step(
                old(self)@,
                fingerprint@,
                order::views(items@),
                order::views(known@),
                id@,
                now as int,
            ) {
                Ok((next, launch)) => r is Ok && (r->Ok_0)@ == launch && final(self)@ == next,
                Err(error) => r is Err && (r->Err_0)@ == error && final(self)@ == old(self)@,
            },
    {
        proof {
            laws::lemma_start_step_sound(
                self@,
                fingerprint@,
                order::views(items@),
                order::views(known@),
                id@,
                now as int,
            );
        }
        if self.outgoing.is_some() {
            return Err(ApiError::new("outgoing_busy", "An outgoing transfer is already active"));
        }
        let (peer, channel) = match devices::choose_target(known, fingerprint, now) {
            Ok(target) => target,
            Err(error) => {
                return Err(error);
            },
        };
        let total_bytes = match items_size(items) {
            Some(total) => total,
            None => {
                return Err(ApiError::new("selection_too_large", "Total byte count overflowed"));
            },
        };
        let expected_fingerprint = model::expected_fingerprint(
            channel.protocol,
            peer.fingerprint.as_str(),
        );
        let list = order::sort_list(queue_files(items));
        proof {
            order::lemma_stable_sort(state::queued_files(order::views(items@)));
        }
        let created = clock::format_system_time(now);
        let record = TransferSnapshot {
            id,
            direction: TransferDirection::Outgoing,
            state: TransferState::Preparing,
            peer,
            file_count: items.len(),
            files: list,
            total_bytes,
            completed_bytes: 0,
            created_at: created.clone(),
            started_at: None,
            updated_at: created,
            finished_at: None,
            error: None,
        };
        let transfer = record.clone();
        self.outgoing = Some(
            OutgoingActive { record, host: channel.host.clone(), remote_session_id: None },
        );
        Ok(Launch { transfer, channel, expected_fingerprint })
    }

    /// Takes a collected selection at a moment, under the given identifier for the transfer.
    pub fn selection_ready_at(
        &mut self,
        fingerprint: &str,
        selection: &ApiResult<Vec<OutgoingItem>>,
        caller_waits: bool,
        known: &Vec<KnownDevice>,
        id: String,
        now: i128,
    ) -> (r: Option<ApiResult<Launch>>)
        requires
            old(self).wf(),
        ensures
            final(self).wf(),
            (final(self)@, launch_outcome(r)) == state::selected_step(
                old(self)@,
                fingerprint@,
                selection_view(*selection),
                caller_waits,
                order::views(known@),
                id@,
                now as int,
            ),
    {
        self.selecting_outgoing = false;
        if !caller_waits {
            return None;
        }
        match selection {
            Err(error) => Some(Err(error.clone())),
            Ok(items) => Some(self.start_outgoing_at(fingerprint, items, known, id, now)),
        }
    }

    /// Takes a collected selection now, under a fresh identifier for the transfer. Nothing is
    /// started where the caller does not wait for the answer any more.
    pub fn selection_ready(
        &mut self,
        fingerprint: &str,
        selection: &ApiResult<Vec<OutgoingItem>>,
        caller_waits: bool,
        known: &Vec<KnownDevice>,
    ) -> (r: Option<ApiResult<Launch>>)
        requires
            old(self).wf(),
        ensures
            final(self).wf(),
            exists|id: Seq<char>, now: int|
                ids::is_hyphenated_uuid(id) && (final(self)@, launch_outcome(r))
                    == #[trigger] state::selected_step(
                    old(self)@,
                    fingerprint@,
                    selection_view(*selection),
                    caller_waits,
                    order::views(known@),
                    id,
                    now,
                ),
    {
        let now: i128 = clock::unix_nanos_now();
        let id = ids::fresh_id();
        let ghost fresh = id@;
        let r = self.selection_ready_at(fingerprint, selection, caller_waits, known, id, now);
        assert((self@, launch_outcome(r)) == state::selected_step(
            old(self)@,
            fingerprint@,
            selection_view(*selection),
            caller_waits,
            order::views(known@),
            fresh,
            now as int,
        ));
        r
    }

    /// Checks that a request is the one that is pending.
    fn check_request(&self, request: &str) -> (r: ApiResult<()>)
        ensures
            rpc::verdict(r) == offer::request_verdict(state::pending_id(self@), request@),
    {
        let current: Option<&str> = match &self.pending {
            Some(pending) => Some(pending.snapshot.id.as_str()),
            None => None,
        };
        offer::validate_current_request(current, request)
    }

    /// What accepting a request takes.
    pub fn plan_accept(&self, request: &str) -> (plan: ApiResult<AcceptPlan>)
        ensures
            match state::accept_plan(self@, request@) {
                Ok(p) => plan is Ok && (plan->Ok_0)@ == p,
                Err(error) => plan is Err && (plan->Err_0)@ == error,
            },
    {
        if let Err(error) = self.check_request(request) {
            return Err(error);
        }
        if self.incoming.is_some() {
            return Err(ApiError::new("incoming_busy", "An incoming transfer is already active"));
        }
        match &self.pending {
            Some(pending) => match offer::embedded_message(&pending.files) {
                Some(message) => Ok(AcceptPlan::CopyText { message: message.to_string() }),
                None => Ok(AcceptPlan::ReserveFiles { wanted: want_files(&pending.files) }),
            },
            None => Err(ApiError::new("stale_request", "Incoming request is no longer pending")),
        }
    }

    /// Accepts the pending offer at a moment, whose text was copied. `delivered` says whether the
    /// sender could still be told.
    pub fn accept_text_at(&mut self, delivered: bool, now: i128) -> (r: ApiResult<
        TransferSnapshot,
    >)
        requires
            old(self).wf(),
        ensures
            final(self).wf(),
            (final(self)@, transfer_outcome(r)) == state::copied_step(
                old(self)@,
                delivered,
                now as int,
            ),
    {
        proof {
            laws::lemma_decision_sound(self@, Seq::empty(), delivered, now as int);
        }
        match self.pending.take() {
            Some(pending) => {
                if !delivered {
                    return Err(
                        ApiError::new("stale_request", "Incoming request is no longer pending"),
                    );
                }
                let mut record = transfer::transfer_from_pending(
                    &pending.snapshot,
                    TransferState::Completed,
                );
                record.completed_bytes = record.total_bytes;
                record.started_at = Some(clock::format_system_time(now));
                record.updated_at = clock::format_system_time(now);
                record.finished_at = Some(clock::format_system_time(now));
                self.push_recent(record.clone());
                Ok(record)
            },
            None => Err(ApiError::new("stale_request", "Incoming request is no longer pending")),
        }
    }

    /// Accepts the pending offer now, whose text was copied. `delivered` says whether the sender
    /// could still be told.
    pub fn accept_text(&mut self, delivered: bool) -> (r: ApiResult<TransferSnapshot>)
        requires
            old(self).wf(),
        ensures
            final(self).wf(),
            exists|now: int|
                (final(self)@, transfer_outcome(r)) == #[trigger] state::copied_step(
                    old(self)@,
                    delivered,
                    now,
                ),
    {
        let now: i128 = clock::unix_nanos_now();
        self.accept_text_at(delivered, now)
    }

    /// Accepts the pending offer at a moment, for whose files places were reserved. `delivered`
    /// says whether the sender could still be told; if not, the places are given up.
    pub fn accept_files_at(
        &mut self,
        reserved: &Vec<ReservedFile>,
        delivered: bool,
        now: i128,
    ) -> (r: ApiResult<TransferSnapshot>)
        requires
            old(self).wf(),
        ensures
            final(self).wf(),
            (final(self)@, transfer_outcome(r)) == state::accepted_step(
                old(self)@,
                order::views(reserved@),
                delivered,
                now as int,
            ),
    {
        proof {
            laws::lemma_decision_sound(self@, order::views(reserved@), delivered, now as int);
        }
        match self.pending.take() {
            Some(pending) => {
                if !delivered {
                    return Err(
                        ApiError::new("stale_request", "Incoming request is no longer pending"),
                    );
                }
                let mut record = transfer::transfer_from_pending(
                    &pending.snapshot,
                    TransferState::Transferring,
                );
                record.started_at = Some(clock::format_system_time(now));
                record.updated_at = clock::format_system_time(now);
                place_files(&mut record.files, reserved);
                let shown = record.clone();
                self.incoming = Some(
                    IncomingActive {
                        record,
                        sender: pending.sender,
                        in_flight: TextSet::new(),
                        end: None,
                    },
                );
                Ok(shown)
            },
            None => Err(ApiError::new("stale_request", "Incoming request is no longer pending")),
        }
    }

    /// Accepts the pending offer now, for whose files places were reserved. `delivered` says
    /// whether the sender could still be told; if not, the places are given up.
    pub fn accept_files(&mut self, reserved: &Vec<ReservedFile>, delivered: bool) -> (r: ApiResult<
        TransferSnapshot,
    >)
        requires
            old(self).wf(),
        ensures
            final(self).wf(),
            exists|now: int|
                (final(self)@, transfer_outcome(r)) == #[trigger] state::accepted_step(
                    old(self)@,
                    order::views(reserved@),
                    delivered,
                    now,
                ),
    {
        let now: i128 = clock::unix_nanos_now();
        self.accept_files_at(reserved, delivered, now)
    }

    /// Declines the pending offer at a moment. `delivered` says whether the sender could still be
    /// told.
    pub fn decline_pending_at(&mut self, delivered: bool, now: i128) -> (r: ApiResult<
        TransferSnapshot,
    >)
        requires
            old(self).wf(),
        ensures
            final(self).wf(),
            (final(self)@, transfer_outcome(r)) == state::declined_step(
                old(self)@,
                delivered,
                now as int,
            ),
    {
        proof {
            laws::lemma_decision_sound(self@, Seq::empty(), delivered, now as int);
        }
        match self.pending.take() {
            Some(pending) => {
                if !delivered {
                    return Err(
                        ApiError::new("stale_request", "Incoming request is no longer pending"),
                    );
                }
                let mut record = transfer::transfer_from_pending(
                    &pending.snapshot,
                    TransferState::Declined,
                );
                let finished = clock::format_system_time(now);
                record.updated_at = finished.clone();
                record.finished_at = Some(finished);
                self.push_recent(record.clone());
                Ok(record)
            },
            None => Err(ApiError::new("stale_request", "Incoming request is no longer pending")),
        }
    }

    /// Declines the pending offer now. `delivered` says whether the sender could still be told.
    pub fn decline_pending(&mut self, delivered: bool) -> (r: ApiResult<TransferSnapshot>)
        requires
            old(self).wf(),
        ensures
            final(self).wf(),
            exists|now: int|
                (final(self)@, transfer_outcome(r)) == #[trigger] state::declined_step(
                    old(self)@,
                    delivered,
                    now,
                ),
    {
        let now: i128 = clock::unix_nanos_now();
        self.decline_pending_at(delivered, now)
    }

    /// Stops a transfer at a moment.
    fn cancel_transfer(&mut self, transfer_id: &str, received: &Vec<FileProgress>, now: i128) -> (r:
        ApiResult<Cancellation>)
        requires
            old(self).wf(),
        ensures
            match state::cancel_step(
                old(self)@,
                transfer_id@,
                order::views(received@),
                now as int,
            ) {
                Ok((next, cancellation)) => r is Ok && (r->Ok_0)@ == cancellation && final(self)@
                    == next,
                Err(error) => r is Err && (r->Err_0)@ == error && final(self)@ == old(self)@,
            },
    {
        if let Err(error) = offer::validate_uuid(transfer_id, "transfer") {
            return Err(error);
        }
        if let Some(active) = &mut self.outgoing {
            if text::same_text(active.record.id.as_str(), transfer_id) {
                active.record.state = TransferState::Cancelling;
                active.record.updated_at = clock::format_system_time(now);
                return Ok(Cancellation::Outgoing { transfer: active.record.clone() });
            }
        }
        let (transfer, sender) = match &mut self.incoming {
            None => {
                return Err(ApiError::new("stale_transfer", "Transfer is not active"));
            },
            Some(active) => {
                if !text::same_text(active.record.id.as_str(), transfer_id) {
                    return Err(ApiError::new("stale_transfer", "Transfer is not active"));
                }
                active.end = Some(IncomingEnd::Cancelled);
                active.record.state = TransferState::Cancelling;
                active.record.updated_at = clock::format_system_time(now);
                (active.record.clone(), active.sender.clone())
            },
        };
        let removed = self.finish_incoming_if_ready(received, now);
        Ok(Cancellation::Incoming { transfer, sender, removed })
    }

    /// Takes a request to send a text.
    fn send_text(
        &mut self,
        device: String,
        message: String,
        known: &Vec<KnownDevice>,
        id: String,
        file_id: &str,
        now: i128,
    ) -> (action: RpcAction)
        requires
            old(self).wf(),
        ensures
            final(self).wf(),
            forall|world: state::WorldView|
                world.known == order::views(known@) ==> (final(self)@, action@)
                    == #[trigger] state::send_text_step(
                    old(self)@,
                    device@,
                    message@,
                    world,
                    id@,
                    file_id@,
                    now as int,
                ),
    {
        if self.outgoing.is_some() || self.selecting_outgoing {
            return RpcAction::Fail {
                error: ApiError::new("outgoing_busy", "An outgoing transfer is already active"),
            };
        }
        let item = match files::text_item_with_id(message, file_id) {
            Ok(item) => item,
            Err(error) => {
                return RpcAction::Fail { error };
            },
        };
        let mut items: Vec<OutgoingItem> = Vec::new();
        items.push(item);
        assert(order::views(items@) =~= seq![item@]);
        match self.start_outgoing_at(device.as_str(), &items, known, id, now) {
            Ok(launch) => RpcAction::Start { launch, items },
            Err(error) => RpcAction::Fail { error },
        }
    }

    /// Takes a request at a moment, under the given identifiers for a refresh or a transfer and
    /// for a file.
    pub fn handle_rpc_at(
        &mut self,
        request: RpcRequest,
        world: &World,
        id: String,
        file_id: &str,
        now: i128,
    ) -> (action: RpcAction)
        requires
            old(self).wf(),
        ensures
            final(self).wf(),
            (final(self)@, action@) == state::rpc_step(
                old(self)@,
                request,
                world@,
                id@,
                file_id@,
                now as int,
            ),
            match action {
                RpcAction::Refresh { addresses, .. } => {
                    &&& order::views(addresses@).no_duplicates()
                    &&& forall|address: model::ChannelView|
                        #[trigger] order::views(addresses@).contains(address)
                            == devices::is_known_address(order::views(world.devices@), address)
                },
                _ => true,
            },
    {
        proof {
            laws::lemma_rpc_step_sound(self@, request, world@, id@, file_id@, now as int);
        }
        match request {
            RpcRequest::Ping {  } => RpcAction::Pong {
                status: self.status.clone(),
                alias: self.identity.alias.clone(),
            },
            RpcRequest::Snapshot {  } => {
                self.sync_progress_at(&world.sent, &world.received, now);
                RpcAction::Show { snapshot: self.snapshot(&world.devices, &world.versions, now) }
            },
            RpcRequest::Refresh {  } => {
                let started = self.refresh_id.is_none();
                let refresh = self.begin_refresh(id);
                RpcAction::Refresh {
                    id: refresh,
                    started,
                    addresses: devices::known_addresses(&world.devices),
                }
            },
            RpcRequest::SendFiles { device, paths } => {
                if self.outgoing.is_some() || self.selecting_outgoing {
                    RpcAction::Fail {
                        error: ApiError::new(
                            "outgoing_busy",
                            "An outgoing transfer is already active",
                        ),
                    }
                } else {
                    self.selecting_outgoing = true;
                    RpcAction::Collect { device, paths }
                }
            },
            RpcRequest::SendText { device, text } => {
                let action = self.send_text(device, text, &world.devices, id, file_id, now);
                assert((self@, action@) == state::send_text_step(
                    old(self)@,
                    device@,
                    text@,
                    world@,
                    id@,
                    file_id@,
                    now as int,
                ));
                action
            },
            RpcRequest::Accept { request } => match self.plan_accept(request.as_str()) {
                Ok(plan) => RpcAction::Accept { plan },
                Err(error) => RpcAction::Fail { error },
            },
            RpcRequest::Decline { request } => match self.check_request(request.as_str()) {
                Ok(_) => RpcAction::Decline,
                Err(error) => RpcAction::Fail { error },
            },
            RpcRequest::Cancel { transfer } => {
                match self.cancel_transfer(transfer.as_str(), &world.received, now) {
                    Ok(cancellation) => RpcAction::Cancel { cancellation },
                    Err(error) => RpcAction::Fail { error },
                }
            },
            RpcRequest::Shutdown {  } => RpcAction::Stop,
        }
    }

    /// Takes a request now.
    pub fn handle_rpc(&mut self, request: RpcRequest, world: &World) -> (action: RpcAction)
        requires
            old(self).wf(),
        ensures
            final(self).wf(),
            exists|id: Seq<char>, file_id: Seq<char>, now: int|
                ids::is_hyphenated_uuid(id) && ids::is_hyphenated_uuid(file_id) && (
                final(self)@,
                action@,
                ) == #[trigger] state::rpc_step(old(self)@, request, world@, id, file_id, now),
            match action {
                RpcAction::Refresh { addresses, .. } => {
                    &&& order::views(addresses@).no_duplicates()
                    &&& forall|address: model::ChannelView|
                        #[trigger] order::views(addresses@).contains(address)
                            == devices::is_known_address(order::views(world.devices@), address)
                },
                _ => true,
            },
    {
        let now: i128 = clock::unix_nanos_now();
        let id = ids::fresh_id();
        let file_id = ids::fresh_id();
        let ghost fresh = id@;
        let action = self.handle_rpc_at(request, world, id, file_id.as_str(), now);
        assert((self@, action@) == state::rpc_step(
            old(self)@,
            request,
            world@,
            fresh,
            file_id@,
            now as int,
        ));
        action
    }

    /// Whether the devices are asked to show themselves: not while a refresh is under way, which
    /// asks them itself.
    pub fn should_announce(&self) -> (r: bool)
        ensures
            r == (self@.refresh_id is None),
    {
        self.refresh_id.is_none()
    }

    /// Whether the daemon has to stop because the receiver did.
    pub fn has_failed(&self) -> (r: bool)
        ensures
            r == (self@.status == "error"@),
    {
        text::same_text(self.status.as_str(), "error")
    }

    /// Stops everything that is under way, and says what it was.
    pub fn shut_down(&mut self) -> (plan: ShutdownPlan)
        requires
            old(self).wf(),
        ensures
            final(self).wf(),
            final(self)@ == state::stopped(old(self)@),
            plan.decline_offer == (old(self)@.pending is Some),
            plan.cancel_outgoing == (old(self)@.outgoing is Some),
            (match plan.cancel_incoming {
                Some((sender, session_id)) => Some((sender@, session_id@)),
                None => None,
            }) == (match old(self)@.incoming {
                Some(active) => Some((active.sender, active.record.id)),
                None => None,
            }),
    {
        self.status = "shutting_down".to_string();
        let decline_offer = self.pending.is_some();
        let cancel_outgoing = self.outgoing.is_some();
        self.pending = None;
        self.outgoing = None;
        let cancel_incoming = match self.incoming.take() {
            Some(active) => Some((active.sender, active.record.id)),
            None => None,
        };
        ShutdownPlan { decline_offer, cancel_outgoing, cancel_incoming }
    }

    /// The controller as it starts now. Discovery may have started without multicast.
    pub fn new(
        identity: Identity,
        socket: String,
        destination: String,
        multicast_error: Option<String>,
    ) -> (c: Controller)
        ensures
            c.wf(),
            exists|now: int|
                c@ == (match multicast_error {
                    Some(error) => state::with_error(
                        #[trigger] state::initial(identity@, socket@, destination@, now),
                        "multicast_unavailable"@,
                        "Discovery is running without multicast: "@ + error@,
                        now,
                    ),
                    None => state::initial(identity@, socket@, destination@, now),
                }),
    {
        let now: i128 = clock::unix_nanos_now();
        let c = Controller::new_at(identity, socket, destination, multicast_error, now);
        let ghost start = state::initial(identity@, socket@, destination@, now as int);
        c
    }
}

/// What was under way when the daemon was told to stop.
#[derive(Debug)]
pub struct ShutdownPlan {
    /// Decline the offer that was kept for a decision.
    pub decline_offer: bool,
    /// Stop the outgoing transfer.
    pub cancel_outgoing: bool,
    /// End this session, and tell this sender.
    pub cancel_incoming: Option<(SenderTarget, String)>,
}

/// The model of what a selection came to.
pub open spec fn selection_view(selection: ApiResult<Vec<OutgoingItem>>) -> Result<
    Seq<files::ItemView>,
    rpc::ApiErrorView,
> {
    match selection {
        Ok(items) => Ok(order::views(items@)),
        Err(error) => Err(error@),
    }
}

/// The model of an answer about a transfer that begins.
pub open spec fn launch_outcome(r: Option<ApiResult<Launch>>) -> Option<
    Result<events::LaunchView, rpc::ApiErrorView>,
> {
    match r {
        Some(Ok(launch)) => Some(Ok(launch@)),
        Some(Err(error)) => Some(Err(error@)),
        None => None,
    }
}

/// The model of an answer about a transfer.
pub open spec fn transfer_outcome(r: ApiResult<TransferSnapshot>) -> Result<
    rpc::TransferView,
    rpc::ApiErrorView,
> {
    match r {
        Ok(record) => Ok(record@),
        Err(error) => Err(error@),
    }
}

/// Gives files the places that were reserved for them.
fn place_files(list: &mut Vec<TransferFileSnapshot>, reserved: &Vec<ReservedFile>)
    ensures
        order::views(final(list)@) == Seq::new(
            old(list)@.len(),
            |i: int| state::placed_file(order::views(old(list)@)[i], order::views(reserved@)),
        ),
{
    let ghost before = order::views(list@);
    let ghost places = order::views(reserved@);
    let count: usize = list.len();
    for i in 0..count
        invariant
            count == list@.len() == before.len(),
            places == order::views(reserved@),
            forall|j: int|
                0 <= j < i ==> (#[trigger] list@[j])@ == state::placed_file(before[j], places),
            forall|j: int| i <= j < count ==> (#[trigger] list@[j])@ == before[j],
    {
        assert(list@[i as int]@ == before[i as int]);
        let path = find_reserved(reserved, list[i].id.as_str());
        list[i].destination_path = path;
    }
    assert(order::views(list@) =~= Seq::new(
        before.len(),
        |i: int| state::placed_file(before[i], places),
    ));
}

/// Marks the files that the receiver does not take.
fn decline_others(list: &mut Vec<TransferFileSnapshot>, accepted: &Vec<String>)
    ensures
        order::views(final(list)@) == state::chosen_files(
            order::views(old(list)@),
            text::texts(accepted@),
        ),
{
    let ghost before = order::views(list@);
    let ghost chosen = text::texts(accepted@);
    let count: usize = list.len();
    for i in 0..count
        invariant
            count == list@.len() == before.len(),
            chosen == text::texts(accepted@),
            forall|j: int|
                0 <= j < i ==> (#[trigger] list@[j])@ == state::chosen_file(before[j], chosen),
            forall|j: int| i <= j < count ==> (#[trigger] list@[j])@ == before[j],
    {
        assert(list@[i as int]@ == before[i as int]);
        if !text::list_contains(accepted, list[i].id.as_str()) {
            list[i].state = TransferFileState::Declined;
        }
    }
    assert(order::views(list@) =~= state::chosen_files(before, chosen));
}

} // verus!
