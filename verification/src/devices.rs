//! The devices of the network: whether they are online, how they are shown, and which one a
//! transfer goes to.
use crate::clock;
use crate::model;
use crate::model::{DeviceType, HttpChannel};
use crate::offer;
use crate::order;
use crate::rpc;
use crate::rpc::{AddressSnapshot, ApiError, ApiResult, DeviceSnapshot, PeerSnapshot};
use crate::text;
use vstd::prelude::*;

verus! {

/// Most devices that a snapshot lists.
pub const MAX_DEVICES: usize = 128;

/// How long a device counts as online after it was last seen, in nanoseconds.
pub const ONLINE_TTL_NANOS: i128 = 90_000_000_000;

/// A channel of a device, with its HTTP address where it has one.
#[derive(Debug)]
pub struct KnownChannel {
    pub http: Option<HttpChannel>,
    pub available: bool,
}

#[verifier::ext_equal]
pub struct KnownChannelView {
    pub http: Option<model::ChannelView>,
    pub available: bool,
}

impl View for KnownChannel {
    type V = KnownChannelView;

    open spec fn view(&self) -> KnownChannelView {
        KnownChannelView { http: model::opt_channel(self.http), available: self.available }
    }
}

/// A device that discovery knows of.
#[derive(Debug)]
pub struct KnownDevice {
    pub fingerprint: String,
    pub alias: String,
    pub device_type: Option<DeviceType>,
    pub device_model: Option<String>,
    pub channels: Vec<KnownChannel>,
    /// The HTTP address of the channel that is preferred, if that channel has one.
    pub best: Option<HttpChannel>,
    /// When the device was last heard of, in nanoseconds since the Unix epoch.
    pub last_seen: Option<i128>,
}

#[verifier::ext_equal]
pub struct KnownView {
    pub fingerprint: Seq<char>,
    pub alias: Seq<char>,
    pub device_type: Option<DeviceType>,
    pub device_model: Option<Seq<char>>,
    pub channels: Seq<KnownChannelView>,
    pub best: Option<model::ChannelView>,
    pub last_seen: Option<i128>,
}

impl View for KnownDevice {
    type V = KnownView;

    open spec fn view(&self) -> KnownView {
        KnownView {
            fingerprint: self.fingerprint@,
            alias: self.alias@,
            device_type: self.device_type,
            device_model: text::opt_text(self.device_model),
            channels: order::views(self.channels@),
            best: model::opt_channel(self.best),
            last_seen: self.last_seen,
        }
    }
}

/// A device is online when one of its channels is available and it was seen within the last ninety
/// seconds. A device that was seen in the future was seen recently.
pub open spec fn is_online(device: KnownView, now: int) -> bool {
    &&& exists|i: int| 0 <= i < device.channels.len() && (#[trigger] device.channels[i]).available
    &&& device.last_seen is Some
    &&& now - device.last_seen->0 <= ONLINE_TTL_NANOS
}

/// Whether a device is online at a moment, given in nanoseconds since the Unix epoch.
pub fn device_online(device: &KnownDevice, now: i128) -> (r: bool)
    ensures
        r == is_online(device@, now as int),
{
    let mut available = false;
    for i in 0..device.channels.len()
        invariant
            available == exists|j: int|
                0 <= j < i && (#[trigger] order::views(device.channels@)[j]).available,
    {
        assert(order::views(device.channels@)[i as int] == device.channels@[i as int]@);
        if device.channels[i].available {
            available = true;
        }
    }
    let recent = match device.last_seen {
        Some(seen) => if now <= seen {
            true
        } else {
            match now.checked_sub(seen) {
                Some(age) => age <= ONLINE_TTL_NANOS,
                None => false,
            }
        },
        None => false,
    };
    available && recent
}

pub open spec fn address_of(channel: model::ChannelView) -> rpc::AddressView {
    rpc::AddressView {
        host: channel.host,
        port: channel.port,
        protocol: model::protocol_text(channel.protocol),
    }
}

pub fn address_snapshot(channel: &HttpChannel) -> (address: AddressSnapshot)
    ensures
        address@ == address_of(channel@),
{
    AddressSnapshot {
        host: channel.host.clone(),
        port: channel.port,
        protocol: model::protocol_name(channel.protocol).to_string(),
    }
}

/// How a device is shown at a moment.
pub open spec fn shown_device(device: KnownView, now: int) -> rpc::DeviceView {
    rpc::DeviceView {
        fingerprint: device.fingerprint,
        alias: device.alias,
        device_type: model::opt_device_type_text(device.device_type),
        model: device.device_model,
        address: match device.best {
            Some(channel) => Some(address_of(channel)),
            None => None,
        },
        online: is_online(device, now),
        last_seen_at: match device.last_seen {
            Some(seen) => Some(clock::timestamp_text(seen as int)),
            None => None,
        },
    }
}

pub fn device_snapshot(device: &KnownDevice, now: i128) -> (shown: DeviceSnapshot)
    ensures
        shown@ == shown_device(device@, now as int),
{
    DeviceSnapshot {
        fingerprint: device.fingerprint.clone(),
        alias: device.alias.clone(),
        device_type: model::opt_device_type_name(&device.device_type),
        model: text::clone_opt(&device.device_model),
        address: match &device.best {
            Some(channel) => Some(address_snapshot(channel)),
            None => None,
        },
        online: device_online(device, now),
        last_seen_at: match device.last_seen {
            Some(seen) => Some(clock::format_system_time(seen)),
            None => None,
        },
    }
}

pub open spec fn peer_of(device: KnownView, channel: model::ChannelView) -> rpc::PeerView {
    rpc::PeerView {
        fingerprint: device.fingerprint,
        alias: device.alias,
        device_type: model::opt_device_type_text(device.device_type),
        model: device.device_model,
        address: address_of(channel),
    }
}

pub fn peer_from_device(device: &KnownDevice, channel: &HttpChannel) -> (peer: PeerSnapshot)
    ensures
        peer@ == peer_of(device@, channel@),
{
    PeerSnapshot {
        fingerprint: device.fingerprint.clone(),
        alias: device.alias.clone(),
        device_type: model::opt_device_type_name(&device.device_type),
        model: text::clone_opt(&device.device_model),
        address: address_snapshot(channel),
    }
}

/// The lower-case form of a text, after Unicode.
pub uninterp spec fn lowercase_text(text: Seq<char>) -> Seq<char>;

/// `str::to_lowercase`. Claimed: its result depends on the text alone. What the lower-case form of
/// a character is, is left unsaid.
#[verifier::external_body]
fn lowercase(text: &str) -> (lower: String)
    ensures
        lower@ == lowercase_text(text@),
{
    text.to_lowercase()
}

/// Devices that are online come first; then the order is that of the alias in lower case, and of
/// the fingerprint where those are equal.
impl order::Ranked for rpc::DeviceView {
    open spec fn precedes(self, other: Self) -> bool {
        if self.online != other.online {
            self.online
        } else {
            order::pair_before(
                lowercase_text(self.alias),
                self.fingerprint,
                lowercase_text(other.alias),
                other.fingerprint,
            )
        }
    }

    proof fn precedes_asymmetric(a: Self, b: Self) {
        if a.online == b.online {
            order::lemma_pair_before_asymmetric(
                lowercase_text(a.alias),
                a.fingerprint,
                lowercase_text(b.alias),
                b.fingerprint,
            );
        }
    }

    proof fn follows_transitive(a: Self, b: Self, c: Self) {
        if a.online == b.online && b.online == c.online {
            order::lemma_pair_follows_transitive(
                lowercase_text(a.alias),
                a.fingerprint,
                lowercase_text(b.alias),
                b.fingerprint,
                lowercase_text(c.alias),
                c.fingerprint,
            );
        }
    }
}

impl order::Sortable for DeviceSnapshot {
    fn is_before(&self, other: &Self) -> bool {
        if self.online != other.online {
            self.online
        } else {
            let own = lowercase(self.alias.as_str());
            let others = lowercase(other.alias.as_str());
            order::pair_precedes(
                own.as_str(),
                self.fingerprint.as_str(),
                others.as_str(),
                other.fingerprint.as_str(),
            )
        }
    }
}

/// The devices as they are shown at a moment, in the order in which discovery has them.
pub open spec fn all_shown(devices: Seq<KnownView>, now: int) -> Seq<rpc::DeviceView> {
    Seq::new(devices.len(), |i: int| shown_device(devices[i], now))
}

/// The first of a list, up to a number.
pub open spec fn at_most<V>(list: Seq<V>, limit: nat) -> Seq<V> {
    if list.len() > limit {
        list.take(limit as int)
    } else {
        list
    }
}

/// The devices that a snapshot lists: in order, and at most 128.
pub open spec fn listed_devices(devices: Seq<KnownView>, now: int) -> Seq<rpc::DeviceView> {
    at_most(order::stable_sort(all_shown(devices, now)), MAX_DEVICES as nat)
}

pub fn list_devices(devices: &Vec<KnownDevice>, now: i128) -> (listed: Vec<DeviceSnapshot>)
    ensures
        order::views(listed@) == listed_devices(order::views(devices@), now as int),
        listed@.len() <= MAX_DEVICES,
{
    let ghost known = order::views(devices@);
    let mut shown: Vec<DeviceSnapshot> = Vec::new();
    for i in 0..devices.len()
        invariant
            known == order::views(devices@),
            order::views(shown@) == all_shown(known, now as int).take(i as int),
    {
        let ghost before = shown@;
        shown.push(device_snapshot(&devices[i], now));
        proof {
            assert(known[i as int] == devices@[i as int]@);
            assert(order::views(shown@) =~= order::views(before).push(shown@.last()@));
            assert(all_shown(known, now as int).take(i + 1) =~= all_shown(known, now as int).take(
                i as int,
            ).push(all_shown(known, now as int)[i as int]));
        }
    }
    assert(order::views(shown@) =~= all_shown(known, now as int));
    let mut listed = order::sort_list(shown);
    let ghost sorted = listed@;
    if listed.len() > MAX_DEVICES {
        listed.truncate(MAX_DEVICES);
        assert(order::views(listed@) =~= order::views(sorted).take(MAX_DEVICES as int));
    }
    listed
}

/// The place of the first device from `i` on whose fingerprint is the given one, up to the case of
/// letters; the number of devices where there is none.
pub open spec fn place_of(devices: Seq<KnownView>, fingerprint: Seq<char>, i: int) -> int
    decreases devices.len() - i,
{
    if i < 0 || i >= devices.len() {
        devices.len() as int
    } else if text::same_ignoring_case(devices[i].fingerprint, fingerprint) {
        i
    } else {
        place_of(devices, fingerprint, i + 1)
    }
}

/// The device that a transfer goes to: the first with the fingerprint, if it is online and has an
/// HTTP address.
pub open spec fn target_of(devices: Seq<KnownView>, fingerprint: Seq<char>, now: int) -> Result<
    (rpc::PeerView, model::ChannelView),
    rpc::ApiErrorView,
> {
    let i = place_of(devices, fingerprint, 0);
    if !offer::is_label(fingerprint, 256) {
        Err(rpc::api_error("invalid_fingerprint"@, "Device fingerprint is invalid"@))
    } else if i >= devices.len() {
        Err(rpc::api_error("device_not_found"@, "Device is not in discovery state"@))
    } else if !is_online(devices[i], now) {
        Err(
            rpc::api_error(
                "device_offline"@,
                "Device has not been confirmed recently; refresh discovery first"@,
            ),
        )
    } else {
        match devices[i].best {
            Some(channel) => Ok((peer_of(devices[i], channel), channel)),
            None => Err(
                rpc::api_error("device_unreachable"@, "Device has no HTTP address"@),
            ),
        }
    }
}

pub open spec fn target_view(target: ApiResult<(PeerSnapshot, HttpChannel)>) -> Result<
    (rpc::PeerView, model::ChannelView),
    rpc::ApiErrorView,
> {
    match target {
        Ok((peer, channel)) => Ok((peer@, channel@)),
        Err(error) => Err(error@),
    }
}

fn find_device(devices: &Vec<KnownDevice>, fingerprint: &str) -> (place: usize)
    ensures
        place == place_of(order::views(devices@), fingerprint@, 0),
        place <= devices@.len(),
{
    let ghost known = order::views(devices@);
    let mut i: usize = 0;
    while i < devices.len()
        invariant
            known == order::views(devices@),
            i <= devices@.len(),
            place_of(known, fingerprint@, 0) == place_of(known, fingerprint@, i as int),
        decreases devices@.len() - i,
    {
        assert(known[i as int] == devices@[i as int]@);
        if text::equal_ignoring_case(devices[i].fingerprint.as_str(), fingerprint) {
            return i;
        }
        i += 1;
    }
    i
}

/// Finds the device that a transfer goes to at a moment.
pub fn choose_target(devices: &Vec<KnownDevice>, fingerprint: &str, now: i128) -> (target: ApiResult<
    (PeerSnapshot, HttpChannel),
>)
    ensures
        target_view(target) == target_of(order::views(devices@), fingerprint@, now as int),
{
    if let Err(error) = offer::validate_fingerprint(fingerprint) {
        return Err(error);
    }
    let place = find_device(devices, fingerprint);
    if place >= devices.len() {
        return Err(ApiError::new("device_not_found", "Device is not in discovery state"));
    }
    let device = &devices[place];
    assert(order::views(devices@)[place as int] == device@);
    if !device_online(device, now) {
        return Err(
            ApiError::new(
                "device_offline",
                "Device has not been confirmed recently; refresh discovery first",
            ),
        );
    }
    match &device.best {
        Some(channel) => Ok((peer_from_device(device, channel), channel.clone())),
        None => Err(ApiError::new("device_unreachable", "Device has no HTTP address")),
    }
}

/// True of the addresses that some channel of some device has.
pub open spec fn is_known_address(devices: Seq<KnownView>, address: model::ChannelView) -> bool {
    exists|i: int, j: int|
        #![trigger devices[i].channels[j]]
        0 <= i < devices.len() && 0 <= j < devices[i].channels.len() && devices[i].channels[j].http
            == Some(address)
}

fn same_channel(a: &HttpChannel, b: &HttpChannel) -> (r: bool)
    ensures
        r == (a@ == b@),
{
    a.host == b.host && a.port == b.port && a.protocol == b.protocol
}

/// Adds an address to a list unless it is there.
fn add_address(list: &mut Vec<HttpChannel>, address: &HttpChannel)
    ensures
        order::views(final(list)@) == (if order::views(old(list)@).contains(address@) {
            order::views(old(list)@)
        } else {
            order::views(old(list)@).push(address@)
        }),
{
    for i in 0..list.len()
        invariant
            list@ == old(list)@,
            forall|j: int| 0 <= j < i ==> order::views(list@)[j] != address@,
    {
        if same_channel(&list[i], address) {
            assert(order::views(list@)[i as int] == address@);
            return ;
        }
    }
    list.push(address.clone());
    assert(order::views(list@) =~= order::views(old(list)@).push(address@));
}

/// The HTTP addresses of all channels of all devices, each once.
pub fn known_addresses(devices: &Vec<KnownDevice>) -> (list: Vec<HttpChannel>)
    ensures
        order::views(list@).no_duplicates(),
        forall|address: model::ChannelView|
            #[trigger] order::views(list@).contains(address) == is_known_address(
                order::views(devices@),
                address,
            ),
{
    let ghost known = order::views(devices@);
    let mut list: Vec<HttpChannel> = Vec::new();
    assert(order::views(list@) =~= Seq::<model::ChannelView>::empty());
    for i in 0..devices.len()
        invariant
            known == order::views(devices@),
            order::views(list@).no_duplicates(),
            forall|address: model::ChannelView|
                #[trigger] order::views(list@).contains(address) == is_known_address(
                    known.take(i as int),
                    address,
                ),
    {
        let channels = &devices[i].channels;
        let ghost mine = known[i as int].channels;
        assert(mine == order::views(channels@));
        let ghost before = order::views(list@);
        for j in 0..channels.len()
            invariant
                known == order::views(devices@),
                i < devices@.len(),
                mine == order::views(channels@),
                order::views(list@).no_duplicates(),
                forall|address: model::ChannelView|
                    #[trigger] order::views(list@).contains(address) == (before.contains(address)
                        || exists|m: int|
                        0 <= m < j && (#[trigger] mine[m]).http == Some(address)),
        {
            assert(mine[j as int] == channels@[j as int]@);
            let ghost held = order::views(list@);
            if let Some(http) = &channels[j].http {
                add_address(&mut list, http);
                proof {
                    if !held.contains(http@) {
                        assert forall|address: model::ChannelView|
                            #[trigger] held.push(http@).contains(address) == (held.contains(address)
                                || address == http@) by {
                            if held.contains(address) {
                                let k = choose|k: int| 0 <= k < held.len() && held[k] == address;
                                assert(held.push(http@)[k] == address);
                            }
                            if address == http@ {
                                assert(held.push(http@)[held.len() as int] == address);
                            }
                        }
                    }
                }
            }
            assert forall|address: model::ChannelView|
                #[trigger] order::views(list@).contains(address) == (before.contains(address)
                    || exists|m: int| 0 <= m < j + 1 && (#[trigger] mine[m]).http == Some(address)) by {
                assert(held.contains(address) == (before.contains(address) || exists|m: int|
                    0 <= m < j && (#[trigger] mine[m]).http == Some(address)));
                if mine[j as int].http == Some(address) {
                    assert(order::views(list@).contains(address));
                }
            }
        }
        proof {
            assert forall|address: model::ChannelView|
                #[trigger] order::views(list@).contains(address) == is_known_address(
                    known.take(i + 1),
                    address,
                ) by {
                assert(before.contains(address) == is_known_address(known.take(i as int), address));
                if is_known_address(known.take(i as int), address) {
                    let (a, b) = choose|a: int, b: int|
                        #![trigger known.take(i as int)[a].channels[b]]
                        0 <= a < i && 0 <= b < known.take(i as int)[a].channels.len() && known.take(
                            i as int,
                        )[a].channels[b].http == Some(address);
                    assert(known.take(i + 1)[a].channels[b].http == Some(address));
                }
                if exists|m: int| 0 <= m < mine.len() && (#[trigger] mine[m]).http == Some(address) {
                    let m = choose|m: int|
                        0 <= m < mine.len() && (#[trigger] mine[m]).http == Some(address);
                    assert(known.take(i + 1)[i as int].channels[m].http == Some(address));
                }
                if is_known_address(known.take(i + 1), address) {
                    let (a, b) = choose|a: int, b: int|
                        #![trigger known.take(i + 1)[a].channels[b]]
                        0 <= a < i + 1 && 0 <= b < known.take(i + 1)[a].channels.len() && known.take(
                            i + 1,
                        )[a].channels[b].http == Some(address);
                    if a < i {
                        assert(known.take(i as int)[a].channels[b].http == Some(address));
                    } else {
                        assert(mine[b].http == Some(address));
                    }
                }
            }
        }
    }
    assert(known.take(devices@.len() as int) =~= known);
    list
}

} // verus!
