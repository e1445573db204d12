//! Laws about devices: which one a transfer goes to, and how they are shown.
use crate::clock;
use crate::devices;
use crate::files;
use crate::model;
use crate::model::{DeviceType, ProtocolType};
use crate::order;
use crate::rpc;
use crate::rpc::{TransferDirection, TransferFileState, TransferState};
use crate::state;
use crate::tally;
use crate::terms;
use crate::text;
use vstd::prelude::*;
use vstd::utf8::*;

verus! {

/// True of two characters that are the same, or the two cases of one ASCII letter.
pub open spec fn chars_agree(a: char, b: char) -> bool {
    ||| a == b
    ||| 65 <= a as u32 <= 90 && b as u32 == a as u32 + 32
    ||| 65 <= b as u32 <= 90 && a as u32 == b as u32 + 32
}

/// True of texts that are the same up to the case of ASCII letters.
pub open spec fn agrees_up_to_case(a: Seq<char>, b: Seq<char>) -> bool {
    a.len() == b.len() && forall|i: int| 0 <= i < a.len() ==> chars_agree(#[trigger] a[i], b[i])
}

proof fn lemma_chars_agree(a: char, b: char)
    ensures
        text::ascii_lower(a) == text::ascii_lower(b) <==> chars_agree(a, b),
{
    char_is_scalar(a);
    char_is_scalar(b);
    let x = a as u32;
    let y = b as u32;
    char_u32_cast(a, x);
    char_u32_cast(b, y);
    if 65 <= x <= 90 {
        let lower = (x + 32) as u32;
        char_u32_cast(lower as char, lower);
        assert(text::ascii_lower(a) == lower as char);
    }
    if 65 <= y <= 90 {
        let lower = (y + 32) as u32;
        char_u32_cast(lower as char, lower);
        assert(text::ascii_lower(b) == lower as char);
    }
}

/// Texts are taken for the same exactly when they are as long as each other and differ at most in
/// the case of ASCII letters.
pub proof fn lemma_agrees_up_to_case(a: Seq<char>, b: Seq<char>)
    ensures
        text::same_ignoring_case(a, b) <==> agrees_up_to_case(a, b),
{
    assert forall|i: int| 0 <= i < a.len() && 0 <= i < b.len() implies (text::ascii_lower(
        #[trigger] a[i],
    ) == text::ascii_lower(b[i]) <==> chars_agree(a[i], b[i])) by {
        lemma_chars_agree(a[i], b[i]);
    }
    if text::same_ignoring_case(a, b) {
        assert forall|i: int| 0 <= i < a.len() implies chars_agree(#[trigger] a[i], b[i]) by {
            assert(text::ascii_lower(a[i]) == text::ascii_lower(b[i]));
        }
    }
}

/// True of a device that has an available channel and was heard of within ninety seconds.
pub open spec fn is_reachable(device: devices::KnownView, now: int) -> bool {
    &&& exists|i: int| 0 <= i < device.channels.len() && (#[trigger] device.channels[i]).available
    &&& device.last_seen is Some
    &&& now - device.last_seen->0 <= 90_000_000_000
}

/// True of the first device that has a fingerprint.
pub open spec fn is_first_with(
    known: Seq<devices::KnownView>,
    fingerprint: Seq<char>,
    d: int,
) -> bool {
    &&& 0 <= d < known.len()
    &&& agrees_up_to_case(known[d].fingerprint, fingerprint)
    &&& forall|i: int|
        0 <= i < d ==> !agrees_up_to_case((#[trigger] known[i]).fingerprint, fingerprint)
}

/// True of a peer that shows a device at an address.
pub open spec fn shows_device(
    peer: rpc::PeerView,
    device: devices::KnownView,
    channel: model::ChannelView,
) -> bool {
    &&& peer.fingerprint == device.fingerprint
    &&& peer.alias == device.alias
    &&& peer.model == device.device_model
    &&& peer.device_type == kind_name(device.device_type)
    &&& peer.address.host == channel.host
    &&& peer.address.port == channel.port
    &&& peer.address.protocol == if channel.protocol == ProtocolType::Https {
        "https"@
    } else {
        "http"@
    }
}

proof fn lemma_place_is_first(known: Seq<devices::KnownView>, fingerprint: Seq<char>, i: int)
    requires
        0 <= i <= known.len(),
        forall|j: int|
            0 <= j < i ==> !agrees_up_to_case((#[trigger] known[j]).fingerprint, fingerprint),
    ensures
        ({
            let place = devices::place_of(known, fingerprint, i);
            if place < known.len() {
                is_first_with(known, fingerprint, place)
            } else {
                place == known.len() && forall|j: int|
                    0 <= j < known.len() ==> !agrees_up_to_case(
                        (#[trigger] known[j]).fingerprint,
                        fingerprint,
                    )
            }
        }),
    decreases known.len() - i,
{
    if i < known.len() {
        lemma_agrees_up_to_case(known[i].fingerprint, fingerprint);
        if !text::same_ignoring_case(known[i].fingerprint, fingerprint) {
            lemma_place_is_first(known, fingerprint, i + 1);
        }
    }
}

/// A target is the device that was asked for: the first known one whose fingerprint is the given one
/// up to case. It is reachable, the channel is its own preferred address, and the peer that is shown
/// is that device at that address. There is no target only for a reason: the fingerprint is no
/// fingerprint, no device has it, the device is not reachable, or it has no address.
pub proof fn lemma_target_is_the_device(
    known: Seq<devices::KnownView>,
    fingerprint: Seq<char>,
    now: int,
)
    ensures
        ({
            let target = devices::target_of(known, fingerprint, now);
            let is_fingerprint = 1 <= encode_utf8(fingerprint).len() <= 256 && forall|i: int|
                0 <= i < fingerprint.len() ==> !(fingerprint[i] as u32 <= 0x1f || 0x7f <= (
                #[trigger] fingerprint[i]) as u32 <= 0x9f);
            &&& target is Ok ==> exists|d: int|
                {
                    &&& #[trigger] is_first_with(known, fingerprint, d)
                    &&& is_reachable(known[d], now)
                    &&& known[d].best == Some(target->Ok_0.1)
                    &&& shows_device(target->Ok_0.0, known[d], target->Ok_0.1)
                }
            &&& forall|d: int| #[trigger]
                is_first_with(known, fingerprint, d) && is_fingerprint && is_reachable(
                    known[d],
                    now,
                ) && known[d].best is Some ==> target is Ok
            &&& target is Err ==> {
                let code = target->Err_0.code;
                ||| code == "invalid_fingerprint"@ && !is_fingerprint
                ||| code == "device_not_found"@ && is_fingerprint && forall|d: int|
                    !#[trigger] is_first_with(known, fingerprint, d)
                ||| code == "device_offline"@ && is_fingerprint && exists|d: int| #[trigger]
                    is_first_with(known, fingerprint, d) && !is_reachable(known[d], now)
                ||| code == "device_unreachable"@ && is_fingerprint && exists|d: int| #[trigger]
                    is_first_with(known, fingerprint, d) && is_reachable(known[d], now)
                        && known[d].best is None
            }
        }),
{
    lemma_place_is_first(known, fingerprint, 0);
    let place = devices::place_of(known, fingerprint, 0);
    assert forall|d: int| #[trigger] is_first_with(known, fingerprint, d) implies d == place by {
        if place < d {
            assert(!agrees_up_to_case(known[place].fingerprint, fingerprint));
        } else if d < place {
            assert(!agrees_up_to_case(known[d].fingerprint, fingerprint));
        }
    }
    assert(encode_utf8(fingerprint).len() >= 1 <==> fingerprint.len() >= 1);
    assert(text::has_control(fingerprint) <==> !(forall|i: int|
        0 <= i < fingerprint.len() ==> !(fingerprint[i] as u32 <= 0x1f || 0x7f <= (
        #[trigger] fingerprint[i]) as u32 <= 0x9f)));
}

/// A transfer that starts goes to the device that was asked for: the first known one with that
/// fingerprint up to case, which is reachable, over its own preferred address, and with its own
/// fingerprint wherever the connection can show one. The peer in the record is that device.
pub proof fn lemma_transfer_goes_to_the_device(
    c: state::ControllerView,
    fingerprint: Seq<char>,
    items: Seq<files::ItemView>,
    known: Seq<devices::KnownView>,
    id: Seq<char>,
    now: int,
)
    requires
        state::start_step(c, fingerprint, items, known, id, now) is Ok,
    ensures
        ({
            let (next, launch) = state::start_step(c, fingerprint, items, known, id, now)->Ok_0;
            exists|d: int|
                {
                    &&& #[trigger] is_first_with(known, fingerprint, d)
                    &&& is_reachable(known[d], now)
                    &&& known[d].best == Some(launch.channel)
                    &&& shows_device(launch.transfer.peer, known[d], launch.channel)
                    &&& next.outgoing is Some
                    &&& next.outgoing->0.host == launch.channel.host
                    &&& next.outgoing->0.record.peer == launch.transfer.peer
                    &&& launch.expected_fingerprint == (if launch.channel.protocol
                        == ProtocolType::Https {
                        Some(known[d].fingerprint)
                    } else {
                        None
                    })
                }
        }),
{
    lemma_target_is_the_device(known, fingerprint, now);
}

/// True of a file of a record that stands for an item that is about to be sent.
pub open spec fn is_queued_from(file: rpc::FileView, item: files::ItemView) -> bool {
    &&& file.id == item.file.id
    &&& file.name == item.file.file_name
    &&& file.size == item.file.size
    &&& file.mime_type == item.file.file_type
    &&& file.source_path == item.source_path
    &&& file.state == TransferFileState::Queued
    &&& file.completed_bytes == 0
    &&& file.destination_path is None
    &&& file.error is None
}

/// A transfer that starts is one that nothing stood in the way of, and its record begins with all
/// the items: each of them queued, in the order of their names, and nothing done yet. Nothing else
/// about the controller changes.
pub proof fn lemma_transfer_begins_with_the_items(
    c: state::ControllerView,
    fingerprint: Seq<char>,
    items: Seq<files::ItemView>,
    known: Seq<devices::KnownView>,
    id: Seq<char>,
    now: int,
)
    requires
        state::start_step(c, fingerprint, items, known, id, now) is Ok,
    ensures
        ({
            let (next, launch) = state::start_step(c, fingerprint, items, known, id, now)->Ok_0;
            let record = launch.transfer;
            &&& c.outgoing is None
            &&& next == (state::ControllerView { outgoing: next.outgoing, ..c })
            &&& next.outgoing is Some
            &&& next.outgoing->0.record == record
            &&& next.outgoing->0.remote_session_id is None
            &&& record.id == id
            &&& record.direction == TransferDirection::Outgoing
            &&& record.state == TransferState::Preparing
            &&& record.file_count == items.len()
            &&& record.files.len() == items.len()
            &&& record.completed_bytes == 0
            &&& record.total_bytes == tally::sum_of(
                items,
                |item: files::ItemView| item.file.size as nat,
            )
            &&& record.created_at == clock::timestamp_text(now)
            &&& record.updated_at == clock::timestamp_text(now)
            &&& record.started_at is None
            &&& record.finished_at is None
            &&& record.error is None
            &&& forall|i: int, j: int|
                #![trigger record.files[i], record.files[j]]
                0 <= i < j < record.files.len() ==> terms::is_in_order(
                    record.files[i].name,
                    record.files[i].id,
                    record.files[j].name,
                    record.files[j].id,
                )
            &&& forall|i: int|
                #![trigger record.files[i]]
                0 <= i < record.files.len() ==> exists|k: int|
                    0 <= k < items.len() && is_queued_from(record.files[i], #[trigger] items[k])
            &&& forall|k: int|
                #![trigger items[k]]
                0 <= k < items.len() ==> exists|i: int|
                    0 <= i < record.files.len() && is_queued_from(
                        #[trigger] record.files[i],
                        items[k],
                    )
        }),
{
    let (next, launch) = state::start_step(c, fingerprint, items, known, id, now)->Ok_0;
    let record = launch.transfer;
    let queued = state::queued_files(items);
    order::lemma_stable_sort(queued);
    assert(state::item_size() =~= |item: files::ItemView| item.file.size as nat);
    assert forall|i: int, j: int| #![trigger record.files[i], record.files[j]] 0 <= i < j
        < record.files.len() implies terms::is_in_order(
        record.files[i].name,
        record.files[i].id,
        record.files[j].name,
        record.files[j].id,
    ) by {
        assert(!order::Ranked::precedes(record.files[j], record.files[i]));
    }
    assert forall|i: int| #![trigger record.files[i]] 0 <= i < record.files.len() implies exists|
        k: int,
    |
        0 <= k < items.len() && is_queued_from(record.files[i], #[trigger] items[k]) by {
        order::lemma_sort_members(queued, record.files[i]);
        assert(record.files.contains(record.files[i]));
        let k = choose|k: int| 0 <= k < queued.len() && queued[k] == record.files[i];
        assert(is_queued_from(record.files[i], items[k]));
    }
    assert forall|k: int| #![trigger items[k]] 0 <= k < items.len() implies exists|i: int|
        0 <= i < record.files.len() && is_queued_from(#[trigger] record.files[i], items[k]) by {
        order::lemma_sort_members(queued, queued[k]);
        assert(queued.contains(queued[k]));
        let i = choose|i: int| 0 <= i < record.files.len() && record.files[i] == queued[k];
        assert(is_queued_from(record.files[i], items[k]));
    }
}

/// Whether a transfer is refused depends on three things, in this order: another one is on its way
/// out, the device cannot be had, or the sizes do not add up.
pub proof fn lemma_why_a_transfer_is_refused(
    c: state::ControllerView,
    fingerprint: Seq<char>,
    items: Seq<files::ItemView>,
    known: Seq<devices::KnownView>,
    id: Seq<char>,
    now: int,
)
    ensures
        ({
            let started = state::start_step(c, fingerprint, items, known, id, now);
            let target = devices::target_of(known, fingerprint, now);
            let total = tally::sum_of(items, |item: files::ItemView| item.file.size as nat);
            &&& started is Ok <==> c.outgoing is None && target is Ok && total <= u64::MAX
            &&& c.outgoing is Some ==> started->Err_0.code == "outgoing_busy"@
            &&& c.outgoing is None && target is Err ==> started->Err_0 == target->Err_0
            &&& c.outgoing is None && target is Ok && total > u64::MAX ==> started->Err_0.code
                == "selection_too_large"@
        }),
{
    assert(state::item_size() =~= |item: files::ItemView| item.file.size as nat);
}

/// True of what is shown of a device.
pub open spec fn is_shown_from(
    shown: rpc::DeviceView,
    device: devices::KnownView,
    now: int,
) -> bool {
    &&& shown.fingerprint == device.fingerprint
    &&& shown.alias == device.alias
    &&& shown.model == device.device_model
    &&& shown.device_type == kind_name(device.device_type)
    &&& shown.online <==> is_reachable(device, now)
    &&& shown.address is Some <==> device.best is Some
    &&& device.best is Some ==> {
        &&& shown.address->0.host == device.best->0.host
        &&& shown.address->0.port == device.best->0.port
        &&& shown.address->0.protocol == if device.best->0.protocol == ProtocolType::Https {
            "https"@
        } else {
            "http"@
        }
    }
    &&& shown.last_seen_at is Some <==> device.last_seen is Some
    &&& device.last_seen is Some ==> shown.last_seen_at->0 == clock::timestamp_text(
        device.last_seen->0 as int,
    )
}

/// True if one device is shown in front of another: those that are online come first, and among
/// those the order is that of the alias in lower case, and of the fingerprint where the aliases are
/// the same.
pub open spec fn is_shown_before(a: rpc::DeviceView, b: rpc::DeviceView) -> bool {
    let x = encode_utf8(devices::lowercase_text(a.alias));
    let y = encode_utf8(devices::lowercase_text(b.alias));
    ||| a.online && !b.online
    ||| a.online == b.online && text::bytes_before(x, y)
    ||| a.online == b.online && x == y && text::bytes_before(
        encode_utf8(a.fingerprint),
        encode_utf8(b.fingerprint),
    )
}

proof fn lemma_shown_before(a: rpc::DeviceView, b: rpc::DeviceView)
    ensures
        order::Ranked::precedes(a, b) <==> is_shown_before(a, b),
{
    let x = devices::lowercase_text(a.alias);
    let y = devices::lowercase_text(b.alias);
    if encode_utf8(x) == encode_utf8(y) {
        text::lemma_encoding_injective(x, y);
    }
}

/// True of a device that is shown, or that may be left out of a full list because it would not come
/// in front of anything that is shown.
pub open spec fn is_shown_or_left_out(
    device: devices::KnownView,
    listed: Seq<rpc::DeviceView>,
    is_full: bool,
    now: int,
) -> bool {
    exists|shown: rpc::DeviceView| #[trigger]
        is_shown_from(shown, device, now) && (listed.contains(shown) || (is_full && forall|i: int|
            0 <= i < listed.len() ==> !is_shown_before(shown, #[trigger] listed[i])))
}

/// The devices that are shown are the known ones, each as it is, and in order. Up to 128 are shown;
/// none is left out before there are as many, and what is left out would not come in front of
/// anything that is shown.
pub proof fn lemma_devices_are_shown_as_they_are(known: Seq<devices::KnownView>, now: int)
    ensures
        ({
            let listed = devices::listed_devices(known, now);
            &&& listed.len() == (if known.len() <= 128 {
                known.len()
            } else {
                128
            })
            &&& forall|i: int|
                #![trigger listed[i]]
                0 <= i < listed.len() ==> exists|d: int|
                    0 <= d < known.len() && is_shown_from(listed[i], #[trigger] known[d], now)
            &&& forall|d: int|
                #![trigger known[d]]
                0 <= d < known.len() ==> is_shown_or_left_out(
                    known[d],
                    listed,
                    known.len() > 128,
                    now,
                )
            &&& forall|i: int, j: int|
                #![trigger listed[i], listed[j]]
                0 <= i < j < listed.len() ==> !is_shown_before(listed[j], listed[i])
        }),
{
    let all = devices::all_shown(known, now);
    let sorted = order::stable_sort(all);
    let listed = devices::listed_devices(known, now);
    order::lemma_stable_sort(all);
    assert forall|i: int| #![trigger listed[i]] 0 <= i < listed.len() implies exists|d: int|
        0 <= d < known.len() && is_shown_from(listed[i], #[trigger] known[d], now) by {
        assert(listed[i] == sorted[i]);
        order::lemma_sort_members(all, sorted[i]);
        assert(sorted.contains(sorted[i]));
        let d = choose|d: int| 0 <= d < all.len() && all[d] == sorted[i];
        assert(is_shown_from(listed[i], known[d], now));
    }
    assert forall|d: int| #![trigger known[d]] 0 <= d < known.len() implies is_shown_or_left_out(
        known[d],
        listed,
        known.len() > 128,
        now,
    ) by {
        let shown = all[d];
        assert(is_shown_from(shown, known[d], now));
        order::lemma_sort_members(all, shown);
        assert(all.contains(all[d]));
        let k = choose|k: int| 0 <= k < sorted.len() && sorted[k] == shown;
        if k < listed.len() {
            assert(listed[k] == shown);
        } else {
            assert forall|i: int| 0 <= i < listed.len() implies !is_shown_before(
                shown,
                #[trigger] listed[i],
            ) by {
                assert(listed[i] == sorted[i]);
                assert(!order::Ranked::precedes(sorted[k], sorted[i]));
                lemma_shown_before(shown, listed[i]);
            }
        }
    }
    assert forall|i: int, j: int| #![trigger listed[i], listed[j]] 0 <= i < j
        < listed.len() implies !is_shown_before(listed[j], listed[i]) by {
        assert(listed[i] == sorted[i] && listed[j] == sorted[j]);
        assert(!order::Ranked::precedes(sorted[j], sorted[i]));
        lemma_shown_before(listed[j], listed[i]);
    }
}

/// What a kind of device is called.
pub open spec fn kind_name(kind: Option<DeviceType>) -> Option<Seq<char>> {
    match kind {
        None => None,
        Some(DeviceType::Mobile) => Some("mobile"@),
        Some(DeviceType::Desktop) => Some("desktop"@),
        Some(DeviceType::Web) => Some("web"@),
        Some(DeviceType::Headless) => Some("headless"@),
        Some(DeviceType::Server) => Some("server"@),
    }
}

/// The addresses of one more device are known addresses, and no others come with it.
pub proof fn lemma_known_addresses(
    known: Seq<devices::KnownView>,
    device: devices::KnownView,
    address: model::ChannelView,
)
    ensures
        !devices::is_known_address(Seq::empty(), address),
        devices::is_known_address(known.push(device), address) <==> devices::is_known_address(
            known,
            address,
        ) || exists|j: int|
            0 <= j < device.channels.len() && (#[trigger] device.channels[j]).http == Some(address),
{
    let more = known.push(device);
    let n = known.len() as int;
    if devices::is_known_address(more, address) {
        let (i, j) = choose|i: int, j: int|
            #![trigger more[i].channels[j]]
            0 <= i < more.len() && 0 <= j < more[i].channels.len() && more[i].channels[j].http
                == Some(address);
        if i < n {
            assert(known[i].channels[j].http == Some(address));
        } else {
            assert(device.channels[j].http == Some(address));
        }
    }
    if devices::is_known_address(known, address) {
        let (i, j) = choose|i: int, j: int|
            #![trigger known[i].channels[j]]
            0 <= i < known.len() && 0 <= j < known[i].channels.len() && known[i].channels[j].http
                == Some(address);
        assert(more[i].channels[j].http == Some(address));
    }
    if exists|j: int|
        0 <= j < device.channels.len() && (#[trigger] device.channels[j]).http == Some(address) {
        let j = choose|j: int|
            0 <= j < device.channels.len() && (#[trigger] device.channels[j]).http == Some(address);
        assert(more[n].channels[j].http == Some(address));
    }
}

} // verus!
