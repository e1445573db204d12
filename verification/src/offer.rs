//! Checks on what peers and callers send, and the text that an offer carries.
use crate::filemap::FileMap;
use crate::ids;
use crate::model;
use crate::model::{OfferEntry, RegisterDto};
use crate::order;
use crate::rpc;
use crate::rpc::{ApiError, ApiResult};
use crate::tally;
use crate::text;
use vstd::prelude::*;
use vstd::string::*;

verus! {

pub const MAX_INCOMING_FILES: usize = 512;

pub const MAX_INCOMING_NAME_BYTES: usize = 1024;

pub const MAX_INCOMING_METADATA_BYTES: usize = 524_288;

pub const MAX_REMOTE_FIELD_BYTES: usize = 256;

pub const MAX_MESSAGE_PREVIEW_CHARS: usize = 4096;

/// Largest text that is sent or previewed, in bytes.
pub const MAX_TEXT_BYTES: usize = 524_288;

/// Text of at most `limit` bytes without control characters.
pub open spec fn is_plain(value: Seq<char>, limit: nat) -> bool {
    text::byte_len(value) <= limit && !text::has_control(value)
}

/// Plain text that is not empty.
pub open spec fn is_label(value: Seq<char>, limit: nat) -> bool {
    value.len() > 0 && is_plain(value, limit)
}

fn plain(value: &str, limit: usize) -> (r: bool)
    ensures
        r == is_plain(value@, limit as nat),
{
    text::text_bytes(value) <= limit && !text::contains_control(value)
}

fn label(value: &str, limit: usize) -> (r: bool)
    ensures
        r == is_label(value@, limit as nat),
{
    !value.is_empty() && plain(value, limit)
}

pub open spec fn file_id_error() -> rpc::ApiErrorView {
    rpc::api_error("invalid_offer"@, "Incoming file ID is invalid or too long"@)
}

pub fn validate_file_id(value: &str) -> (r: ApiResult<()>)
    ensures
        rpc::verdict(r) == (if is_label(value@, MAX_REMOTE_FIELD_BYTES as nat) {
            Ok(())
        } else {
            Err(file_id_error())
        }),
{
    if !label(value, MAX_REMOTE_FIELD_BYTES) {
        return Err(ApiError::new("invalid_offer", "Incoming file ID is invalid or too long"));
    }
    Ok(())
}

/// The number of bytes that an optional text takes; none takes none.
pub open spec fn opt_byte_len(value: Option<Seq<char>>) -> nat {
    match value {
        Some(value) => text::byte_len(value),
        None => 0,
    }
}

/// The measure of an entry in the limit on an offer's metadata.
pub open spec fn entry_metadata() -> spec_fn(model::EntryView) -> nat {
    |entry: model::EntryView|
        text::byte_len(entry.key) + text::byte_len(entry.file.file_name) + text::byte_len(
            entry.file.file_type,
        ) + opt_byte_len(entry.file.preview)
}

/// The measure of an entry in the size of an offer.
pub open spec fn entry_size() -> spec_fn(model::EntryView) -> nat {
    |entry: model::EntryView| entry.file.size as nat
}

/// An entry that is listed under its own identifier, with a name, a type and a preview within
/// their limits.
pub open spec fn is_sound_entry(entry: model::EntryView) -> bool {
    &&& is_label(entry.key, MAX_REMOTE_FIELD_BYTES as nat)
    &&& entry.file.id == entry.key
    &&& is_label(entry.file.file_name, MAX_INCOMING_NAME_BYTES as nat)
    &&& is_plain(entry.file.file_type, MAX_REMOTE_FIELD_BYTES as nat)
    &&& opt_byte_len(entry.file.preview) <= MAX_TEXT_BYTES
}

/// What is wrong with an entry that is not sound.
pub open spec fn entry_complaint(entry: model::EntryView) -> Seq<char> {
    if !is_label(entry.key, MAX_REMOTE_FIELD_BYTES as nat) {
        "Incoming file ID is invalid or too long"@
    } else if entry.file.id != entry.key {
        "Incoming file ID does not match its map key"@
    } else if !is_label(entry.file.file_name, MAX_INCOMING_NAME_BYTES as nat) {
        "Incoming file name is invalid or too long"@
    } else if !is_plain(entry.file.file_type, MAX_REMOTE_FIELD_BYTES as nat) {
        "Incoming file type is invalid or too long"@
    } else {
        "Incoming text preview is too large"@
    }
}

/// An offer that a user may be asked about: one to 512 sound entries, whose metadata and sizes stay
/// within their limits taken together.
pub open spec fn is_acceptable_offer(entries: Seq<model::EntryView>) -> bool {
    &&& 1 <= entries.len() <= MAX_INCOMING_FILES
    &&& forall|i: int| 0 <= i < entries.len() ==> is_sound_entry(#[trigger] entries[i])
    &&& tally::sum_of(entries, entry_metadata()) <= MAX_INCOMING_METADATA_BYTES
    &&& tally::sum_of(entries, entry_size()) <= u64::MAX
}

/// The complaint that entry `i` gives rise to, counting what came before it.
pub open spec fn complaint_at(entries: Seq<model::EntryView>, i: int) -> Option<Seq<char>> {
    if !is_sound_entry(entries[i]) {
        Some(entry_complaint(entries[i]))
    } else if tally::sum_of(entries.take(i + 1), entry_metadata()) > MAX_INCOMING_METADATA_BYTES {
        Some("Incoming transfer metadata is too large"@)
    } else if tally::sum_of(entries.take(i + 1), entry_size()) > u64::MAX {
        Some("Incoming byte count overflowed"@)
    } else {
        None
    }
}

/// The complaint of the first entry from `i` on that has one.
pub open spec fn first_complaint(entries: Seq<model::EntryView>, i: int) -> Option<Seq<char>>
    decreases entries.len() - i,
{
    if i < 0 || i >= entries.len() {
        None
    } else if complaint_at(entries, i) is Some {
        complaint_at(entries, i)
    } else {
        first_complaint(entries, i + 1)
    }
}

/// The complaint about an offer: about the number of its entries, else that of the first entry
/// that has one.
pub open spec fn offer_complaint(entries: Seq<model::EntryView>) -> Option<Seq<char>> {
    if entries.len() == 0 || entries.len() > MAX_INCOMING_FILES {
        Some("Incoming request must contain 1 to 512 files"@)
    } else {
        first_complaint(entries, 0)
    }
}

/// An offer without complaint is acceptable, and an acceptable offer is without complaint.
pub proof fn lemma_acceptable_offer(entries: Seq<model::EntryView>)
    ensures
        is_acceptable_offer(entries) == (offer_complaint(entries) is None),
{
    if 1 <= entries.len() <= MAX_INCOMING_FILES {
        lemma_no_complaint(entries, 0);
        let all_silent = forall|j: int|
            0 <= j < entries.len() ==> (#[trigger] complaint_at(entries, j)) is None;
        if is_acceptable_offer(entries) {
            assert forall|j: int| 0 <= j < entries.len() implies (#[trigger] complaint_at(
                entries,
                j,
            )) is None by {
                assert(is_sound_entry(entries[j]));
                tally::lemma_sum_of_part(entries, j + 1, entry_metadata());
                tally::lemma_sum_of_part(entries, j + 1, entry_size());
            }
        }
        if all_silent {
            assert forall|j: int| 0 <= j < entries.len() implies is_sound_entry(
                #[trigger] entries[j],
            ) by {
                assert(complaint_at(entries, j) is None);
            }
            let last = entries.len() - 1;
            assert(complaint_at(entries, last) is None);
            assert(entries.take(last + 1) =~= entries);
        }
    }
}

/// Whether an offer is acceptable does not depend on the order in which its entries are looked at.
pub proof fn lemma_offer_order_is_irrelevant(
    entries: Seq<model::EntryView>,
    others: Seq<model::EntryView>,
)
    requires
        entries.to_multiset() == others.to_multiset(),
    ensures
        is_acceptable_offer(entries) == is_acceptable_offer(others),
{
    broadcast use vstd::seq_lib::group_to_multiset_ensures;

    assert(entries.len() == entries.to_multiset().len());
    assert(others.len() == others.to_multiset().len());
    tally::lemma_sum_any_order(entries, others, entry_metadata());
    tally::lemma_sum_any_order(entries, others, entry_size());
    assert forall|x: model::EntryView| #[trigger] entries.contains(x) == others.contains(x) by {
        assert(entries.contains(x) <==> entries.to_multiset().count(x) > 0);
        assert(others.contains(x) <==> others.to_multiset().count(x) > 0);
    }
    if forall|i: int| 0 <= i < entries.len() ==> is_sound_entry(#[trigger] entries[i]) {
        assert forall|i: int| 0 <= i < others.len() implies is_sound_entry(#[trigger] others[i]) by {
            assert(others.contains(others[i]));
            assert(entries.contains(others[i]));
        }
    }
    if forall|i: int| 0 <= i < others.len() ==> is_sound_entry(#[trigger] others[i]) {
        assert forall|i: int| 0 <= i < entries.len() implies is_sound_entry(
            #[trigger] entries[i],
        ) by {
            assert(entries.contains(entries[i]));
            assert(others.contains(entries[i]));
        }
    }
}

proof fn lemma_no_complaint(entries: Seq<model::EntryView>, i: int)
    requires
        0 <= i,
    ensures
        (first_complaint(entries, i) is None) == (forall|j: int|
            i <= j < entries.len() ==> (#[trigger] complaint_at(entries, j)) is None),
    decreases entries.len() - i,
{
    if i < entries.len() {
        lemma_no_complaint(entries, i + 1);
        if first_complaint(entries, i) is None {
            assert forall|j: int| i <= j < entries.len() implies (#[trigger] complaint_at(
                entries,
                j,
            )) is None by {
                if j > i {
                    assert(first_complaint(entries, i + 1) is None);
                }
            }
        }
    }
}

fn invalid_offer(message: &str) -> (r: ApiResult<()>)
    ensures
        rpc::verdict(r) == Err::<(), rpc::ApiErrorView>(
            rpc::api_error("invalid_offer"@, message@),
        ),
{
    Err(ApiError::new("invalid_offer", message))
}

fn opt_bytes(value: &Option<String>) -> (len: usize)
    ensures
        len == opt_byte_len(text::opt_text(*value)),
{
    match value {
        Some(value) => text::text_bytes(value.as_str()),
        None => 0,
    }
}

/// Checks one entry of an offer.
fn check_entry(entry: &OfferEntry) -> (complaint: Option<&'static str>)
    ensures
        (complaint is None) == is_sound_entry(entry@),
        complaint is Some ==> complaint->0@ == entry_complaint(entry@),
{
    if !label(entry.key.as_str(), MAX_REMOTE_FIELD_BYTES) {
        return Some("Incoming file ID is invalid or too long");
    }
    if entry.file.id != entry.key {
        return Some("Incoming file ID does not match its map key");
    }
    if !label(entry.file.file_name.as_str(), MAX_INCOMING_NAME_BYTES) {
        return Some("Incoming file name is invalid or too long");
    }
    if !plain(entry.file.file_type.as_str(), MAX_REMOTE_FIELD_BYTES) {
        return Some("Incoming file type is invalid or too long");
    }
    if opt_bytes(&entry.file.preview) > MAX_TEXT_BYTES {
        return Some("Incoming text preview is too large");
    }
    None
}

/// Checks an offer of files before the user is asked about it.
pub fn validate_incoming_offer(map: &FileMap) -> (r: ApiResult<()>)
    ensures
        (r is Ok) == is_acceptable_offer(map@),
        rpc::verdict(r) == (match offer_complaint(map@) {
            Some(message) => Err(rpc::api_error("invalid_offer"@, message)),
            None => Ok(()),
        }),
{
    let files = map.entries();
    let ghost entries = map@;
    proof {
        lemma_acceptable_offer(entries);
    }
    if files.len() == 0 || files.len() > MAX_INCOMING_FILES {
        return invalid_offer("Incoming request must contain 1 to 512 files");
    }
    let mut total: u64 = 0;
    let mut metadata_bytes: usize = 0;
    let mut i: usize = 0;
    assert(entries.take(0) =~= Seq::<model::EntryView>::empty());
    while i < files.len()
        invariant
            entries == map@,
            entries == order::views(files@),
            1 <= files@.len() <= MAX_INCOMING_FILES,
            i <= files@.len(),
            offer_complaint(entries) == first_complaint(entries, i as int),
            metadata_bytes == tally::sum_of(entries.take(i as int), entry_metadata()),
            metadata_bytes <= MAX_INCOMING_METADATA_BYTES,
            total == tally::sum_of(entries.take(i as int), entry_size()),
            is_acceptable_offer(entries) == (offer_complaint(entries) is None),
        decreases files@.len() - i,
    {
        let entry = &files[i];
        proof {
            assert(entries[i as int] == entry@);
            tally::lemma_sum_next(entries, i as int, entry_metadata());
            tally::lemma_sum_next(entries, i as int, entry_size());
        }
        if let Some(message) = check_entry(entry) {
            return invalid_offer(message);
        }
        metadata_bytes = metadata_bytes + text::text_bytes(entry.key.as_str()) + text::text_bytes(
            entry.file.file_name.as_str(),
        ) + text::text_bytes(entry.file.file_type.as_str()) + opt_bytes(&entry.file.preview);
        if metadata_bytes > MAX_INCOMING_METADATA_BYTES {
            return invalid_offer("Incoming transfer metadata is too large");
        }
        match total.checked_add(entry.file.size) {
            Some(sum) => {
                total = sum;
            },
            None => {
                return invalid_offer("Incoming byte count overflowed");
            },
        }
        i += 1;
    }
    Ok(())
}

/// What a sender says of itself, within its limits.
pub open spec fn is_sound_sender(info: model::RegisterView) -> bool {
    &&& is_label(info.alias, MAX_REMOTE_FIELD_BYTES as nat)
    &&& is_label(info.version, MAX_REMOTE_FIELD_BYTES as nat)
    &&& is_label(info.fingerprint, MAX_REMOTE_FIELD_BYTES as nat)
    &&& (info.device_model is Some ==> is_plain(
        info.device_model->0,
        MAX_REMOTE_FIELD_BYTES as nat,
    ))
}

/// What is wrong with a sender that is not sound.
pub open spec fn sender_complaint(info: model::RegisterView) -> Seq<char> {
    if !is_label(info.alias, MAX_REMOTE_FIELD_BYTES as nat) {
        "Sender alias is invalid or too long"@
    } else if !is_label(info.version, MAX_REMOTE_FIELD_BYTES as nat) {
        "Sender version is invalid or too long"@
    } else if !is_label(info.fingerprint, MAX_REMOTE_FIELD_BYTES as nat) {
        "Sender fingerprint is invalid or too long"@
    } else {
        "Sender device model is invalid or too long"@
    }
}

/// The verdict on a sender.
pub open spec fn sender_verdict(info: model::RegisterView) -> Result<(), rpc::ApiErrorView> {
    if is_sound_sender(info) {
        Ok(())
    } else {
        Err(rpc::api_error("invalid_sender"@, sender_complaint(info)))
    }
}

/// Checks what a sender says of itself.
pub fn validate_sender_info(info: &RegisterDto) -> (r: ApiResult<()>)
    ensures
        rpc::verdict(r) == sender_verdict(info@),
{
    if !label(info.alias.as_str(), MAX_REMOTE_FIELD_BYTES) {
        return Err(ApiError::new("invalid_sender", "Sender alias is invalid or too long"));
    }
    if !label(info.version.as_str(), MAX_REMOTE_FIELD_BYTES) {
        return Err(ApiError::new("invalid_sender", "Sender version is invalid or too long"));
    }
    if !label(info.fingerprint.as_str(), MAX_REMOTE_FIELD_BYTES) {
        return Err(ApiError::new("invalid_sender", "Sender fingerprint is invalid or too long"));
    }
    if let Some(model) = &info.device_model {
        if !plain(model.as_str(), MAX_REMOTE_FIELD_BYTES) {
            return Err(
                ApiError::new("invalid_sender", "Sender device model is invalid or too long"),
            );
        }
    }
    Ok(())
}

/// The verdict on an identifier that a caller names.
pub open spec fn uuid_verdict(value: Seq<char>, kind: Seq<char>) -> Result<(), rpc::ApiErrorView> {
    if ids::is_uuid(value) {
        Ok(())
    } else {
        Err(rpc::api_error("invalid_id"@, kind + " ID must be a valid UUID"@))
    }
}

/// Checks that an identifier of the given kind is a UUID.
pub fn validate_uuid(value: &str, kind: &str) -> (r: ApiResult<()>)
    ensures
        rpc::verdict(r) == uuid_verdict(value@, kind@),
{
    if ids::uuid_parses(value) {
        Ok(())
    } else {
        let message = text::join2(kind, " ID must be a valid UUID");
        Err(ApiError::new("invalid_id", message.as_str()))
    }
}

pub open spec fn stale_request_error() -> rpc::ApiErrorView {
    rpc::api_error("stale_request"@, "Incoming request is no longer pending"@)
}

/// The verdict on the identifier of a request: it must be a UUID, and that of the request that is
/// pending.
pub open spec fn request_verdict(current: Option<Seq<char>>, provided: Seq<char>) -> Result<
    (),
    rpc::ApiErrorView,
> {
    if !ids::is_uuid(provided) {
        uuid_verdict(provided, "request"@)
    } else if current != Some(provided) {
        Err(stale_request_error())
    } else {
        Ok(())
    }
}

/// Checks that a caller names the request that is pending.
pub fn validate_current_request(current: Option<&str>, provided: &str) -> (r: ApiResult<()>)
    ensures
        rpc::verdict(r) == request_verdict(
            match current {
                Some(current) => Some(current@),
                None => None,
            },
            provided@,
        ),
{
    if let Err(error) = validate_uuid(provided, "request") {
        return Err(error);
    }
    let same = match current {
        Some(current) => text::same_text(current, provided),
        None => false,
    };
    if !same {
        return Err(ApiError::new("stale_request", "Incoming request is no longer pending"));
    }
    Ok(())
}

/// The verdict on the fingerprint of a device that a caller names.
pub open spec fn fingerprint_verdict(value: Seq<char>) -> Result<(), rpc::ApiErrorView> {
    if is_label(value, 256) {
        Ok(())
    } else {
        Err(rpc::api_error("invalid_fingerprint"@, "Device fingerprint is invalid"@))
    }
}

pub fn validate_fingerprint(value: &str) -> (r: ApiResult<()>)
    ensures
        rpc::verdict(r) == fingerprint_verdict(value@),
{
    if !label(value, 256) {
        return Err(ApiError::new("invalid_fingerprint", "Device fingerprint is invalid"));
    }
    Ok(())
}

/// The types of files that hold text.
pub open spec fn is_text_type(file_type: Seq<char>) -> bool {
    text::begins_with(file_type, "text/"@) || file_type == "text"@
}

fn text_type(file_type: &str) -> (r: bool)
    ensures
        r == is_text_type(file_type@),
{
    text::starts_with(file_type, "text/") || text::same_text(file_type, "text")
}

/// The preview that an offer of a single text file carries.
pub open spec fn offered_text(entries: Seq<model::EntryView>) -> Option<Seq<char>> {
    if entries.len() == 1 && is_text_type(entries[0].file.file_type) {
        entries[0].file.preview
    } else {
        None
    }
}

/// The beginning of a text that is shown, and whether the text goes on behind it.
pub open spec fn shortened(preview: Option<Seq<char>>) -> (Option<Seq<char>>, bool) {
    match preview {
        None => (None, false),
        Some(preview) => if preview.len() > MAX_MESSAGE_PREVIEW_CHARS {
            (Some(preview.take(MAX_MESSAGE_PREVIEW_CHARS as int)), true)
        } else {
            (Some(preview), false)
        },
    }
}

/// The message that an offer shows, and whether it was cut short.
pub fn message_preview(map: &FileMap) -> (r: (Option<String>, bool))
    ensures
        (text::opt_text(r.0), r.1) == shortened(offered_text(map@)),
{
    let files = map.entries();
    if files.len() != 1 {
        return (None, false);
    }
    let file = &files[0].file;
    assert(order::views(files@)[0].file == file@);
    if !text_type(file.file_type.as_str()) {
        return (None, false);
    }
    match &file.preview {
        None => (None, false),
        Some(preview) => {
            let len: usize = preview.as_str().unicode_len();
            if len > MAX_MESSAGE_PREVIEW_CHARS {
                let start = preview.as_str().substring_char(0, MAX_MESSAGE_PREVIEW_CHARS);
                assert(start@ =~= preview@.take(MAX_MESSAGE_PREVIEW_CHARS as int));
                (Some(start.to_string()), true)
            } else {
                (Some(preview.clone()), false)
            }
        },
    }
}

/// The text that an offer holds in full: a single text file whose preview is as long as the file.
pub open spec fn embedded_text(entries: Seq<model::EntryView>) -> Option<Seq<char>> {
    match offered_text(entries) {
        Some(preview) => if entries[0].file.size != 0 && text::byte_len(preview)
            == entries[0].file.size {
            Some(preview)
        } else {
            None
        },
        None => None,
    }
}

/// The text that an offer holds in full, so that nothing is left to transfer.
pub fn embedded_message(map: &FileMap) -> (r: Option<&str>)
    ensures
        (match r {
            Some(message) => Some(message@),
            None => None,
        }) == embedded_text(map@),
{
    let files = map.entries();
    if files.len() != 1 {
        return None;
    }
    let file = &files[0].file;
    assert(order::views(files@)[0].file == file@);
    if !text_type(file.file_type.as_str()) || file.size == 0 {
        return None;
    }
    match &file.preview {
        None => None,
        Some(preview) => if text::text_bytes(preview.as_str()) as u64 == file.size {
            Some(preview.as_str())
        } else {
            None
        },
    }
}

} // verus!
