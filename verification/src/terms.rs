//! Laws of offers: which ones a user is asked about, what is shown of them, and what accepting one
//! comes to.
use crate::clock;
use crate::contact;
use crate::events;
use crate::ids;
use crate::model;
use crate::model::ProtocolType;
use crate::offer;
use crate::order;
use crate::rpc;
use crate::state;
use crate::tally;
use crate::text;
use crate::transfer;
use vstd::prelude::*;
use vstd::utf8::*;

verus! {

/// True of a text that takes a number of bytes at most and holds no control character.
pub open spec fn is_clean(text: Seq<char>, limit: nat) -> bool {
    &&& encode_utf8(text).len() <= limit
    &&& forall|i: int|
        0 <= i < text.len() ==> {
            let code = (#[trigger] text[i]) as u32;
            0x20 <= code && (code < 0x7f || 0x9f < code)
        }
}

/// A text is plain exactly when it is clean, and a label exactly when it is also not empty.
pub proof fn lemma_clean(text: Seq<char>, limit: nat)
    ensures
        offer::is_plain(text, limit) <==> is_clean(text, limit),
        offer::is_label(text, limit) <==> is_clean(text, limit) && text.len() > 0,
{
    if !text::has_control(text) {
        assert forall|i: int| 0 <= i < text.len() implies {
            let code = (#[trigger] text[i]) as u32;
            0x20 <= code && (code < 0x7f || 0x9f < code)
        } by {
            assert(!text::is_control_char(text[i]));
        }
    } else {
        let i = choose|i: int| 0 <= i < text.len() && text::is_control_char(#[trigger] text[i]);
        assert(!is_clean(text, limit)) by {
            let code = text[i] as u32;
        }
    }
}

/// How many bytes of metadata an entry of an offer brings.
pub open spec fn metadata_bytes(entry: model::EntryView) -> nat {
    encode_utf8(entry.key).len() + encode_utf8(entry.file.file_name).len() + encode_utf8(
        entry.file.file_type,
    ).len() + (match entry.file.preview {
        Some(preview) => encode_utf8(preview).len(),
        None => 0,
    })
}

/// True of an entry that a user may be shown: it stands under its own identifier, and its
/// identifier, name, type and preview are within their limits.
pub open spec fn is_showable(entry: model::EntryView) -> bool {
    &&& entry.key.len() > 0
    &&& is_clean(entry.key, 256)
    &&& entry.file.id == entry.key
    &&& entry.file.file_name.len() > 0
    &&& is_clean(entry.file.file_name, 1024)
    &&& is_clean(entry.file.file_type, 256)
    &&& entry.file.preview is Some ==> encode_utf8(entry.file.preview->0).len() <= 524_288
}

proof fn lemma_showable(entry: model::EntryView)
    ensures
        offer::is_sound_entry(entry) <==> is_showable(entry),
{
    lemma_clean(entry.key, 256);
    lemma_clean(entry.file.file_name, 1024);
    lemma_clean(entry.file.file_type, 256);
}

/// An offer is acceptable exactly when it lists one to 512 files, each of them showable, whose
/// metadata takes half a mebibyte at most and whose sizes add up to what can be counted.
pub proof fn lemma_which_offers_are_acceptable(entries: Seq<model::EntryView>)
    ensures
        offer::offer_complaint(entries) is None <==> {
            &&& 1 <= entries.len() <= 512
            &&& forall|i: int| 0 <= i < entries.len() ==> is_showable(#[trigger] entries[i])
            &&& tally::sum_of(entries, |entry: model::EntryView| metadata_bytes(entry)) <= 524_288
            &&& tally::sum_of(entries, |entry: model::EntryView| entry.file.size as nat)
                <= u64::MAX
        },
{
    offer::lemma_acceptable_offer(entries);
    assert forall|i: int| 0 <= i < entries.len() implies (offer::is_sound_entry(
        #[trigger] entries[i],
    ) <==> is_showable(entries[i])) by {
        lemma_showable(entries[i]);
    }
    assert(offer::entry_metadata() =~= |entry: model::EntryView| metadata_bytes(entry));
    assert(offer::entry_size() =~= |entry: model::EntryView| entry.file.size as nat);
}

proof fn lemma_first_complaint(entries: Seq<model::EntryView>, i: int)
    requires
        0 <= i <= entries.len(),
        offer::first_complaint(entries, i) is Some,
    ensures
        exists|k: int|
            i <= k < entries.len() && offer::first_complaint(entries, i)
                == #[trigger] offer::complaint_at(entries, k) && forall|j: int|
                i <= j < k ==> (#[trigger] offer::complaint_at(entries, j)) is None,
    decreases entries.len() - i,
{
    if i < entries.len() {
        if offer::complaint_at(entries, i) is None {
            lemma_first_complaint(entries, i + 1);
            let k = choose|k: int|
                i + 1 <= k < entries.len() && offer::first_complaint(entries, i + 1)
                    == #[trigger] offer::complaint_at(entries, k) && forall|j: int|
                    i + 1 <= j < k ==> (#[trigger] offer::complaint_at(entries, j)) is None;
            assert(offer::first_complaint(entries, i) == offer::complaint_at(entries, k));
        }
    }
}

/// True of a complaint about an entry that is true of it.
pub open spec fn is_true_of(complaint: Seq<char>, entry: model::EntryView) -> bool {
    ||| complaint == "Incoming file ID is invalid or too long"@ && !(entry.key.len() > 0
        && is_clean(entry.key, 256))
    ||| complaint == "Incoming file ID does not match its map key"@ && entry.file.id != entry.key
    ||| complaint == "Incoming file name is invalid or too long"@ && !(entry.file.file_name.len()
        > 0 && is_clean(entry.file.file_name, 1024))
    ||| complaint == "Incoming file type is invalid or too long"@ && !is_clean(
        entry.file.file_type,
        256,
    )
    ||| complaint == "Incoming text preview is too large"@ && entry.file.preview is Some
        && encode_utf8(entry.file.preview->0).len() > 524_288
}

/// A complaint about an offer is true: it is about the number of files, about one of them, or about
/// what they come to together. Every entry in front of the one complained of is in order.
pub proof fn lemma_complaints_are_true(entries: Seq<model::EntryView>)
    requires
        offer::offer_complaint(entries) is Some,
    ensures
        ({
            let complaint = offer::offer_complaint(entries)->0;
            ||| complaint == "Incoming request must contain 1 to 512 files"@ && (entries.len() == 0
                || entries.len() > 512)
            ||| exists|k: int|
                {
                    &&& 0 <= k < entries.len() <= 512
                    &&& forall|j: int| 0 <= j < k ==> is_showable(#[trigger] entries[j])
                    &&& {
                        ||| is_true_of(complaint, #[trigger] entries[k])
                        ||| complaint == "Incoming transfer metadata is too large"@
                            && tally::sum_of(
                            entries.take(k + 1),
                            |entry: model::EntryView| metadata_bytes(entry),
                        ) > 524_288
                        ||| complaint == "Incoming byte count overflowed"@ && tally::sum_of(
                            entries.take(k + 1),
                            |entry: model::EntryView| entry.file.size as nat,
                        ) > u64::MAX
                    }
                }
        }),
{
    if 1 <= entries.len() <= 512 {
        lemma_first_complaint(entries, 0);
        let k = choose|k: int|
            0 <= k < entries.len() && offer::first_complaint(entries, 0)
                == #[trigger] offer::complaint_at(entries, k) && forall|j: int|
                0 <= j < k ==> (#[trigger] offer::complaint_at(entries, j)) is None;
        assert forall|j: int| 0 <= j < k implies is_showable(#[trigger] entries[j]) by {
            assert(offer::complaint_at(entries, j) is None);
            lemma_showable(entries[j]);
        }
        let entry = entries[k];
        lemma_clean(entry.key, 256);
        lemma_clean(entry.file.file_name, 1024);
        lemma_clean(entry.file.file_type, 256);
        assert(offer::entry_metadata() =~= |entry: model::EntryView| metadata_bytes(entry));
        assert(offer::entry_size() =~= |entry: model::EntryView| entry.file.size as nat);
        if !offer::is_sound_entry(entries[k]) {
            assert(is_true_of(offer::offer_complaint(entries)->0, entries[k]));
        }
    }
}

/// A sender is taken seriously exactly when its alias, version and fingerprint are texts of 1 to 256
/// bytes without control characters, and its model, if it names one, is such a text or empty. What
/// is complained of is at fault.
pub proof fn lemma_which_senders_are_in_order(info: model::RegisterView)
    ensures
        ({
            let verdict = offer::sender_verdict(info);
            let alias = info.alias.len() > 0 && is_clean(info.alias, 256);
            let version = info.version.len() > 0 && is_clean(info.version, 256);
            let fingerprint = info.fingerprint.len() > 0 && is_clean(info.fingerprint, 256);
            let model = info.device_model is None || is_clean(info.device_model->0, 256);
            &&& verdict is Ok <==> alias && version && fingerprint && model
            &&& verdict is Err ==> verdict->Err_0.code == "invalid_sender"@
            &&& verdict is Err ==> {
                let message = verdict->Err_0.message;
                ||| !alias && message == "Sender alias is invalid or too long"@
                ||| !version && message == "Sender version is invalid or too long"@
                ||| !fingerprint && message == "Sender fingerprint is invalid or too long"@
                ||| !model && message == "Sender device model is invalid or too long"@
            }
        }),
{
    lemma_clean(info.alias, 256);
    lemma_clean(info.version, 256);
    lemma_clean(info.fingerprint, 256);
    if info.device_model is Some {
        lemma_clean(info.device_model->0, 256);
    }
}

/// True of an offer of a single file that holds text and comes with a preview.
pub open spec fn is_text_offer(entries: Seq<model::EntryView>) -> bool {
    &&& entries.len() == 1
    &&& entries[0].file.preview is Some
    &&& {
        let kind = entries[0].file.file_type;
        ||| kind == seq!['t', 'e', 'x', 't']
        ||| kind.len() >= 5 && kind.take(5) == seq!['t', 'e', 'x', 't', '/']
    }
}

proof fn lemma_text_offer(entries: Seq<model::EntryView>)
    ensures
        offer::offered_text(entries) is Some <==> is_text_offer(entries),
        is_text_offer(entries) ==> offer::offered_text(entries) == entries[0].file.preview,
{
    reveal_strlit("text/");
    reveal_strlit("text");
    assert("text/"@ =~= seq!['t', 'e', 'x', 't', '/']);
    assert("text"@ =~= seq!['t', 'e', 'x', 't']);
}

/// An offer holds its text in full exactly when it is one of a single text file, not an empty one,
/// and the preview has as many bytes as the file. The text is that preview, the whole of it.
pub proof fn lemma_which_texts_are_embedded(entries: Seq<model::EntryView>)
    ensures
        ({
            let text = offer::embedded_text(entries);
            &&& text is Some <==> is_text_offer(entries) && entries[0].file.size > 0 && encode_utf8(
                entries[0].file.preview->0,
            ).len() == entries[0].file.size
            &&& text is Some ==> text == entries[0].file.preview
        }),
{
    lemma_text_offer(entries);
}

/// The message that is shown of an offer is the beginning of its text: all of it up to 4096
/// characters, and cut short exactly where there is more. Other offers show none.
pub proof fn lemma_shown_message(entries: Seq<model::EntryView>)
    ensures
        ({
            let (message, is_cut) = offer::shortened(offer::offered_text(entries));
            let whole = entries[0].file.preview->0;
            &&& message is Some <==> is_text_offer(entries)
            &&& is_cut ==> is_text_offer(entries)
            &&& is_text_offer(entries) ==> {
                &&& is_cut <==> whole.len() > 4096
                &&& message->0.len() == (if is_cut {
                    4096
                } else {
                    whole.len()
                })
                &&& forall|i: int|
                    0 <= i < message->0.len() ==> #[trigger] message->0[i] == whole[i]
            }
        }),
{
    lemma_text_offer(entries);
}

/// True of two files in the order of their names, and of their identifiers where the names are the
/// same.
pub open spec fn is_in_order(
    name: Seq<char>,
    id: Seq<char>,
    next_name: Seq<char>,
    next_id: Seq<char>,
) -> bool {
    &&& !text::bytes_before(encode_utf8(next_name), encode_utf8(name))
    &&& name == next_name ==> !text::bytes_before(encode_utf8(next_id), encode_utf8(id))
}

/// True of a file that is shown for an entry of an offer.
pub open spec fn is_offered_from(file: rpc::OfferedView, entry: model::EntryView) -> bool {
    &&& file.id == entry.file.id
    &&& file.name == entry.file.file_name
    &&& file.size == entry.file.size
    &&& file.mime_type == entry.file.file_type
}

/// An offer that waits shows each of its files and nothing else, in the order of the names, with
/// their sizes added up, under the name and the address of the sender and with the fingerprint that
/// its certificate showed. The sender that an answer goes to is the same.
pub proof fn lemma_pending_offer_shows_the_offer(
    c: state::ControllerView,
    session_id: Seq<char>,
    host: Seq<char>,
    info: model::RegisterView,
    cert_fingerprint: Option<Seq<char>>,
    files: Seq<model::EntryView>,
    progress: Seq<transfer::ProgressView>,
    now: int,
)
    requires
        state::server_step(
            c,
            events::ServerEventView::PrepareUpload {
                session_id,
                host,
                info,
                cert_fingerprint,
                files,
            },
            progress,
            now,
        ).1.contains(events::EffectView::HoldOffer),
    ensures
        ({
            let (next, effects) = state::server_step(
                c,
                events::ServerEventView::PrepareUpload {
                    session_id,
                    host,
                    info,
                    cert_fingerprint,
                    files,
                },
                progress,
                now,
            );
            let shown = next.pending->0.snapshot;
            let sender = next.pending->0.sender;
            &&& next == (state::ControllerView { pending: next.pending, ..c })
            &&& next.pending is Some
            &&& next.pending->0.files == files
            &&& cert_fingerprint is Some
            &&& shown.id == session_id
            &&& shown.received_at == clock::timestamp_text(now)
            &&& shown.sender.fingerprint == cert_fingerprint->0
            &&& shown.sender.alias == info.alias
            &&& shown.sender.model == info.device_model
            &&& shown.sender.device_type == contact::kind_name(info.device_type)
            &&& shown.sender.address.host == host
            &&& shown.sender.address.port == info.port
            &&& shown.sender.address.protocol == (if info.protocol == ProtocolType::Https {
                "https"@
            } else {
                "http"@
            })
            &&& sender.host == host
            &&& sender.port == info.port
            &&& sender.protocol == info.protocol
            &&& sender.fingerprint == cert_fingerprint->0
            &&& shown.total_bytes == tally::sum_of(
                files,
                |entry: model::EntryView| entry.file.size as nat,
            )
            &&& shown.files.len() == files.len()
            &&& forall|i: int|
                #![trigger shown.files[i]]
                0 <= i < shown.files.len() ==> exists|k: int|
                    0 <= k < files.len() && is_offered_from(shown.files[i], #[trigger] files[k])
            &&& forall|k: int|
                #![trigger files[k]]
                0 <= k < files.len() ==> exists|i: int|
                    0 <= i < shown.files.len() && is_offered_from(
                        #[trigger] shown.files[i],
                        files[k],
                    )
            &&& forall|i: int, j: int|
                #![trigger shown.files[i], shown.files[j]]
                0 <= i < j < shown.files.len() ==> is_in_order(
                    shown.files[i].name,
                    shown.files[i].id,
                    shown.files[j].name,
                    shown.files[j].id,
                )
            &&& shown.message_preview is Some <==> is_text_offer(files)
            &&& is_text_offer(files) && files[0].file.preview->0.len() <= 4096
                ==> shown.message_preview == files[0].file.preview
                && !shown.message_preview_truncated
            &&& is_text_offer(files) && files[0].file.preview->0.len() > 4096
                ==> shown.message_preview->0 == files[0].file.preview->0.take(4096)
                && shown.message_preview_truncated
        }),
{
    let event = events::ServerEventView::PrepareUpload {
        session_id,
        host,
        info,
        cert_fingerprint,
        files,
    };
    let (next, effects) = state::server_step(c, event, progress, now);
    assert(effects.contains(events::EffectView::HoldOffer));
    let e = choose|e: int| 0 <= e < effects.len() && effects[e] == events::EffectView::HoldOffer;
    assert(next.pending is Some && cert_fingerprint is Some && offer::offer_complaint(files) is None);
    lemma_which_offers_are_acceptable(files);
    lemma_text_offer(files);
    assert(offer::entry_size() =~= |entry: model::EntryView| entry.file.size as nat);
    let offered = state::offered_files(files);
    let shown = next.pending->0.snapshot;
    order::lemma_stable_sort(offered);
    assert forall|i: int| #![trigger shown.files[i]] 0 <= i < shown.files.len() implies exists|
        k: int,
    |
        0 <= k < files.len() && is_offered_from(shown.files[i], #[trigger] files[k]) by {
        order::lemma_sort_members(offered, shown.files[i]);
        assert(shown.files.contains(shown.files[i]));
        let k = choose|k: int| 0 <= k < offered.len() && offered[k] == shown.files[i];
        assert(is_offered_from(shown.files[i], files[k]));
    }
    assert forall|k: int| #![trigger files[k]] 0 <= k < files.len() implies exists|i: int|
        0 <= i < shown.files.len() && is_offered_from(#[trigger] shown.files[i], files[k]) by {
        order::lemma_sort_members(offered, offered[k]);
        assert(offered.contains(offered[k]));
        let i = choose|i: int| 0 <= i < shown.files.len() && shown.files[i] == offered[k];
        assert(is_offered_from(shown.files[i], files[k]));
    }
    assert forall|i: int, j: int| #![trigger shown.files[i], shown.files[j]] 0 <= i < j
        < shown.files.len() implies is_in_order(
        shown.files[i].name,
        shown.files[i].id,
        shown.files[j].name,
        shown.files[j].id,
    ) by {
        assert(!order::Ranked::precedes(shown.files[j], shown.files[i]));
    }
}

/// A user is asked about an offer exactly when the sender showed a certificate, nothing else is
/// coming in, and sender and offer are in order. Every other offer is declined and changes nothing
/// but the error that is shown; one that only comes at a bad time shows none.
pub proof fn lemma_which_offers_wait(
    c: state::ControllerView,
    session_id: Seq<char>,
    host: Seq<char>,
    info: model::RegisterView,
    cert_fingerprint: Option<Seq<char>>,
    files: Seq<model::EntryView>,
    progress: Seq<transfer::ProgressView>,
    now: int,
)
    ensures
        ({
            let (next, effects) = state::server_step(
                c,
                events::ServerEventView::PrepareUpload {
                    session_id,
                    host,
                    info,
                    cert_fingerprint,
                    files,
                },
                progress,
                now,
            );
            let is_busy = c.pending is Some || c.incoming is Some;
            let is_in_order = offer::sender_verdict(info) is Ok && offer::offer_complaint(files)
                is None;
            &&& effects.contains(events::EffectView::HoldOffer) <==> cert_fingerprint is Some
                && !is_busy && is_in_order
            &&& !effects.contains(events::EffectView::HoldOffer) ==> effects == seq![
                events::EffectView::DeclineOffer,
            ]
            &&& !effects.contains(events::EffectView::HoldOffer) ==> next == (
            state::ControllerView { error: next.error, ..c })
            &&& cert_fingerprint is None ==> next.error is Some && next.error->0.code
                == "unverified_sender"@
            &&& cert_fingerprint is Some && is_busy ==> next == c
            &&& cert_fingerprint is Some && !is_busy && !is_in_order ==> next.error is Some
                && next.error->0.code == (if offer::sender_verdict(info) is Err {
                "invalid_sender"@
            } else {
                "invalid_offer"@
            }) && next.error->0.at == clock::timestamp_text(now) && next.error->0.message == (
            if offer::sender_verdict(info) is Err {
                offer::sender_verdict(info)->Err_0.message
            } else {
                offer::offer_complaint(files)->0
            })
            &&& effects.contains(events::EffectView::HoldOffer) && cert_fingerprint->0
                == c.identity.fingerprint ==> effects == seq![events::EffectView::HoldOffer]
            &&& effects.contains(events::EffectView::HoldOffer) && cert_fingerprint->0
                != c.identity.fingerprint ==> {
                &&& effects.len() == 2
                &&& effects[0] is ConfirmDevice
                &&& is_confirmed_from(effects[0]->device, host, info, cert_fingerprint->0)
            }
        }),
{
    let effects = state::server_step(
        c,
        events::ServerEventView::PrepareUpload {
            session_id,
            host,
            info,
            cert_fingerprint,
            files,
        },
        progress,
        now,
    ).1;
    if cert_fingerprint is Some && !(c.pending is Some || c.incoming is Some)
        && offer::sender_verdict(info) is Ok && offer::offer_complaint(files) is None {
        assert(effects.last() == events::EffectView::HoldOffer);
        assert(effects[effects.len() - 1] == events::EffectView::HoldOffer);
    } else {
        assert(effects == seq![events::EffectView::DeclineOffer]);
    }
}

/// True of the device that discovery is told of after it showed itself.
pub open spec fn is_confirmed_from(
    device: events::ConfirmedView,
    host: Seq<char>,
    info: model::RegisterView,
    fingerprint: Seq<char>,
) -> bool {
    &&& device.fingerprint == fingerprint
    &&& device.alias == info.alias
    &&& device.version == info.version
    &&& device.device_model == info.device_model
    &&& device.device_type == info.device_type
    &&& device.download == info.download
    &&& device.channel.host == host
    &&& device.channel.port == info.port
    &&& device.channel.protocol == info.protocol
}

/// A device that registers is made known to discovery as it showed itself, unless it is this one or
/// not in order. Nothing about the controller changes but the error of one that is not in order.
pub proof fn lemma_registered_device_is_confirmed(
    c: state::ControllerView,
    host: Seq<char>,
    info: model::RegisterView,
    progress: Seq<transfer::ProgressView>,
    now: int,
)
    ensures
        ({
            let (next, effects) = state::server_step(
                c,
                events::ServerEventView::Register { host, info },
                progress,
                now,
            );
            let is_in_order = offer::sender_verdict(info) is Ok;
            &&& is_in_order ==> next == c
            &&& !is_in_order ==> next == (state::ControllerView { error: next.error, ..c })
                && next.error is Some && next.error->0.code == "invalid_sender"@
            &&& !is_in_order || info.fingerprint == c.identity.fingerprint ==> effects.len() == 0
            &&& is_in_order && info.fingerprint != c.identity.fingerprint ==> {
                &&& effects.len() == 1
                &&& effects[0] is ConfirmDevice
                &&& is_confirmed_from(effects[0]->device, host, info, info.fingerprint)
            }
        }),
{
}

/// True of a place that is wanted for an entry of an offer.
pub open spec fn is_wanted_from(wanted: events::WantedView, entry: model::EntryView) -> bool {
    wanted.id == entry.key && wanted.name == entry.file.file_name
}

/// True of the places that are wanted for the files of an offer: one for each file, in order.
pub open spec fn are_wanted_from(
    wanted: Seq<events::WantedView>,
    files: Seq<model::EntryView>,
) -> bool {
    &&& wanted.len() == files.len()
    &&& forall|i: int|
        #![trigger wanted[i]]
        0 <= i < wanted.len() ==> exists|k: int|
            0 <= k < files.len() && is_wanted_from(wanted[i], #[trigger] files[k])
    &&& forall|k: int|
        #![trigger files[k]]
        0 <= k < files.len() ==> exists|i: int|
            0 <= i < wanted.len() && is_wanted_from(#[trigger] wanted[i], files[k])
    &&& forall|i: int, j: int|
        #![trigger wanted[i], wanted[j]]
        0 <= i < j < wanted.len() ==> is_in_order(
            wanted[i].name,
            wanted[i].id,
            wanted[j].name,
            wanted[j].id,
        )
}

proof fn lemma_wanted_files(files: Seq<model::EntryView>)
    ensures
        are_wanted_from(state::wanted_files(files), files),
{
    let all = Seq::new(files.len(), |i: int| state::wanted_file(files[i]));
    let wanted = state::wanted_files(files);
    order::lemma_stable_sort(all);
    assert forall|i: int| #![trigger wanted[i]] 0 <= i < wanted.len() implies exists|k: int|
        0 <= k < files.len() && is_wanted_from(wanted[i], #[trigger] files[k]) by {
        order::lemma_sort_members(all, wanted[i]);
        assert(wanted.contains(wanted[i]));
        let k = choose|k: int| 0 <= k < all.len() && all[k] == wanted[i];
        assert(is_wanted_from(wanted[i], files[k]));
    }
    assert forall|k: int| #![trigger files[k]] 0 <= k < files.len() implies exists|i: int|
        0 <= i < wanted.len() && is_wanted_from(#[trigger] wanted[i], files[k]) by {
        order::lemma_sort_members(all, all[k]);
        assert(all.contains(all[k]));
        let i = choose|i: int| 0 <= i < wanted.len() && wanted[i] == all[k];
        assert(is_wanted_from(wanted[i], files[k]));
    }
    assert forall|i: int, j: int| #![trigger wanted[i], wanted[j]] 0 <= i < j
        < wanted.len() implies is_in_order(
        wanted[i].name,
        wanted[i].id,
        wanted[j].name,
        wanted[j].id,
    ) by {
        assert(!order::Ranked::precedes(wanted[j], wanted[i]));
    }
}

/// Accepting takes the request that is pending, named by a UUID, and room for an incoming transfer.
/// A text that came in full is copied, the whole of it; else a place is reserved for every file of
/// the offer, under its identifier and its name and in the order of the names.
pub proof fn lemma_what_accepting_takes(c: state::ControllerView, request: Seq<char>)
    ensures
        ({
            let plan = state::accept_plan(c, request);
            let is_pending = c.pending is Some && c.pending->0.snapshot.id == request;
            let files = c.pending->0.files;
            let text = offer::embedded_text(files);
            &&& plan is Ok <==> ids::is_uuid(request) && is_pending && c.incoming is None
            &&& plan is Err ==> plan->Err_0.code == (if !ids::is_uuid(request) {
                "invalid_id"@
            } else if !is_pending {
                "stale_request"@
            } else {
                "incoming_busy"@
            })
            &&& plan is Ok && text is Some ==> plan->Ok_0 is CopyText && Some(
                plan->Ok_0->message,
            ) == files[0].file.preview
            &&& plan is Ok && text is None ==> plan->Ok_0 is ReserveFiles && are_wanted_from(
                plan->Ok_0->wanted,
                files,
            )
        }),
{
    let files = c.pending->0.files;
    lemma_which_texts_are_embedded(files);
    lemma_wanted_files(files);
}

} // verus!
