//! Laws of an outgoing transfer: when it ends in which way, what it does on the way there, and what
//! it sends.
use crate::filemap;
use crate::files;
use crate::model;
use crate::offer;
use crate::order;
use crate::outgoing;
use crate::outgoing::{ClientFailure, OpenedSource, RunStage};
use crate::rpc;
use crate::rpc::TransferState;
use crate::text;
use vstd::prelude::*;
use vstd::utf8::*;

verus! {

/// True if effects tell the controller that the transfer has ended in a state.
pub open spec fn ends_in(effects: Seq<outgoing::RunEffectView>, state: TransferState) -> bool {
    exists|i: int|
        0 <= i < effects.len() && (#[trigger] effects[i]) is Finished
            && effects[i]->Finished_state == state
}

/// A transfer ends as cancelled exactly when the event says that it was cancelled: a check found
/// so, or the offer or an upload was broken off because of it. Nothing else counts as cancelled.
pub proof fn lemma_cancelled_only_by_a_cancellation(
    run: outgoing::RunView,
    event: outgoing::RunEventView,
)
    requires
        outgoing::is_sound(run),
        outgoing::answers(run.stage, event),
    ensures
        ends_in(outgoing::advanced(run, event).1, TransferState::Cancelled) <==> {
            ||| event is Checked && event->Checked_cancelled
            ||| event is OfferFailed && event->OfferFailed_failure is Cancelled
            ||| event is UploadFailed && event->UploadFailed_failure is Cancelled
        },
{
    let effects = outgoing::advanced(run, event).1;
    assert(effects.last() == effects[effects.len() - 1]);
}

/// A file that cannot be read, or whose upload fails, is the end of the transfer: it ends as
/// failed, with an error, and before that the file at hand is reported as failed with that same
/// error. What could not be read gives its own error.
pub proof fn lemma_failed_file_fails_the_transfer(
    run: outgoing::RunView,
    event: outgoing::RunEventView,
)
    requires
        outgoing::is_sound(run),
        outgoing::answers(run.stage, event),
        event is SourceFailed || (event is UploadFailed && !(
        event->UploadFailed_failure is Cancelled)),
    ensures
        ({
            let (next, effects) = outgoing::advanced(run, event);
            let file = run.queue[run.next as int];
            let last = effects.last();
            &&& next.stage == RunStage::Ended
            &&& last is Finished
            &&& last->Finished_state == TransferState::Failed
            &&& last->Finished_error is Some
            &&& event is SourceFailed ==> last->Finished_error->0 == event->SourceFailed_error
            &&& event is UploadFailed ==> {
                &&& last->Finished_error->0.code == "upload_failed"@
                &&& last->Finished_error->0.message == "Could not upload "@ + file.name
            }
            &&& exists|i: int|
                0 <= i < effects.len() - 1 && #[trigger] effects[i] == (
                outgoing::RunEffectView::FileFailed {
                    file_id: file.id,
                    reason: last->Finished_error->0,
                })
            &&& effects.contains(
                outgoing::RunEffectView::NotifyCancel { session_id: run.session_id },
            )
        }),
{
    let effects = outgoing::advanced(run, event).1;
    assert(effects.last() == effects[effects.len() - 1]);
    assert(effects[0] is FileFailed);
    assert(effects[1] is NotifyCancel);
}

/// Nothing but a failure ends a transfer as failed, and a file is reported as failed only where
/// that file could not be read or sent.
pub proof fn lemma_failed_only_by_a_failure(
    run: outgoing::RunView,
    event: outgoing::RunEventView,
)
    requires
        outgoing::is_sound(run),
        outgoing::answers(run.stage, event),
    ensures
        ({
            let effects = outgoing::advanced(run, event).1;
            &&& ends_in(effects, TransferState::Failed) <==> {
                ||| event is ConnectFailed
                ||| event is SourceFailed
                ||| event is UploadFailed && !(event->UploadFailed_failure is Cancelled)
                ||| event is OfferFailed && !(event->OfferFailed_failure is Cancelled)
                    && event->OfferFailed_failure != (ClientFailure::Status { code: 403 })
            }
            &&& event is ConnectFailed ==> effects.last()->Finished_error->0.code
                == "tls_client_error"@
            &&& forall|i: int|
                #![trigger effects[i]]
                0 <= i < effects.len() && effects[i] is Finished ==> (
                effects[i]->Finished_error is Some <==> effects[i]->Finished_state
                    == TransferState::Failed)
            &&& forall|i: int|
                #![trigger effects[i]]
                0 <= i < effects.len() && effects[i] is FileFailed ==> event is SourceFailed || (
                event is UploadFailed && !(event->UploadFailed_failure is Cancelled))
        }),
{
    let effects = outgoing::advanced(run, event).1;
    assert(effects.last() == effects[effects.len() - 1]);
}

/// The session is called off at the receiver exactly where the sender gives up a session that the
/// receiver has opened and did not cancel itself.
pub proof fn lemma_receiver_hears_of_every_other_end(
    run: outgoing::RunView,
    event: outgoing::RunEventView,
)
    requires
        outgoing::is_sound(run),
        outgoing::answers(run.stage, event),
    ensures
        ({
            let effects = outgoing::advanced(run, event).1;
            &&& (exists|i: int| 0 <= i < effects.len() && (#[trigger] effects[i]) is NotifyCancel)
                <==> {
                ||| event is Checked && event->Checked_cancelled && !event->Checked_by_peer
                ||| event is SourceFailed
                ||| event is UploadFailed && !(event->UploadFailed_failure is Cancelled
                    && event->UploadFailed_by_peer)
            }
            &&& forall|i: int|
                #![trigger effects[i]]
                0 <= i < effects.len() && effects[i] is NotifyCancel
                    ==> effects[i]->NotifyCancel_session_id == run.session_id
        }),
{
    let effects = outgoing::advanced(run, event).1;
    if event is Checked && event->Checked_cancelled && !event->Checked_by_peer {
        assert(effects[0] is NotifyCancel);
    }
    if event is SourceFailed {
        assert(effects[1] is NotifyCancel);
    }
    if event is UploadFailed && !(event->UploadFailed_failure is Cancelled
        && event->UploadFailed_by_peer) {
        assert(effects[0] is NotifyCancel || effects[1] is NotifyCancel);
    }
}

/// A file is sent exactly when a check found that nothing was cancelled, and it is the file at
/// hand, with the token that the receiver gave for it. A file counts as sent exactly when its
/// upload has come to its end, with all its bytes, and the transfer has ended well exactly when it
/// was the last, or when there was no need to send anything.
pub proof fn lemma_files_go_one_by_one(run: outgoing::RunView, event: outgoing::RunEventView)
    requires
        outgoing::is_sound(run),
        outgoing::answers(run.stage, event),
    ensures
        ({
            let (next, effects) = outgoing::advanced(run, event);
            let file = run.queue[run.next as int];
            &&& event is Checked && !event->Checked_cancelled ==> effects == seq![
                outgoing::RunEffectView::Upload { file_id: file.id, token: file.token },
            ]
            &&& event is Uploaded ==> effects.len() > 0 && effects[0] == (
            outgoing::RunEffectView::FileCompleted { file_id: file.id, size: file.size })
            &&& forall|i: int|
                #![trigger effects[i]]
                0 <= i < effects.len() ==> {
                    &&& effects[i] is Upload ==> event is Checked && !event->Checked_cancelled
                    &&& effects[i] is FileCompleted ==> event is Uploaded && i == 0
                    &&& effects[i] is Prepared ==> event is Answered
                    &&& effects[i] is SendOffer ==> event is Connected
                    &&& effects[i] is FillProgress ==> event is Answered
                        && event->Answered_reply is None
                }
            &&& event is Connected ==> effects == seq![outgoing::RunEffectView::SendOffer]
                && next.stage == RunStage::Offering
            &&& event is Uploaded ==> (ends_in(effects, TransferState::Completed) <==> run.next + 1
                == run.queue.len())
            &&& !(event is Uploaded) && !(event is Answered) ==> !ends_in(
                effects,
                TransferState::Completed,
            )
            &&& !(event is Answered) ==> next.queue == run.queue && next.session_id
                == run.session_id
            &&& next.offer == run.offer
            &&& next.next == run.next + (if event is Uploaded {
                1int
            } else {
                0int
            })
        }),
{
    let effects = outgoing::advanced(run, event).1;
    assert(effects.last() == effects[effects.len() - 1]);
}

/// An offer counts as declined exactly when the receiver says so: by its status, by taking none of
/// the files, or by opening no session for an offer that leaves something to send.
pub proof fn lemma_declined_only_by_the_receiver(
    run: outgoing::RunView,
    event: outgoing::RunEventView,
)
    requires
        outgoing::is_sound(run),
        outgoing::answers(run.stage, event),
    ensures
        ends_in(outgoing::advanced(run, event).1, TransferState::Declined) <==> {
            ||| event == (outgoing::RunEventView::OfferFailed {
                failure: ClientFailure::Status { code: 403 },
            })
            ||| event is Answered && event->Answered_reply is None && offer::embedded_text(
                run.offer,
            ) is None
            ||| event is Answered && event->Answered_reply is Some && forall|i: int, j: int|
                0 <= i < run.offer.len() && 0 <= j < event->Answered_reply->0.tokens.len()
                    ==> (#[trigger] run.offer[i]).key != (
                #[trigger] event->Answered_reply->0.tokens[j]).id
        },
{
    let effects = outgoing::advanced(run, event).1;
    assert(effects.last() == effects[effects.len() - 1]);
    if event is Answered && event->Answered_reply is Some {
        let tokens = event->Answered_reply->0.tokens;
        let accepted = outgoing::accepted_files(run.offer, tokens);
        if accepted.len() > 0 {
            lemma_accepted_origin(run.offer, tokens, 0);
            let (i, j) = choose|i: int, j: int|
                0 <= i < run.offer.len() && 0 <= j < tokens.len() && is_accepted_from(
                    accepted[0],
                    #[trigger] run.offer[i],
                    #[trigger] tokens[j],
                );
            assert(run.offer[i].key == tokens[j].id);
        }
        assert forall|i: int, j: int|
            0 <= i < run.offer.len() && 0 <= j < tokens.len() && accepted.len() == 0 implies (
        #[trigger] run.offer[i]).key != (#[trigger] tokens[j]).id by {
            outgoing::lemma_accepted_files(run.offer, tokens, tokens[j].id);
            filemap::lemma_key_place(run.offer, tokens[j].id, 0);
        }
    }
}

/// True of a file of the queue that stands for an offered file, with a token for it.
pub open spec fn is_accepted_from(
    file: outgoing::QueuedView,
    entry: model::EntryView,
    token: outgoing::TokenView,
) -> bool {
    &&& file.id == entry.key
    &&& file.id == token.id
    &&& file.token == token.token
    &&& file.name == entry.file.file_name
    &&& file.size == entry.file.size
}

proof fn lemma_accepted_origin(
    entries: Seq<model::EntryView>,
    tokens: Seq<outgoing::TokenView>,
    k: int,
)
    requires
        0 <= k < outgoing::accepted_files(entries, tokens).len(),
    ensures
        exists|i: int, j: int|
            0 <= i < entries.len() && 0 <= j < tokens.len() && is_accepted_from(
                outgoing::accepted_files(entries, tokens)[k],
                #[trigger] entries[i],
                #[trigger] tokens[j],
            ),
    decreases tokens.len(),
{
    let all = outgoing::accepted_files(entries, tokens);
    let before = outgoing::accepted_files(entries, tokens.drop_last());
    if k < before.len() {
        lemma_accepted_origin(entries, tokens.drop_last(), k);
        let (i, j) = choose|i: int, j: int|
            0 <= i < entries.len() && 0 <= j < tokens.drop_last().len() && is_accepted_from(
                before[k],
                #[trigger] entries[i],
                #[trigger] tokens.drop_last()[j],
            );
        assert(tokens[j] == tokens.drop_last()[j]);
        assert(all[k] == before[k]);
        assert(is_accepted_from(all[k], entries[i], tokens[j]));
    } else {
        let j = tokens.len() - 1;
        filemap::lemma_key_place(entries, tokens[j].id, 0);
        let i = filemap::key_place(entries, tokens[j].id, 0);
        assert(is_accepted_from(all[k], entries[i], tokens[j]));
    }
}

/// What the receiver takes is sent: the queue holds every offered file that there is a token for,
/// under its own name and size and with that token, nothing else and nothing twice, in the order of
/// the names. The controller hears of exactly these files and of the session.
pub proof fn lemma_queue_is_what_was_taken(
    run: outgoing::RunView,
    reply: outgoing::ReplyView,
)
    requires
        outgoing::is_sound(run),
        run.stage == RunStage::Offering,
        outgoing::advanced(
            run,
            outgoing::RunEventView::Answered { reply: Some(reply) },
        ).0.stage != RunStage::Ended,
    ensures
        ({
            let (next, effects) = outgoing::advanced(
                run,
                outgoing::RunEventView::Answered { reply: Some(reply) },
            );
            &&& next.session_id == reply.session_id
            &&& next.stage == RunStage::Checking
            &&& next.next == 0
            &&& effects.len() == 2
            &&& effects[0] is Prepared
            &&& effects[0]->Prepared_session_id == reply.session_id
            &&& effects[0]->Prepared_accepted.len() == next.queue.len()
            &&& forall|k: int|
                0 <= k < next.queue.len() ==> effects[0]->Prepared_accepted[k] == (
                #[trigger] next.queue[k]).id
            &&& effects[1] is CheckCancelled
            &&& forall|k: int|
                #![trigger next.queue[k]]
                0 <= k < next.queue.len() ==> exists|i: int, j: int|
                    0 <= i < run.offer.len() && 0 <= j < reply.tokens.len() && is_accepted_from(
                        next.queue[k],
                        #[trigger] run.offer[i],
                        #[trigger] reply.tokens[j],
                    )
            &&& forall|i: int, j: int|
                #![trigger run.offer[i], reply.tokens[j]]
                0 <= i < run.offer.len() && 0 <= j < reply.tokens.len() && run.offer[i].key
                    == reply.tokens[j].id ==> exists|k: int|
                    0 <= k < next.queue.len() && (#[trigger] next.queue[k]).id == run.offer[i].key
            &&& forall|k: int, m: int|
                0 <= k < m < next.queue.len() ==> {
                    &&& (#[trigger] next.queue[k]).id != (#[trigger] next.queue[m]).id
                    &&& !text::bytes_before(
                        encode_utf8(next.queue[m].name),
                        encode_utf8(next.queue[k].name),
                    )
                }
        }),
{
    broadcast use vstd::seq_lib::group_to_multiset_ensures;

    let accepted = outgoing::accepted_files(run.offer, reply.tokens);
    let queue = order::stable_sort(accepted);
    order::lemma_stable_sort(accepted);
    assert forall|k: int| #![trigger queue[k]] 0 <= k < queue.len() implies exists|i: int, j: int|
        0 <= i < run.offer.len() && 0 <= j < reply.tokens.len() && is_accepted_from(
            queue[k],
            #[trigger] run.offer[i],
            #[trigger] reply.tokens[j],
        ) by {
        order::lemma_sort_members(accepted, queue[k]);
        assert(queue.contains(queue[k]));
        let m = choose|m: int| 0 <= m < accepted.len() && accepted[m] == queue[k];
        lemma_accepted_origin(run.offer, reply.tokens, m);
    }
    assert forall|i: int, j: int|
        #![trigger run.offer[i], reply.tokens[j]]
        0 <= i < run.offer.len() && 0 <= j < reply.tokens.len() && run.offer[i].key
            == reply.tokens[j].id implies exists|k: int|
        0 <= k < queue.len() && (#[trigger] queue[k]).id == run.offer[i].key by {
        let id = run.offer[i].key;
        filemap::lemma_key_place(run.offer, id, 0);
        outgoing::lemma_accepted_files(run.offer, reply.tokens, id);
        let m = choose|m: int| 0 <= m < accepted.len() && (#[trigger] accepted[m]).id == id;
        assert(accepted.contains(accepted[m]));
        order::lemma_sort_members(accepted, accepted[m]);
        let k = choose|k: int| 0 <= k < queue.len() && queue[k] == accepted[m];
        assert(queue[k].id == id);
    }
    assert forall|k: int, m: int| 0 <= k < m < queue.len() implies (#[trigger] queue[k]).id != (
    #[trigger] queue[m]).id by {
        outgoing::lemma_accepted_files(run.offer, reply.tokens, queue[k].id);
        lemma_distinct_after_sort(accepted, k, m);
    }
}

/// Files whose identifiers differ still differ once they are sorted.
proof fn lemma_distinct_after_sort(list: Seq<outgoing::QueuedView>, k: int, m: int)
    requires
        0 <= k < m < order::stable_sort(list).len(),
        forall|i: int, j: int|
            0 <= i < j < list.len() ==> (#[trigger] list[i]).id != (#[trigger] list[j]).id,
    ensures
        order::stable_sort(list)[k].id != order::stable_sort(list)[m].id,
{
    broadcast use vstd::seq_lib::group_to_multiset_ensures;

    let sorted = order::stable_sort(list);
    order::lemma_stable_sort(list);
    if sorted[k].id == sorted[m].id {
        order::lemma_sort_members(list, sorted[k]);
        order::lemma_sort_members(list, sorted[m]);
        assert(sorted.contains(sorted[k]) && sorted.contains(sorted[m]));
        let i = choose|i: int| 0 <= i < list.len() && list[i] == sorted[k];
        let j = choose|j: int| 0 <= j < list.len() && list[j] == sorted[m];
        assert(i == j);
        let x = sorted[k];
        assert(list.no_duplicates());
        assert(list.to_multiset().count(x) <= 1) by {
            list.lemma_multiset_has_no_duplicates();
        }
        let without = sorted.remove(k);
        assert(without[m - 1] == x);
        assert(without.contains(x));
        assert(without.to_multiset().count(x) > 0);
        assert(without.to_multiset() =~= sorted.to_multiset().remove(x));
    }
}

/// A transfer begins with the offer of its items and with nothing sent. A receiver that opens no
/// session for an offer that holds everything has it all: the transfer is completed. While files are
/// left, each upload is followed by a check before the next.
pub proof fn lemma_course_of_a_transfer(
    items: Seq<files::ItemView>,
    run: outgoing::RunView,
    event: outgoing::RunEventView,
)
    requires
        outgoing::is_sound(run),
        outgoing::answers(run.stage, event),
    ensures
        ({
            let begun = outgoing::begun(items);
            let (next, effects) = outgoing::advanced(run, event);
            &&& begun.offer == outgoing::offer_of(items)
            &&& begun.stage == RunStage::Connecting
            &&& begun.queue.len() == 0
            &&& begun.next == 0
            &&& event is Answered && event->Answered_reply is None && offer::embedded_text(
                run.offer,
            ) is Some ==> {
                &&& next.stage == RunStage::Ended
                &&& effects.len() == 2
                &&& effects[0] is FillProgress
                &&& effects[1] == (outgoing::RunEffectView::Finished {
                    state: TransferState::Completed,
                    error: None,
                })
            }
            &&& event is Uploaded && run.next + 1 < run.queue.len() ==> {
                &&& next.stage == RunStage::Checking
                &&& effects.len() == 2
                &&& effects[1] is CheckCancelled
            }
            &&& event is Checked && !event->Checked_cancelled ==> next.stage
                == RunStage::Uploading
            &&& (exists|i: int| 0 <= i < effects.len() && (#[trigger] effects[i]) is Finished)
                <==> next.stage == RunStage::Ended
        }),
{
    let effects = outgoing::advanced(run, event).1;
    assert(effects.last() == effects[effects.len() - 1]);
}

/// Each error of a failed offer says why it failed.
pub proof fn lemma_offer_errors(run: outgoing::RunView, failure: ClientFailure)
    requires
        outgoing::is_sound(run),
        run.stage == RunStage::Offering,
        !(failure is Cancelled),
        failure != (ClientFailure::Status { code: 403 }),
    ensures
        ({
            let effects = outgoing::advanced(
                run,
                outgoing::RunEventView::OfferFailed { failure },
            ).1;
            let code = effects.last()->Finished_error->0.code;
            &&& effects.len() == 1
            &&& effects.last() is Finished
            &&& effects.last()->Finished_error is Some
            &&& effects.last()->Finished_state == TransferState::Failed
            &&& failure is Status && failure->code != 401 && failure->code != 409 && failure->code
                != 429 ==> effects.last()->Finished_error->0.message == "Receiver returned HTTP status "@
                + text::decimal_text(failure->code as nat)
            &&& failure is Other ==> code == "network_error"@
            &&& failure is Json ==> code == "protocol_error"@
            &&& failure is Status ==> code == (if failure->code == 401 {
                "pin_required"@
            } else if failure->code == 409 {
                "peer_busy"@
            } else if failure->code == 429 {
                "rate_limited"@
            } else {
                "remote_error"@
            })
        }),
{
}

/// A source from disk may be sent exactly when what was opened is the regular file that was
/// selected: the same device, inode and size. Every other finding is the same kind of error. Bytes that
/// are at hand may be sent in any case.
pub proof fn lemma_only_the_selected_file_is_sent(
    path: Seq<char>,
    device: u64,
    inode: u64,
    size: u64,
    opened: OpenedSource,
)
    ensures
        ({
            let verdict = outgoing::source_verdict(
                files::SourceView::Path { path, device, inode, size },
                opened,
            );
            &&& verdict is Ok <==> opened == (OpenedSource::Opened {
                is_file: true,
                device,
                inode,
                size,
            })
            &&& verdict is Err ==> verdict->Err_0.code == "source_changed"@
        }),
        forall|bytes: Seq<u8>|
            (#[trigger] outgoing::source_verdict(files::SourceView::Bytes(bytes), opened)) is Ok,
{
}

/// True of an item behind which no other has its identifier.
pub open spec fn is_last_of_its_id(items: Seq<files::ItemView>, i: int) -> bool {
    &&& 0 <= i < items.len()
    &&& forall|j: int| i < j < items.len() ==> (#[trigger] items[j]).file.id != items[i].file.id
}

/// Every item is offered under its identifier.
pub proof fn lemma_every_item_is_offered(items: Seq<files::ItemView>, i: int)
    requires
        0 <= i < items.len(),
    ensures
        exists|k: int|
            0 <= k < outgoing::offer_of(items).len() && (#[trigger] outgoing::offer_of(items)[k]).key
                == items[i].file.id,
    decreases items.len(),
{
    let front = items.drop_last();
    let before = outgoing::offer_of(front);
    let after = outgoing::offer_of(items);
    let file = items.last().file;
    filemap::lemma_key_place(before, file.id, 0);
    let place = filemap::key_place(before, file.id, 0);
    assert(after[place].key == file.id);
    if items[i].file.id != file.id {
        lemma_every_item_is_offered(front, i);
        let k = choose|k: int|
            0 <= k < before.len() && (#[trigger] before[k]).key == front[i].file.id;
        assert(after[k] == before[k]);
    }
}

/// Nothing but items is offered: under each identifier stands the last item that has it.
pub proof fn lemma_only_items_are_offered(items: Seq<files::ItemView>, k: int)
    requires
        0 <= k < outgoing::offer_of(items).len(),
    ensures
        exists|i: int|
            #[trigger] is_last_of_its_id(items, i) && items[i].file == outgoing::offer_of(
                items,
            )[k].file && items[i].file.id == outgoing::offer_of(items)[k].key,
    decreases items.len(),
{
    let front = items.drop_last();
    let before = outgoing::offer_of(front);
    let after = outgoing::offer_of(items);
    let file = items.last().file;
    outgoing::lemma_offer_is_keyed(front);
    filemap::lemma_key_place(before, file.id, 0);
    let place = filemap::key_place(before, file.id, 0);
    if k == place {
        assert(is_last_of_its_id(items, items.len() - 1));
    } else {
        assert(after[k] == before[k]);
        lemma_only_items_are_offered(front, k);
        let i = choose|i: int|
            #[trigger] is_last_of_its_id(front, i) && front[i].file == before[k].file
                && front[i].file.id == before[k].key;
        assert(before[k].key != file.id);
        assert forall|j: int| i < j < items.len() implies (#[trigger] items[j]).file.id
            != items[i].file.id by {
            if j < front.len() {
                assert(front[j] == items[j]);
            }
        }
        assert(is_last_of_its_id(items, i));
    }
}

} // verus!
