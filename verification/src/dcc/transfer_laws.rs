//! What holds of a whole file transfer, on either side and between the two.
use vstd::prelude::*;

use crate::dcc::transfer;
use crate::dcc::transfer::{
    ReceiveAction, ReceiveActionView, ReceiveInput, ReceiveInputView, ReceivePhase, ReceiveView,
    SendAction, SendActionView, SendInput, SendInputView, SendPhase, SendView, CHUNK,
    PROGRESS_INTERVAL, SEND_AHEAD_WINDOW,
};
use crate::dcc::{DccErrorView, DccEventView};

verus! {

// ---------------------------------------------------------------------------
// Sending

/// A sender after these inputs, and everything that was to be done, in order.
pub open spec fn send_run(sender: SendView, inputs: Seq<SendInputView>) -> (
    SendView,
    Seq<SendActionView>,
)
    decreases inputs.len(),
{
    if inputs.len() == 0 {
        (sender, seq![])
    } else {
        let (before, done) = send_run(sender, inputs.drop_last());
        let (after, actions) = transfer::send_step(before, inputs.last());
        (after, done + actions)
    }
}

/// What an action writes.
pub open spec fn chunk_of(action: SendActionView) -> Seq<u8> {
    match action {
        SendActionView::WriteChunk(chunk) => chunk,
        _ => seq![],
    }
}

/// What was to be written, in order.
pub open spec fn written(actions: Seq<SendActionView>) -> Seq<u8>
    decreases actions.len(),
{
    if actions.len() == 0 {
        seq![]
    } else {
        written(actions.drop_last()) + chunk_of(actions.last())
    }
}

/// What an action reports of progress, if it does.
pub open spec fn report_of(action: SendActionView) -> Seq<nat> {
    match action {
        SendActionView::Emit(DccEventView::Progress { transferred }) => seq![transferred],
        _ => seq![],
    }
}

/// What the reports of progress say, in order.
pub open spec fn send_reports(actions: Seq<SendActionView>) -> Seq<nat>
    decreases actions.len(),
{
    if actions.len() == 0 {
        seq![]
    } else {
        send_reports(actions.drop_last()) + report_of(actions.last())
    }
}

/// What up to three actions write and report, spelled out.
proof fn lemma_few_sent(actions: Seq<SendActionView>)
    requires
        actions.len() <= 3,
    ensures
        actions.len() == 0 ==> written(actions) =~= seq![] && send_reports(actions) =~= seq![],
        actions.len() == 1 ==> written(actions) =~= chunk_of(actions[0]) && send_reports(actions)
            =~= report_of(actions[0]),
        actions.len() == 2 ==> written(actions) =~= chunk_of(actions[0]) + chunk_of(actions[1])
            && send_reports(actions) =~= report_of(actions[0]) + report_of(actions[1]),
        actions.len() == 3 ==> written(actions) =~= chunk_of(actions[0]) + chunk_of(actions[1])
            + chunk_of(actions[2]) && send_reports(actions) =~= report_of(actions[0]) + report_of(
            actions[1],
        ) + report_of(actions[2]),
    decreases actions.len(),
{
    if actions.len() > 0 {
        lemma_few_sent(actions.drop_last());
    }
}

/// What a step reads of the file.
pub open spec fn read_of(sender: SendView, input: SendInputView) -> Seq<u8> {
    match (sender.phase, input) {
        (SendPhase::Reading, SendInputView::FileRead(chunk)) => chunk,
        _ => seq![],
    }
}

/// What is read of the file, in order.
pub open spec fn read_by(sender: SendView, inputs: Seq<SendInputView>) -> Seq<u8>
    decreases inputs.len(),
{
    if inputs.len() == 0 {
        seq![]
    } else {
        read_by(sender, inputs.drop_last()) + read_of(
            send_run(sender, inputs.drop_last()).0,
            inputs.last(),
        )
    }
}

/// What is read and not written yet.
spec fn in_hand(sender: SendView) -> Seq<u8> {
    match sender.phase {
        SendPhase::AwaitingAck(chunk) => chunk,
        _ => seq![],
    }
}

spec fn being_written(sender: SendView) -> nat {
    match sender.phase {
        SendPhase::Writing(n) => n,
        _ => 0,
    }
}

/// What one step of sending writes.
proof fn lemma_step_written(sender: SendView, input: SendInputView)
    requires
        sender.wf(),
    ensures
        ({
            let (after, actions) = transfer::send_step(sender, input);
            &&& after.phase is Done || being_written(sender) + written(actions).len()
                + sender.sent == after.sent + being_written(after)
            &&& after.phase is Done || in_hand(sender) + read_of(sender, input) =~= written(actions)
                + in_hand(after)
            &&& sender.phase is Done ==> actions.len() == 0 && after == sender
            &&& after.phase is Done ==> written(actions) =~= seq![] && after.sent == sender.sent
                && after.acked >= sender.acked && read_of(sender, input).len() == 0
            &&& actions.len() > 0 && actions.last() == SendActionView::Finish(Ok(()))
                ==> sender.sent == sender.total && being_written(sender) == 0 && in_hand(
                sender,
            ).len() == 0
        }),
{
    lemma_few_sent(transfer::send_step(sender, input).1);
}

/// What one step of sending reports.
proof fn lemma_step_reports(sender: SendView, input: SendInputView)
    requires
        sender.wf(),
    ensures
        ({
            let (after, actions) = transfer::send_step(sender, input);
            let reports = send_reports(actions);
            &&& reports.len() <= 1
            &&& reports.len() == 0 ==> after.last_reported == sender.last_reported
            &&& sender.phase is Done ==> reports.len() == 0
            &&& reports.len() == 1 ==> (reports[0] == sender.total || reports[0]
                - sender.last_reported >= PROGRESS_INTERVAL) && (after.phase is Done
                || after.last_reported == reports[0])
            &&& reports.len() == 1 ==> reports[0] > sender.last_reported || reports[0] == 0
                && sender.last_reported == 0 && after.phase is Done
            &&& actions.len() > 0 && actions.last() == SendActionView::Finish(Ok(())) ==> (
            if reports.len() == 1 {
                reports[0] == sender.total
            } else {
                sender.last_reported == sender.total > 0
            })
        }),
{
    lemma_few_sent(transfer::send_step(sender, input).1);
}

/// Whether no more is read in all than can be counted.
pub open spec fn can_be_counted(sender: SendView, inputs: Seq<SendInputView>) -> bool {
    forall|i: int|
        0 <= i < inputs.len() ==> send_run(sender, inputs.take(i)).0.can_count(
            #[trigger] inputs[i],
        )
}

/// What holds of every sender holds after every step.
pub proof fn a_sender_stays_well_formed(sender: SendView, input: SendInputView)
    requires
        sender.wf(),
        sender.can_count(input),
    ensures
        transfer::send_step(sender, input).0.wf(),
        transfer::send_step(sender, input).0.total == sender.total,
{
    if let SendInputView::Ack(bytes) = input {
        lemma_ack_value(bytes);
    }
}

proof fn lemma_ack_value(bytes: Seq<u8>)
    ensures
        transfer::ack_value(bytes) <= u32::MAX,
{
}

/// At every moment, no more bytes are written, or about to be, than the peer has
/// acknowledged and the window holds. So a peer that never acknowledges is sent no
/// more than the window.
pub proof fn what_is_in_flight_is_bounded(total: nat, inputs: Seq<SendInputView>)
    requires
        total <= u64::MAX,
        can_be_counted(transfer::new_sender(total), inputs),
    ensures
        ({
            let (after, done) = send_run(transfer::new_sender(total), inputs);
            written(done).len() <= after.acked + SEND_AHEAD_WINDOW
        }),
{
    lemma_sending(total, inputs);
}

/// What holds of inputs holds of all but the last.
proof fn lemma_shorter(sender: SendView, inputs: Seq<SendInputView>)
    requires
        inputs.len() > 0,
        can_be_counted(sender, inputs),
    ensures
        can_be_counted(sender, inputs.drop_last()),
        send_run(sender, inputs.drop_last()).0.can_count(inputs.last()),
{
    let shorter = inputs.drop_last();
    assert forall|i: int| 0 <= i < shorter.len() implies send_run(
        sender,
        shorter.take(i),
    ).0.can_count(#[trigger] shorter[i]) by {
        assert(shorter[i] == inputs[i]);
        assert(shorter.take(i) =~= inputs.take(i));
    }
    assert(inputs.take(inputs.len() - 1) =~= shorter);
    assert(inputs[inputs.len() - 1] == inputs.last());
}

proof fn lemma_sending(total: nat, inputs: Seq<SendInputView>)
    requires
        total <= u64::MAX,
        can_be_counted(transfer::new_sender(total), inputs),
    ensures
        ({
            let (after, done) = send_run(transfer::new_sender(total), inputs);
            let read = read_by(transfer::new_sender(total), inputs);
            &&& after.wf()
            &&& after.total == total
            &&& !(after.phase is Done) ==> written(done).len() == after.sent + being_written(after)
            &&& !(after.phase is Done) ==> written(done) + in_hand(after) == read
            &&& written(done).len() <= after.acked + SEND_AHEAD_WINDOW
            &&& written(done).is_prefix_of(read)
        }),
    decreases inputs.len(),
{
    let new = transfer::new_sender(total);
    if inputs.len() > 0 {
        let shorter = inputs.drop_last();
        lemma_shorter(new, inputs);
        lemma_sending(total, shorter);
        let (before, done) = send_run(new, shorter);
        a_sender_stays_well_formed(before, inputs.last());
        lemma_sending_step(before, done, read_by(new, shorter), inputs.last());
    } else {
        assert(written(seq![]) + in_hand(new) =~= seq![]);
    }
}

proof fn lemma_sending_step(
    before: SendView,
    done: Seq<SendActionView>,
    read: Seq<u8>,
    input: SendInputView,
)
    requires
        before.wf(),
        !(before.phase is Done) ==> written(done).len() == before.sent + being_written(before),
        !(before.phase is Done) ==> written(done) + in_hand(before) == read,
        written(done).len() <= before.acked + SEND_AHEAD_WINDOW,
        written(done).is_prefix_of(read),
        transfer::send_step(before, input).0.wf(),
    ensures
        ({
            let (after, actions) = transfer::send_step(before, input);
            let all = written(done + actions);
            let taken = read + read_of(before, input);
            &&& !(after.phase is Done) ==> all.len() == after.sent + being_written(after)
            &&& !(after.phase is Done) ==> all + in_hand(after) == taken
            &&& all.len() <= after.acked + SEND_AHEAD_WINDOW
            &&& all.is_prefix_of(taken)
        }),
{
    let (after, actions) = transfer::send_step(before, input);
    lemma_written_add(done, actions);
    lemma_step_written(before, input);
    let all = written(done + actions);
    let taken = read + read_of(before, input);
    if after.phase is Done {
        assert(all =~= written(done));
        assert(taken =~= read);
    } else {
        assert(all + in_hand(after) =~= written(done) + (written(actions) + in_hand(after)));
        assert(written(done) + (in_hand(before) + read_of(before, input)) =~= taken);
    }
}

proof fn lemma_written_add(first: Seq<SendActionView>, second: Seq<SendActionView>)
    ensures
        written(first + second) == written(first) + written(second),
    decreases second.len(),
{
    if second.len() == 0 {
        assert(first + second =~= first);
        assert(written(first) + written(second) =~= written(first));
    } else {
        lemma_written_add(first, second.drop_last());
        assert((first + second).drop_last() =~= first + second.drop_last());
        assert(written(first + second) =~= written(first) + written(second));
    }
}

/// Sending ends once: its end is the last thing that is done, and comes as soon
/// as the transfer is over.
pub proof fn sending_ends_once(sender: SendView, inputs: Seq<SendInputView>)
    requires
        !(sender.phase is Done),
    ensures
        ({
            let (after, done) = send_run(sender, inputs);
            &&& forall|i: int|
                0 <= i < done.len() && #[trigger] done[i] is Finish ==> i == done.len() - 1
            &&& after.phase is Done <==> done.len() > 0 && done.last() is Finish
        }),
    decreases inputs.len(),
{
    if inputs.len() > 0 {
        sending_ends_once(sender, inputs.drop_last());
    }
}

/// What is written to the peer is what was read of the file, in order and without
/// gaps. A transfer counts as complete only where all of it was written, and that is
/// as long as the file: acknowledgements do not decide it.
pub proof fn a_sent_file_was_written_whole(total: nat, inputs: Seq<SendInputView>)
    requires
        total <= u64::MAX,
        can_be_counted(transfer::new_sender(total), inputs),
    ensures
        ({
            let (after, done) = send_run(transfer::new_sender(total), inputs);
            let read = read_by(transfer::new_sender(total), inputs);
            &&& written(done).is_prefix_of(read)
            &&& done.len() > 0 && done.last() == SendActionView::Finish(Ok(())) ==> written(done)
                == read && read.len() == total && after.sent == total
        }),
    decreases inputs.len(),
{
    let new = transfer::new_sender(total);
    lemma_sending(total, inputs);
    if inputs.len() > 0 {
        let shorter = inputs.drop_last();
        lemma_shorter(new, inputs);
        a_sent_file_was_written_whole(total, shorter);
        lemma_sending(total, shorter);
        sending_ends_once(new, shorter);
        let (before, done) = send_run(new, shorter);
        let actions = transfer::send_step(before, inputs.last()).1;
        lemma_written_add(done, actions);
        lemma_step_written(before, inputs.last());
        let read = read_by(new, shorter);
        if before.phase is Done {
            assert(done + actions =~= done);
            assert(read + read_of(before, inputs.last()) =~= read);
        } else if actions.len() > 0 && actions.last() == SendActionView::Finish(Ok(())) {
            assert(written(done) + in_hand(before) =~= written(done));
            assert(written(done + actions) =~= written(done));
            assert(read + read_of(before, inputs.last()) =~= read);
        }
    }
}

/// Whether a report says at least an interval more than the one before it.
pub open spec fn is_apart(reports: Seq<nat>, i: int) -> bool {
    reports[i] - (if i == 0 {
        0
    } else {
        reports[i - 1] as int
    }) >= PROGRESS_INTERVAL
}

/// Whether each report says at least an interval more than the one before it,
/// unless it says that everything is moved.
pub open spec fn spaced(reports: Seq<nat>, total: nat) -> bool {
    forall|i: int|
        0 <= i < reports.len() ==> #[trigger] is_apart(reports, i) || reports[i] == total
}

/// Whether each report says more than every one before it.
pub open spec fn rising(reports: Seq<nat>) -> bool {
    forall|i: int, j: int| 0 <= i < j < reports.len() ==> reports[i] < reports[j]
}

/// Whether these are the reports of a transfer that moved so many bytes: the last
/// one says so, and each one before it says at least an interval more than the one
/// before.
pub open spec fn are_complete(reports: Seq<nat>, total: nat) -> bool {
    &&& reports.len() > 0
    &&& reports.last() == total
    &&& forall|i: int| 0 <= i < reports.len() - 1 ==> #[trigger] is_apart(reports, i)
}

/// Every report of progress says more than the one before it, by at least the
/// interval, except that a file which is written whole is reported as such. The
/// reports of a transfer that completes end with its length.
pub proof fn reports_of_sending_are_spaced(total: nat, inputs: Seq<SendInputView>)
    requires
        total <= u64::MAX,
        can_be_counted(transfer::new_sender(total), inputs),
    ensures
        ({
            let done = send_run(transfer::new_sender(total), inputs).1;
            let reports = send_reports(done);
            &&& spaced(reports, total)
            &&& rising(reports)
            &&& done.len() > 0 && done.last() == SendActionView::Finish(Ok(())) ==> are_complete(
                reports,
                total,
            )
        }),
{
    lemma_send_reports(total, inputs);
    let done = send_run(transfer::new_sender(total), inputs).1;
    let reports = send_reports(done);
    if done.len() > 0 && done.last() == SendActionView::Finish(Ok(())) {
        assert forall|i: int| 0 <= i < reports.len() - 1 implies #[trigger] is_apart(
            reports,
            i,
        ) by {
            assert(reports[i] < reports[reports.len() - 1]);
            assert(is_apart(reports, i) || reports[i] == total);
        }
    }
}

/// One more report keeps the reports spaced and rising.
proof fn lemma_one_more_report(reports: Seq<nat>, report: nat, total: nat)
    requires
        spaced(reports, total),
        rising(reports),
        reports.len() > 0 ==> reports.last() < report,
        report == total || report - (if reports.len() == 0 {
            0
        } else {
            reports.last() as int
        }) >= PROGRESS_INTERVAL,
    ensures
        spaced(reports.push(report), total),
        rising(reports.push(report)),
{
    let more = reports.push(report);
    assert forall|i: int| 0 <= i < more.len() implies #[trigger] is_apart(more, i) || more[i]
        == total by {
        if i < reports.len() {
            assert(is_apart(reports, i) || reports[i] == total);
        }
    }
    assert forall|i: int, j: int| 0 <= i < j < more.len() implies more[i] < more[j] by {
        if i < reports.len() - 1 && j == reports.len() {
            assert(reports[i] < reports[reports.len() - 1]);
        }
    }
}

/// What the reports say of a sender that was given these inputs.
spec fn reports_are_in_order(after: SendView, done: Seq<SendActionView>, total: nat) -> bool {
    let reports = send_reports(done);
    &&& spaced(reports, total)
    &&& rising(reports)
    &&& !(after.phase is Done) ==> if reports.len() == 0 {
        after.last_reported == 0
    } else {
        after.last_reported == reports.last() > 0
    }
    &&& done.len() > 0 && done.last() == SendActionView::Finish(Ok(())) ==> reports.len() > 0
        && reports.last() == total
}

proof fn lemma_send_reports_step(
    before: SendView,
    done: Seq<SendActionView>,
    input: SendInputView,
    total: nat,
)
    requires
        before.wf(),
        before.total == total,
        !(before.phase is Done),
        reports_are_in_order(before, done, total),
    ensures
        ({
            let (after, actions) = transfer::send_step(before, input);
            reports_are_in_order(after, done + actions, total)
        }),
{
    let actions = transfer::send_step(before, input).1;
    let (earlier, later) = (send_reports(done), send_reports(actions));
    lemma_send_reports_add(done, actions);
    lemma_step_reports(before, input);
    if later.len() == 0 {
        assert(earlier + later =~= earlier);
    } else {
        lemma_one_more_report(earlier, later[0], total);
        assert(earlier + later =~= earlier.push(later[0]));
    }
}

proof fn lemma_send_reports(total: nat, inputs: Seq<SendInputView>)
    requires
        total <= u64::MAX,
        can_be_counted(transfer::new_sender(total), inputs),
    ensures
        ({
            let (after, done) = send_run(transfer::new_sender(total), inputs);
            reports_are_in_order(after, done, total)
        }),
    decreases inputs.len(),
{
    let new = transfer::new_sender(total);
    if inputs.len() > 0 {
        let shorter = inputs.drop_last();
        lemma_shorter(new, inputs);
        lemma_send_reports(total, shorter);
        lemma_sending(total, shorter);
        let (before, done) = send_run(new, shorter);
        if before.phase is Done {
            assert(done + transfer::send_step(before, inputs.last()).1 =~= done);
        } else {
            lemma_send_reports_step(before, done, inputs.last(), total);
        }
    }
}

proof fn lemma_send_reports_add(first: Seq<SendActionView>, second: Seq<SendActionView>)
    ensures
        send_reports(first + second) == send_reports(first) + send_reports(second),
    decreases second.len(),
{
    if second.len() == 0 {
        assert(first + second =~= first);
        assert(send_reports(first) + send_reports(second) =~= send_reports(first));
    } else {
        lemma_send_reports_add(first, second.drop_last());
        assert((first + second).drop_last() =~= first + second.drop_last());
        assert(send_reports(first + second) =~= send_reports(first) + send_reports(second));
    }
}

/// Once the whole file is written, the transfer completes with the last
/// acknowledgement, and without it too: when it does not come in time, or when
/// the peer closes the connection.
pub proof fn a_written_file_is_delivered(sender: SendView, reason: Seq<char>)
    requires
        sender.wf(),
        sender.phase is AwaitingFinalAck,
    ensures
        ({
            let last = SendInputView::Ack(transfer::ack_bytes(sender.total));
            transfer::send_step(sender, last) == transfer::delivered(
                SendView { acked: sender.total, ..sender },
            )
        }),
        transfer::send_step(sender, SendInputView::AckTimedOut) == transfer::delivered(sender),
        transfer::send_step(sender, SendInputView::Failed(reason)) == transfer::delivered(sender),
{
    transfer::acknowledged_total_is_read_back(sender.total);
}

/// An acknowledgement is read as the total that it says, however far the counter has
/// wrapped, where that total was sent and no more than 4 GiB have been sent since;
/// and it stands for the largest total that it can.
pub proof fn an_acknowledgement_is_read_past_32_bits(sender: SendView, total: nat)
    requires
        sender.wf(),
        total <= sender.sent < total + 0x1_0000_0000,
    ensures
        transfer::acknowledged(sender, transfer::ack_bytes(total)).acked == (if total
            > sender.acked {
            total
        } else {
            sender.acked
        }),
        forall|other: nat|
            other <= sender.sent && #[trigger] (other % 0x1_0000_0000) == total % 0x1_0000_0000
                ==> other <= total,
{
    transfer::acknowledged_total_is_read_back(total);
    let value = total % 0x1_0000_0000;
    assert(transfer::acked_total(value, sender.sent) == total) by {
        assert((sender.sent - value) % 0x1_0000_0000 == sender.sent - total);
    }
}

/// Chunks, put together.
pub open spec fn together(chunks: Seq<Seq<u8>>) -> Seq<u8>
    decreases chunks.len(),
{
    if chunks.len() == 0 {
        seq![]
    } else {
        chunks[0] + together(chunks.drop_first())
    }
}

/// Whether every chunk can be read of a file at a time.
pub open spec fn are_chunks(chunks: Seq<Seq<u8>>) -> bool {
    forall|i: int| 0 <= i < chunks.len() ==> 0 < (#[trigger] chunks[i]).len() <= CHUNK
}

/// Whether no chunk is empty, which would be the end.
pub open spec fn none_empty(chunks: Seq<Seq<u8>>) -> bool {
    forall|i: int| 0 <= i < chunks.len() ==> 0 < (#[trigger] chunks[i]).len()
}

/// A sender that is answered, where it waits for it, with an acknowledgement of
/// all that it has written.
pub open spec fn answered(stepped: (SendView, Seq<SendActionView>)) -> (
    SendView,
    Seq<SendActionView>,
) {
    let (sender, actions) = stepped;
    if sender.phase is AwaitingAck || sender.phase is AwaitingFinalAck {
        let (after, more) = transfer::send_step(
            sender,
            SendInputView::Ack(transfer::ack_bytes(sender.sent)),
        );
        (after, actions + more)
    } else {
        stepped
    }
}

/// A sender that reads its file in these chunks, and whose peer acknowledges them:
/// where it ends, and all that it does.
pub open spec fn send_chunks(sender: SendView, chunks: Seq<Seq<u8>>) -> (
    SendView,
    Seq<SendActionView>,
)
    decreases chunks.len(),
{
    if chunks.len() == 0 {
        let (at_end, first) = transfer::send_step(sender, SendInputView::FileRead(seq![]));
        let (after, second) = answered(transfer::send_step(at_end, SendInputView::Flushed));
        (after, first + second)
    } else {
        let (writing, first) = answered(
            transfer::send_step(sender, SendInputView::FileRead(chunks[0])),
        );
        let (wrote, second) = transfer::send_step(writing, SendInputView::Wrote);
        let (after, rest) = send_chunks(wrote, chunks.drop_first());
        (after, first + second + rest)
    }
}

/// A file of any length is sent whole to a peer that acknowledges it, byte for byte,
/// however it is cut into chunks, and however often the counter wraps.
pub proof fn an_acknowledged_file_is_sent(sender: SendView, chunks: Seq<Seq<u8>>)
    requires
        sender.wf(),
        sender.phase is Reading,
        sender.sent + together(chunks).len() == sender.total,
        are_chunks(chunks),
    ensures
        ({
            let (after, done) = send_chunks(sender, chunks);
            &&& after.phase is Done
            &&& after.sent == sender.total
            &&& written(done) == together(chunks)
            &&& done.len() > 0
            &&& done.last() == SendActionView::Finish(Ok(()))
        }),
    decreases chunks.len(),
{
    if chunks.len() == 0 {
        lemma_last_chunk(sender);
    } else {
        let rest = chunks.drop_first();
        assert forall|i: int| 0 <= i < rest.len() implies 0 < (#[trigger] rest[i]).len()
            <= CHUNK by {
            assert(rest[i] == chunks[i + 1]);
        }
        assert(0 < chunks[0].len() <= CHUNK);
        lemma_one_chunk(sender, chunks[0]);
        let (writing, first) = answered(
            transfer::send_step(sender, SendInputView::FileRead(chunks[0])),
        );
        let (wrote, second) = transfer::send_step(writing, SendInputView::Wrote);
        an_acknowledged_file_is_sent(wrote, rest);
        lemma_written_add(first + second, send_chunks(wrote, rest).1);
    }
}

/// An acknowledgement of all that was written is counted as such.
proof fn lemma_answer(sender: SendView)
    requires
        sender.wf(),
        sender.acked < sender.sent,
    ensures
        transfer::acknowledged(sender, transfer::ack_bytes(sender.sent)) == (SendView {
            acked: sender.sent,
            ..sender
        }),
{
    an_acknowledgement_is_read_past_32_bits(sender, sender.sent);
}

/// A chunk that is written, after an acknowledgement where it takes one, leaves the
/// sender ready for the next.
proof fn lemma_one_chunk(sender: SendView, chunk: Seq<u8>)
    requires
        sender.wf(),
        sender.phase is Reading,
        0 < chunk.len() <= CHUNK,
        sender.sent + chunk.len() <= sender.total,
    ensures
        ({
            let (writing, first) = answered(
                transfer::send_step(sender, SendInputView::FileRead(chunk)),
            );
            let (next, second) = transfer::send_step(writing, SendInputView::Wrote);
            &&& next.wf()
            &&& next.phase is Reading
            &&& next.sent == sender.sent + chunk.len()
            &&& next.total == sender.total
            &&& written(first + second) == chunk
        }),
{
    let (read, x) = transfer::send_step(sender, SendInputView::FileRead(chunk));
    assert(read.wf());
    if read.phase is AwaitingAck {
        lemma_answer(read);
    }
    let (writing, first) = answered((read, x));
    let second = transfer::send_step(writing, SendInputView::Wrote).1;
    lemma_written_add(first, second);
    lemma_few_sent(first);
    lemma_few_sent(second);
    assert(written(first + second) =~= chunk);
}

/// A file that is written whole is delivered with the acknowledgement of it.
proof fn lemma_last_chunk(sender: SendView)
    requires
        sender.wf(),
        sender.phase is Reading,
        sender.sent == sender.total,
    ensures
        ({
            let (after, done) = send_chunks(sender, seq![]);
            &&& after.phase is Done
            &&& after.sent == sender.total
            &&& written(done) == Seq::<u8>::empty()
            &&& done.len() > 0
            &&& done.last() == SendActionView::Finish(Ok(()))
        }),
{
    let (at_end, first) = transfer::send_step(sender, SendInputView::FileRead(seq![]));
    let (flushed, x) = transfer::send_step(at_end, SendInputView::Flushed);
    if flushed.phase is AwaitingFinalAck {
        lemma_answer(flushed);
        let more = transfer::send_step(
            flushed,
            SendInputView::Ack(transfer::ack_bytes(flushed.sent)),
        ).1;
        lemma_written_add(x, more);
        lemma_few_sent(more);
    }
    let second = answered((flushed, x)).1;
    lemma_few_sent(x);
    lemma_few_sent(first);
    lemma_written_add(first, second);
    assert(written(first + second) =~= seq![]);
}

// ---------------------------------------------------------------------------
// Receiving

/// A receiver after these inputs, and everything that was to be done, in order.
pub open spec fn receive_run(receiver: ReceiveView, inputs: Seq<ReceiveInputView>) -> (
    ReceiveView,
    Seq<ReceiveActionView>,
)
    decreases inputs.len(),
{
    if inputs.len() == 0 {
        (receiver, seq![])
    } else {
        let (before, done) = receive_run(receiver, inputs.drop_last());
        let (after, actions) = transfer::receive_step(before, inputs.last());
        (after, done + actions)
    }
}

/// What an action stores.
pub open spec fn store_of(action: ReceiveActionView) -> Seq<u8> {
    match action {
        ReceiveActionView::Store(chunk) => chunk,
        _ => seq![],
    }
}

/// What was to be stored, in order.
pub open spec fn stored(actions: Seq<ReceiveActionView>) -> Seq<u8>
    decreases actions.len(),
{
    if actions.len() == 0 {
        seq![]
    } else {
        stored(actions.drop_last()) + store_of(actions.last())
    }
}

/// What a step takes from the peer.
pub open spec fn taken_of(receiver: ReceiveView, input: ReceiveInputView) -> Seq<u8> {
    match (receiver.phase, input) {
        (ReceivePhase::Reading, ReceiveInputView::Read(chunk)) => chunk,
        _ => seq![],
    }
}

/// What comes from the peer, in order.
pub open spec fn taken_by(receiver: ReceiveView, inputs: Seq<ReceiveInputView>) -> Seq<u8>
    decreases inputs.len(),
{
    if inputs.len() == 0 {
        seq![]
    } else {
        taken_by(receiver, inputs.drop_last()) + taken_of(
            receive_run(receiver, inputs.drop_last()).0,
            inputs.last(),
        )
    }
}

/// What an action reports of progress, if it does.
pub open spec fn receive_report_of(action: ReceiveActionView) -> Seq<nat> {
    match action {
        ReceiveActionView::Emit(DccEventView::Progress { transferred }) => seq![transferred],
        _ => seq![],
    }
}

/// What the reports of progress say, in order.
pub open spec fn receive_reports(actions: Seq<ReceiveActionView>) -> Seq<nat>
    decreases actions.len(),
{
    if actions.len() == 0 {
        seq![]
    } else {
        receive_reports(actions.drop_last()) + receive_report_of(actions.last())
    }
}

/// What up to three actions store and report, spelled out.
proof fn lemma_few_received(actions: Seq<ReceiveActionView>)
    requires
        actions.len() <= 3,
    ensures
        actions.len() == 0 ==> stored(actions) =~= seq![] && receive_reports(actions) =~= seq![],
        actions.len() == 1 ==> stored(actions) =~= store_of(actions[0]) && receive_reports(actions)
            =~= receive_report_of(actions[0]),
        actions.len() == 2 ==> stored(actions) =~= store_of(actions[0]) + store_of(actions[1])
            && receive_reports(actions) =~= receive_report_of(actions[0]) + receive_report_of(
            actions[1],
        ),
        actions.len() == 3 ==> stored(actions) =~= store_of(actions[0]) + store_of(actions[1])
            + store_of(actions[2]) && receive_reports(actions) =~= receive_report_of(actions[0])
            + receive_report_of(actions[1]) + receive_report_of(actions[2]),
    decreases actions.len(),
{
    if actions.len() > 0 {
        lemma_few_received(actions.drop_last());
    }
}

/// What one step of receiving reports.
proof fn lemma_step_receive_reports(receiver: ReceiveView, input: ReceiveInputView)
    requires
        receiver.last_reported <= receiver.received,
    ensures
        ({
            let (after, actions) = transfer::receive_step(receiver, input);
            let reports = receive_reports(actions);
            &&& after.last_reported <= after.received
            &&& reports.len() <= 1
            &&& reports.len() == 0 ==> after.last_reported == receiver.last_reported
            &&& receiver.phase is Done ==> reports.len() == 0 && after == receiver && actions.len()
                == 0
            &&& reports.len() == 1 && !(after.phase is Done) ==> reports[0]
                - receiver.last_reported >= PROGRESS_INTERVAL && after.last_reported == reports[0]
            &&& reports.len() == 1 && after.phase is Done ==> reports[0] == after.received && (
            reports[0] > receiver.last_reported || receiver.last_reported == 0)
            &&& actions.len() > 0 && actions.last() == ReceiveActionView::Finish(Ok(())) ==> (
            if reports.len() == 1 {
                reports[0] == after.received
            } else {
                receiver.last_reported == after.received > 0
            })
        }),
{
    lemma_few_received(transfer::receive_step(receiver, input).1);
}

/// What one step of receiving stores.
proof fn lemma_step_stored(receiver: ReceiveView, input: ReceiveInputView)
    ensures
        ({
            let (after, actions) = transfer::receive_step(receiver, input);
            let taken = taken_of(receiver, input);
            &&& after.received == receiver.received + taken.len()
            &&& stored(actions) =~= taken || (stored(actions) =~= seq![] && (
            receiver.expected matches Some(total) && after.received > total && after.phase is Done))
            &&& stored(actions).len() > 0 ==> (receiver.expected matches Some(total)
                ==> after.received <= total)
            &&& receiver.phase is Done ==> after == receiver && taken.len() == 0
            &&& after.expected == receiver.expected
        }),
{
    lemma_few_received(transfer::receive_step(receiver, input).1);
}

proof fn lemma_stored_add(first: Seq<ReceiveActionView>, second: Seq<ReceiveActionView>)
    ensures
        stored(first + second) == stored(first) + stored(second),
    decreases second.len(),
{
    if second.len() == 0 {
        assert(first + second =~= first);
        assert(stored(first) + stored(second) =~= stored(first));
    } else {
        lemma_stored_add(first, second.drop_last());
        assert((first + second).drop_last() =~= first + second.drop_last());
        assert(stored(first + second) =~= stored(first) + stored(second));
    }
}

/// Receiving ends once: its end is the last thing that is done, and comes as soon
/// as the transfer is over.
pub proof fn receiving_ends_once(receiver: ReceiveView, inputs: Seq<ReceiveInputView>)
    requires
        !(receiver.phase is Done),
    ensures
        ({
            let (after, done) = receive_run(receiver, inputs);
            &&& forall|i: int|
                0 <= i < done.len() && #[trigger] done[i] is Finish ==> i == done.len() - 1
            &&& after.phase is Done <==> done.len() > 0 && done.last() is Finish
        }),
    decreases inputs.len(),
{
    if inputs.len() > 0 {
        receiving_ends_once(receiver, inputs.drop_last());
    }
}

/// What holds of every receiver holds after every step.
pub proof fn a_receiver_stays_well_formed(receiver: ReceiveView, input: ReceiveInputView)
    requires
        receiver.wf(),
        receiver.can_count(input),
    ensures
        transfer::receive_step(receiver, input).0.wf(),
        transfer::receive_step(receiver, input).0.expected == receiver.expected,
{
}

/// What is stored is what came from the peer, byte for byte and in order, and no more
/// than was announced: a chunk that goes beyond that is not stored.
pub proof fn what_came_is_stored(expected: Option<nat>, inputs: Seq<ReceiveInputView>)
    ensures
        ({
            let (after, done) = receive_run(transfer::new_receiver(expected), inputs);
            let taken = taken_by(transfer::new_receiver(expected), inputs);
            &&& expected matches Some(total) ==> stored(done).len() <= total
            &&& stored(done).is_prefix_of(taken)
            &&& stored(done) == taken || (expected matches Some(total) && taken.len() > total
                && after.phase is Done)
            &&& after.received == taken.len()
            &&& after.expected == expected
        }),
    decreases inputs.len(),
{
    let new = transfer::new_receiver(expected);
    if inputs.len() > 0 {
        let shorter = inputs.drop_last();
        what_came_is_stored(expected, shorter);
        let (before, done) = receive_run(new, shorter);
        let (after, actions) = transfer::receive_step(before, inputs.last());
        lemma_stored_add(done, actions);
        lemma_step_stored(before, inputs.last());
        let taken = taken_by(new, shorter);
        if before.phase is Done {
            assert(actions.len() == 0);
            assert(done + actions =~= done);
            assert(taken + taken_of(before, inputs.last()) =~= taken);
        } else if stored(actions) == taken_of(before, inputs.last()) {
            assert(stored(done + actions) == taken_by(new, inputs));
        } else {
            assert(stored(done + actions) =~= taken);
        }
    }
}

/// A transfer completes only where exactly the announced bytes came and are stored;
/// where no length was announced, all that came.
pub proof fn a_received_file_is_whole(expected: Option<nat>, inputs: Seq<ReceiveInputView>)
    ensures
        ({
            let done = receive_run(transfer::new_receiver(expected), inputs).1;
            done.len() > 0 && done.last() == ReceiveActionView::Finish(Ok(())) ==> stored(done)
                == taken_by(transfer::new_receiver(expected), inputs) && (expected matches Some(
                total,
            ) ==> stored(done).len() == total)
        }),
    decreases inputs.len(),
{
    let new = transfer::new_receiver(expected);
    what_came_is_stored(expected, inputs);
    if inputs.len() > 0 {
        let shorter = inputs.drop_last();
        a_received_file_is_whole(expected, shorter);
        what_came_is_stored(expected, shorter);
        receiving_ends_once(new, shorter);
        let (before, done) = receive_run(new, shorter);
        let actions = transfer::receive_step(before, inputs.last()).1;
        if before.phase is Done {
            assert(done + actions =~= done);
            let taken = taken_by(new, shorter);
            assert(taken + taken_of(before, inputs.last()) =~= taken);
        }
    }
}

/// A file that counts as whole holds all that came, which is all that was announced;
/// where no length was announced, the peer has closed the connection.
pub proof fn a_whole_file_holds_all(expected: Option<nat>, inputs: Seq<ReceiveInputView>)
    ensures
        ({
            let (after, done) = receive_run(transfer::new_receiver(expected), inputs);
            after.is_whole() ==> {
                &&& stored(done) == taken_by(transfer::new_receiver(expected), inputs)
                &&& match expected {
                    Some(total) => stored(done).len() == total,
                    None => inputs.contains(ReceiveInputView::Read(seq![])),
                }
            }
        }),
{
    what_came_is_stored(expected, inputs);
    lemma_closed(expected, inputs);
}

proof fn lemma_closed(expected: Option<nat>, inputs: Seq<ReceiveInputView>)
    ensures
        ({
            let after = receive_run(transfer::new_receiver(expected), inputs).0;
            after.phase is Syncing && expected is None ==> inputs.contains(
                ReceiveInputView::Read(seq![]),
            )
        }),
    decreases inputs.len(),
{
    if inputs.len() > 0 {
        let shorter = inputs.drop_last();
        lemma_closed(expected, shorter);
        what_came_is_stored(expected, shorter);
        let before = receive_run(transfer::new_receiver(expected), shorter).0;
        let after = transfer::receive_step(before, inputs.last()).0;
        if after.phase is Syncing && expected is None {
            if before.phase is Syncing {
                let i = choose|i: int|
                    0 <= i < shorter.len() && shorter[i] == ReceiveInputView::Read(seq![]);
                assert(inputs[i] == ReceiveInputView::Read(seq![]));
            } else {
                assert(inputs.last()->Read_0 =~= seq![]);
                assert(inputs[inputs.len() - 1] == ReceiveInputView::Read(seq![]));
            }
        }
    }
}

/// Whether a transfer fails.
pub open spec fn is_failure(action: ReceiveActionView) -> bool {
    action matches ReceiveActionView::Finish(Err(_))
}

/// A transfer that fails takes its file with it, just before, unless the file is
/// whole; and the file of no other transfer is removed.
pub proof fn a_failed_transfer_takes_its_file(expected: Option<nat>, inputs: Seq<ReceiveInputView>)
    ensures
        ({
            let new = transfer::new_receiver(expected);
            let done = receive_run(new, inputs).1;
            &&& forall|i: int|
                0 <= i < done.len() && #[trigger] done[i] is RemoveFile ==> i + 2 == done.len()
                    && is_failure(done[i + 1])
            &&& done.len() > 0 && is_failure(done.last()) ==> (done.len() > 1 && done[done.len()
                - 2] is RemoveFile) || (expected matches Some(total) ==> stored(done).len()
                == total) && stored(done) == taken_by(new, inputs)
        }),
    decreases inputs.len(),
{
    let new = transfer::new_receiver(expected);
    if inputs.len() > 0 {
        let shorter = inputs.drop_last();
        a_failed_transfer_takes_its_file(expected, shorter);
        a_whole_file_holds_all(expected, shorter);
        receiving_ends_once(new, shorter);
        let (before, done) = receive_run(new, shorter);
        let (after, actions) = transfer::receive_step(before, inputs.last());
        let taken = taken_by(new, shorter);
        lemma_stored_add(done, actions);
        lemma_step_stored(before, inputs.last());
        lemma_few_received(actions);
        if before.phase is Done {
            assert(done + actions =~= done);
            assert(taken + taken_of(before, inputs.last()) =~= taken);
        } else if actions.len() == 1 && is_failure(actions[0]) {
            assert(taken + taken_of(before, inputs.last()) =~= taken);
            assert(stored(done + actions) =~= stored(done));
        }
    }
}

/// Whether every chunk that is stored is acknowledged at once, with the running
/// total, unless storing it fails or is not done yet, and nothing else is.
pub open spec fn acknowledges(actions: Seq<ReceiveActionView>) -> bool {
    &&& forall|i: int|
        0 <= i < actions.len() - 1 && #[trigger] actions[i] is Store ==> actions[i + 1] is Ack
            || actions[i + 1] is RemoveFile
    &&& forall|i: int|
        0 <= i < actions.len() && #[trigger] actions[i] is Ack ==> i > 0 && actions[i - 1] is Store
            && actions[i] == ReceiveActionView::Ack(
            transfer::ack_bytes(stored(actions.take(i)).len()),
        )
}

/// Every chunk that is stored is acknowledged at once, with the running total.
pub proof fn every_chunk_is_acknowledged(expected: Option<nat>, inputs: Seq<ReceiveInputView>)
    ensures
        ({
            let (after, done) = receive_run(transfer::new_receiver(expected), inputs);
            &&& acknowledges(done)
            &&& after.phase is Storing <==> done.len() > 0 && done.last() is Store
        }),
    decreases inputs.len(),
{
    let new = transfer::new_receiver(expected);
    if inputs.len() > 0 {
        let shorter = inputs.drop_last();
        every_chunk_is_acknowledged(expected, shorter);
        what_came_is_stored(expected, shorter);
        let (before, done) = receive_run(new, shorter);
        let (after, actions) = transfer::receive_step(before, inputs.last());
        lemma_step_acknowledges(before, inputs.last());
        lemma_acknowledges_add(done, actions, before.received);
    }
}

/// How one step of receiving acknowledges.
proof fn lemma_step_acknowledges(receiver: ReceiveView, input: ReceiveInputView)
    ensures
        ({
            let (after, actions) = transfer::receive_step(receiver, input);
            &&& after.phase is Storing <==> (if actions.len() > 0 {
                actions.last() is Store
            } else {
                receiver.phase is Storing
            })
            &&& forall|i: int|
                0 <= i < actions.len() && #[trigger] actions[i] is Store ==> actions.len() == 1
            &&& forall|i: int|
                0 <= i < actions.len() && #[trigger] actions[i] is Ack ==> i == 0
                    && receiver.phase is Storing && actions[0] == ReceiveActionView::Ack(
                    transfer::ack_bytes(receiver.received),
                )
            &&& receiver.phase is Storing && actions.len() > 0 ==> actions[0] is Ack || actions[0]
                is RemoveFile
        }),
{
}

proof fn lemma_acknowledges_add(
    done: Seq<ReceiveActionView>,
    actions: Seq<ReceiveActionView>,
    received: nat,
)
    requires
        acknowledges(done),
        forall|i: int|
            0 <= i < actions.len() && #[trigger] actions[i] is Store ==> actions.len() == 1,
        forall|i: int|
            0 <= i < actions.len() && #[trigger] actions[i] is Ack ==> i == 0 && done.len() > 0
                && done.last() is Store && stored(done).len() == received && actions[0]
                == ReceiveActionView::Ack(transfer::ack_bytes(received)),
        done.len() > 0 && done.last() is Store && actions.len() > 0 ==> actions[0] is Ack
            || actions[0] is RemoveFile,
    ensures
        acknowledges(done + actions),
{
    let all = done + actions;
    let n = done.len() as int;
    assert forall|i: int| 0 <= i < all.len() - 1 && #[trigger] all[i] is Store implies all[i + 1]
        is Ack || all[i + 1] is RemoveFile by {
        if i < n - 1 {
            assert(done[i] is Store);
        } else if i >= n {
            assert(actions[i - n] is Store);
        }
    }
    assert forall|i: int| 0 <= i < all.len() && #[trigger] all[i] is Ack implies i > 0 && all[i - 1]
        is Store && all[i] == ReceiveActionView::Ack(
        transfer::ack_bytes(stored(all.take(i)).len()),
    ) by {
        if i < n {
            assert(done[i] is Ack);
            assert(all.take(i) =~= done.take(i));
        } else {
            assert(actions[i - n] is Ack);
            assert(all.take(n) =~= done);
        }
    }
}

proof fn lemma_receive_reports_add(first: Seq<ReceiveActionView>, second: Seq<ReceiveActionView>)
    ensures
        receive_reports(first + second) == receive_reports(first) + receive_reports(second),
    decreases second.len(),
{
    if second.len() == 0 {
        assert(first + second =~= first);
        assert(receive_reports(first) + receive_reports(second) =~= receive_reports(first));
    } else {
        lemma_receive_reports_add(first, second.drop_last());
        assert((first + second).drop_last() =~= first + second.drop_last());
        assert(receive_reports(first + second) =~= receive_reports(first) + receive_reports(
            second,
        ));
    }
}

/// Every report of progress says more than the one before it, by at least the
/// interval, except that a file which is received whole is reported as such. The
/// reports of a transfer that completes end with what came.
pub proof fn reports_of_receiving_are_spaced(expected: Option<nat>, inputs: Seq<ReceiveInputView>)
    ensures
        ({
            let (after, done) = receive_run(transfer::new_receiver(expected), inputs);
            let reports = receive_reports(done);
            &&& spaced(reports, after.received)
            &&& rising(reports)
            &&& done.len() > 0 && done.last() == ReceiveActionView::Finish(Ok(())) ==> are_complete(
                reports,
                after.received,
            )
        }),
{
    lemma_receive_reports(expected, inputs);
    let (after, done) = receive_run(transfer::new_receiver(expected), inputs);
    let reports = receive_reports(done);
    if done.len() > 0 && done.last() == ReceiveActionView::Finish(Ok(())) {
        assert forall|i: int| 0 <= i < reports.len() - 1 implies #[trigger] is_apart(
            reports,
            i,
        ) by {
            assert(reports[i] < reports[reports.len() - 1]);
            assert(is_apart(reports, i) || reports[i] == after.received);
        }
    }
}

proof fn lemma_receive_reports(expected: Option<nat>, inputs: Seq<ReceiveInputView>)
    ensures
        ({
            let (after, done) = receive_run(transfer::new_receiver(expected), inputs);
            let reports = receive_reports(done);
            &&& after.last_reported <= after.received
            &&& rising(reports)
            &&& forall|i: int|
                0 <= i < reports.len() ==> #[trigger] is_apart(reports, i) || (after.phase is Done
                    && reports[i] == after.received)
            &&& !(after.phase is Done) ==> if reports.len() == 0 {
                after.last_reported == 0
            } else {
                after.last_reported == reports.last() > 0
            }
            &&& done.len() > 0 && done.last() == ReceiveActionView::Finish(Ok(())) ==> after.phase
                is Done && reports.len() > 0 && reports.last() == after.received
        }),
    decreases inputs.len(),
{
    let new = transfer::new_receiver(expected);
    if inputs.len() > 0 {
        let shorter = inputs.drop_last();
        lemma_receive_reports(expected, shorter);
        receiving_ends_once(new, shorter);
        receiving_ends_once(new, inputs);
        let (before, done) = receive_run(new, shorter);
        let (after, actions) = transfer::receive_step(before, inputs.last());
        let (earlier, later) = (receive_reports(done), receive_reports(actions));
        lemma_receive_reports_add(done, actions);
        lemma_step_receive_reports(before, inputs.last());
        let reports = earlier + later;
        assert(later.len() == 0 ==> reports =~= earlier);
        assert forall|i: int| 0 <= i < reports.len() implies #[trigger] is_apart(reports, i) || (
        after.phase is Done && reports[i] == after.received) by {
            if i < earlier.len() {
                assert(is_apart(earlier, i) || (before.phase is Done && earlier[i]
                    == before.received));
            }
        }
        if before.phase is Done {
            assert(done + actions =~= done);
        }
    }
}

/// A transfer that ends early fails, and so does one that brings more than was
/// announced, which is not stored; each takes its file with it.
pub proof fn a_wrong_length_fails(receiver: ReceiveView, total: nat, chunk: Seq<u8>)
    requires
        receiver.wf(),
        receiver.phase is Reading,
        receiver.expected == Some(total),
    ensures
        receiver.received < total ==> {
            let at_end = transfer::receive_step(receiver, ReceiveInputView::Read(seq![])).0;
            transfer::receive_step(at_end, ReceiveInputView::Synced).1 == seq![
                ReceiveActionView::RemoveFile,
                transfer::size_mismatch(total, receiver.received),
            ]
        },
        chunk.len() > 0 && receiver.received + chunk.len() > total ==> transfer::receive_step(
            receiver,
            ReceiveInputView::Read(chunk),
        ).1 == seq![
            ReceiveActionView::FlushFile,
            ReceiveActionView::RemoveFile,
            transfer::size_mismatch(total, receiver.received + chunk.len()),
        ],
{
}

/// A receiver that gets its file in these chunks, and then, if it still waits, the
/// end of the connection: where it ends, and all that it does.
pub open spec fn receive_chunks(receiver: ReceiveView, chunks: Seq<Seq<u8>>) -> (
    ReceiveView,
    Seq<ReceiveActionView>,
)
    decreases chunks.len(),
{
    if chunks.len() == 0 {
        let (at_end, first) = if receiver.phase is Reading {
            transfer::receive_step(receiver, ReceiveInputView::Read(seq![]))
        } else {
            (receiver, seq![])
        };
        let (after, second) = transfer::receive_step(at_end, ReceiveInputView::Synced);
        (after, first + second)
    } else {
        let (storing, first) = transfer::receive_step(receiver, ReceiveInputView::Read(chunks[0]));
        let (acking, second) = transfer::receive_step(storing, ReceiveInputView::Stored);
        let (next, third) = transfer::receive_step(acking, ReceiveInputView::Acked);
        let (after, rest) = receive_chunks(next, chunks.drop_first());
        (after, first + second + third + rest)
    }
}

/// A file of the announced length is received whole, byte for byte, however it is
/// cut into chunks.
pub proof fn an_announced_file_is_received(
    receiver: ReceiveView,
    total: nat,
    chunks: Seq<Seq<u8>>,
)
    requires
        receiver.wf(),
        receiver.phase is Reading || (receiver.phase is Syncing && receiver.received == total),
        receiver.expected == Some(total),
        receiver.received + together(chunks).len() == total,
        none_empty(chunks),
    ensures
        ({
            let (after, done) = receive_chunks(receiver, chunks);
            &&& after.phase is Done
            &&& after.received == total
            &&& stored(done) == together(chunks)
            &&& done.len() > 0
            &&& done.last() == ReceiveActionView::Finish(Ok(()))
        }),
    decreases chunks.len(),
{
    if chunks.len() == 0 {
        let (at_end, first) = if receiver.phase is Reading {
            transfer::receive_step(receiver, ReceiveInputView::Read(seq![]))
        } else {
            (receiver, seq![])
        };
        let second = transfer::receive_step(at_end, ReceiveInputView::Synced).1;
        lemma_few_received(first);
        lemma_few_received(second);
        lemma_stored_add(first, second);
        assert(stored(first + second) =~= seq![]);
    } else {
        let rest = chunks.drop_first();
        assert forall|i: int| 0 <= i < rest.len() implies 0 < (#[trigger] rest[i]).len() by {
            assert(rest[i] == chunks[i + 1]);
        }
        assert(0 < chunks[0].len());
        assert(rest.len() > 0 ==> 0 < rest[0].len());
        let (storing, first) = transfer::receive_step(receiver, ReceiveInputView::Read(chunks[0]));
        let (acking, second) = transfer::receive_step(storing, ReceiveInputView::Stored);
        let (next, third) = transfer::receive_step(acking, ReceiveInputView::Acked);
        an_announced_file_is_received(next, total, rest);
        let last = receive_chunks(next, rest).1;
        lemma_few_received(first);
        lemma_few_received(second);
        lemma_few_received(third);
        lemma_stored_add(first, second);
        lemma_stored_add(first + second, third);
        lemma_stored_add(first + second + third, last);
        assert(stored(first + second + third + last) =~= together(chunks));
    }
}

/// The receiver never waits for the peer once the announced length is reached, not
/// even before the first byte where nothing is to come.
pub proof fn nothing_is_awaited_past_the_announced_length(
    expected: Option<nat>,
    inputs: Seq<ReceiveInputView>,
)
    ensures
        ({
            let new = transfer::new_receiver(expected);
            let after = receive_run(new, inputs).0;
            &&& after.phase is Reading ==> expected != Some(after.received)
            &&& transfer::first_receive_action(new) == (if new.phase is Reading {
                ReceiveActionView::Read
            } else {
                ReceiveActionView::Sync
            })
        }),
    decreases inputs.len(),
{
    if inputs.len() > 0 {
        nothing_is_awaited_past_the_announced_length(expected, inputs.drop_last());
        what_came_is_stored(expected, inputs.drop_last());
    }
}

/// The announced length ends a transfer: with the chunk that reaches it acknowledged,
/// the receiver goes on to synchronise its file, without waiting for the sender to
/// close the connection.
pub proof fn the_announced_length_ends_a_transfer(receiver: ReceiveView)
    requires
        receiver.wf(),
        receiver.phase is Acking,
    ensures
        ({
            let (after, actions) = transfer::receive_step(receiver, ReceiveInputView::Acked);
            let last = actions.last();
            &&& receiver.expected == Some(receiver.received) ==> after.phase is Syncing && last
                == ReceiveActionView::Sync
            &&& receiver.expected != Some(receiver.received) ==> after.phase is Reading && last
                == ReceiveActionView::Read
        }),
{
}

/// A file arrives: with the length announced and the chunks acknowledged, both sides
/// complete, and what one writes and what the other stores is the file, byte for
/// byte, however the bytes are cut into chunks on either side.
pub proof fn a_file_arrives(file: Seq<u8>, sent: Seq<Seq<u8>>, received: Seq<Seq<u8>>)
    requires
        file.len() <= u64::MAX,
        together(sent) == file,
        together(received) == file,
        are_chunks(sent),
        none_empty(received),
    ensures
        ({
            let done = send_chunks(transfer::new_sender(file.len()), sent).1;
            written(done) == file && done.len() > 0 && done.last() == SendActionView::Finish(Ok(()))
        }),
        ({
            let done = receive_chunks(transfer::new_receiver(Some(file.len())), received).1;
            stored(done) == file && done.len() > 0 && done.last() == ReceiveActionView::Finish(
                Ok(()),
            )
        }),
{
    an_acknowledged_file_is_sent(transfer::new_sender(file.len()), sent);
    an_announced_file_is_received(
        transfer::new_receiver(Some(file.len())),
        file.len(),
        received,
    );
}

// ---------------------------------------------------------------------------
// Step by step

/// An acknowledgement is the running total in four bytes, the highest first, without
/// what is above 32 bits; and any four bytes are read as the total that is written
/// so.
pub proof fn an_acknowledgement_says_the_total(total: nat, bytes: Seq<u8>)
    requires
        bytes.len() == 4,
    ensures
        ({
            let ack = transfer::ack_bytes(total);
            &&& ack.len() == 4
            &&& ack[0] * 0x100_0000 + ack[1] * 0x1_0000 + ack[2] * 0x100 + ack[3] == total
                % 0x1_0000_0000
        }),
        transfer::ack_value(bytes) == bytes[0] * 0x100_0000 + bytes[1] * 0x1_0000 + bytes[2] * 0x100
            + bytes[3],
        transfer::ack_bytes(transfer::ack_value(bytes)) == bytes,
{
    transfer::acknowledged_total_is_read_back(total);
    let value = transfer::ack_value(bytes);
    let (a, b, c, d) = (bytes[0] as nat, bytes[1] as nat, bytes[2] as nat, bytes[3] as nat);
    assert(value == a * 0x100_0000 + b * 0x1_0000 + c * 0x100 + d);
    assert(value / 0x100_0000 == a);
    assert(value / 0x1_0000 == a * 0x100 + b);
    assert(value / 0x100 == a * 0x1_0000 + b * 0x100 + c);
    assert(transfer::ack_bytes(value) =~= bytes);
}

/// An acknowledgement counts for the total that it says. Where the counter has
/// wrapped, that is the highest one up to what was sent with these low 32 bits; where
/// it says more than was sent, what it says. It never takes back what an earlier one
/// said, and changes nothing else.
pub proof fn an_acknowledgement_counts(sender: SendView, bytes: Seq<u8>)
    requires
        bytes.len() == 4,
    ensures
        ({
            let value = bytes[0] * 0x100_0000 + bytes[1] * 0x1_0000 + bytes[2] * 0x100 + bytes[3];
            let after = transfer::acknowledged(sender, bytes);
            &&& after == (SendView { acked: after.acked, ..sender })
            &&& after.acked >= sender.acked
            &&& value > sender.sent ==> after.acked == (if value > sender.acked {
                value
            } else {
                sender.acked as int
            })
            &&& value <= sender.sent ==> {
                let total = sender.sent - (sender.sent - value) % 0x1_0000_0000;
                &&& value <= total <= sender.sent < total + 0x1_0000_0000
                &&& total % 0x1_0000_0000 == value
                &&& after.acked == (if total > sender.acked {
                    total
                } else {
                    sender.acked as int
                })
            }
            &&& sender.sent <= u32::MAX ==> after.acked == (if value > sender.acked {
                value
            } else {
                sender.acked as int
            })
        }),
{
    let value = transfer::ack_value(bytes) as int;
    assert(0 <= value < 0x1_0000_0000);
    if value <= sender.sent {
        let ahead = sender.sent - value;
        let total = sender.sent - ahead % 0x1_0000_0000;
        assert(total == value + 0x1_0000_0000 * (ahead / 0x1_0000_0000));
        assert(total % 0x1_0000_0000 == value);
    }
}

/// What a transfer is told and what it says are taken for what they are.
pub proof fn transfer_inputs_and_actions_say_what_they_are(
    told: SendInput,
    said: SendAction,
    heard: ReceiveInput,
    done: ReceiveAction,
)
    ensures
        match told {
            SendInput::FileRead(chunk) => told@ == SendInputView::FileRead(chunk@),
            SendInput::Wrote => told@ == SendInputView::Wrote,
            SendInput::Ack(bytes) => told@ == SendInputView::Ack(bytes@),
            SendInput::Flushed => told@ == SendInputView::Flushed,
            SendInput::AckTimedOut => told@ == SendInputView::AckTimedOut,
            SendInput::Failed(reason) => told@ == SendInputView::Failed(reason@),
        },
        match said {
            SendAction::ReadFile => said@ == SendActionView::ReadFile,
            SendAction::WriteChunk(chunk) => said@ == SendActionView::WriteChunk(chunk@),
            SendAction::ReadAck => said@ == SendActionView::ReadAck,
            SendAction::Flush => said@ == SendActionView::Flush,
            SendAction::ReadFinalAck => said@ == SendActionView::ReadFinalAck,
            SendAction::Shutdown => said@ == SendActionView::Shutdown,
            SendAction::Emit(event) => said@ == SendActionView::Emit(event@),
            SendAction::Finish(Ok(())) => said@ == SendActionView::Finish(Ok(())),
            SendAction::Finish(Err(error)) => said@ == SendActionView::Finish(Err(error@)),
        },
        match heard {
            ReceiveInput::Read(chunk) => heard@ == ReceiveInputView::Read(chunk@),
            ReceiveInput::Stored => heard@ == ReceiveInputView::Stored,
            ReceiveInput::Acked => heard@ == ReceiveInputView::Acked,
            ReceiveInput::Synced => heard@ == ReceiveInputView::Synced,
            ReceiveInput::Failed(reason) => heard@ == ReceiveInputView::Failed(reason@),
        },
        match done {
            ReceiveAction::Read => done@ == ReceiveActionView::Read,
            ReceiveAction::Store(chunk) => done@ == ReceiveActionView::Store(chunk@),
            ReceiveAction::Ack(bytes) => done@ == ReceiveActionView::Ack(bytes@),
            ReceiveAction::Sync => done@ == ReceiveActionView::Sync,
            ReceiveAction::FlushFile => done@ == ReceiveActionView::FlushFile,
            ReceiveAction::RemoveFile => done@ == ReceiveActionView::RemoveFile,
            ReceiveAction::Emit(event) => done@ == ReceiveActionView::Emit(event@),
            ReceiveAction::Finish(Ok(())) => done@ == ReceiveActionView::Finish(Ok(())),
            ReceiveAction::Finish(Err(error)) => done@ == ReceiveActionView::Finish(Err(error@)),
        },
{
}

/// A transfer begins with nothing moved; a receiver begins to read, unless nothing
/// was announced to come.
pub proof fn a_transfer_begins_with_nothing_moved(total: nat, expected: Option<nat>)
    ensures
        transfer::new_sender(total) == (SendView {
            total,
            sent: 0,
            acked: 0,
            last_reported: 0,
            phase: SendPhase::Reading,
        }),
        ({
            let new = transfer::new_receiver(expected);
            &&& new.expected == expected
            &&& new.received == 0
            &&& new.last_reported == 0
            &&& expected == Some(0nat) ==> new.phase is Syncing
                && transfer::first_receive_action(new) == ReceiveActionView::Sync
            &&& expected != Some(0nat) ==> new.phase is Reading
                && transfer::first_receive_action(new) == ReceiveActionView::Read
        }),
{
}

/// Sending ends with any failure, whatever was being done, and with the reason as it
/// was given, except that once the whole file is written and only the last
/// acknowledgement is to come, nothing can fail any more.
pub proof fn a_failure_ends_sending(sender: SendView, reason: Seq<char>)
    requires
        !(sender.phase is Done),
    ensures
        ({
            let (after, actions) = transfer::send_step(sender, SendInputView::Failed(reason));
            &&& after == (SendView { phase: SendPhase::Done, ..sender })
            &&& !(sender.phase is AwaitingFinalAck) ==> actions == seq![
                SendActionView::Finish(Err(DccErrorView::Io(reason))),
            ]
            &&& sender.phase is AwaitingFinalAck ==> actions.len() > 0 && actions[0]
                == SendActionView::Shutdown && actions.last() == SendActionView::Finish(Ok(()))
        }),
{
}

/// A chunk that is read is written at once, whole, where it leaves no more than a
/// mebibyte unacknowledged, and is held back for an acknowledgement where it would
/// not; the end of the file has everything flushed.
pub proof fn a_chunk_is_written_or_held_back(sender: SendView, chunk: Seq<u8>)
    requires
        sender.phase is Reading,
    ensures
        ({
            let (after, actions) = transfer::send_step(sender, SendInputView::FileRead(chunk));
            &&& chunk.len() == 0 ==> actions == seq![SendActionView::Flush] && after == (SendView {
                phase: SendPhase::Flushing,
                ..sender
            })
            &&& chunk.len() > 0 && sender.sent + chunk.len() <= sender.acked + 1_048_576
                ==> actions == seq![SendActionView::WriteChunk(chunk)] && after == (SendView {
                phase: SendPhase::Writing(chunk.len()),
                ..sender
            })
            &&& chunk.len() > 0 && sender.sent + chunk.len() > sender.acked + 1_048_576
                ==> actions == seq![SendActionView::ReadAck] && after == (SendView {
                phase: SendPhase::AwaitingAck(chunk),
                ..sender
            })
        }),
{
}

/// A chunk that was held back is written, as it was read, with the acknowledgement
/// that makes room for it; any other acknowledgement is counted, and the next waited
/// for.
pub proof fn a_chunk_is_held_back_until_it_fits(
    sender: SendView,
    chunk: Seq<u8>,
    bytes: Seq<u8>,
)
    requires
        sender.phase == SendPhase::AwaitingAck(chunk),
    ensures
        ({
            let (after, actions) = transfer::send_step(sender, SendInputView::Ack(bytes));
            let acked = transfer::acknowledged(sender, bytes).acked;
            &&& sender.sent + chunk.len() <= acked + 1_048_576 ==> actions == seq![
                SendActionView::WriteChunk(chunk),
            ] && after == (SendView { acked, phase: SendPhase::Writing(chunk.len()), ..sender })
            &&& sender.sent + chunk.len() > acked + 1_048_576 ==> actions == seq![
                SendActionView::ReadAck,
            ] && after == (SendView { acked, ..sender })
        }),
{
}

/// A chunk that is written is counted, and the file is read on. It is reported where
/// 256 kibibytes were written since the last report, or the whole file is.
pub proof fn a_written_chunk_is_counted(sender: SendView, n: nat)
    requires
        sender.phase == SendPhase::Writing(n),
    ensures
        ({
            let (after, actions) = transfer::send_step(sender, SendInputView::Wrote);
            let sent = sender.sent + n;
            let report = SendActionView::Emit(DccEventView::Progress { transferred: sent });
            let due = sent - sender.last_reported >= 262_144 || sent == sender.total;
            &&& due ==> actions == seq![report, SendActionView::ReadFile] && after == (SendView {
                sent,
                last_reported: sent,
                phase: SendPhase::Reading,
                ..sender
            })
            &&& !due ==> actions == seq![SendActionView::ReadFile] && after == (SendView {
                sent,
                phase: SendPhase::Reading,
                ..sender
            })
        }),
{
}

/// Once everything is flushed, a file that was not as long as it had been is an error
/// with both lengths. Otherwise the last acknowledgement is waited for, where it has
/// not come and can be told, which past 32 bits it cannot; else the file is sent.
pub proof fn a_flushed_file_is_sent_or_not(sender: SendView)
    requires
        sender.phase is Flushing,
    ensures
        ({
            let (after, actions) = transfer::send_step(sender, SendInputView::Flushed);
            let is_awaited = sender.total <= 0xFFFF_FFFF && sender.acked < sender.total;
            &&& sender.sent != sender.total ==> after == (SendView {
                phase: SendPhase::Done,
                ..sender
            }) && actions == seq![
                SendActionView::Finish(
                    Err(
                        DccErrorView::SizeMismatch {
                            expected: sender.total,
                            actual: sender.sent,
                        },
                    ),
                ),
            ]
            &&& sender.sent == sender.total && is_awaited ==> after == (SendView {
                phase: SendPhase::AwaitingFinalAck,
                ..sender
            }) && actions == seq![SendActionView::ReadFinalAck]
            &&& sender.sent == sender.total && !is_awaited ==> {
                &&& after == (SendView { phase: SendPhase::Done, ..sender })
                &&& sender.sent == sender.last_reported && sender.sent > 0 ==> actions == seq![
                    SendActionView::Shutdown,
                    SendActionView::Finish(Ok(())),
                ]
                &&& sender.sent != sender.last_reported || sender.sent == 0 ==> actions == seq![
                    SendActionView::Shutdown,
                    SendActionView::Emit(DccEventView::Progress { transferred: sender.sent }),
                    SendActionView::Finish(Ok(())),
                ]
            }
        }),
{
}

/// The last acknowledgement ends the transfer well, and so do the end of the wait for
/// it and the end of the connection; one of less is counted, and the next waited for.
pub proof fn the_last_acknowledgement_ends_sending(
    sender: SendView,
    bytes: Seq<u8>,
    reason: Seq<char>,
)
    requires
        sender.wf(),
        sender.phase is AwaitingFinalAck,
    ensures
        ({
            let acked = transfer::acknowledged(sender, bytes).acked;
            let over = SendView { phase: SendPhase::Done, ..sender };
            let report = SendActionView::Emit(
                DccEventView::Progress { transferred: sender.sent },
            );
            let well = if sender.sent == sender.last_reported {
                seq![SendActionView::Shutdown, SendActionView::Finish(Ok(()))]
            } else {
                seq![SendActionView::Shutdown, report, SendActionView::Finish(Ok(()))]
            };
            &&& transfer::send_step(sender, SendInputView::AckTimedOut) == (over, well)
            &&& transfer::send_step(sender, SendInputView::Failed(reason)) == (over, well)
            &&& transfer::send_step(sender, SendInputView::Ack(bytes)) == (if acked >= sender.total {
                (SendView { acked, ..over }, well)
            } else {
                (SendView { acked, ..sender }, seq![SendActionView::ReadFinalAck])
            })
        }),
{
}

/// What does not belong to how far sending has come changes nothing.
pub proof fn what_is_out_of_order_changes_nothing_in_sending(
    sender: SendView,
    input: SendInputView,
)
    requires
        match sender.phase {
            SendPhase::Reading => !(input is FileRead) && !(input is Failed),
            SendPhase::Writing(_) => !(input is Wrote) && !(input is Failed),
            SendPhase::AwaitingAck(_) => !(input is Ack) && !(input is Failed),
            SendPhase::Flushing => !(input is Flushed) && !(input is Failed),
            SendPhase::AwaitingFinalAck => !(input is Ack) && !(input is AckTimedOut) && !(
            input is Failed),
            SendPhase::Done => true,
        },
    ensures
        transfer::send_step(sender, input) == (sender, Seq::<SendActionView>::empty()),
{
}

/// A chunk that comes is stored, as it came, unless it goes beyond what was announced:
/// then the file is flushed and removed, and the transfer fails with both lengths. The
/// end of the connection has the file synchronised.
pub proof fn a_chunk_that_comes_is_stored(receiver: ReceiveView, chunk: Seq<u8>)
    requires
        receiver.phase is Reading,
    ensures
        ({
            let (after, actions) = transfer::receive_step(receiver, ReceiveInputView::Read(chunk));
            let received = receiver.received + chunk.len();
            let is_too_much = receiver.expected matches Some(total) && received > total;
            &&& chunk.len() == 0 ==> actions == seq![ReceiveActionView::Sync] && after == (
            ReceiveView { phase: ReceivePhase::Syncing, ..receiver })
            &&& chunk.len() > 0 && !is_too_much ==> actions == seq![
                ReceiveActionView::Store(chunk),
            ] && after == (ReceiveView { received, phase: ReceivePhase::Storing, ..receiver })
            &&& chunk.len() > 0 && is_too_much ==> after == (ReceiveView {
                received,
                phase: ReceivePhase::Done,
                ..receiver
            }) && actions == seq![
                ReceiveActionView::FlushFile,
                ReceiveActionView::RemoveFile,
                ReceiveActionView::Finish(
                    Err(
                        DccErrorView::SizeMismatch {
                            expected: receiver.expected->0,
                            actual: received,
                        },
                    ),
                ),
            ]
        }),
{
}

/// A chunk that is stored is acknowledged with all that came so far; once it is, that
/// is reported where 256 kibibytes came since the last report, and the receiver reads
/// on, or synchronises its file where all that was announced has come.
pub proof fn a_stored_chunk_is_acknowledged(receiver: ReceiveView)
    ensures
        receiver.phase is Storing ==> transfer::receive_step(receiver, ReceiveInputView::Stored)
            == (
            ReceiveView { phase: ReceivePhase::Acking, ..receiver },
            seq![ReceiveActionView::Ack(transfer::ack_bytes(receiver.received))],
        ),
        receiver.phase is Acking ==> {
            let (after, actions) = transfer::receive_step(receiver, ReceiveInputView::Acked);
            let report = ReceiveActionView::Emit(
                DccEventView::Progress { transferred: receiver.received },
            );
            let (phase, next) = if receiver.expected == Some(receiver.received) {
                (ReceivePhase::Syncing, ReceiveActionView::Sync)
            } else {
                (ReceivePhase::Reading, ReceiveActionView::Read)
            };
            let due = receiver.received - receiver.last_reported >= 262_144;
            &&& due ==> actions == seq![report, next] && after == (ReceiveView {
                last_reported: receiver.received,
                phase,
                ..receiver
            })
            &&& !due ==> actions == seq![next] && after == (ReceiveView { phase, ..receiver })
        },
{
    if receiver.phase is Acking {
        let actions = transfer::receive_step(receiver, ReceiveInputView::Acked).1;
        let report = ReceiveActionView::Emit(
            DccEventView::Progress { transferred: receiver.received },
        );
        let next = if receiver.expected == Some(receiver.received) {
            ReceiveActionView::Sync
        } else {
            ReceiveActionView::Read
        };
        if receiver.received - receiver.last_reported >= 262_144 {
            assert(actions =~= seq![report, next]);
        } else {
            assert(actions =~= seq![next]);
        }
    }
}

/// A synchronised file is received where it is as long as was announced, or nothing
/// was; what came is reported unless it was already. Otherwise it is removed, and the
/// transfer fails with both lengths.
pub proof fn a_synchronised_file_is_received_or_not(receiver: ReceiveView)
    requires
        receiver.phase is Syncing,
    ensures
        ({
            let (after, actions) = transfer::receive_step(receiver, ReceiveInputView::Synced);
            let report = ReceiveActionView::Emit(
                DccEventView::Progress { transferred: receiver.received },
            );
            let is_short = receiver.expected matches Some(total) && receiver.received != total;
            let is_reported = receiver.received == receiver.last_reported && receiver.received > 0;
            &&& after == (ReceiveView { phase: ReceivePhase::Done, ..receiver })
            &&& !is_short && !is_reported ==> actions == seq![
                report,
                ReceiveActionView::Finish(Ok(())),
            ]
            &&& !is_short && is_reported ==> actions == seq![ReceiveActionView::Finish(Ok(()))]
            &&& is_short ==> actions == seq![
                ReceiveActionView::RemoveFile,
                ReceiveActionView::Finish(
                    Err(
                        DccErrorView::SizeMismatch {
                            expected: receiver.expected->0,
                            actual: receiver.received,
                        },
                    ),
                ),
            ]
        }),
{
}

/// Receiving ends with any failure, whatever was being done, and with the reason as it
/// was given. The file goes with it, unless all that was announced is stored, or the
/// peer has closed the connection and nothing was announced.
pub proof fn a_failure_ends_receiving(receiver: ReceiveView, reason: Seq<char>)
    requires
        !(receiver.phase is Done),
    ensures
        ({
            let (after, actions) = transfer::receive_step(
                receiver,
                ReceiveInputView::Failed(reason),
            );
            let failure = ReceiveActionView::Finish(Err(DccErrorView::Io(reason)));
            let is_stored = receiver.phase is Acking || receiver.phase is Syncing;
            let is_all = is_stored && receiver.expected == Some(receiver.received);
            let is_closed = receiver.phase is Syncing && receiver.expected is None;
            &&& after == (ReceiveView { phase: ReceivePhase::Done, ..receiver })
            &&& is_all || is_closed ==> actions == seq![failure]
            &&& !is_all && !is_closed ==> actions == seq![ReceiveActionView::RemoveFile, failure]
        }),
{
}

/// What does not belong to how far receiving has come changes nothing.
pub proof fn what_is_out_of_order_changes_nothing_in_receiving(
    receiver: ReceiveView,
    input: ReceiveInputView,
)
    requires
        match receiver.phase {
            ReceivePhase::Reading => !(input is Read) && !(input is Failed),
            ReceivePhase::Storing => !(input is Stored) && !(input is Failed),
            ReceivePhase::Acking => !(input is Acked) && !(input is Failed),
            ReceivePhase::Syncing => !(input is Synced) && !(input is Failed),
            ReceivePhase::Done => true,
        },
    ensures
        transfer::receive_step(receiver, input) == (receiver, Seq::<ReceiveActionView>::empty()),
{
}

/// A transfer takes whatever chunk comes, as long as 64 bits can count the bytes.
pub proof fn any_chunk_that_can_be_counted_is_taken(
    sender: SendView,
    receiver: ReceiveView,
    chunk: Seq<u8>,
)
    ensures
        sender.can_count(SendInputView::FileRead(chunk)) <==> sender.sent + chunk.len()
            <= 0xFFFF_FFFF_FFFF_FFFF,
        receiver.can_count(ReceiveInputView::Read(chunk)) <==> receiver.received + chunk.len()
            <= 0xFFFF_FFFF_FFFF_FFFF,
        forall|input: SendInputView|
            !(input is FileRead) ==> #[trigger] sender.can_count(input),
        forall|input: ReceiveInputView|
            !(input is Read) ==> #[trigger] receiver.can_count(input),
{
}

/// What a receiver is to do first is to read, unless nothing more is to come: then it
/// is to synchronise its file.
pub proof fn a_receiver_reads_first_unless_nothing_is_to_come(receiver: ReceiveView)
    ensures
        receiver.phase is Syncing ==> transfer::first_receive_action(receiver)
            == ReceiveActionView::Sync,
        !(receiver.phase is Syncing) ==> transfer::first_receive_action(receiver)
            == ReceiveActionView::Read,
{
}

} // verus!
