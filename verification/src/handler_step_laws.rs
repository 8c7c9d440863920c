//! What each thing that happens to a handler does to its substreams and messages, and what the
//! handler asks for next.

use vstd::prelude::*;

use crate::error::{ConnectionError, IoErrorKind};
use crate::handler::{
    Handler, HandlerEvent, KeepAlive, PollStep, ProtocolStatus, SinkPoll, StreamPoll, Visit,
};
use crate::handler_laws::{
    law_steps_stay_admitted, law_visits_descend, HandlerInput, Situation,
};
use crate::handler_state::HandlerView;
use crate::message::{Message, NodeActions};
use crate::seq_ops::lemma_first_index;
use crate::substream::SubstreamState;

verus! {

/// The state of a handler is what its fields hold, nothing left out.
pub proof fn law_state_is_what_the_fields_hold<S, T>(handler: Handler<S, T>)
    ensures
        handler@.substreams == handler.substreams@,
        handler@.keep_alive == handler.keep_alive,
        handler@.uniq_conn_id == handler.uniq_conn_id,
        handler@.protocol_status == handler.protocol_status,
        handler@.pending == handler.pending@,
        handler@.peer_timeout == handler.peer_timeout,
{
}

/// Whether a poll has nothing to do on `stream` while `pending` are the messages that wait for a
/// free substream.
pub open spec fn at_rest<S, T>(stream: SubstreamState<S, T>, pending: Seq<Message<T>>) -> bool {
    stream is AwaitingFirst || (stream is FreeStream && pending.len() == 0)
}

/// `s` with its last element moved to the front.
pub open spec fn turned<A>(s: Seq<A>) -> Seq<A> {
    if s.len() == 0 {
        s
    } else {
        seq![s.last()] + s.drop_last()
    }
}

/// A pass over the first `n` substreams is about the last one of them that is not at rest, which
/// stands at `k`; all others stay. A substream to be opened is asked for and its message kept; a
/// free one is tried with the message that became pending last; one with a message is tried with
/// it; one to be flushed is flushed; on one that waits the next message is asked for; a failure is
/// reported and its entry is gone.
pub proof fn law_pass_is_about_the_last_busy_substream<S, T>(
    h: HandlerView<S, T>,
    n: int,
    now: u64,
    k: int,
)
    requires
        0 <= k < n <= h.substreams.len(),
        n <= usize::MAX,
        !at_rest(h.substreams[k], h.pending),
        forall|i: int| k < i < n ==> at_rest(#[trigger] h.substreams[i], h.pending),
    ensures
        ({
            let (after, step) = h.pass(n, now);
            let s = h.substreams;
            let rest = s.take(k) + s.subrange(k + 1, n) + turned(s.skip(n));
            &&& after.keep_alive == h.keep_alive
            &&& after.uniq_conn_id == h.uniq_conn_id
            &&& after.protocol_status == h.protocol_status
            &&& after.peer_timeout == h.peer_timeout
            &&& match s[k] {
                SubstreamState::OutPendingOpen { msg, conn_id } => {
                    &&& step == PollStep::<S, T>::Ready(HandlerEvent::OutboundSubstreamRequest)
                    &&& after.substreams == rest.push(SubstreamState::AwaitingFirst { conn_id })
                    &&& after.pending == h.pending.push(msg)
                },
                SubstreamState::AwaitingFirst { .. } => false,
                SubstreamState::FreeStream { conn_id, substream } => {
                    &&& step == PollStep::PollReady(
                        Visit { index: k as usize, conn_id, substream },
                        h.pending.last(),
                    )
                    &&& after.substreams == rest
                    &&& after.pending == h.pending.drop_last()
                },
                SubstreamState::PendingSend { conn_id, substream, msg } => {
                    &&& step == PollStep::PollReady(
                        Visit { index: k as usize, conn_id, substream },
                        msg,
                    )
                    &&& after.substreams == rest
                    &&& after.pending == h.pending
                },
                SubstreamState::PendingFlush { conn_id, substream } => {
                    &&& step == PollStep::<S, T>::PollFlush(
                        Visit { index: k as usize, conn_id, substream },
                    )
                    &&& after.substreams == rest
                    &&& after.pending == h.pending
                },
                SubstreamState::WaitingMsg { conn_id, substream } => {
                    &&& step == PollStep::<S, T>::PollNext(
                        Visit { index: k as usize, conn_id, substream },
                    )
                    &&& after.substreams == rest
                    &&& after.pending == h.pending
                },
                SubstreamState::ReportError { error, .. } => {
                    &&& step == PollStep::<S, T>::Ready(
                        HandlerEvent::Custom(Message::Internal(NodeActions::Error(error))),
                    )
                    &&& after.substreams == rest
                    &&& after.pending == h.pending
                },
            }
        }),
    decreases n,
{
    let s = h.substreams;
    let stream = s[n - 1];
    let out = h.without(n - 1);
    assert(out.substreams =~= s.take(n - 1) + turned(s.skip(n)));
    if k == n - 1 {
        assert(s.take(k) + s.subrange(k + 1, n) + turned(s.skip(n)) =~= out.substreams);
    } else {
        assert(at_rest(s[n - 1], h.pending));
        let next = out.with(stream);
        let t = next.substreams;
        assert(t =~= s.take(n - 1) + turned(s.skip(n)) + seq![stream]);
        assert forall|i: int| 0 <= i < n - 1 implies #[trigger] t[i] == s[i] by {}
        law_pass_is_about_the_last_busy_substream(next, n - 1, now, k);
        assert(t.skip(n - 1) =~= turned(s.skip(n)) + seq![stream]);
        assert(turned(t.skip(n - 1)) =~= seq![stream] + turned(s.skip(n)));
        assert(t.take(k) =~= s.take(k));
        assert(t.subrange(k + 1, n - 1) =~= s.subrange(k + 1, n - 1));
        assert(t.take(k) + t.subrange(k + 1, n - 1) + turned(t.skip(n - 1)) =~= s.take(k)
            + s.subrange(k + 1, n) + turned(s.skip(n)));
    }
}

/// A pass over substreams that are all at rest asks for nothing and keeps them all, the first one
/// moved to the end. The connection is then kept for the time-out from `now` on if every substream
/// of the handler is free, and without limit if one is not.
pub proof fn law_pass_over_substreams_at_rest<S, T>(h: HandlerView<S, T>, n: int, now: u64)
    requires
        0 <= n <= h.substreams.len(),
        forall|i: int| 0 <= i < n ==> at_rest(#[trigger] h.substreams[i], h.pending),
    ensures
        ({
            let (after, step) = h.pass(n, now);
            let s = h.substreams;
            &&& step == PollStep::<S, T>::Pending
            &&& after.substreams == if n == 0 {
                s
            } else {
                (s.subrange(1, n) + turned(s.skip(n))).push(s[0])
            }
            &&& after.pending == h.pending
            &&& after.uniq_conn_id == h.uniq_conn_id
            &&& after.protocol_status == h.protocol_status
            &&& after.peer_timeout == h.peer_timeout
            &&& (forall|i: int| 0 <= i < s.len() ==> #[trigger] s[i] is FreeStream)
                ==> after.keep_alive == KeepAlive::Until((now + h.peer_timeout) as u64)
            &&& (exists|i: int| 0 <= i < s.len() && !(#[trigger] s[i] is FreeStream))
                ==> after.keep_alive == KeepAlive::Yes
        }),
    decreases n,
{
    if n > 0 {
        let s = h.substreams;
        let stream = s[n - 1];
        let out = h.without(n - 1);
        assert(out.substreams =~= s.take(n - 1) + turned(s.skip(n)));
        let next = out.with(stream);
        let t = next.substreams;
        assert(t =~= s.take(n - 1) + turned(s.skip(n)) + seq![stream]);
        assert(at_rest(s[n - 1], h.pending));
        assert forall|i: int| 0 <= i < n - 1 implies #[trigger] t[i] == s[i] by {}
        law_pass_over_substreams_at_rest(next, n - 1, now);
        assert(t.skip(n - 1) =~= turned(s.skip(n)) + seq![stream]);
        assert(turned(t.skip(n - 1)) =~= seq![stream] + turned(s.skip(n)));
        if n > 1 {
            assert((t.subrange(1, n - 1) + turned(t.skip(n - 1))).push(t[0]) =~= (s.subrange(1, n)
                + turned(s.skip(n))).push(s[0]));
        } else {
            assert(t =~= (s.subrange(1, n) + turned(s.skip(n))).push(s[0]));
        }
        if forall|i: int| 0 <= i < s.len() ==> #[trigger] s[i] is FreeStream {
            assert forall|i: int| 0 <= i < t.len() implies #[trigger] t[i] is FreeStream by {
                if n - 1 <= i < t.len() - 1 {
                    let from = if i == n - 1 { s.len() - 1 } else { i };
                    assert(t[i] == s[from]);
                }
            }
        }
        if exists|i: int| 0 <= i < s.len() && !(#[trigger] s[i] is FreeStream) {
            let i = choose|i: int| 0 <= i < s.len() && !(#[trigger] s[i] is FreeStream);
            let to = if i < n - 1 {
                i
            } else if i == n - 1 {
                t.len() - 1
            } else if i == s.len() - 1 {
                n - 1
            } else {
                i
            };
            assert(t[to] == s[i]);
        }
    }
}

/// A poll of a handler without substreams does nothing. One after the first substream of the remote
/// reports that substream and nothing else. Any other is about the last substream in the list that
/// is not at rest, which leaves its place to those that stand behind it.
pub proof fn law_poll_is_about_the_last_busy_substream<S, T>(
    h: HandlerView<S, T>,
    now: u64,
    k: int,
)
    requires
        h.substreams.len() <= usize::MAX,
    ensures
        h.substreams.len() == 0 ==> h.poll(now) == (h, PollStep::<S, T>::Pending),
        h.substreams.len() > 0 && h.protocol_status is Confirmed ==> {
            let (after, step) = h.poll(now);
            &&& step == PollStep::<S, T>::Ready(
                HandlerEvent::Custom(Message::Internal(NodeActions::ConfirmedInbound)),
            )
            &&& after.protocol_status is Reported
            &&& after.substreams == h.substreams
            &&& after.pending == h.pending
            &&& after.keep_alive == h.keep_alive
            &&& after.uniq_conn_id == h.uniq_conn_id
            &&& after.peer_timeout == h.peer_timeout
        },
        h.substreams.len() > 0 && !(h.protocol_status is Confirmed) ==> h.poll(now) == h.pass(
            h.substreams.len() as int,
            now,
        ),
        !(h.protocol_status is Confirmed) && 0 <= k < h.substreams.len() && !at_rest(
            h.substreams[k],
            h.pending,
        ) && (forall|i: int|
            k < i < h.substreams.len() ==> at_rest(#[trigger] h.substreams[i], h.pending)) ==> {
            let (after, step) = h.poll(now);
            let rest = h.substreams.remove(k);
            match h.substreams[k] {
                SubstreamState::OutPendingOpen { msg, conn_id } => {
                    &&& step == PollStep::<S, T>::Ready(HandlerEvent::OutboundSubstreamRequest)
                    &&& after.substreams == rest.push(SubstreamState::AwaitingFirst { conn_id })
                    &&& after.pending == h.pending.push(msg)
                },
                SubstreamState::ReportError { error, .. } => {
                    &&& step == PollStep::<S, T>::Ready(
                        HandlerEvent::Custom(Message::Internal(NodeActions::Error(error))),
                    )
                    &&& after.substreams == rest
                },
                _ => {
                    &&& step.visit() matches Some(visit)
                    &&& visit.index == k
                    &&& visit.conn_id == h.substreams[k].id()
                    &&& after.substreams == rest
                },
            }
        },
{
    let s = h.substreams;
    if !(h.protocol_status is Confirmed) && 0 <= k < s.len() && !at_rest(s[k], h.pending) && (
    forall|i: int| k < i < s.len() ==> at_rest(#[trigger] s[i], h.pending)) {
        law_pass_is_about_the_last_busy_substream(h, s.len() as int, now, k);
        assert(s.take(k) + s.subrange(k + 1, s.len() as int) + turned(s.skip(s.len() as int))
            =~= s.remove(k));
    }
}

/// Whatever else the handler holds, what comes after a message was handed to a substream depends on
/// the answer alone: a substream that has taken it is flushed next, under the same visit; one that
/// has failed is gone, and the failure is what the poll reports.
pub proof fn law_sent_message_is_flushed<S, T>(
    h: HandlerView<S, T>,
    visit: Visit<S>,
    answer: Result<(), ConnectionError>,
)
    ensures
        h.sent(visit, answer).0 == h,
        answer is Ok <==> h.sent(visit, answer).1 == PollStep::<S, T>::PollFlush(visit),
        answer matches Err(error) ==> h.sent(visit, answer).1 == PollStep::<S, T>::Ready(
            HandlerEvent::Custom(Message::Internal(NodeActions::Error(error))),
        ),
{
}

/// A substream that is flushed is asked for the answer, under the same visit. One that is not
/// flushed yet is left to be flushed by a later poll, while this one goes on below it. A failure is
/// what the poll reports, and the substream is gone.
pub proof fn law_flushed_substream_is_asked_for_the_answer<S, T>(
    h: HandlerView<S, T>,
    visit: Visit<S>,
    error: ConnectionError,
    now: u64,
)
    ensures
        h.flushed(visit, SinkPoll::Ready, now) == (h, PollStep::<S, T>::PollNext(visit)),
        h.flushed(visit, SinkPoll::Failed(error), now) == (
            h,
            PollStep::<S, T>::Ready(
                HandlerEvent::Custom(Message::Internal(NodeActions::Error(error))),
            ),
        ),
        h.flushed(visit, SinkPoll::Pending, now) == (HandlerView {
            substreams: h.substreams.push(
                SubstreamState::PendingFlush { conn_id: visit.conn_id, substream: visit.substream },
            ),
            ..h
        }).pass(visit.index as int, now),
{
}

/// A message that a substream gives is what the poll reports, whichever message it is. The
/// substream is kept for the answer, free and under its own number, if and only if the message does
/// not end its operation; nothing else of the handler changes.
pub proof fn law_received_message_is_reported<S, T>(
    h: HandlerView<S, T>,
    visit: Visit<S>,
    msg: Message<T>,
    terminal: bool,
    now: u64,
)
    ensures
        ({
            let (after, step) = h.received(visit, StreamPoll::Message { msg, terminal }, now);
            &&& step == PollStep::<S, T>::Ready(HandlerEvent::Custom(msg))
            &&& terminal ==> after == h
            &&& !terminal ==> after == (HandlerView {
                substreams: h.substreams.push(
                    SubstreamState::FreeStream {
                        conn_id: visit.conn_id,
                        substream: visit.substream,
                    },
                ),
                ..h
            })
        }),
{
}

/// A substream that has no message yet waits on, under its own number, while the poll goes on below
/// it. One that fails or has ended is gone, and that is what the poll reports; an end counts as an
/// unexpected one.
pub proof fn law_silent_substream_waits_on<S, T>(
    h: HandlerView<S, T>,
    visit: Visit<S>,
    error: ConnectionError,
    now: u64,
)
    ensures
        h.received(visit, StreamPoll::<T>::Pending, now) == (HandlerView {
            substreams: h.substreams.push(
                SubstreamState::WaitingMsg { conn_id: visit.conn_id, substream: visit.substream },
            ),
            ..h
        }).pass(visit.index as int, now),
        h.received(visit, StreamPoll::<T>::Failed(error), now) == (
            h,
            PollStep::<S, T>::Ready(
                HandlerEvent::Custom(Message::Internal(NodeActions::Error(error))),
            ),
        ),
        h.received(visit, StreamPoll::<T>::Closed, now) == (
            h,
            PollStep::<S, T>::Ready(
                HandlerEvent::Custom(
                    Message::Internal(
                        NodeActions::Error(
                            ConnectionError::IOError(Some(IoErrorKind::UnexpectedEof)),
                        ),
                    ),
                ),
            ),
        ),
{
}

/// A substream that is ready takes the message it was asked about, if that goes to the remote. One
/// that is busy is asked again about the same message. One that fails is gone, and the failure is
/// what the poll reports.
pub proof fn law_ready_substream_takes_its_message<S, T>(
    h: HandlerView<S, T>,
    visit: Visit<S>,
    msg: Message<T>,
    error: ConnectionError,
    now: u64,
)
    ensures
        !(msg is Internal) ==> h.sink_ready(visit, msg, SinkPoll::Ready, now) == (
            h,
            PollStep::StartSend(visit, msg),
        ),
        h.sink_ready(visit, msg, SinkPoll::Pending, now) == (h, PollStep::PollReady(visit, msg)),
        h.sink_ready(visit, msg, SinkPoll::Failed(error), now) == (
            h,
            PollStep::<S, T>::Ready(
                HandlerEvent::Custom(Message::Internal(NodeActions::Error(error))),
            ),
        ),
{
}

/// A message that stays within the node is not sent. After a confirmation the substream is free: it
/// is tried with the message that became pending last, or kept where none is pending. After any
/// other such message the substream is gone. The poll then goes on below it.
pub proof fn law_message_of_the_node_is_not_sent<S, T>(
    h: HandlerView<S, T>,
    visit: Visit<S>,
    action: NodeActions,
    now: u64,
)
    ensures
        ({
            let outcome = h.sink_ready(visit, Message::Internal(action), SinkPoll::Ready, now);
            &&& !(action is ConfirmedInbound) ==> outcome == h.pass(visit.index as int, now)
            &&& action is ConfirmedInbound && h.pending.len() > 0 ==> outcome == (
                HandlerView { pending: h.pending.drop_last(), ..h },
                PollStep::PollReady(visit, h.pending.last()),
            )
            &&& action is ConfirmedInbound && h.pending.len() == 0 ==> outcome == (HandlerView {
                substreams: h.substreams.push(
                    SubstreamState::FreeStream {
                        conn_id: visit.conn_id,
                        substream: visit.substream,
                    },
                ),
                ..h
            }).pass(visit.index as int, now)
        }),
{
}

/// A substream is asked for a message only once it is flushed, or where it was waiting for one: the
/// step before was its flush, answered with success under the same visit, or the list held it as
/// one that waits.
pub proof fn law_asked_only_when_flushed_or_waiting<S, T>(
    situation: Situation<S, T>,
    input: HandlerInput<S, T>,
    visit: Visit<S>,
)
    requires
        situation.allows(input),
        situation.handler.admits(situation.step),
        situation.next(input).step == PollStep::<S, T>::PollNext(visit),
    ensures
        ({
            let flushed = situation.step == PollStep::<S, T>::PollFlush(visit)
                && input matches HandlerInput::Flushed { answer: SinkPoll::Ready, .. };
            let waiting = SubstreamState::<S, T>::WaitingMsg {
                conn_id: visit.conn_id,
                substream: visit.substream,
            };
            flushed || (visit.index < situation.handler.substreams.len()
                && situation.handler.substreams[visit.index as int] == waiting)
        }),
{
    let h = situation.handler;
    match input {
        HandlerInput::Poll { now } => {
            lemma_pass_asks(h, h.substreams.len() as int, now, visit);
        },
        HandlerInput::SinkReady { now, .. } => {
            let v = situation.step->PollReady_0;
            lemma_pass_asks(h, v.index as int, now, visit);
            lemma_pass_asks(h.with(v.free()), v.index as int, now, visit);
        },
        HandlerInput::Flushed { now, .. } => {
            let v = situation.step->PollFlush_0;
            lemma_pass_asks(h.with(v.flushing()), v.index as int, now, visit);
        },
        HandlerInput::Received { now, .. } => {
            let v = situation.step->PollNext_0;
            lemma_pass_asks(h.with(v.waiting()), v.index as int, now, visit);
        },
        _ => {},
    }
}

proof fn lemma_pass_asks<S, T>(h: HandlerView<S, T>, n: int, now: u64, visit: Visit<S>)
    requires
        0 <= n <= h.substreams.len(),
        n <= usize::MAX,
    ensures
        h.pass(n, now).1 == PollStep::<S, T>::PollNext(visit) ==> visit.index < n
            && h.substreams[visit.index as int] == (SubstreamState::<S, T>::WaitingMsg {
            conn_id: visit.conn_id,
            substream: visit.substream,
        }),
    decreases n,
{
    if n > 0 && at_rest(h.substreams[n - 1], h.pending) {
        lemma_pass_asks(h.without(n - 1).with(h.substreams[n - 1]), n - 1, now, visit);
    }
}

/// Within a visit, a substream that was handed a message is asked for the answer only after its
/// flush has succeeded.
pub proof fn law_answer_is_awaited_after_the_flush<S, T>(
    situation: Situation<S, T>,
    visit: Visit<S>,
    msg: Message<T>,
    answers: Seq<HandlerInput<S, T>>,
)
    requires
        situation.step == PollStep::StartSend(visit, msg),
        situation.handler.admits(situation.step),
        situation.allows_all(answers),
        forall|i: int|
            0 <= i < answers.len() ==> (#[trigger] answers[i] is SinkReady || answers[i] is Sent
                || answers[i] is Flushed || answers[i] is Received),
        situation.run(answers).step == PollStep::<S, T>::PollNext(visit),
    ensures
        answers.len() >= 2,
        answers[0] matches HandlerInput::Sent { outcome: Ok(_) },
        situation.next(answers[0]).step == PollStep::<S, T>::PollFlush(visit),
        answers[1] matches HandlerInput::Flushed { answer: SinkPoll::Ready, .. },
{
    assert(answers[0] is Sent);
    let handed = situation.next(answers[0]);
    let later = answers.drop_first();
    assert(handed.allows_all(later));
    assert(handed.run(later) == situation.run(answers));
    if later.len() > 0 {
        assert(later[0] == answers[1]);
    }
    assert(handed.step == PollStep::<S, T>::PollFlush(visit));
    let next = handed.next(later[0]);
    let last = later.drop_first();
    assert(handed.run(later) == next.run(last));
    law_steps_stay_admitted(situation, answers[0]);
    law_steps_stay_admitted(handed, later[0]);
    if !(later[0] matches HandlerInput::Flushed { answer: SinkPoll::Ready, .. }) {
        law_visits_descend(handed, later[0]);
        assert forall|i: int| 0 <= i < last.len() implies (#[trigger] last[i] is SinkReady
            || last[i] is Sent || last[i] is Flushed || last[i] is Received) by {
            assert(last[i] == answers[i + 2]);
        }
        let h = handed.handler;
        let now = later[0]->Flushed_now;
        lemma_pass_below(h.with(visit.flushing()), visit.index as int, now);
        lemma_stays_below(next, last, visit.index as int);
    }
}

/// A pass visits only substreams below where it starts.
proof fn lemma_pass_below<S, T>(h: HandlerView<S, T>, n: int, now: u64)
    requires
        0 <= n <= h.substreams.len(),
        n <= usize::MAX,
    ensures
        h.pass(n, now).1.visit() matches Some(visit) ==> visit.index < n,
    decreases n,
{
    if n > 0 && at_rest(h.substreams[n - 1], h.pending) {
        lemma_pass_below(h.without(n - 1).with(h.substreams[n - 1]), n - 1, now);
    }
}

proof fn lemma_stays_below<S, T>(
    situation: Situation<S, T>,
    answers: Seq<HandlerInput<S, T>>,
    n: int,
)
    requires
        situation.handler.admits(situation.step),
        situation.allows_all(answers),
        forall|i: int|
            0 <= i < answers.len() ==> (#[trigger] answers[i] is SinkReady || answers[i] is Sent
                || answers[i] is Flushed || answers[i] is Received),
        situation.step.visit() matches Some(visit) ==> visit.index < n,
    ensures
        situation.run(answers).step.visit() matches Some(visit) ==> visit.index < n,
    decreases answers.len(),
{
    if answers.len() > 0 {
        let later = answers.drop_first();
        assert(answers[0] is SinkReady || answers[0] is Sent || answers[0] is Flushed
            || answers[0] is Received);
        assert forall|i: int| 0 <= i < later.len() implies (#[trigger] later[i] is SinkReady
            || later[i] is Sent || later[i] is Flushed || later[i] is Received) by {
            assert(later[i] == answers[i + 1]);
        }
        law_visits_descend(situation, answers[0]);
        law_steps_stay_admitted(situation, answers[0]);
        lemma_stays_below(situation.next(answers[0]), later, n);
    }
}

/// Where the substream at `i` is the first free one in the list, a message is put on it, under its
/// number and its stream, and is not given back; the last substream of the list takes its place.
pub proof fn law_first_free_substream_gets_the_message<S, T>(
    h: HandlerView<S, T>,
    msg: Message<T>,
    i: int,
)
    requires
        0 <= i < h.substreams.len(),
        h.substreams[i] is FreeStream,
        forall|k: int| 0 <= k < i ==> !(#[trigger] h.substreams[k] is FreeStream),
    ensures
        ({
            let s = h.substreams;
            let given = HandlerView {
                substreams: s.update(i, s.last()).drop_last().push(
                    SubstreamState::PendingSend {
                        conn_id: s[i]->FreeStream_conn_id,
                        substream: s[i]->FreeStream_substream,
                        msg,
                    },
                ),
                ..h
            };
            &&& h.send_to_free(msg) == (given, None::<Message<T>>)
            &&& h.inject_event(msg) == given
        }),
{
    lemma_first_index(h.substreams, |s: SubstreamState<S, T>| s is FreeStream, i);
}

/// Where no substream is free, a message is given back and nothing changes; a message that has to
/// go out is put on a new substream, which gets the next number and is still to be opened.
pub proof fn law_without_free_substream_one_is_opened<S, T>(h: HandlerView<S, T>, msg: Message<T>)
    requires
        forall|k: int|
            0 <= k < h.substreams.len() ==> !(#[trigger] h.substreams[k] is FreeStream),
    ensures
        h.send_to_free(msg) == (h, Some(msg)),
        h.inject_event(msg) == (HandlerView {
            substreams: h.substreams.push(
                SubstreamState::OutPendingOpen { msg, conn_id: h.uniq_conn_id as usize },
            ),
            uniq_conn_id: h.uniq_conn_id + 1,
            ..h
        }),
{
    lemma_first_index(
        h.substreams,
        |s: SubstreamState<S, T>| s is FreeStream,
        h.substreams.len() as int,
    );
}

/// A substream that was opened belongs to the first request in the list, which stands at `i`: it
/// waits for a message under the number of the request. The last substream of the list takes the
/// place of the request, and nothing else changes.
pub proof fn law_opened_substream_waits_for_a_message<S, T>(
    h: HandlerView<S, T>,
    stream: S,
    i: int,
)
    requires
        0 <= i < h.substreams.len(),
        h.substreams[i] is AwaitingFirst,
        forall|k: int| 0 <= k < i ==> !(#[trigger] h.substreams[k] is AwaitingFirst),
    ensures
        h.negotiated_outbound(stream) == (HandlerView {
            substreams: h.substreams.update(i, h.substreams.last()).drop_last().push(
                SubstreamState::WaitingMsg {
                    conn_id: h.substreams[i]->AwaitingFirst_conn_id,
                    substream: stream,
                },
            ),
            ..h
        }),
{
    lemma_first_index(h.substreams, |s: SubstreamState<S, T>| s is AwaitingFirst, i);
}

/// A substream that the remote opens waits for a message under the next number if no other one
/// waits for a message or for being opened; else it is not taken. Either way the protocol is
/// confirmed by it where that was still open, and nothing else changes.
pub proof fn law_inbound_substream_waits_for_a_message<S, T>(h: HandlerView<S, T>, stream: S)
    ensures
        ({
            let after = h.negotiated_inbound(stream);
            let s = h.substreams;
            let expected = exists|i: int|
                0 <= i < s.len() && (#[trigger] s[i] is AwaitingFirst || s[i] is WaitingMsg);
            &&& expected ==> after.substreams == s && after.uniq_conn_id == h.uniq_conn_id
            &&& !expected ==> after.uniq_conn_id == h.uniq_conn_id + 1 && after.substreams
                == s.push(
                SubstreamState::WaitingMsg { conn_id: h.uniq_conn_id as usize, substream: stream },
            )
            &&& h.protocol_status == ProtocolStatus::Unconfirmed ==> after.protocol_status
                == ProtocolStatus::Confirmed
            &&& h.protocol_status != ProtocolStatus::Unconfirmed ==> after.protocol_status
                == h.protocol_status
            &&& after.pending == h.pending
            &&& after.keep_alive == h.keep_alive
            &&& after.peer_timeout == h.peer_timeout
        }),
{
}

/// A failure to open a substream is kept, under the next number, to be reported, and the protocol
/// has failed; nothing else changes.
pub proof fn law_upgrade_error_is_kept<S, T>(h: HandlerView<S, T>, error: ConnectionError)
    ensures
        h.dial_upgrade_failed(error) == (HandlerView {
            substreams: h.substreams.push(
                SubstreamState::ReportError { conn_id: h.uniq_conn_id as usize, error },
            ),
            uniq_conn_id: h.uniq_conn_id + 1,
            protocol_status: ProtocolStatus::FailedUpgrade,
            ..h
        }),
{
}

} // verus!
