//! What holds of a handler whatever is done to it.

use vstd::multiset::Multiset;
use vstd::prelude::*;

use crate::error::ConnectionError;
use crate::handler::{
    HandlerEvent, KeepAlive, PollStep, ProtocolStatus, SinkPoll, StreamPoll,
};
use crate::handler_state::HandlerView;
use crate::message::{Message, NodeActions};
use crate::seq_ops::{
    lemma_first_index_found, lemma_first_index_holds, lemma_swap_removed, swap_removed,
};
use crate::substream::{SubstreamState, UniqConnId};

verus! {

/// Something that happens to a handler.
pub enum HandlerInput<S, T> {
    NegotiatedOutbound { stream: S },
    NegotiatedInbound { stream: S },
    Event { msg: Message<T> },
    DialUpgradeError { error: ConnectionError },
    Poll { now: u64 },
    SinkReady { answer: SinkPoll, now: u64 },
    Sent { outcome: Result<(), ConnectionError> },
    Flushed { answer: SinkPoll, now: u64 },
    Received { reply: StreamPoll<T>, now: u64 },
}

/// A handler, and what its poll has asked for last.
#[verifier::ext_equal]
pub struct Situation<S, T> {
    pub handler: HandlerView<S, T>,
    pub step: PollStep<S, T>,
}

impl<S, T> Situation<S, T> {
    /// A handler that was just made.
    pub open spec fn fresh(now: u64, peer_timeout: u64) -> Self {
        Situation {
            handler: HandlerView {
                substreams: Seq::empty(),
                keep_alive: KeepAlive::Until((now + peer_timeout) as u64),
                uniq_conn_id: 0,
                protocol_status: ProtocolStatus::Unconfirmed,
                pending: Seq::empty(),
                peer_timeout,
            },
            step: PollStep::Pending,
        }
    }

    /// Whether `input` can happen here: what the handler's methods require, and that an answer
    /// belongs to the question that was asked.
    pub open spec fn allows(self, input: HandlerInput<S, T>) -> bool {
        match input {
            HandlerInput::NegotiatedOutbound { .. } => self.step.visit() is None && (exists|i: int|
                0 <= i < self.handler.substreams.len()
                    && #[trigger] self.handler.substreams[i] is AwaitingFirst),
            HandlerInput::NegotiatedInbound { .. } => self.step.visit() is None && (
            self.handler.expects_message() || self.handler.uniq_conn_id < usize::MAX),
            HandlerInput::Event { .. } => self.step.visit() is None && (self.handler.first_free()
                < self.handler.substreams.len() || self.handler.uniq_conn_id < usize::MAX),
            HandlerInput::DialUpgradeError { .. } => self.step.visit() is None
                && self.handler.uniq_conn_id < usize::MAX,
            HandlerInput::Poll { .. } => self.step.visit() is None
                && self.handler.substreams.len() <= usize::MAX,
            HandlerInput::SinkReady { .. } => self.step is PollReady,
            HandlerInput::Sent { .. } => self.step is StartSend,
            HandlerInput::Flushed { .. } => self.step is PollFlush,
            HandlerInput::Received { .. } => self.step is PollNext,
        }
    }

    /// What comes of `input`.
    pub open spec fn next(self, input: HandlerInput<S, T>) -> Self {
        let handler = self.handler;
        let (after, step) = match input {
            HandlerInput::NegotiatedOutbound { stream } => (
                handler.negotiated_outbound(stream),
                PollStep::Pending,
            ),
            HandlerInput::NegotiatedInbound { stream } => (
                handler.negotiated_inbound(stream),
                PollStep::Pending,
            ),
            HandlerInput::Event { msg } => (handler.inject_event(msg), PollStep::Pending),
            HandlerInput::DialUpgradeError { error } => (
                handler.dial_upgrade_failed(error),
                PollStep::Pending,
            ),
            HandlerInput::Poll { now } => handler.poll(now),
            HandlerInput::SinkReady { answer, now } => handler.sink_ready(
                self.step->PollReady_0,
                self.step->PollReady_1,
                answer,
                now,
            ),
            HandlerInput::Sent { outcome } => handler.sent(self.step->StartSend_0, outcome),
            HandlerInput::Flushed { answer, now } => handler.flushed(
                self.step->PollFlush_0,
                answer,
                now,
            ),
            HandlerInput::Received { reply, now } => handler.received(
                self.step->PollNext_0,
                reply,
                now,
            ),
        };
        Situation { handler: after, step }
    }

    /// Whether the inputs can happen one after the other.
    pub open spec fn allows_all(self, inputs: Seq<HandlerInput<S, T>>) -> bool
        decreases inputs.len(),
    {
        inputs.len() == 0 || (self.allows(inputs[0]) && self.next(inputs[0]).allows_all(
            inputs.drop_first(),
        ))
    }

    /// What comes of the inputs, one after the other.
    pub open spec fn run(self, inputs: Seq<HandlerInput<S, T>>) -> Self
        decreases inputs.len(),
    {
        if inputs.len() == 0 {
            self
        } else {
            self.next(inputs[0]).run(inputs.drop_first())
        }
    }

    /// The number of the substream that is out for a visit.
    pub open spec fn visited(self) -> Option<UniqConnId> {
        match self.step.visit() {
            Some(visit) => Some(visit.conn_id),
            None => None,
        }
    }

    /// No two substreams have one number, and none has a number that is still to be given out.
    /// The substream that is out for a visit counts.
    pub open spec fn numbered(self) -> bool {
        ids_distinct(self.handler, self.visited())
    }
}

/// The substreams of `handler`, and the one numbered `out` where there is one, have different
/// numbers below the next one.
pub open spec fn ids_distinct<S, T>(handler: HandlerView<S, T>, out: Option<UniqConnId>) -> bool {
    let s = handler.substreams;
    &&& forall|i: int, j: int| 0 <= i < j < s.len() ==> (#[trigger] s[i]).id() != (#[trigger] s[j]).id()
    &&& forall|i: int| 0 <= i < s.len() ==> (#[trigger] s[i]).id() < handler.uniq_conn_id
    &&& out matches Some(id) ==> id < handler.uniq_conn_id && forall|i: int|
        0 <= i < s.len() ==> (#[trigger] s[i]).id() != id
}

/// Taking a substream out leaves the others distinct from it and from each other.
proof fn lemma_without<S, T>(h: HandlerView<S, T>, i: int)
    requires
        ids_distinct(h, None),
        0 <= i < h.substreams.len(),
    ensures
        ids_distinct(h.without(i), Some(h.substreams[i].id())),
{
    let s = h.substreams;
    let r = h.without(i).substreams;
    assert forall|k: int| 0 <= k < r.len() implies (#[trigger] r[k]).id() != s[i].id()
        && r[k].id() < h.uniq_conn_id by {
        assert(r[k] == if k == i { s.last() } else { s[k] });
        if k == i {
            assert(s[s.len() - 1].id() < h.uniq_conn_id);
        }
    }
    assert forall|k: int, l: int| 0 <= k < l < r.len() implies (#[trigger] r[k]).id() != (
    #[trigger] r[l]).id() by {
        let a = if k == i { s.len() - 1 } else { k };
        let b = if l == i { s.len() - 1 } else { l };
        assert(r[k] == s[a] && r[l] == s[b] && a != b);
        assert(s[a].id() != s[b].id());
    }
}

proof fn lemma_pass_numbered<S, T>(h: HandlerView<S, T>, n: int, now: u64)
    requires
        ids_distinct(h, None),
        0 <= n <= h.substreams.len(),
    ensures
        (Situation { handler: h.pass(n, now).0, step: h.pass(n, now).1 }).numbered(),
    decreases n,
{
    if n > 0 {
        lemma_without(h, n - 1);
        let rest = h.without(n - 1);
        let stream = h.substreams[n - 1];
        match stream {
            SubstreamState::AwaitingFirst { .. } => {
                lemma_pass_numbered(rest.with(stream), n - 1, now);
            },
            SubstreamState::FreeStream { .. } => {
                if rest.pending.len() == 0 {
                    lemma_pass_numbered(rest.with(stream), n - 1, now);
                }
            },
            _ => {},
        }
    }
}

/// Whatever happens to a handler, its substreams keep different numbers.
pub proof fn law_numbers_stay_distinct<S, T>(
    situation: Situation<S, T>,
    input: HandlerInput<S, T>,
)
    requires
        situation.numbered(),
        situation.allows(input),
        situation.handler.admits(situation.step),
    ensures
        situation.next(input).numbered(),
{
    let h = situation.handler;
    match input {
        HandlerInput::NegotiatedOutbound { stream } => {
            let i = choose|i: int|
                0 <= i < h.substreams.len() && #[trigger] h.substreams[i] is AwaitingFirst;
            lemma_first_index_found(
                h.substreams,
                |s: SubstreamState<S, T>| s is AwaitingFirst,
                i,
            );
            lemma_without(h, h.first_awaiting() as int);
        },
        HandlerInput::NegotiatedInbound { .. } => {},
        HandlerInput::Event { .. } => {
            if h.first_free() < h.substreams.len() {
                lemma_first_free(h);
                lemma_without(h, h.first_free() as int);
            }
        },
        HandlerInput::DialUpgradeError { .. } => {},
        HandlerInput::Poll { now } => {
            lemma_pass_numbered(h, h.substreams.len() as int, now);
        },
        HandlerInput::SinkReady { now, .. } => {
            let visit = situation.step->PollReady_0;
            lemma_pass_numbered(h, visit.index as int, now);
            lemma_pass_numbered(h.with(visit.free()), visit.index as int, now);
        },
        HandlerInput::Sent { .. } => {},
        HandlerInput::Flushed { now, .. } => {
            let visit = situation.step->PollFlush_0;
            lemma_pass_numbered(h.with(visit.flushing()), visit.index as int, now);
        },
        HandlerInput::Received { now, .. } => {
            let visit = situation.step->PollNext_0;
            lemma_pass_numbered(h.with(visit.waiting()), visit.index as int, now);
        },
    }
}

/// The work that is asked for never leaves more substreams to visit than there are.
pub proof fn law_steps_stay_admitted<S, T>(situation: Situation<S, T>, input: HandlerInput<S, T>)
    requires
        situation.allows(input),
        situation.handler.admits(situation.step),
    ensures
        situation.next(input).handler.admits(situation.next(input).step),
{
    let h = situation.handler;
    match input {
        HandlerInput::Poll { now } => {
            h.lemma_pass_admits(h.substreams.len() as int, now);
        },
        HandlerInput::SinkReady { now, .. } => {
            let visit = situation.step->PollReady_0;
            h.lemma_pass_admits(visit.index as int, now);
            h.with(visit.free()).lemma_pass_admits(visit.index as int, now);
        },
        HandlerInput::Flushed { now, .. } => {
            let visit = situation.step->PollFlush_0;
            h.with(visit.flushing()).lemma_pass_admits(visit.index as int, now);
        },
        HandlerInput::Received { now, .. } => {
            let visit = situation.step->PollNext_0;
            h.with(visit.waiting()).lemma_pass_admits(visit.index as int, now);
        },
        _ => {},
    }
}

/// However long a handler lives, its substreams have different numbers.
pub proof fn law_numbers_always_distinct<S, T>(
    now: u64,
    peer_timeout: u64,
    inputs: Seq<HandlerInput<S, T>>,
)
    requires
        Situation::fresh(now, peer_timeout).allows_all(inputs),
    ensures
        Situation::fresh(now, peer_timeout).run(inputs).numbered(),
{
    lemma_run_numbered(Situation::fresh(now, peer_timeout), inputs);
}

proof fn lemma_run_numbered<S, T>(situation: Situation<S, T>, inputs: Seq<HandlerInput<S, T>>)
    requires
        situation.numbered(),
        situation.handler.admits(situation.step),
        situation.allows_all(inputs),
    ensures
        situation.run(inputs).numbered(),
    decreases inputs.len(),
{
    if inputs.len() > 0 {
        law_numbers_stay_distinct(situation, inputs[0]);
        law_steps_stay_admitted(situation, inputs[0]);
        lemma_run_numbered(situation.next(inputs[0]), inputs.drop_first());
    }
}

/// The message of `stream` that waits to be sent, as a collection.
pub open spec fn outgoing_of<S, T>(stream: SubstreamState<S, T>) -> Multiset<Message<T>> {
    match stream.outgoing() {
        Some(msg) => Multiset::singleton(msg),
        None => Multiset::empty(),
    }
}

/// The messages that wait on `substreams` to be sent.
pub open spec fn waiting_on<S, T>(substreams: Seq<SubstreamState<S, T>>) -> Multiset<Message<T>>
    decreases substreams.len(),
{
    if substreams.len() == 0 {
        Multiset::empty()
    } else {
        waiting_on(substreams.drop_last()).add(outgoing_of(substreams.last()))
    }
}

/// The messages that wait in `handler` to be sent.
pub open spec fn waiting_in<S, T>(handler: HandlerView<S, T>) -> Multiset<Message<T>> {
    waiting_on(handler.substreams).add(handler.pending.to_multiset())
}

impl<S, T> Situation<S, T> {
    /// The messages that were given to the handler and not yet handed to a substream.
    pub open spec fn held(self) -> Multiset<Message<T>> {
        match self.step {
            PollStep::PollReady(_, msg) => waiting_in(self.handler).insert(msg),
            PollStep::StartSend(_, msg) => waiting_in(self.handler).insert(msg),
            _ => waiting_in(self.handler),
        }
    }
}

proof fn lemma_waiting_push<S, T>(s: Seq<SubstreamState<S, T>>, x: SubstreamState<S, T>)
    ensures
        waiting_on(s.push(x)) == waiting_on(s).add(outgoing_of(x)),
{
    assert(s.push(x).drop_last() =~= s);
}

proof fn lemma_waiting_update<S, T>(
    s: Seq<SubstreamState<S, T>>,
    i: int,
    x: SubstreamState<S, T>,
)
    requires
        0 <= i < s.len(),
    ensures
        waiting_on(s.update(i, x)).add(outgoing_of(s[i])) =~= waiting_on(s).add(outgoing_of(x)),
    decreases s.len(),
{
    let a = waiting_on(s.update(i, x)).add(outgoing_of(s[i]));
    let b = waiting_on(s).add(outgoing_of(x));
    if i == s.len() - 1 {
        assert(s.update(i, x).drop_last() =~= s.drop_last());
    } else {
        let front = s.drop_last();
        let last = outgoing_of(s.last());
        lemma_waiting_update(front, i, x);
        assert(s.update(i, x).drop_last() =~= front.update(i, x));
        assert(s.update(i, x).last() == s.last());
        assert(front[i] == s[i]);
        assert forall|m: Message<T>| #[trigger] a.count(m) == b.count(m) by {
            assert(waiting_on(front.update(i, x)).add(outgoing_of(s[i])).count(m) == waiting_on(
                front,
            ).add(outgoing_of(x)).count(m));
        }
    }
}

proof fn lemma_waiting_without<S, T>(s: Seq<SubstreamState<S, T>>, i: int)
    requires
        0 <= i < s.len(),
    ensures
        waiting_on(s) =~= waiting_on(swap_removed(s, i)).add(outgoing_of(s[i])),
{
    lemma_waiting_update(s, i, s.last());
    let moved = s.update(i, s.last());
    assert(waiting_on(moved) == waiting_on(moved.drop_last()).add(outgoing_of(moved.last())));
    let a = waiting_on(s);
    let b = waiting_on(swap_removed(s, i)).add(outgoing_of(s[i]));
    assert forall|m: Message<T>| #[trigger] a.count(m) == b.count(m) by {
        assert(a.add(outgoing_of(s.last())).count(m) == b.add(outgoing_of(s.last())).count(m));
    }
}

/// A pass gives no message away.
proof fn lemma_pass_holds<S, T>(h: HandlerView<S, T>, n: int, now: u64)
    requires
        0 <= n <= h.substreams.len(),
    ensures
        (Situation { handler: h.pass(n, now).0, step: h.pass(n, now).1 }).held() =~= waiting_in(h),
    decreases n,
{
    broadcast use vstd::seq_lib::group_to_multiset_ensures;

    if n > 0 {
        let rest = h.without(n - 1);
        let stream = h.substreams[n - 1];
        lemma_waiting_without(h.substreams, n - 1);
        lemma_waiting_push(rest.substreams, stream);
        match stream {
            SubstreamState::OutPendingOpen { msg, conn_id } => {
                lemma_waiting_push(rest.substreams, SubstreamState::AwaitingFirst { conn_id });
            },
            SubstreamState::AwaitingFirst { .. } => {
                lemma_pass_holds(rest.with(stream), n - 1, now);
            },
            SubstreamState::FreeStream { .. } => {
                if rest.pending.len() == 0 {
                    lemma_pass_holds(rest.with(stream), n - 1, now);
                } else {
                    assert(rest.pending =~= rest.pending.drop_last().push(rest.pending.last()));
                }
            },
            _ => {},
        }
    }
}

/// A message that was given to a handler stays with it until it is handed to a substream, or the
/// substream it was for fails, or it turns out to be one that stays within the node.
pub proof fn law_messages_are_kept<S, T>(situation: Situation<S, T>, input: HandlerInput<S, T>)
    requires
        situation.allows(input),
        situation.handler.admits(situation.step),
    ensures
        situation.next(input).held() == match input {
            HandlerInput::Event { msg } => situation.held().insert(msg),
            HandlerInput::SinkReady { answer, .. } => {
                let msg = situation.step->PollReady_1;
                if answer is Failed || (answer is Ready && msg is Internal) {
                    situation.held().remove(msg)
                } else {
                    situation.held()
                }
            },
            HandlerInput::Sent { .. } => situation.held().remove(situation.step->StartSend_1),
            _ => situation.held(),
        },
{
    broadcast use vstd::seq_lib::group_to_multiset_ensures;

    let h = situation.handler;
    let after = situation.next(input);
    match input {
        HandlerInput::NegotiatedOutbound { stream } => {
            let i = choose|i: int|
                0 <= i < h.substreams.len() && #[trigger] h.substreams[i] is AwaitingFirst;
            lemma_first_index_found(
                h.substreams,
                |s: SubstreamState<S, T>| s is AwaitingFirst,
                i,
            );
            let pos = h.first_awaiting() as int;
            lemma_waiting_without(h.substreams, pos);
            lemma_waiting_push(
                h.without(pos).substreams,
                SubstreamState::WaitingMsg {
                    conn_id: h.substreams[pos].id(),
                    substream: stream,
                },
            );
            assert(after.held() =~= situation.held());
        },
        HandlerInput::NegotiatedInbound { stream } => {
            lemma_waiting_push(
                h.substreams,
                SubstreamState::WaitingMsg {
                    conn_id: h.uniq_conn_id as usize,
                    substream: stream,
                },
            );
            assert(after.held() =~= situation.held());
        },
        HandlerInput::Event { msg } => {
            let pos = h.first_free() as int;
            if pos < h.substreams.len() {
                lemma_first_free(h);
                let free = h.substreams[pos];
                lemma_waiting_without(h.substreams, pos);
                lemma_waiting_push(
                    h.without(pos).substreams,
                    SubstreamState::PendingSend {
                        conn_id: free.id(),
                        substream: free->FreeStream_substream,
                        msg,
                    },
                );
            } else {
                lemma_waiting_push(
                    h.substreams,
                    SubstreamState::OutPendingOpen { msg, conn_id: h.uniq_conn_id as usize },
                );
            }
            assert(after.held() =~= situation.held().insert(msg));
        },
        HandlerInput::DialUpgradeError { error } => {
            lemma_waiting_push(
                h.substreams,
                SubstreamState::ReportError { conn_id: h.uniq_conn_id as usize, error },
            );
            assert(after.held() =~= situation.held());
        },
        HandlerInput::Poll { now } => {
            lemma_pass_holds(h, h.substreams.len() as int, now);
            assert(after.held() =~= situation.held());
        },
        HandlerInput::SinkReady { now, .. } => {
            let visit = situation.step->PollReady_0;
            let msg = situation.step->PollReady_1;
            lemma_waiting_push(h.substreams, visit.free());
            lemma_pass_holds(h, visit.index as int, now);
            lemma_pass_holds(h.with(visit.free()), visit.index as int, now);
            if h.pending.len() > 0 {
                assert(h.pending =~= h.pending.drop_last().push(h.pending.last()));
            }
            assert(situation.held().remove(msg) =~= waiting_in(h));
        },
        HandlerInput::Sent { .. } => {
            let msg = situation.step->StartSend_1;
            assert(situation.held().remove(msg) =~= waiting_in(h));
        },
        HandlerInput::Flushed { now, .. } => {
            let visit = situation.step->PollFlush_0;
            lemma_waiting_push(h.substreams, visit.flushing());
            lemma_pass_holds(h.with(visit.flushing()), visit.index as int, now);
            assert(after.held() =~= situation.held());
        },
        HandlerInput::Received { now, .. } => {
            let visit = situation.step->PollNext_0;
            lemma_waiting_push(h.substreams, visit.free());
            lemma_waiting_push(h.substreams, visit.waiting());
            lemma_pass_holds(h.with(visit.waiting()), visit.index as int, now);
            assert(after.held() =~= situation.held());
        },
    }
}

impl<S, T> Situation<S, T> {
    /// The message that leaves the handler with `input`: it is handed to a substream, or its
    /// substream fails, or it stays within the node.
    pub open spec fn released(self, input: HandlerInput<S, T>) -> Multiset<Message<T>> {
        match input {
            HandlerInput::SinkReady { answer, .. } => {
                let msg = self.step->PollReady_1;
                if answer is Failed || (answer is Ready && msg is Internal) {
                    Multiset::singleton(msg)
                } else {
                    Multiset::empty()
                }
            },
            HandlerInput::Sent { .. } => Multiset::singleton(self.step->StartSend_1),
            _ => Multiset::empty(),
        }
    }

    /// The messages that leave the handler with `inputs`.
    pub open spec fn released_by(self, inputs: Seq<HandlerInput<S, T>>) -> Multiset<Message<T>>
        decreases inputs.len(),
    {
        if inputs.len() == 0 {
            Multiset::empty()
        } else {
            self.released(inputs[0]).add(
                self.next(inputs[0]).released_by(inputs.drop_first()),
            )
        }
    }
}

/// The messages that the handler is given with `inputs`.
pub open spec fn given_by<S, T>(inputs: Seq<HandlerInput<S, T>>) -> Multiset<Message<T>>
    decreases inputs.len(),
{
    if inputs.len() == 0 {
        Multiset::empty()
    } else {
        let later = given_by(inputs.drop_first());
        match inputs[0] {
            HandlerInput::Event { msg } => later.insert(msg),
            _ => later,
        }
    }
}

proof fn lemma_ledger<S, T>(situation: Situation<S, T>, inputs: Seq<HandlerInput<S, T>>)
    requires
        situation.handler.admits(situation.step),
        situation.allows_all(inputs),
    ensures
        situation.run(inputs).held().add(situation.released_by(inputs)) =~= situation.held().add(
            given_by(inputs),
        ),
    decreases inputs.len(),
{
    if inputs.len() > 0 {
        let input = inputs[0];
        let next = situation.next(input);
        let tail = inputs.drop_first();
        law_messages_are_kept(situation, input);
        law_steps_stay_admitted(situation, input);
        lemma_ledger(next, tail);
        let a = situation.run(inputs).held().add(situation.released_by(inputs));
        let b = situation.held().add(given_by(inputs));
        assert forall|m: Message<T>| #[trigger] a.count(m) == b.count(m) by {
            assert(next.run(tail).held().add(next.released_by(tail)).count(m) == next.held().add(
                given_by(tail),
            ).count(m));
        }
    }
}

/// However long a handler lives, no message is lost and none is doubled: what it was given is what
/// it holds and what has left it.
pub proof fn law_messages_balance<S, T>(
    now: u64,
    peer_timeout: u64,
    inputs: Seq<HandlerInput<S, T>>,
)
    requires
        Situation::fresh(now, peer_timeout).allows_all(inputs),
    ensures
        ({
            let fresh = Situation::fresh(now, peer_timeout);
            fresh.run(inputs).held().add(fresh.released_by(inputs)) == given_by(inputs)
        }),
{
    broadcast use vstd::seq_lib::group_to_multiset_ensures;

    let fresh = Situation::<S, T>::fresh(now, peer_timeout);
    lemma_ledger(fresh, inputs);
    assert(fresh.handler.pending.to_multiset().len() == 0);
    assert(fresh.held() =~= Multiset::empty());
    assert(fresh.held().add(given_by(inputs)) =~= given_by(inputs));
}

/// Where some substream is free, the first one is.
proof fn lemma_first_free<S, T>(h: HandlerView<S, T>)
    requires
        h.first_free() < h.substreams.len(),
    ensures
        h.substreams[h.first_free() as int] is FreeStream,
{
    lemma_first_index_holds(h.substreams, |s: SubstreamState<S, T>| s is FreeStream);
}

/// A pass asks for work only on substreams below those it has left behind.
proof fn lemma_pass_descends<S, T>(h: HandlerView<S, T>, n: int, now: u64)
    requires
        0 <= n <= h.substreams.len(),
        n <= usize::MAX,
    ensures
        h.pass(n, now).1.visit() matches Some(visit) ==> visit.index < n,
    decreases n,
{
    if n > 0 {
        let rest = h.without(n - 1);
        let stream = h.substreams[n - 1];
        match stream {
            SubstreamState::AwaitingFirst { .. } => {
                lemma_pass_descends(rest.with(stream), n - 1, now);
            },
            SubstreamState::FreeStream { .. } => {
                if rest.pending.len() == 0 {
                    lemma_pass_descends(rest.with(stream), n - 1, now);
                }
            },
            _ => {},
        }
    }
}

/// One poll visits no substream twice: an answer leads on with the same visit, or to one that
/// leaves fewer substreams to visit.
pub proof fn law_visits_descend<S, T>(situation: Situation<S, T>, input: HandlerInput<S, T>)
    requires
        situation.allows(input),
        situation.handler.admits(situation.step),
    ensures
        match (situation.step.visit(), situation.next(input).step.visit()) {
            (Some(before), Some(after)) => after == before || after.index < before.index,
            (None, Some(after)) => after.index < situation.handler.substreams.len(),
            (_, None) => true,
        },
{
    let h = situation.handler;
    match input {
        HandlerInput::Poll { now } => {
            lemma_pass_descends(h, h.substreams.len() as int, now);
        },
        HandlerInput::SinkReady { now, .. } => {
            let visit = situation.step->PollReady_0;
            lemma_pass_descends(h, visit.index as int, now);
            lemma_pass_descends(h.with(visit.free()), visit.index as int, now);
        },
        HandlerInput::Flushed { now, .. } => {
            let visit = situation.step->PollFlush_0;
            lemma_pass_descends(h.with(visit.flushing()), visit.index as int, now);
        },
        HandlerInput::Received { now, .. } => {
            let visit = situation.step->PollNext_0;
            lemma_pass_descends(h.with(visit.waiting()), visit.index as int, now);
        },
        _ => {},
    }
}

/// A pass that has nothing to ask for and nothing to report loses no substream and no message.
pub proof fn law_idle_pass_keeps_everything<S, T>(h: HandlerView<S, T>, n: int, now: u64)
    requires
        0 <= n <= h.substreams.len(),
        h.pass(n, now).1 is Pending,
    ensures
        h.pass(n, now).0.substreams.to_multiset() == h.substreams.to_multiset(),
        h.pass(n, now).0.pending == h.pending,
        h.pass(n, now).0.protocol_status == h.protocol_status,
        h.pass(n, now).0.uniq_conn_id == h.uniq_conn_id,
    decreases n,
{
    broadcast use vstd::seq_lib::group_to_multiset_ensures;

    if n > 0 {
        let stream = h.substreams[n - 1];
        lemma_swap_removed(h.substreams, n - 1);
        law_idle_pass_keeps_everything(h.without(n - 1).with(stream), n - 1, now);
    }
}

/// A pass keeps the protocol status and the next number, and reports nothing but failures and
/// substreams to open.
proof fn lemma_pass_reports<S, T>(h: HandlerView<S, T>, n: int, now: u64)
    requires
        0 <= n <= h.substreams.len(),
    ensures
        h.pass(n, now).0.protocol_status == h.protocol_status,
        h.pass(n, now).0.uniq_conn_id == h.uniq_conn_id,
        h.pass(n, now).1 matches PollStep::Ready(HandlerEvent::Custom(msg)) ==> (msg matches Message::Internal(action)
            && action is Error),
    decreases n,
{
    if n > 0 {
        let rest = h.without(n - 1);
        let stream = h.substreams[n - 1];
        match stream {
            SubstreamState::AwaitingFirst { .. } => {
                lemma_pass_reports(rest.with(stream), n - 1, now);
            },
            SubstreamState::FreeStream { .. } => {
                if rest.pending.len() == 0 {
                    lemma_pass_reports(rest.with(stream), n - 1, now);
                }
            },
            _ => {},
        }
    }
}

/// What becomes of the protocol status: the first substream of the remote confirms it, the next
/// poll reports that, and a failure to open a substream ends it for good. A status that was reported
/// is not confirmed again, and one that has failed stays as it is.
pub proof fn law_confirmation_is_reported_once<S, T>(
    situation: Situation<S, T>,
    input: HandlerInput<S, T>,
)
    requires
        situation.allows(input),
        situation.handler.admits(situation.step),
    ensures
        situation.next(input).handler.protocol_status == match input {
            HandlerInput::NegotiatedInbound { .. } => if situation.handler.protocol_status
                is Unconfirmed {
                ProtocolStatus::Confirmed
            } else {
                situation.handler.protocol_status
            },
            HandlerInput::DialUpgradeError { .. } => ProtocolStatus::FailedUpgrade,
            HandlerInput::Poll { .. } => if situation.handler.protocol_status is Confirmed
                && situation.handler.substreams.len() > 0 {
                ProtocolStatus::Reported
            } else {
                situation.handler.protocol_status
            },
            _ => situation.handler.protocol_status,
        },
        situation.handler.protocol_status is FailedUpgrade ==> situation.next(
            input,
        ).handler.protocol_status is FailedUpgrade,
        situation.handler.protocol_status is Reported ==> !(situation.next(
            input,
        ).handler.protocol_status is Confirmed),
        situation.confirms(input) <==> input is Poll
            && situation.handler.protocol_status is Confirmed
            && situation.handler.substreams.len() > 0,
        !(input is Poll) && !(input is Received) ==> situation.next(input).step != PollStep::<
            S,
            T,
        >::Ready(HandlerEvent::Custom(Message::Internal(NodeActions::ConfirmedInbound))),
{
    let h = situation.handler;
    match input {
        HandlerInput::Poll { now } => {
            lemma_pass_reports(h, h.substreams.len() as int, now);
        },
        HandlerInput::SinkReady { now, .. } => {
            let visit = situation.step->PollReady_0;
            lemma_pass_reports(h, visit.index as int, now);
            lemma_pass_reports(h.with(visit.free()), visit.index as int, now);
        },
        HandlerInput::Flushed { now, .. } => {
            let visit = situation.step->PollFlush_0;
            lemma_pass_reports(h.with(visit.flushing()), visit.index as int, now);
        },
        HandlerInput::Received { now, .. } => {
            let visit = situation.step->PollNext_0;
            lemma_pass_reports(h.with(visit.waiting()), visit.index as int, now);
        },
        _ => {},
    }
}

impl<S, T> Situation<S, T> {
    /// Whether `input` is a poll that reports a substream of the remote.
    pub open spec fn confirms(self, input: HandlerInput<S, T>) -> bool {
        input is Poll && self.next(input).step == PollStep::<S, T>::Ready(
            HandlerEvent::Custom(Message::Internal(NodeActions::ConfirmedInbound)),
        )
    }

    /// How many of the polls among `inputs` report a substream of the remote.
    pub open spec fn confirmations(self, inputs: Seq<HandlerInput<S, T>>) -> nat
        decreases inputs.len(),
    {
        if inputs.len() == 0 {
            0
        } else {
            let later = self.next(inputs[0]).confirmations(inputs.drop_first());
            if self.confirms(inputs[0]) {
                later + 1
            } else {
                later
            }
        }
    }
}

proof fn lemma_confirmations<S, T>(situation: Situation<S, T>, inputs: Seq<HandlerInput<S, T>>)
    requires
        situation.handler.admits(situation.step),
        situation.allows_all(inputs),
    ensures
        situation.confirmations(inputs) <= 1,
        situation.handler.protocol_status is Reported
            || situation.handler.protocol_status is FailedUpgrade ==> situation.confirmations(
            inputs,
        ) == 0,
    decreases inputs.len(),
{
    if inputs.len() > 0 {
        law_confirmation_is_reported_once(situation, inputs[0]);
        law_steps_stay_admitted(situation, inputs[0]);
        lemma_confirmations(situation.next(inputs[0]), inputs.drop_first());
    }
}

/// However long a handler lives, it reports at most once that the remote has opened a substream.
pub proof fn law_confirmed_at_most_once<S, T>(
    now: u64,
    peer_timeout: u64,
    inputs: Seq<HandlerInput<S, T>>,
)
    requires
        Situation::fresh(now, peer_timeout).allows_all(inputs),
    ensures
        Situation::fresh(now, peer_timeout).confirmations(inputs) <= 1,
{
    lemma_confirmations(Situation::fresh(now, peer_timeout), inputs);
}

/// The next number grows by one with each substream that is new to the handler, and does not change
/// otherwise.
pub proof fn law_new_substream_takes_a_number<S, T>(
    situation: Situation<S, T>,
    input: HandlerInput<S, T>,
)
    requires
        situation.allows(input),
        situation.handler.admits(situation.step),
    ensures
        situation.next(input).handler.uniq_conn_id == situation.handler.uniq_conn_id + match input {
            HandlerInput::NegotiatedInbound { .. } => if situation.handler.expects_message() {
                0int
            } else {
                1
            },
            HandlerInput::Event { .. } => if situation.handler.first_free()
                < situation.handler.substreams.len() {
                0
            } else {
                1
            },
            HandlerInput::DialUpgradeError { .. } => 1,
            _ => 0,
        },
{
    let h = situation.handler;
    match input {
        HandlerInput::Poll { now } => {
            lemma_pass_reports(h, h.substreams.len() as int, now);
        },
        HandlerInput::SinkReady { now, .. } => {
            let visit = situation.step->PollReady_0;
            lemma_pass_reports(h, visit.index as int, now);
            lemma_pass_reports(h.with(visit.free()), visit.index as int, now);
        },
        HandlerInput::Flushed { now, .. } => {
            let visit = situation.step->PollFlush_0;
            lemma_pass_reports(h.with(visit.flushing()), visit.index as int, now);
        },
        HandlerInput::Received { now, .. } => {
            let visit = situation.step->PollNext_0;
            lemma_pass_reports(h.with(visit.waiting()), visit.index as int, now);
        },
        _ => {},
    }
}

/// However long a handler lives, the next number never decreases.
pub proof fn law_next_number_never_decreases<S, T>(
    situation: Situation<S, T>,
    inputs: Seq<HandlerInput<S, T>>,
)
    requires
        situation.handler.admits(situation.step),
        situation.allows_all(inputs),
    ensures
        situation.run(inputs).handler.uniq_conn_id >= situation.handler.uniq_conn_id,
    decreases inputs.len(),
{
    if inputs.len() > 0 {
        law_new_substream_takes_a_number(situation, inputs[0]);
        law_steps_stay_admitted(situation, inputs[0]);
        law_next_number_never_decreases(situation.next(inputs[0]), inputs.drop_first());
    }
}

/// A protocol status that has failed stays so, however long the handler lives.
pub proof fn law_failed_upgrade_lasts<S, T>(
    situation: Situation<S, T>,
    inputs: Seq<HandlerInput<S, T>>,
)
    requires
        situation.handler.admits(situation.step),
        situation.allows_all(inputs),
        situation.handler.protocol_status is FailedUpgrade,
    ensures
        situation.run(inputs).handler.protocol_status is FailedUpgrade,
    decreases inputs.len(),
{
    if inputs.len() > 0 {
        law_confirmation_is_reported_once(situation, inputs[0]);
        law_steps_stay_admitted(situation, inputs[0]);
        law_failed_upgrade_lasts(situation.next(inputs[0]), inputs.drop_first());
    }
}

/// Without a substream of the remote, and without a failure to open one, the status stays
/// unconfirmed and nothing is reported of it.
proof fn lemma_stays_unconfirmed<S, T>(situation: Situation<S, T>, inputs: Seq<HandlerInput<S, T>>)
    requires
        situation.handler.admits(situation.step),
        situation.allows_all(inputs),
        situation.handler.protocol_status is Unconfirmed,
        forall|i: int|
            0 <= i < inputs.len() ==> !(#[trigger] inputs[i] is NegotiatedInbound) && !(
            inputs[i] is DialUpgradeError),
    ensures
        situation.run(inputs).handler.admits(situation.run(inputs).step),
        situation.run(inputs).handler.protocol_status is Unconfirmed,
        situation.confirmations(inputs) == 0,
    decreases inputs.len(),
{
    if inputs.len() > 0 {
        let later = inputs.drop_first();
        assert(!(inputs[0] is NegotiatedInbound) && !(inputs[0] is DialUpgradeError));
        assert forall|i: int| 0 <= i < later.len() implies !(
        #[trigger] later[i] is NegotiatedInbound) && !(later[i] is DialUpgradeError) by {
            assert(later[i] == inputs[i + 1]);
        }
        law_confirmation_is_reported_once(situation, inputs[0]);
        law_steps_stay_admitted(situation, inputs[0]);
        lemma_stays_unconfirmed(situation.next(inputs[0]), later);
    }
}

/// A confirmation that the next poll has to report is not lost before that poll.
proof fn lemma_stays_confirmed<S, T>(situation: Situation<S, T>, inputs: Seq<HandlerInput<S, T>>)
    requires
        situation.step is Pending,
        situation.allows_all(inputs),
        situation.handler.protocol_status is Confirmed,
        situation.handler.substreams.len() > 0,
        forall|i: int|
            0 <= i < inputs.len() ==> !(#[trigger] inputs[i] is Poll) && !(
            inputs[i] is DialUpgradeError),
    ensures
        situation.run(inputs).step is Pending,
        situation.run(inputs).handler.protocol_status is Confirmed,
        situation.run(inputs).handler.substreams.len() > 0,
        situation.confirmations(inputs) == 0,
    decreases inputs.len(),
{
    if inputs.len() > 0 {
        let later = inputs.drop_first();
        assert(!(inputs[0] is Poll) && !(inputs[0] is DialUpgradeError));
        assert forall|i: int| 0 <= i < later.len() implies !(#[trigger] later[i] is Poll) && !(
        later[i] is DialUpgradeError) by {
            assert(later[i] == inputs[i + 1]);
        }
        lemma_stays_confirmed(situation.next(inputs[0]), later);
    }
}

proof fn lemma_stays_reported<S, T>(situation: Situation<S, T>, inputs: Seq<HandlerInput<S, T>>)
    requires
        situation.handler.admits(situation.step),
        situation.allows_all(inputs),
        situation.handler.protocol_status is Reported
            || situation.handler.protocol_status is FailedUpgrade,
    ensures
        situation.confirmations(inputs) == 0,
        !(situation.run(inputs).handler.protocol_status is Confirmed),
    decreases inputs.len(),
{
    if inputs.len() > 0 {
        law_confirmation_is_reported_once(situation, inputs[0]);
        law_steps_stay_admitted(situation, inputs[0]);
        lemma_stays_reported(situation.next(inputs[0]), inputs.drop_first());
    }
}

/// The first substream that the remote opens, on a handler that has not failed to open one itself,
/// is reported exactly once. It confirms the protocol; whatever happens before the next poll, that
/// poll reports it; and from then on the protocol is never confirmed, nor reported, again.
pub proof fn law_first_inbound_is_reported_exactly_once<S, T>(
    now: u64,
    peer_timeout: u64,
    before: Seq<HandlerInput<S, T>>,
    stream: S,
    between: Seq<HandlerInput<S, T>>,
    poll_at: u64,
    after: Seq<HandlerInput<S, T>>,
)
    requires
        forall|i: int|
            0 <= i < before.len() ==> !(#[trigger] before[i] is NegotiatedInbound) && !(
            before[i] is DialUpgradeError),
        forall|i: int|
            0 <= i < between.len() ==> !(#[trigger] between[i] is Poll) && !(
            between[i] is DialUpgradeError),
        ({
            let fresh = Situation::<S, T>::fresh(now, peer_timeout);
            let inbound = HandlerInput::NegotiatedInbound { stream };
            let poll = HandlerInput::Poll { now: poll_at };
            let opened = fresh.run(before).next(inbound);
            &&& fresh.allows_all(before)
            &&& fresh.run(before).allows(inbound)
            &&& opened.allows_all(between)
            &&& opened.run(between).allows(poll)
            &&& opened.run(between).next(poll).allows_all(after)
        }),
    ensures
        ({
            let fresh = Situation::<S, T>::fresh(now, peer_timeout);
            let opened = fresh.run(before).next(HandlerInput::NegotiatedInbound { stream });
            let polled = opened.run(between).next(HandlerInput::Poll { now: poll_at });
            &&& fresh.confirmations(before) == 0
            &&& opened.handler.protocol_status is Confirmed
            &&& opened.handler.substreams.len() > 0
            &&& opened.confirmations(between) == 0
            &&& polled.step == PollStep::<S, T>::Ready(
                HandlerEvent::Custom(Message::Internal(NodeActions::ConfirmedInbound)),
            )
            &&& polled.handler.protocol_status is Reported
            &&& polled.confirmations(after) == 0
            &&& !(polled.run(after).handler.protocol_status is Confirmed)
        }),
{
    let fresh = Situation::<S, T>::fresh(now, peer_timeout);
    let opened = fresh.run(before).next(HandlerInput::NegotiatedInbound { stream });
    let polled = opened.run(between).next(HandlerInput::Poll { now: poll_at });
    lemma_stays_unconfirmed(fresh, before);
    lemma_stays_confirmed(opened, between);
    lemma_stays_reported(polled, after);
}

/// How many of the substreams were requested and are not open yet.
pub open spec fn awaiting_on<S, T>(substreams: Seq<SubstreamState<S, T>>) -> nat
    decreases substreams.len(),
{
    if substreams.len() == 0 {
        0
    } else {
        awaiting_on(substreams.drop_last()) + if substreams.last() is AwaitingFirst {
            1nat
        } else {
            0
        }
    }
}

proof fn lemma_awaiting_push<S, T>(s: Seq<SubstreamState<S, T>>, x: SubstreamState<S, T>)
    ensures
        awaiting_on(s.push(x)) == awaiting_on(s) + if x is AwaitingFirst {
            1nat
        } else {
            0
        },
{
    assert(s.push(x).drop_last() =~= s);
}

proof fn lemma_awaiting_update<S, T>(
    s: Seq<SubstreamState<S, T>>,
    i: int,
    x: SubstreamState<S, T>,
)
    requires
        0 <= i < s.len(),
    ensures
        awaiting_on(s.update(i, x)) + (if s[i] is AwaitingFirst {
            1nat
        } else {
            0
        }) == awaiting_on(s) + (if x is AwaitingFirst {
            1nat
        } else {
            0
        }),
    decreases s.len(),
{
    if i == s.len() - 1 {
        assert(s.update(i, x).drop_last() =~= s.drop_last());
    } else {
        lemma_awaiting_update(s.drop_last(), i, x);
        assert(s.update(i, x).drop_last() =~= s.drop_last().update(i, x));
    }
}

proof fn lemma_awaiting_without<S, T>(s: Seq<SubstreamState<S, T>>, i: int)
    requires
        0 <= i < s.len(),
    ensures
        awaiting_on(s) == awaiting_on(swap_removed(s, i)) + if s[i] is AwaitingFirst {
            1nat
        } else {
            0
        },
{
    lemma_awaiting_update(s, i, s.last());
}

/// Where requested substreams are counted, there is one.
proof fn lemma_awaiting_found<S, T>(s: Seq<SubstreamState<S, T>>)
    requires
        awaiting_on(s) > 0,
    ensures
        exists|i: int| 0 <= i < s.len() && #[trigger] s[i] is AwaitingFirst,
    decreases s.len(),
{
    if s.last() is AwaitingFirst {
        assert(s[s.len() - 1] is AwaitingFirst);
    } else {
        let front = s.drop_last();
        lemma_awaiting_found(front);
        let i = choose|i: int| 0 <= i < front.len() && #[trigger] front[i] is AwaitingFirst;
        assert(s[i] is AwaitingFirst);
    }
}

/// Whether `step` asks for a substream to be opened.
pub open spec fn asks_for_substream<S, T>(step: PollStep<S, T>) -> bool {
    step matches PollStep::Ready(event) && event is OutboundSubstreamRequest
}

proof fn lemma_pass_awaiting<S, T>(h: HandlerView<S, T>, n: int, now: u64)
    requires
        0 <= n <= h.substreams.len(),
    ensures
        awaiting_on(h.pass(n, now).0.substreams) == awaiting_on(h.substreams)
            + if asks_for_substream(h.pass(n, now).1) {
            1nat
        } else {
            0
        },
    decreases n,
{
    if n > 0 {
        let rest = h.without(n - 1);
        let stream = h.substreams[n - 1];
        lemma_awaiting_without(h.substreams, n - 1);
        lemma_awaiting_push(rest.substreams, stream);
        match stream {
            SubstreamState::OutPendingOpen { conn_id, .. } => {
                lemma_awaiting_push(rest.substreams, SubstreamState::AwaitingFirst { conn_id });
            },
            SubstreamState::AwaitingFirst { .. } => {
                lemma_pass_awaiting(rest.with(stream), n - 1, now);
            },
            SubstreamState::FreeStream { .. } => {
                if rest.pending.len() == 0 {
                    lemma_pass_awaiting(rest.with(stream), n - 1, now);
                }
            },
            _ => {},
        }
    }
}

/// One more substream is awaited when the handler asks for one, one less when one is negotiated, and
/// as many as before otherwise.
pub proof fn law_requests_are_awaited<S, T>(situation: Situation<S, T>, input: HandlerInput<S, T>)
    requires
        situation.allows(input),
        situation.handler.admits(situation.step),
    ensures
        awaiting_on(situation.next(input).handler.substreams) == awaiting_on(
            situation.handler.substreams,
        ) + (if asks_for_substream(situation.next(input).step) {
            1int
        } else {
            0
        }) - (if input is NegotiatedOutbound {
            1int
        } else {
            0
        }),
{
    let h = situation.handler;
    match input {
        HandlerInput::NegotiatedOutbound { stream } => {
            let i = choose|i: int|
                0 <= i < h.substreams.len() && #[trigger] h.substreams[i] is AwaitingFirst;
            lemma_first_index_found(
                h.substreams,
                |s: SubstreamState<S, T>| s is AwaitingFirst,
                i,
            );
            let pos = h.first_awaiting() as int;
            lemma_awaiting_without(h.substreams, pos);
            lemma_awaiting_push(
                h.without(pos).substreams,
                SubstreamState::WaitingMsg {
                    conn_id: h.substreams[pos].id(),
                    substream: stream,
                },
            );
        },
        HandlerInput::NegotiatedInbound { stream } => {
            lemma_awaiting_push(
                h.substreams,
                SubstreamState::WaitingMsg {
                    conn_id: h.uniq_conn_id as usize,
                    substream: stream,
                },
            );
        },
        HandlerInput::Event { msg } => {
            let pos = h.first_free() as int;
            if pos < h.substreams.len() {
                lemma_first_free(h);
                let free = h.substreams[pos];
                lemma_awaiting_without(h.substreams, pos);
                lemma_awaiting_push(
                    h.without(pos).substreams,
                    SubstreamState::PendingSend {
                        conn_id: free.id(),
                        substream: free->FreeStream_substream,
                        msg,
                    },
                );
            } else {
                lemma_awaiting_push(
                    h.substreams,
                    SubstreamState::OutPendingOpen { msg, conn_id: h.uniq_conn_id as usize },
                );
            }
        },
        HandlerInput::DialUpgradeError { error } => {
            lemma_awaiting_push(
                h.substreams,
                SubstreamState::ReportError { conn_id: h.uniq_conn_id as usize, error },
            );
        },
        HandlerInput::Poll { now } => {
            lemma_pass_awaiting(h, h.substreams.len() as int, now);
        },
        HandlerInput::SinkReady { now, .. } => {
            let visit = situation.step->PollReady_0;
            lemma_awaiting_push(h.substreams, visit.free());
            lemma_pass_awaiting(h, visit.index as int, now);
            lemma_pass_awaiting(h.with(visit.free()), visit.index as int, now);
        },
        HandlerInput::Sent { .. } => {},
        HandlerInput::Flushed { now, .. } => {
            let visit = situation.step->PollFlush_0;
            lemma_awaiting_push(h.substreams, visit.flushing());
            lemma_pass_awaiting(h.with(visit.flushing()), visit.index as int, now);
        },
        HandlerInput::Received { now, .. } => {
            let visit = situation.step->PollNext_0;
            lemma_awaiting_push(h.substreams, visit.free());
            lemma_awaiting_push(h.substreams, visit.waiting());
            lemma_pass_awaiting(h.with(visit.waiting()), visit.index as int, now);
        },
    }
}

impl<S, T> Situation<S, T> {
    /// How many of `inputs` make the handler ask for a substream.
    pub open spec fn requests(self, inputs: Seq<HandlerInput<S, T>>) -> nat
        decreases inputs.len(),
    {
        if inputs.len() == 0 {
            0
        } else {
            let next = self.next(inputs[0]);
            let later = next.requests(inputs.drop_first());
            if asks_for_substream(next.step) {
                later + 1
            } else {
                later
            }
        }
    }
}

/// How many of `inputs` tell of a requested substream that is open.
pub open spec fn openings<S, T>(inputs: Seq<HandlerInput<S, T>>) -> nat
    decreases inputs.len(),
{
    if inputs.len() == 0 {
        0
    } else {
        openings(inputs.drop_first()) + if inputs[0] is NegotiatedOutbound {
            1nat
        } else {
            0
        }
    }
}

proof fn lemma_requests<S, T>(situation: Situation<S, T>, inputs: Seq<HandlerInput<S, T>>)
    requires
        situation.handler.admits(situation.step),
        situation.allows_all(inputs),
    ensures
        awaiting_on(situation.run(inputs).handler.substreams) == awaiting_on(
            situation.handler.substreams,
        ) + situation.requests(inputs) - openings(inputs),
    decreases inputs.len(),
{
    if inputs.len() > 0 {
        law_requests_are_awaited(situation, inputs[0]);
        law_steps_stay_admitted(situation, inputs[0]);
        lemma_requests(situation.next(inputs[0]), inputs.drop_first());
    }
}

/// However long a handler lives, as many substreams are awaited as it has asked for and were not
/// opened yet. So between polls, a handler that has asked for more substreams than were opened can
/// take the next one.
pub proof fn law_requests_balance<S, T>(
    now: u64,
    peer_timeout: u64,
    inputs: Seq<HandlerInput<S, T>>,
    stream: S,
)
    requires
        Situation::fresh(now, peer_timeout).allows_all(inputs),
    ensures
        ({
            let fresh = Situation::<S, T>::fresh(now, peer_timeout);
            let reached = fresh.run(inputs);
            &&& awaiting_on(reached.handler.substreams) == fresh.requests(inputs) - openings(inputs)
            &&& reached.step.visit() is None ==> (reached.allows(
                HandlerInput::NegotiatedOutbound { stream },
            ) <==> openings(inputs) < fresh.requests(inputs))
        }),
{
    let fresh = Situation::<S, T>::fresh(now, peer_timeout);
    let reached = fresh.run(inputs);
    lemma_requests(fresh, inputs);
    let s = reached.handler.substreams;
    if awaiting_on(s) > 0 {
        lemma_awaiting_found(s);
    }
    if exists|i: int| 0 <= i < s.len() && #[trigger] s[i] is AwaitingFirst {
        let i = choose|i: int| 0 <= i < s.len() && #[trigger] s[i] is AwaitingFirst;
        lemma_awaiting_without(s, i);
    }
}

/// A failure to open a substream is what the next poll reports, and nothing else comes of it.
pub proof fn law_upgrade_error_is_reported<S, T>(
    h: HandlerView<S, T>,
    error: ConnectionError,
    now: u64,
)
    ensures
        ({
            let (after, step) = h.dial_upgrade_failed(error).poll(now);
            &&& step == PollStep::<S, T>::Ready(HandlerEvent::Custom(Message::failure(error)))
            &&& after.substreams == h.substreams
            &&& after.pending == h.pending
        }),
{
    let failed = h.dial_upgrade_failed(error);
    assert(failed.without(failed.substreams.len() - 1).substreams =~= h.substreams);
}

/// A message that finds a free substream is what the next poll tries to send on it, once the
/// remote's confirmation is out of the way.
pub proof fn law_free_substream_is_used_at_once<S, T>(h: HandlerView<S, T>, msg: Message<T>, now: u64)
    requires
        h.first_free() < h.substreams.len() <= usize::MAX,
        !(h.protocol_status is Confirmed),
    ensures
        ({
            let free = h.substreams[h.first_free() as int];
            let (after, step) = h.inject_event(msg).poll(now);
            &&& free is FreeStream
            &&& step matches PollStep::PollReady(visit, m)
            &&& m == msg
            &&& visit.conn_id == free.id()
            &&& visit.substream == free->FreeStream_substream
            &&& after.substreams == h.without(h.first_free() as int).substreams
            &&& after.uniq_conn_id == h.uniq_conn_id
        }),
{
    lemma_first_free(h);
    let given = h.inject_event(msg);
    assert(given.without(given.substreams.len() - 1).substreams =~= h.without(
        h.first_free() as int,
    ).substreams);
}

/// A message that finds no free substream makes the next poll ask for a new one, once the
/// remote's confirmation is out of the way. The message waits, and the new substream is expected
/// under a number of its own.
pub proof fn law_request_opens_substream<S, T>(h: HandlerView<S, T>, msg: Message<T>, now: u64)
    requires
        h.first_free() >= h.substreams.len(),
        h.uniq_conn_id < usize::MAX,
        !(h.protocol_status is Confirmed),
    ensures
        ({
            let (after, step) = h.inject_event(msg).poll(now);
            &&& step == PollStep::<S, T>::Ready(HandlerEvent::OutboundSubstreamRequest)
            &&& after.pending == h.pending.push(msg)
            &&& after.substreams == h.substreams.push(
                SubstreamState::AwaitingFirst { conn_id: h.uniq_conn_id as usize },
            )
            &&& after.uniq_conn_id == h.uniq_conn_id + 1
        }),
{
    let given = h.inject_event(msg);
    assert(given.without(given.substreams.len() - 1).substreams =~= h.substreams);
}

} // verus!
