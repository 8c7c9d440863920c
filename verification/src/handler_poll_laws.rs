//! What holds at the end of a whole poll of a handler.

use vstd::multiset::Multiset;
use vstd::prelude::*;

use crate::handler::{KeepAlive, PollStep, SinkPoll};
use crate::handler_laws::{law_steps_stay_admitted, HandlerInput, Situation};
use crate::handler_state::HandlerView;
use crate::message::Message;
use crate::seq_ops::{
    lemma_first_index_found, lemma_first_index_holds, lemma_swap_removed, swap_removed,
};
use crate::substream::{SubstreamState, UniqConnId};

verus! {

impl<S, T> HandlerInput<S, T> {
    /// Whether this is the answer to something that a poll has asked for.
    pub open spec fn is_answer(self) -> bool {
        self is SinkReady || self is Sent || self is Flushed || self is Received
    }

    /// When this happens, where the handler is told.
    pub open spec fn time(self) -> Option<u64> {
        match self {
            HandlerInput::Poll { now } => Some(now),
            HandlerInput::SinkReady { now, .. } => Some(now),
            HandlerInput::Flushed { now, .. } => Some(now),
            HandlerInput::Received { now, .. } => Some(now),
            _ => None,
        }
    }
}

/// Whether a poll has nothing left to do on `stream` for now: it waits for the remote or for the
/// network, or is free.
pub open spec fn settled<S, T>(stream: SubstreamState<S, T>) -> bool {
    ||| stream is AwaitingFirst
    ||| stream is FreeStream
    ||| stream is PendingFlush
    ||| stream is WaitingMsg
}

/// Whether the substreams from `n` on are settled, and none of them is free while a message is
/// pending.
pub open spec fn settled_from<S, T>(h: HandlerView<S, T>, n: int) -> bool {
    &&& forall|i: int| n <= i < h.substreams.len() ==> settled(#[trigger] h.substreams[i])
    &&& forall|i: int|
        n <= i < h.substreams.len() && #[trigger] h.substreams[i] is FreeStream ==> h.pending.len()
            == 0
}

/// How many substreams are awaited under the number `id`.
pub open spec fn awaited_as<S, T>(h: HandlerView<S, T>, id: UniqConnId) -> nat {
    h.substreams.to_multiset().count(SubstreamState::AwaitingFirst { conn_id: id })
}

/// The numbers of the substreams.
pub open spec fn numbers_of<S, T>(substreams: Seq<SubstreamState<S, T>>) -> Multiset<UniqConnId> {
    substreams.map_values(|s: SubstreamState<S, T>| s.id()).to_multiset()
}

impl<S, T> Situation<S, T> {
    /// The numbers of the substreams, the one that is out for a visit among them.
    pub open spec fn numbers(self) -> Multiset<UniqConnId> {
        match self.step.visit() {
            Some(visit) => numbers_of(self.handler.substreams).insert(visit.conn_id),
            None => numbers_of(self.handler.substreams),
        }
    }

    /// Whether the substreams that the poll has passed are settled.
    pub open spec fn passed_settled(self) -> bool {
        match self.step.visit() {
            Some(visit) => settled_from(self.handler, visit.index as int),
            None => settled_from(self.handler, 0),
        }
    }

    /// The number of the substream that is given up with `input` while the poll goes on: the one
    /// that was found ready for a message that stays within the node, and is not a confirmation.
    pub open spec fn given_up(self, input: HandlerInput<S, T>) -> Multiset<UniqConnId> {
        if input matches HandlerInput::SinkReady { answer: SinkPoll::Ready, .. }
            && self.step matches PollStep::PollReady(visit, Message::Internal(action)) && !(
        action is ConfirmedInbound) {
            Multiset::singleton(self.step->PollReady_0.conn_id)
        } else {
            Multiset::empty()
        }
    }

    /// The numbers of the substreams that are given up with `inputs` while the poll goes on.
    pub open spec fn given_up_by(self, inputs: Seq<HandlerInput<S, T>>) -> Multiset<UniqConnId>
        decreases inputs.len(),
    {
        if inputs.len() == 0 {
            Multiset::empty()
        } else {
            self.given_up(inputs[0]).add(self.next(inputs[0]).given_up_by(inputs.drop_first()))
        }
    }

    /// What a poll that has come from `before` to here has left alone.
    pub open spec fn spares(self, before: HandlerView<S, T>) -> bool {
        &&& forall|id: UniqConnId| #[trigger]
            awaited_as(self.handler, id) == awaited_as(before, id)
        &&& self.handler.protocol_status == before.protocol_status
        &&& self.handler.uniq_conn_id == before.uniq_conn_id
        &&& self.handler.peer_timeout == before.peer_timeout
    }

    /// Whether, if the poll is over here, the connection is kept as is due at `now`: for a while
    /// where all substreams are free, and for good where not.
    pub open spec fn kept_alive(self, now: Option<u64>) -> bool {
        self.step is Pending ==> {
            &&& now matches Some(t)
            &&& self.handler.keep_alive == if self.handler.all_free() {
                KeepAlive::Until((t + self.handler.peer_timeout) as u64)
            } else {
                KeepAlive::Yes
            }
        }
    }
}

proof fn lemma_put_back<S, T>(s: Seq<SubstreamState<S, T>>, x: SubstreamState<S, T>)
    ensures
        s.push(x).to_multiset() == s.to_multiset().insert(x),
        numbers_of(s.push(x)) == numbers_of(s).insert(x.id()),
{
    broadcast use vstd::seq_lib::group_to_multiset_ensures;

    let number = |s: SubstreamState<S, T>| s.id();
    assert(s.push(x).map_values(number) =~= s.map_values(number).push(x.id()));
}

proof fn lemma_take_out<S, T>(s: Seq<SubstreamState<S, T>>, i: int)
    requires
        0 <= i < s.len(),
    ensures
        s.to_multiset() == swap_removed(s, i).to_multiset().insert(s[i]),
        numbers_of(s) == numbers_of(swap_removed(s, i)).insert(s[i].id()),
{
    let number = |s: SubstreamState<S, T>| s.id();
    lemma_swap_removed(s, i);
    lemma_swap_removed(s.map_values(number), i);
    assert(swap_removed(s, i).map_values(number) =~= swap_removed(s.map_values(number), i));
}

/// A pass takes no substream away that is awaited.
proof fn lemma_pass_keeps_awaited<S, T>(h: HandlerView<S, T>, n: int, now: u64, id: UniqConnId)
    requires
        0 <= n <= h.substreams.len(),
    ensures
        awaited_as(h.pass(n, now).0, id) >= awaited_as(h, id),
    decreases n,
{
    if n > 0 {
        let rest = h.without(n - 1);
        let stream = h.substreams[n - 1];
        lemma_take_out(h.substreams, n - 1);
        lemma_put_back(rest.substreams, stream);
        match stream {
            SubstreamState::OutPendingOpen { conn_id, .. } => {
                lemma_put_back(rest.substreams, SubstreamState::AwaitingFirst { conn_id });
            },
            SubstreamState::AwaitingFirst { .. } => {
                lemma_pass_keeps_awaited(rest.with(stream), n - 1, now, id);
            },
            SubstreamState::FreeStream { .. } => {
                if rest.pending.len() == 0 {
                    lemma_pass_keeps_awaited(rest.with(stream), n - 1, now, id);
                }
            },
            _ => {},
        }
    }
}

/// Only its being opened ends the wait for a substream: nothing else that happens to a handler
/// takes away one that is awaited.
pub proof fn law_awaited_until_opened<S, T>(
    situation: Situation<S, T>,
    input: HandlerInput<S, T>,
    id: UniqConnId,
)
    requires
        situation.allows(input),
        situation.handler.admits(situation.step),
    ensures
        ({
            let h = situation.handler;
            let opened = if input is NegotiatedOutbound
                && h.substreams[h.first_awaiting() as int].id() == id {
                1int
            } else {
                0
            };
            awaited_as(situation.next(input).handler, id) >= awaited_as(h, id) - opened
        }),
{
    let h = situation.handler;
    match input {
        HandlerInput::NegotiatedOutbound { stream } => {
            let i = choose|i: int|
                0 <= i < h.substreams.len() && #[trigger] h.substreams[i] is AwaitingFirst;
            lemma_first_index_found(
                h.substreams,
                |s: SubstreamState<S, T>| s is AwaitingFirst,
                i,
            );
            let pos = h.first_awaiting() as int;
            lemma_take_out(h.substreams, pos);
            lemma_put_back(
                h.without(pos).substreams,
                SubstreamState::WaitingMsg {
                    conn_id: h.substreams[pos].id(),
                    substream: stream,
                },
            );
        },
        HandlerInput::NegotiatedInbound { stream } => {
            lemma_put_back(
                h.substreams,
                SubstreamState::WaitingMsg {
                    conn_id: h.uniq_conn_id as usize,
                    substream: stream,
                },
            );
        },
        HandlerInput::Event { msg } => {
            let pos = h.first_free() as int;
            if pos < h.substreams.len() {
                lemma_first_index_holds(h.substreams, |s: SubstreamState<S, T>| s is FreeStream);
                let free = h.substreams[pos];
                lemma_take_out(h.substreams, pos);
                lemma_put_back(
                    h.without(pos).substreams,
                    SubstreamState::PendingSend {
                        conn_id: free.id(),
                        substream: free->FreeStream_substream,
                        msg,
                    },
                );
            } else {
                lemma_put_back(
                    h.substreams,
                    SubstreamState::OutPendingOpen { msg, conn_id: h.uniq_conn_id as usize },
                );
            }
        },
        HandlerInput::DialUpgradeError { error } => {
            lemma_put_back(
                h.substreams,
                SubstreamState::ReportError { conn_id: h.uniq_conn_id as usize, error },
            );
        },
        HandlerInput::Poll { now } => {
            lemma_pass_keeps_awaited(h, h.substreams.len() as int, now, id);
        },
        HandlerInput::SinkReady { now, .. } => {
            let visit = situation.step->PollReady_0;
            lemma_put_back(h.substreams, visit.free());
            lemma_pass_keeps_awaited(h, visit.index as int, now, id);
            lemma_pass_keeps_awaited(h.with(visit.free()), visit.index as int, now, id);
        },
        HandlerInput::Sent { .. } => {},
        HandlerInput::Flushed { now, .. } => {
            let visit = situation.step->PollFlush_0;
            lemma_put_back(h.substreams, visit.flushing());
            lemma_pass_keeps_awaited(h.with(visit.flushing()), visit.index as int, now, id);
        },
        HandlerInput::Received { now, .. } => {
            let visit = situation.step->PollNext_0;
            lemma_put_back(h.substreams, visit.free());
            lemma_put_back(h.substreams, visit.waiting());
            lemma_pass_keeps_awaited(h.with(visit.waiting()), visit.index as int, now, id);
        },
    }
}

/// A poll that is under way, or has ended in whatever way, has taken no substream away that was
/// awaited.
pub proof fn law_poll_keeps_awaited<S, T>(
    situation: Situation<S, T>,
    now: u64,
    answers: Seq<HandlerInput<S, T>>,
    id: UniqConnId,
)
    requires
        situation.allows(HandlerInput::Poll { now }),
        situation.next(HandlerInput::Poll { now }).allows_all(answers),
        forall|i: int| 0 <= i < answers.len() ==> (#[trigger] answers[i]).is_answer(),
    ensures
        awaited_as(
            situation.next(HandlerInput::Poll { now }).run(answers).handler,
            id,
        ) >= awaited_as(situation.handler, id),
{
    law_awaited_until_opened(situation, HandlerInput::Poll { now }, id);
    law_steps_stay_admitted(situation, HandlerInput::Poll { now });
    lemma_answers_keep_awaited(situation.next(HandlerInput::Poll { now }), answers, id);
}

proof fn lemma_answers_keep_awaited<S, T>(
    situation: Situation<S, T>,
    answers: Seq<HandlerInput<S, T>>,
    id: UniqConnId,
)
    requires
        situation.handler.admits(situation.step),
        situation.allows_all(answers),
        forall|i: int| 0 <= i < answers.len() ==> (#[trigger] answers[i]).is_answer(),
    ensures
        awaited_as(situation.run(answers).handler, id) >= awaited_as(situation.handler, id),
    decreases answers.len(),
{
    if answers.len() > 0 {
        let later = answers.drop_first();
        assert(answers[0].is_answer());
        assert forall|i: int| 0 <= i < later.len() implies (#[trigger] later[i]).is_answer() by {
            assert(later[i] == answers[i + 1]);
        }
        law_awaited_until_opened(situation, answers[0], id);
        law_steps_stay_admitted(situation, answers[0]);
        lemma_answers_keep_awaited(situation.next(answers[0]), later, id);
    }
}

/// A pass over the substreams below settled ones leaves settled ones behind, and loses none, as
/// long as it reports nothing.
proof fn lemma_pass_settles<S, T>(h: HandlerView<S, T>, n: int, now: u64)
    requires
        0 <= n <= h.substreams.len(),
        n <= usize::MAX,
        settled_from(h, n),
    ensures
        ({
            let after = Situation { handler: h.pass(n, now).0, step: h.pass(n, now).1 };
            !(after.step is Ready) ==> {
                &&& after.passed_settled()
                &&& after.numbers() == numbers_of(h.substreams)
                &&& after.spares(h)
                &&& after.kept_alive(Some(now))
            }
        }),
    decreases n,
{
    if n > 0 {
        let rest = h.without(n - 1);
        let stream = h.substreams[n - 1];
        lemma_take_out(h.substreams, n - 1);
        lemma_put_back(rest.substreams, stream);
        assert forall|i: int| n - 1 <= i < rest.substreams.len() implies settled(
            #[trigger] rest.substreams[i],
        ) && (rest.substreams[i] is FreeStream ==> h.pending.len() == 0) by {
            let from = if i == n - 1 { h.substreams.len() - 1 } else { i };
            assert(rest.substreams[i] == h.substreams[from]);
        }
        match stream {
            SubstreamState::AwaitingFirst { .. } => {
                lemma_pass_settles(rest.with(stream), n - 1, now);
            },
            SubstreamState::FreeStream { .. } => {
                if rest.pending.len() == 0 {
                    lemma_pass_settles(rest.with(stream), n - 1, now);
                }
            },
            _ => {},
        }
    }
}

/// The same of the answers that a poll gets.
proof fn lemma_answer_settles<S, T>(situation: Situation<S, T>, input: HandlerInput<S, T>)
    requires
        situation.allows(input),
        situation.handler.admits(situation.step),
        input.is_answer(),
        situation.passed_settled(),
        !(situation.next(input).step is Ready),
    ensures
        situation.next(input).passed_settled(),
        situation.next(input).numbers().add(situation.given_up(input)) == situation.numbers(),
        situation.next(input).spares(situation.handler),
        situation.next(input).kept_alive(input.time()),
{
    let h = situation.handler;
    let visit = situation.step.visit()->0;
    lemma_put_back(h.substreams, visit.free());
    lemma_put_back(h.substreams, visit.flushing());
    lemma_put_back(h.substreams, visit.waiting());
    match input {
        HandlerInput::SinkReady { now, .. } => {
            lemma_pass_settles(h, visit.index as int, now);
            if h.pending.len() == 0 {
                lemma_pass_settles(h.with(visit.free()), visit.index as int, now);
            }
        },
        HandlerInput::Flushed { now, .. } => {
            lemma_pass_settles(h.with(visit.flushing()), visit.index as int, now);
        },
        HandlerInput::Received { now, .. } => {
            lemma_pass_settles(h.with(visit.waiting()), visit.index as int, now);
        },
        _ => {},
    }
    assert(situation.next(input).numbers().add(situation.given_up(input))
        =~= situation.numbers());
}

proof fn lemma_answers_settle<S, T>(situation: Situation<S, T>, answers: Seq<HandlerInput<S, T>>)
    requires
        situation.handler.admits(situation.step),
        situation.allows_all(answers),
        forall|i: int| 0 <= i < answers.len() ==> (#[trigger] answers[i]).is_answer(),
        situation.passed_settled(),
        situation.run(answers).step is Pending,
    ensures
        situation.run(answers).passed_settled(),
        situation.run(answers).numbers().add(situation.given_up_by(answers))
            == situation.numbers(),
        situation.run(answers).spares(situation.handler),
        answers.len() > 0 ==> situation.run(answers).kept_alive(answers.last().time()),
    decreases answers.len(),
{
    if answers.len() == 0 {
        assert(situation.numbers().add(Multiset::empty()) =~= situation.numbers());
    } else {
        let next = situation.next(answers[0]);
        let later = answers.drop_first();
        assert(answers[0].is_answer());
        assert forall|i: int| 0 <= i < later.len() implies (#[trigger] later[i]).is_answer() by {
            assert(later[i] == answers[i + 1]);
        }
        if later.len() > 0 {
            assert(later[0].is_answer());
            assert(next.allows_all(later));
            assert(later.last() == answers.last());
        } else {
            assert(next.run(later) == next);
        }
        assert(!(next.step is Ready));
        lemma_answer_settles(situation, answers[0]);
        law_steps_stay_admitted(situation, answers[0]);
        lemma_answers_settle(next, later);
        assert forall|id: UniqConnId| #[trigger]
            awaited_as(situation.run(answers).handler, id) == awaited_as(
                situation.handler,
                id,
            ) by {
            assert(awaited_as(next.handler, id) == awaited_as(situation.handler, id));
        }
        assert(situation.run(answers).numbers().add(situation.given_up_by(answers))
            =~= next.run(later).numbers().add(next.given_up_by(later)).add(
            situation.given_up(answers[0]),
        ));
    }
}

/// A poll that ends with nothing to report has done what there was to do. No substream is left
/// that has to be requested, has a message to send or a failure to report. Where one is free, no
/// message is pending. The substreams that were awaited still are, and no others; each substream
/// keeps its number, and only those are gone that were found ready for a message that stays within
/// the node. The connection is kept for a while from when the poll ended if all substreams are
/// free, and without limit if not.
pub proof fn law_finished_poll_leaves_nothing_undone<S, T>(
    situation: Situation<S, T>,
    now: u64,
    answers: Seq<HandlerInput<S, T>>,
)
    requires
        situation.allows(HandlerInput::Poll { now }),
        situation.next(HandlerInput::Poll { now }).allows_all(answers),
        forall|i: int| 0 <= i < answers.len() ==> (#[trigger] answers[i]).is_answer(),
        situation.next(HandlerInput::Poll { now }).run(answers).step is Pending,
    ensures
        ({
            let before = situation.handler;
            let asked = situation.next(HandlerInput::Poll { now });
            let after = asked.run(answers).handler;
            let last = if answers.len() == 0 {
                HandlerInput::Poll { now }
            } else {
                answers.last()
            };
            &&& forall|i: int|
                0 <= i < after.substreams.len() ==> !(
                #[trigger] after.substreams[i] is OutPendingOpen)
                    && !(after.substreams[i] is PendingSend)
                    && !(after.substreams[i] is ReportError)
            &&& (exists|i: int|
                0 <= i < after.substreams.len() && #[trigger] after.substreams[i] is FreeStream)
                ==> after.pending.len() == 0
            &&& forall|id: UniqConnId| #[trigger] awaited_as(after, id) == awaited_as(before, id)
            &&& numbers_of(after.substreams).add(asked.given_up_by(answers)) == numbers_of(
                before.substreams,
            )
            &&& after.protocol_status == before.protocol_status
            &&& after.uniq_conn_id == before.uniq_conn_id
            &&& before.substreams.len() > 0 ==> {
                &&& last.time() matches Some(t)
                &&& after.keep_alive == if after.all_free() {
                    KeepAlive::Until((t + before.peer_timeout) as u64)
                } else {
                    KeepAlive::Yes
                }
            }
            &&& before.substreams.len() == 0 ==> after == before
        }),
{
    let before = situation.handler;
    let asked = situation.next(HandlerInput::Poll { now });
    let end = asked.run(answers);
    if answers.len() > 0 {
        assert(answers[0].is_answer());
    }
    assert(!(asked.step is Ready));
    if before.substreams.len() > 0 {
        lemma_pass_settles(before, before.substreams.len() as int, now);
    }
    law_steps_stay_admitted(situation, HandlerInput::Poll { now });
    lemma_answers_settle(asked, answers);
    assert forall|id: UniqConnId| #[trigger]
        awaited_as(end.handler, id) == awaited_as(before, id) by {
        assert(awaited_as(asked.handler, id) == awaited_as(before, id));
    }
    assert forall|i: int| 0 <= i < end.handler.substreams.len() implies settled(
        #[trigger] end.handler.substreams[i],
    ) by {}
}

} // verus!
