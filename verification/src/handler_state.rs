use vstd::prelude::*;

use crate::error::{ConnectionError, IoErrorKind};
use crate::handler::{
    Handler, HandlerEvent, KeepAlive, PollStep, ProtocolStatus, SinkPoll, StreamPoll, Visit,
};
use crate::message::{Message, NodeActions};
use crate::seq_ops::{first_index, swap_removed};
use crate::substream::SubstreamState;

verus! {

/// The state of a handler.
#[verifier::ext_equal]
pub struct HandlerView<S, T> {
    pub substreams: Seq<SubstreamState<S, T>>,
    pub keep_alive: KeepAlive,
    pub uniq_conn_id: nat,
    pub protocol_status: ProtocolStatus,
    pub pending: Seq<Message<T>>,
    pub peer_timeout: u64,
}

impl<S, T> View for Handler<S, T> {
    type V = HandlerView<S, T>;

    open spec fn view(&self) -> HandlerView<S, T> {
        HandlerView {
            substreams: self.substreams@,
            keep_alive: self.keep_alive,
            uniq_conn_id: self.uniq_conn_id as nat,
            protocol_status: self.protocol_status,
            pending: self.pending@,
            peer_timeout: self.peer_timeout,
        }
    }
}

impl<S> Visit<S> {
    /// The visited substream when it has nothing to do.
    pub open spec fn free<T>(self) -> SubstreamState<S, T> {
        SubstreamState::FreeStream { conn_id: self.conn_id, substream: self.substream }
    }

    /// The visited substream when it is still to be flushed.
    pub open spec fn flushing<T>(self) -> SubstreamState<S, T> {
        SubstreamState::PendingFlush { conn_id: self.conn_id, substream: self.substream }
    }

    /// The visited substream when a message of the remote is expected on it.
    pub open spec fn waiting<T>(self) -> SubstreamState<S, T> {
        SubstreamState::WaitingMsg { conn_id: self.conn_id, substream: self.substream }
    }
}

impl<S, T> HandlerView<S, T> {
    /// The state with `stream` added to its substreams.
    pub open spec fn with(self, stream: SubstreamState<S, T>) -> Self {
        HandlerView { substreams: self.substreams.push(stream), ..self }
    }

    /// The state without the substream at `i`.
    pub open spec fn without(self, i: int) -> Self {
        HandlerView { substreams: swap_removed(self.substreams, i), ..self }
    }

    /// Where the first free substream stands.
    pub open spec fn first_free(self) -> nat {
        first_index(self.substreams, |s: SubstreamState<S, T>| s is FreeStream)
    }

    /// Where the first substream in the list stands that was requested and is not open yet.
    pub open spec fn first_awaiting(self) -> nat {
        first_index(self.substreams, |s: SubstreamState<S, T>| s is AwaitingFirst)
    }

    /// Whether no substream has anything left to do.
    pub open spec fn all_free(self) -> bool {
        forall|i: int| 0 <= i < self.substreams.len() ==> #[trigger] self.substreams[i] is FreeStream
    }

    /// Whether a message of the remote is already expected.
    pub open spec fn expects_message(self) -> bool {
        exists|i: int|
            0 <= i < self.substreams.len() && (#[trigger] self.substreams[i] is AwaitingFirst
                || self.substreams[i] is WaitingMsg)
    }

    /// The state at the end of a pass over the substreams that ran to its end at `now`.
    pub open spec fn after_pass(self, now: u64) -> Self {
        HandlerView {
            keep_alive: if self.all_free() {
                KeepAlive::Until((now + self.peer_timeout) as u64)
            } else {
                KeepAlive::Yes
            },
            ..self
        }
    }

    /// What comes of a pass over the substreams below `n`, from the last to the first: the state
    /// at the first substream that asks for work or has something to report, and its request.
    /// Substreams that wait, or are free while no message is pending, are passed over.
    pub open spec fn pass(self, n: int, now: u64) -> (Self, PollStep<S, T>)
        decreases n,
    {
        if n <= 0 {
            (self.after_pass(now), PollStep::Pending)
        } else {
            let rest = self.without(n - 1);
            let index = (n - 1) as usize;
            match self.substreams[n - 1] {
                SubstreamState::OutPendingOpen { msg, conn_id } => (
                    HandlerView {
                        pending: rest.pending.push(msg),
                        ..rest.with(SubstreamState::AwaitingFirst { conn_id })
                    },
                    PollStep::Ready(HandlerEvent::OutboundSubstreamRequest),
                ),
                SubstreamState::AwaitingFirst { conn_id } => rest.with(
                    SubstreamState::AwaitingFirst { conn_id },
                ).pass(n - 1, now),
                SubstreamState::FreeStream { conn_id, substream } => if rest.pending.len() > 0 {
                    (
                        HandlerView { pending: rest.pending.drop_last(), ..rest },
                        PollStep::PollReady(
                            Visit { index, conn_id, substream },
                            rest.pending.last(),
                        ),
                    )
                } else {
                    rest.with(SubstreamState::FreeStream { conn_id, substream }).pass(n - 1, now)
                },
                SubstreamState::PendingSend { conn_id, substream, msg } => (
                    rest,
                    PollStep::PollReady(Visit { index, conn_id, substream }, msg),
                ),
                SubstreamState::PendingFlush { conn_id, substream } => (
                    rest,
                    PollStep::PollFlush(Visit { index, conn_id, substream }),
                ),
                SubstreamState::WaitingMsg { conn_id, substream } => (
                    rest,
                    PollStep::PollNext(Visit { index, conn_id, substream }),
                ),
                SubstreamState::ReportError { conn_id, error } => (
                    rest,
                    PollStep::Ready(HandlerEvent::Custom(Message::failure(error))),
                ),
            }
        }
    }

    /// Whether `step` leaves no more substreams to visit than there are.
    pub open spec fn admits(self, step: PollStep<S, T>) -> bool {
        step.visit() matches Some(visit) ==> visit.index <= self.substreams.len()
    }

    /// A pass over substreams that are there leaves no more to visit than there are.
    pub proof fn lemma_pass_admits(self, n: int, now: u64)
        requires
            0 <= n <= self.substreams.len(),
            n <= usize::MAX,
        ensures
            self.pass(n, now).0.admits(self.pass(n, now).1),
        decreases n,
    {
        if n > 0 {
            let rest = self.without(n - 1);
            match self.substreams[n - 1] {
                SubstreamState::AwaitingFirst { .. } => {
                    rest.with(self.substreams[n - 1]).lemma_pass_admits(n - 1, now);
                },
                SubstreamState::FreeStream { .. } => {
                    rest.with(self.substreams[n - 1]).lemma_pass_admits(n - 1, now);
                },
                _ => {},
            }
        }
    }

    /// What comes of a poll that starts at `now`.
    pub open spec fn poll(self, now: u64) -> (Self, PollStep<S, T>) {
        if self.substreams.len() == 0 {
            (self, PollStep::Pending)
        } else if self.protocol_status is Confirmed {
            (
                HandlerView { protocol_status: ProtocolStatus::Reported, ..self },
                PollStep::Ready(
                    HandlerEvent::Custom(Message::Internal(NodeActions::ConfirmedInbound)),
                ),
            )
        } else {
            self.pass(self.substreams.len() as int, now)
        }
    }

    /// What comes of the visit of a substream that has become free.
    pub open spec fn freed(self, visit: Visit<S>, now: u64) -> (Self, PollStep<S, T>) {
        if self.pending.len() > 0 {
            (
                HandlerView { pending: self.pending.drop_last(), ..self },
                PollStep::PollReady(visit, self.pending.last()),
            )
        } else {
            self.with(visit.free()).pass(visit.index as int, now)
        }
    }

    /// What comes of the answer whether the visited substream takes `msg`.
    pub open spec fn sink_ready(
        self,
        visit: Visit<S>,
        msg: Message<T>,
        answer: SinkPoll,
        now: u64,
    ) -> (Self, PollStep<S, T>) {
        match answer {
            SinkPoll::Ready => match msg {
                Message::Internal(NodeActions::ConfirmedInbound) => self.freed(visit, now),
                Message::Internal(_) => self.pass(visit.index as int, now),
                _ => (self, PollStep::StartSend(visit, msg)),
            },
            SinkPoll::Pending => (self, PollStep::PollReady(visit, msg)),
            SinkPoll::Failed(error) => (
                self,
                PollStep::Ready(HandlerEvent::Custom(Message::failure(error))),
            ),
        }
    }

    /// What comes of the answer to a message that was handed to the visited substream.
    pub open spec fn sent(self, visit: Visit<S>, answer: Result<(), ConnectionError>) -> (
        Self,
        PollStep<S, T>,
    ) {
        match answer {
            Ok(_) => (self, PollStep::PollFlush(visit)),
            Err(error) => (
                self,
                PollStep::Ready(HandlerEvent::Custom(Message::failure(error))),
            ),
        }
    }

    /// What comes of the answer to the flushing of the visited substream.
    pub open spec fn flushed(self, visit: Visit<S>, answer: SinkPoll, now: u64) -> (
        Self,
        PollStep<S, T>,
    ) {
        match answer {
            SinkPoll::Ready => (self, PollStep::PollNext(visit)),
            SinkPoll::Pending => self.with(visit.flushing()).pass(visit.index as int, now),
            SinkPoll::Failed(error) => (
                self,
                PollStep::Ready(HandlerEvent::Custom(Message::failure(error))),
            ),
        }
    }

    /// What comes of the answer of the visited substream that was asked for a message.
    pub open spec fn received(self, visit: Visit<S>, answer: StreamPoll<T>, now: u64) -> (
        Self,
        PollStep<S, T>,
    ) {
        match answer {
            StreamPoll::Message { msg, terminal } => (
                if terminal {
                    self
                } else {
                    self.with(visit.free())
                },
                PollStep::Ready(HandlerEvent::Custom(msg)),
            ),
            StreamPoll::Pending => self.with(visit.waiting()).pass(visit.index as int, now),
            StreamPoll::Failed(error) => (
                self,
                PollStep::Ready(HandlerEvent::Custom(Message::failure(error))),
            ),
            StreamPoll::Closed => (
                self,
                PollStep::Ready(
                    HandlerEvent::Custom(
                        Message::failure(
                            ConnectionError::IOError(Some(IoErrorKind::UnexpectedEof)),
                        ),
                    ),
                ),
            ),
        }
    }
}

impl<S, T> HandlerView<S, T> {
    /// The state after `msg` was given to the first free substream, or the message back where no
    /// substream is free.
    pub open spec fn send_to_free(self, msg: Message<T>) -> (Self, Option<Message<T>>) {
        let pos = self.first_free() as int;
        if pos < self.substreams.len() {
            let free = self.substreams[pos];
            (
                self.without(pos).with(
                    SubstreamState::PendingSend {
                        conn_id: free.id(),
                        substream: free->FreeStream_substream,
                        msg,
                    },
                ),
                None,
            )
        } else {
            (self, Some(msg))
        }
    }

    /// The state after `msg` was accepted for the remote.
    pub open spec fn inject_event(self, msg: Message<T>) -> Self {
        if self.first_free() < self.substreams.len() {
            self.send_to_free(msg).0
        } else {
            HandlerView {
                uniq_conn_id: self.uniq_conn_id + 1,
                ..self.with(
                    SubstreamState::OutPendingOpen { msg, conn_id: self.uniq_conn_id as usize },
                )
            }
        }
    }

    /// The state after a requested substream was opened as `stream`: the first one in the list.
    pub open spec fn negotiated_outbound(self, stream: S) -> Self {
        let pos = self.first_awaiting() as int;
        self.without(pos).with(
            SubstreamState::WaitingMsg { conn_id: self.substreams[pos].id(), substream: stream },
        )
    }

    /// The state after the remote opened `stream`.
    pub open spec fn negotiated_inbound(self, stream: S) -> Self {
        let taken = if self.expects_message() {
            self
        } else {
            HandlerView {
                uniq_conn_id: self.uniq_conn_id + 1,
                ..self.with(
                    SubstreamState::WaitingMsg {
                        conn_id: self.uniq_conn_id as usize,
                        substream: stream,
                    },
                )
            }
        };
        HandlerView {
            protocol_status: if self.protocol_status is Unconfirmed {
                ProtocolStatus::Confirmed
            } else {
                self.protocol_status
            },
            ..taken
        }
    }

    /// The state after opening a substream has failed.
    pub open spec fn dial_upgrade_failed(self, error: ConnectionError) -> Self {
        HandlerView {
            uniq_conn_id: self.uniq_conn_id + 1,
            protocol_status: ProtocolStatus::FailedUpgrade,
            ..self.with(
                SubstreamState::ReportError { conn_id: self.uniq_conn_id as usize, error },
            )
        }
    }
}

} // verus!
