use vstd::prelude::*;

use crate::error::{ConnectionError, IoErrorKind};
use crate::handler_state::HandlerView;
use crate::message::{Message, NodeActions};
use crate::seq_ops::{lemma_first_index, lemma_first_index_found};
use crate::substream::{SubstreamState, UniqConnId};

verus! {

/// Until when a connection is kept although nothing happens on it.
#[derive(Debug, Clone, Copy, PartialEq, Eq)]
pub enum KeepAlive {
    /// Up to this instant, in milliseconds.
    Until(u64),
    /// As long as the peers are there.
    Yes,
}

/// How far the remote's use of the protocol has been established.
#[derive(Debug, Clone, Copy, PartialEq, Eq)]
pub enum ProtocolStatus {
    Unconfirmed,
    Confirmed,
    Reported,
    FailedUpgrade,
}

/// What a handler tells the swarm.
#[derive(Debug, PartialEq, Eq)]
pub enum HandlerEvent<T> {
    /// A substream has to be opened to the remote.
    OutboundSubstreamRequest,
    /// A message for the behaviour.
    Custom(Message<T>),
}

/// A substream that is taken out of the handler while work is done on it.
#[derive(Debug, PartialEq, Eq)]
pub struct Visit<S> {
    /// How many substreams of the handler are still to be visited.
    pub index: usize,
    pub conn_id: UniqConnId,
    pub substream: S,
}

/// What a poll of the handler asks for next.
#[derive(Debug, PartialEq, Eq)]
pub enum PollStep<S, T> {
    /// The poll is over and has nothing to report.
    Pending,
    /// The poll is over and reports this.
    Ready(HandlerEvent<T>),
    /// Ask whether the substream takes a message; the answer goes to `sink_ready`.
    PollReady(Visit<S>, Message<T>),
    /// Hand the message to the substream; the answer goes to `sent`.
    StartSend(Visit<S>, Message<T>),
    /// Flush the substream; the answer goes to `flushed`.
    PollFlush(Visit<S>),
    /// Ask the substream for a message; the answer goes to `received`.
    PollNext(Visit<S>),
}

impl<S, T> PollStep<S, T> {
    /// The visit during which the work is asked for.
    pub open spec fn visit(self) -> Option<Visit<S>> {
        match self {
            PollStep::PollReady(visit, _) => Some(visit),
            PollStep::StartSend(visit, _) => Some(visit),
            PollStep::PollFlush(visit) => Some(visit),
            PollStep::PollNext(visit) => Some(visit),
            PollStep::Pending => None,
            PollStep::Ready(_) => None,
        }
    }
}

/// The answer of a substream that was asked whether it takes a message, or was flushed.
#[derive(Debug, PartialEq, Eq)]
pub enum SinkPoll {
    Ready,
    Pending,
    Failed(ConnectionError),
}

/// The answer of a substream that was asked for a message.
#[derive(Debug, PartialEq, Eq)]
pub enum StreamPoll<T> {
    /// A message, and whether it ends its operation.
    Message { msg: Message<T>, terminal: bool },
    Pending,
    Failed(ConnectionError),
    /// The stream has ended.
    Closed,
}

/// Handles the connection with a given peer.
#[derive(Debug)]
pub struct Handler<S, T> {
    pub substreams: Vec<SubstreamState<S, T>>,
    pub keep_alive: KeepAlive,
    pub uniq_conn_id: UniqConnId,
    pub protocol_status: ProtocolStatus,
    /// Messages that wait for a free substream.
    pub pending: Vec<Message<T>>,
    /// How long, in milliseconds, an idle connection is kept.
    pub peer_timeout: u64,
}

impl<S, T> Handler<S, T> {
    /// The handler of a connection that is made at `now`, in milliseconds.
    pub fn new(now: u64, peer_timeout: u64) -> (handler: Self)
        requires
            now + peer_timeout <= u64::MAX,
        ensures
            handler@ == (HandlerView::<S, T> {
                substreams: Seq::empty(),
                keep_alive: KeepAlive::Until((now + peer_timeout) as u64),
                uniq_conn_id: 0,
                protocol_status: ProtocolStatus::Unconfirmed,
                pending: Seq::empty(),
                peer_timeout,
            }),
    {
        Handler {
            substreams: Vec::new(),
            keep_alive: KeepAlive::Until(now + peer_timeout),
            uniq_conn_id: 0,
            protocol_status: ProtocolStatus::Unconfirmed,
            pending: Vec::new(),
            peer_timeout,
        }
    }

    /// Where the first free substream stands.
    fn position_free(&self) -> (pos: Option<usize>)
        ensures
            match pos {
                Some(i) => i == self@.first_free() && i < self.substreams.len()
                    && self.substreams@[i as int] is FreeStream,
                None => self@.first_free() == self.substreams.len(),
            },
    {
        let mut i: usize = 0;
        while i < self.substreams.len()
            invariant
                i <= self.substreams.len(),
                forall|k: int| 0 <= k < i ==> !(#[trigger] self.substreams@[k] is FreeStream),
            decreases self.substreams.len() - i,
        {
            if self.substreams[i].is_free() {
                proof {
                    lemma_first_index(
                        self.substreams@,
                        |s: SubstreamState<S, T>| s is FreeStream,
                        i as int,
                    );
                }
                return Some(i);
            }
            i += 1;
        }
        proof {
            lemma_first_index(
                self.substreams@,
                |s: SubstreamState<S, T>| s is FreeStream,
                i as int,
            );
        }
        None
    }

    /// Where the first substream in the list stands that was requested and is not open yet.
    fn position_awaiting(&self) -> (pos: Option<usize>)
        ensures
            match pos {
                Some(i) => i == self@.first_awaiting() && i < self.substreams.len()
                    && self.substreams@[i as int] is AwaitingFirst,
                None => self@.first_awaiting() == self.substreams.len(),
            },
    {
        let mut i: usize = 0;
        while i < self.substreams.len()
            invariant
                i <= self.substreams.len(),
                forall|k: int| 0 <= k < i ==> !(#[trigger] self.substreams@[k] is AwaitingFirst),
            decreases self.substreams.len() - i,
        {
            if self.substreams[i].is_awaiting_first() {
                proof {
                    lemma_first_index(
                        self.substreams@,
                        |s: SubstreamState<S, T>| s is AwaitingFirst,
                        i as int,
                    );
                }
                return Some(i);
            }
            i += 1;
        }
        proof {
            lemma_first_index(
                self.substreams@,
                |s: SubstreamState<S, T>| s is AwaitingFirst,
                i as int,
            );
        }
        None
    }

    /// Gives `msg` to a free substream, or back where there is none.
    pub fn send_to_free_substream(&mut self, msg: Message<T>) -> (back: Option<Message<T>>)
        ensures
            (final(self)@, back) == old(self)@.send_to_free(msg),
    {
        match self.position_free() {
            Some(pos) => {
                match self.substreams.swap_remove(pos) {
                    SubstreamState::FreeStream { substream, conn_id } => {
                        self.substreams.push(
                            SubstreamState::PendingSend { msg, conn_id, substream },
                        );
                        None
                    },
                    // the entry at `pos` is free
                    _ => None,
                }
            },
            None => Some(msg),
        }
    }

    /// A requested substream is open. It belongs to the request that comes first in the list, which
    /// need not be the oldest: a pass moves the substreams around.
    pub fn inject_fully_negotiated_outbound(&mut self, stream: S)
        requires
            exists|i: int|
                0 <= i < old(self).substreams.len() && #[trigger] old(self).substreams@[i] is AwaitingFirst,
        ensures
            final(self)@ == old(self)@.negotiated_outbound(stream),
    {
        if let Some(pos) = self.position_awaiting() {
            if let SubstreamState::AwaitingFirst { conn_id } = self.substreams.swap_remove(pos) {
                self.substreams.push(SubstreamState::WaitingMsg { conn_id, substream: stream });
            }
        } else {
            proof {
                let i = choose|i: int|
                    0 <= i < self.substreams.len()
                        && #[trigger] self.substreams@[i] is AwaitingFirst;
                lemma_first_index_found(
                    self.substreams@,
                    |s: SubstreamState<S, T>| s is AwaitingFirst,
                    i,
                );
            }
        }
    }

    /// Whether a message of the remote is already expected.
    fn expects_message(&self) -> (expects: bool)
        ensures
            expects == self@.expects_message(),
    {
        let mut i: usize = 0;
        while i < self.substreams.len()
            invariant
                i <= self.substreams.len(),
                forall|k: int|
                    0 <= k < i ==> !(#[trigger] self.substreams@[k] is AwaitingFirst
                        || self.substreams@[k] is WaitingMsg),
            decreases self.substreams.len() - i,
        {
            if self.substreams[i].expects_message() {
                assert(self@.substreams[i as int] is AwaitingFirst
                    || self@.substreams[i as int] is WaitingMsg);
                return true;
            }
            i += 1;
        }
        false
    }

    /// The remote has opened a substream. It is taken unless a message is already expected.
    pub fn inject_fully_negotiated_inbound(&mut self, stream: S)
        requires
            old(self)@.expects_message() || old(self).uniq_conn_id < usize::MAX,
        ensures
            final(self)@ == old(self)@.negotiated_inbound(stream),
    {
        if !self.expects_message() {
            self.substreams.push(
                SubstreamState::WaitingMsg { conn_id: self.uniq_conn_id, substream: stream },
            );
            self.uniq_conn_id += 1;
        }
        if let ProtocolStatus::Unconfirmed = self.protocol_status {
            self.protocol_status = ProtocolStatus::Confirmed;
        }
    }

    /// Takes `msg` for the remote: on a free substream, or on a new one where none is free.
    pub fn inject_event(&mut self, msg: Message<T>)
        requires
            old(self)@.first_free() < old(self).substreams.len() || old(self).uniq_conn_id
                < usize::MAX,
        ensures
            final(self)@ == old(self)@.inject_event(msg),
    {
        if let Some(msg) = self.send_to_free_substream(msg) {
            let conn_id = self.uniq_conn_id;
            self.uniq_conn_id += 1;
            // is the first request initiated and/or there are no free substreams, open a new one
            self.substreams.push(SubstreamState::OutPendingOpen { msg, conn_id });
        }
    }

    /// A substream could not be opened.
    pub fn inject_dial_upgrade_error(&mut self, error: ConnectionError)
        requires
            old(self).uniq_conn_id < usize::MAX,
        ensures
            final(self)@ == old(self)@.dial_upgrade_failed(error),
    {
        self.protocol_status = ProtocolStatus::FailedUpgrade;
        self.substreams.push(SubstreamState::ReportError { conn_id: self.uniq_conn_id, error });
        self.uniq_conn_id += 1;
    }

    /// Connections are kept as long as the peers are there.
    pub fn connection_keep_alive(&self) -> (keep: KeepAlive)
        ensures
            keep == KeepAlive::Yes,
    {
        KeepAlive::Yes
    }

    /// Whether no substream has anything left to do.
    fn all_free(&self) -> (free: bool)
        ensures
            free == self@.all_free(),
    {
        let mut i: usize = 0;
        while i < self.substreams.len()
            invariant
                i <= self.substreams.len(),
                forall|k: int| 0 <= k < i ==> #[trigger] self.substreams@[k] is FreeStream,
            decreases self.substreams.len() - i,
        {
            if !self.substreams[i].is_free() {
                assert(!(self@.substreams[i as int] is FreeStream));
                return false;
            }
            i += 1;
        }
        true
    }

    /// Visits the substreams below `from`, from the last to the first, up to one that asks for
    /// work or has something to report.
    fn continue_pass(&mut self, from: usize, now: u64) -> (step: PollStep<S, T>)
        requires
            from <= old(self).substreams.len(),
            now + old(self).peer_timeout <= u64::MAX,
        ensures
            (final(self)@, step) == old(self)@.pass(from as int, now),
    {
        let mut n: usize = from;
        while n > 0
            invariant
                n <= self.substreams.len(),
                now + self.peer_timeout <= u64::MAX,
                self@.pass(n as int, now) == old(self)@.pass(from as int, now),
            decreases n,
        {
            n -= 1;
            match self.substreams.swap_remove(n) {
                SubstreamState::OutPendingOpen { msg, conn_id } => {
                    self.substreams.push(SubstreamState::AwaitingFirst { conn_id });
                    self.pending.push(msg);
                    return PollStep::Ready(HandlerEvent::OutboundSubstreamRequest);
                },
                SubstreamState::AwaitingFirst { conn_id } => {
                    self.substreams.push(SubstreamState::AwaitingFirst { conn_id });
                },
                SubstreamState::FreeStream { substream, conn_id } => {
                    if let Some(msg) = self.pending.pop() {
                        return PollStep::PollReady(Visit { index: n, conn_id, substream }, msg);
                    }
                    self.substreams.push(SubstreamState::FreeStream { substream, conn_id });
                },
                SubstreamState::PendingSend { substream, msg, conn_id } => {
                    return PollStep::PollReady(Visit { index: n, conn_id, substream }, msg);
                },
                SubstreamState::PendingFlush { substream, conn_id } => {
                    return PollStep::PollFlush(Visit { index: n, conn_id, substream });
                },
                SubstreamState::WaitingMsg { substream, conn_id } => {
                    return PollStep::PollNext(Visit { index: n, conn_id, substream });
                },
                SubstreamState::ReportError { error, .. } => {
                    return PollStep::Ready(
                        HandlerEvent::Custom(Message::Internal(NodeActions::Error(error))),
                    );
                },
            }
        }
        if self.all_free() {
            // We destroyed all substreams in this iteration or all substreams are free
            self.keep_alive = KeepAlive::Until(now + self.peer_timeout);
        } else {
            self.keep_alive = KeepAlive::Yes;
        }
        PollStep::Pending
    }

    /// Starts a poll at `now`. Where work is asked for, the poll goes on when its answer is given
    /// to the method that the step names.
    pub fn poll(&mut self, now: u64) -> (step: PollStep<S, T>)
        requires
            now + old(self).peer_timeout <= u64::MAX,
        ensures
            (final(self)@, step) == old(self)@.poll(now),
            final(self)@.admits(step),
    {
        if self.substreams.is_empty() {
            return PollStep::Pending;
        }
        if let ProtocolStatus::Confirmed = self.protocol_status {
            self.protocol_status = ProtocolStatus::Reported;
            return PollStep::Ready(
                HandlerEvent::Custom(Message::Internal(NodeActions::ConfirmedInbound)),
            );
        }
        let from = self.substreams.len();
        proof {
            self@.lemma_pass_admits(from as int, now);
        }
        self.continue_pass(from, now)
    }

    /// Goes on with the visit of a substream that has become free.
    fn freed(&mut self, visit: Visit<S>, now: u64) -> (step: PollStep<S, T>)
        requires
            visit.index <= old(self).substreams.len(),
            now + old(self).peer_timeout <= u64::MAX,
        ensures
            (final(self)@, step) == old(self)@.freed(visit, now),
            final(self)@.admits(step),
    {
        if let Some(msg) = self.pending.pop() {
            PollStep::PollReady(visit, msg)
        } else {
            self.substreams.push(
                SubstreamState::FreeStream { substream: visit.substream, conn_id: visit.conn_id },
            );
            proof {
                self@.lemma_pass_admits(visit.index as int, now);
            }
            self.continue_pass(visit.index, now)
        }
    }

    /// Goes on with a poll: `answer` says whether the visited substream takes `msg`.
    pub fn sink_ready(
        &mut self,
        visit: Visit<S>,
        msg: Message<T>,
        answer: SinkPoll,
        now: u64,
    ) -> (step: PollStep<S, T>)
        requires
            visit.index <= old(self).substreams.len(),
            now + old(self).peer_timeout <= u64::MAX,
        ensures
            (final(self)@, step) == old(self)@.sink_ready(visit, msg, answer, now),
            final(self)@.admits(step),
    {
        match answer {
            SinkPoll::Ready => match msg {
                Message::Internal(NodeActions::ConfirmedInbound) => {
                    // waiting to send back a message
                    self.freed(visit, now)
                },
                Message::Internal(_) => {
                    proof {
                        self@.lemma_pass_admits(visit.index as int, now);
                    }
                    self.continue_pass(visit.index, now)
                },
                msg => PollStep::StartSend(visit, msg),
            },
            SinkPoll::Pending => PollStep::PollReady(visit, msg),
            SinkPoll::Failed(error) => PollStep::Ready(
                HandlerEvent::Custom(Message::Internal(NodeActions::Error(error))),
            ),
        }
    }

    /// Goes on with a poll: `answer` says whether the visited substream has taken the message.
    pub fn sent(&mut self, visit: Visit<S>, answer: Result<(), ConnectionError>) -> (step: PollStep<
        S,
        T,
    >)
        requires
            visit.index <= old(self).substreams.len(),
        ensures
            (final(self)@, step) == old(self)@.sent(visit, answer),
            final(self)@.admits(step),
    {
        match answer {
            Ok(_) => PollStep::PollFlush(visit),
            Err(error) => PollStep::Ready(
                HandlerEvent::Custom(Message::Internal(NodeActions::Error(error))),
            ),
        }
    }

    /// Goes on with a poll: `answer` says how far the visited substream is flushed.
    pub fn flushed(&mut self, visit: Visit<S>, answer: SinkPoll, now: u64) -> (step: PollStep<S, T>)
        requires
            visit.index <= old(self).substreams.len(),
            now + old(self).peer_timeout <= u64::MAX,
        ensures
            (final(self)@, step) == old(self)@.flushed(visit, answer, now),
            final(self)@.admits(step),
    {
        match answer {
            SinkPoll::Ready => PollStep::PollNext(visit),
            SinkPoll::Pending => {
                self.substreams.push(
                    SubstreamState::PendingFlush {
                        substream: visit.substream,
                        conn_id: visit.conn_id,
                    },
                );
                proof {
                    self@.lemma_pass_admits(visit.index as int, now);
                }
                self.continue_pass(visit.index, now)
            },
            SinkPoll::Failed(error) => PollStep::Ready(
                HandlerEvent::Custom(Message::Internal(NodeActions::Error(error))),
            ),
        }
    }

    /// Goes on with a poll: `answer` is what the visited substream has for us.
    pub fn received(&mut self, visit: Visit<S>, answer: StreamPoll<T>, now: u64) -> (step: PollStep<
        S,
        T,
    >)
        requires
            visit.index <= old(self).substreams.len(),
            now + old(self).peer_timeout <= u64::MAX,
        ensures
            (final(self)@, step) == old(self)@.received(visit, answer, now),
            final(self)@.admits(step),
    {
        match answer {
            StreamPoll::Message { msg, terminal } => {
                if !terminal {
                    // received a message, the other peer is waiting for an answer
                    self.substreams.push(
                        SubstreamState::FreeStream {
                            substream: visit.substream,
                            conn_id: visit.conn_id,
                        },
                    );
                }
                PollStep::Ready(HandlerEvent::Custom(msg))
            },
            StreamPoll::Pending => {
                self.substreams.push(
                    SubstreamState::WaitingMsg {
                        substream: visit.substream,
                        conn_id: visit.conn_id,
                    },
                );
                proof {
                    self@.lemma_pass_admits(visit.index as int, now);
                }
                self.continue_pass(visit.index, now)
            },
            StreamPoll::Failed(error) => PollStep::Ready(
                HandlerEvent::Custom(Message::Internal(NodeActions::Error(error))),
            ),
            StreamPoll::Closed => PollStep::Ready(
                HandlerEvent::Custom(
                    Message::Internal(
                        NodeActions::Error(
                            ConnectionError::IOError(Some(IoErrorKind::UnexpectedEof)),
                        ),
                    ),
                ),
            ),
        }
    }
}

} // verus!
