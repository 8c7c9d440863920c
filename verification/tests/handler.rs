use locutus_p2p::error::{ConnectionError, IoErrorKind};
use locutus_p2p::handler::{
    Handler, HandlerEvent, KeepAlive, PollStep, ProtocolStatus, SinkPoll, StreamPoll, Visit,
};
use locutus_p2p::message::{Message, NodeActions};
use locutus_p2p::substream::SubstreamState;

type Step = PollStep<char, u64>;

fn handler() -> Handler<char, u64> {
    Handler::new(1000, 60)
}

fn visit(index: usize, conn_id: usize, substream: char) -> Visit<char> {
    Visit {
        index,
        conn_id,
        substream,
    }
}

fn free(conn_id: usize, substream: char) -> SubstreamState<char, u64> {
    SubstreamState::FreeStream { conn_id, substream }
}

fn awaiting(conn_id: usize) -> SubstreamState<char, u64> {
    SubstreamState::AwaitingFirst { conn_id }
}

fn report(error: ConnectionError) -> Step {
    PollStep::Ready(HandlerEvent::Custom(Message::Internal(NodeActions::Error(
        error,
    ))))
}

/// A handler whose substreams are `substreams`, numbered from zero.
fn with(substreams: Vec<SubstreamState<char, u64>>) -> Handler<char, u64> {
    let mut h = handler();
    h.uniq_conn_id = substreams.len();
    h.substreams = substreams;
    h
}

#[test]
fn new_handler_is_idle() {
    let mut h = handler();
    assert_eq!(h.keep_alive, KeepAlive::Until(1060));
    assert_eq!(h.protocol_status, ProtocolStatus::Unconfirmed);
    assert_eq!(h.poll(2000), PollStep::Pending);
    // a poll that finds no substream leaves the time as it is
    assert_eq!(h.keep_alive, KeepAlive::Until(1060));
    assert_eq!(h.connection_keep_alive(), KeepAlive::Yes);
}

#[test]
fn request_opens_a_substream_and_is_answered_on_it() {
    let mut h = handler();
    h.inject_event(Message::Operation(1));
    assert_eq!(
        h.poll(1),
        PollStep::Ready(HandlerEvent::OutboundSubstreamRequest)
    );
    assert_eq!(h.substreams, vec![awaiting(0)]);
    assert_eq!(h.pending, vec![Message::Operation(1)]);
    assert_eq!(h.poll(2), PollStep::Pending);
    assert_eq!(h.keep_alive, KeepAlive::Yes);

    h.inject_fully_negotiated_outbound('a');
    let step = h.poll(3);
    assert_eq!(step, PollStep::PollNext(visit(0, 0, 'a')));
    let step = h.received(
        visit(0, 0, 'a'),
        StreamPoll::Message {
            msg: Message::Internal(NodeActions::ConfirmedInbound),
            terminal: false,
        },
        4,
    );
    assert_eq!(
        step,
        PollStep::Ready(HandlerEvent::Custom(Message::Internal(
            NodeActions::ConfirmedInbound
        )))
    );
    assert_eq!(h.substreams, vec![free(0, 'a')]);

    // the message that waits goes out on the free substream
    let step = h.poll(5);
    assert_eq!(
        step,
        PollStep::PollReady(visit(0, 0, 'a'), Message::Operation(1))
    );
    let step = h.sink_ready(visit(0, 0, 'a'), Message::Operation(1), SinkPoll::Ready, 6);
    assert_eq!(
        step,
        PollStep::StartSend(visit(0, 0, 'a'), Message::Operation(1))
    );
    assert_eq!(
        h.sent(visit(0, 0, 'a'), Ok(())),
        PollStep::PollFlush(visit(0, 0, 'a'))
    );
    assert_eq!(
        h.flushed(visit(0, 0, 'a'), SinkPoll::Ready, 7),
        PollStep::PollNext(visit(0, 0, 'a'))
    );
    assert_eq!(
        h.received(visit(0, 0, 'a'), StreamPoll::Pending, 8),
        PollStep::Pending
    );
    assert_eq!(
        h.substreams,
        vec![SubstreamState::WaitingMsg {
            conn_id: 0,
            substream: 'a'
        }]
    );
    assert!(h.pending.is_empty());
}

#[test]
fn inbound_substream_is_confirmed_once() {
    let mut h = handler();
    h.inject_fully_negotiated_inbound('a');
    assert_eq!(h.protocol_status, ProtocolStatus::Confirmed);
    assert_eq!(
        h.poll(1),
        PollStep::Ready(HandlerEvent::Custom(Message::Internal(
            NodeActions::ConfirmedInbound
        )))
    );
    assert_eq!(h.protocol_status, ProtocolStatus::Reported);
    assert_eq!(h.poll(2), PollStep::PollNext(visit(0, 0, 'a')));
    h.received(visit(0, 0, 'a'), StreamPoll::Pending, 3);
    h.inject_fully_negotiated_inbound('b');
    assert_eq!(h.protocol_status, ProtocolStatus::Reported);
}

#[test]
fn inbound_substream_is_not_taken_while_a_message_is_expected() {
    let mut h = handler();
    h.inject_fully_negotiated_inbound('a');
    h.inject_fully_negotiated_inbound('b');
    assert_eq!(h.substreams.len(), 1);
    assert_eq!(h.uniq_conn_id, 1);

    let mut h = with(vec![awaiting(0)]);
    h.inject_fully_negotiated_inbound('a');
    assert_eq!(h.substreams, vec![awaiting(0)]);
    assert_eq!(h.protocol_status, ProtocolStatus::Confirmed);

    let mut h = with(vec![free(0, 'x')]);
    h.inject_fully_negotiated_inbound('a');
    assert_eq!(h.substreams.len(), 2);
}

#[test]
fn upgrade_error_is_reported() {
    let mut h = with(vec![awaiting(0)]);
    h.inject_dial_upgrade_error(ConnectionError::Upgrade("timeout".to_string()));
    assert_eq!(h.protocol_status, ProtocolStatus::FailedUpgrade);
    assert_eq!(h.uniq_conn_id, 2);
    assert_eq!(
        h.poll(1),
        report(ConnectionError::Upgrade("timeout".to_string()))
    );
    assert_eq!(h.substreams, vec![awaiting(0)]);
    h.inject_fully_negotiated_inbound('a');
    assert_eq!(h.protocol_status, ProtocolStatus::FailedUpgrade);
}

#[test]
fn first_free_substream_gets_the_message() {
    let mut h = with(vec![awaiting(0), free(1, 'b'), free(2, 'c')]);
    assert_eq!(h.send_to_free_substream(Message::Operation(5)), None);
    assert_eq!(
        h.substreams,
        vec![
            awaiting(0),
            free(2, 'c'),
            SubstreamState::PendingSend {
                conn_id: 1,
                substream: 'b',
                msg: Message::Operation(5)
            }
        ]
    );
    h.inject_event(Message::Operation(6));
    assert_eq!(
        h.poll(1),
        PollStep::PollReady(visit(2, 2, 'c'), Message::Operation(6))
    );
}

#[test]
fn message_is_given_back_without_free_substream() {
    let mut h = with(vec![awaiting(0)]);
    assert_eq!(
        h.send_to_free_substream(Message::Operation(5)),
        Some(Message::Operation(5))
    );
    h.inject_event(Message::Operation(5));
    assert_eq!(
        h.substreams[1],
        SubstreamState::OutPendingOpen {
            msg: Message::Operation(5),
            conn_id: 1
        }
    );
}

#[test]
fn opened_substream_belongs_to_the_first_request_in_the_list() {
    let mut h = with(vec![free(0, 'x'), awaiting(1), awaiting(2)]);
    h.inject_fully_negotiated_outbound('a');
    assert_eq!(
        h.substreams,
        vec![
            free(0, 'x'),
            awaiting(2),
            SubstreamState::WaitingMsg {
                conn_id: 1,
                substream: 'a'
            }
        ]
    );
}

#[test]
fn idle_pass_keeps_all_substreams() {
    let mut h = with(vec![awaiting(0), awaiting(1), awaiting(2)]);
    assert_eq!(h.poll(9), PollStep::Pending);
    assert_eq!(h.substreams, vec![awaiting(1), awaiting(2), awaiting(0)]);
    assert_eq!(h.keep_alive, KeepAlive::Yes);
}

#[test]
fn idle_connection_is_kept_for_a_while() {
    let mut h = with(vec![free(0, 'a'), free(1, 'b')]);
    assert_eq!(h.poll(5000), PollStep::Pending);
    assert_eq!(h.keep_alive, KeepAlive::Until(5060));
    assert_eq!(h.substreams.len(), 2);
    h.substreams.push(awaiting(2));
    assert_eq!(h.poll(6000), PollStep::Pending);
    assert_eq!(h.keep_alive, KeepAlive::Yes);
}

#[test]
fn busy_sink_is_asked_again() {
    let mut h = handler();
    let step = h.sink_ready(visit(0, 0, 'a'), Message::Operation(1), SinkPoll::Pending, 1);
    assert_eq!(
        step,
        PollStep::PollReady(visit(0, 0, 'a'), Message::Operation(1))
    );
}

#[test]
fn failing_substream_is_dropped_and_reported() {
    let broken = || ConnectionError::IOError(Some(IoErrorKind::Other(None)));
    let mut h = handler();
    let step = h.sink_ready(
        visit(0, 0, 'a'),
        Message::Operation(1),
        SinkPoll::Failed(broken()),
        1,
    );
    assert_eq!(step, report(broken()));
    assert_eq!(h.sent(visit(0, 0, 'a'), Err(broken())), report(broken()));
    assert_eq!(
        h.flushed(visit(0, 0, 'a'), SinkPoll::Failed(broken()), 1),
        report(broken())
    );
    assert_eq!(
        h.received(visit(0, 0, 'a'), StreamPoll::Failed(broken()), 1),
        report(broken())
    );
    assert_eq!(
        h.received(visit(0, 0, 'a'), StreamPoll::Closed, 1),
        report(ConnectionError::IOError(Some(IoErrorKind::UnexpectedEof)))
    );
    assert!(h.substreams.is_empty());
}

#[test]
fn internal_messages_are_not_sent() {
    let mut h = handler();
    let confirmed = || Message::Internal(NodeActions::ConfirmedInbound);
    assert_eq!(
        h.sink_ready(visit(0, 0, 'a'), confirmed(), SinkPoll::Ready, 1),
        PollStep::Pending
    );
    assert_eq!(h.substreams, vec![free(0, 'a')]);

    // another message waits for a substream
    let mut h = handler();
    h.pending.push(Message::Operation(8));
    h.pending.push(Message::Operation(9));
    assert_eq!(
        h.sink_ready(visit(0, 0, 'a'), confirmed(), SinkPoll::Ready, 1),
        PollStep::PollReady(visit(0, 0, 'a'), Message::Operation(9))
    );

    let mut h = handler();
    let stop = Message::Internal(NodeActions::ShutdownNode);
    assert_eq!(
        h.sink_ready(visit(0, 0, 'a'), stop, SinkPoll::Ready, 1),
        PollStep::Pending
    );
    assert!(h.substreams.is_empty());
    assert_eq!(h.keep_alive, KeepAlive::Until(61));
}

#[test]
fn terminal_message_closes_its_substream() {
    let mut h = handler();
    let step = h.received(
        visit(0, 0, 'a'),
        StreamPoll::Message {
            msg: Message::Operation(3),
            terminal: true,
        },
        1,
    );
    assert_eq!(
        step,
        PollStep::Ready(HandlerEvent::Custom(Message::Operation(3)))
    );
    assert!(h.substreams.is_empty());
}

#[test]
fn unflushed_substream_is_left_for_the_next_poll() {
    let mut h = with(vec![SubstreamState::WaitingMsg {
        conn_id: 0,
        substream: 'x',
    }]);
    let step = h.flushed(visit(1, 1, 'a'), SinkPoll::Pending, 1);
    assert_eq!(step, PollStep::PollNext(visit(0, 0, 'x')));
    assert_eq!(
        h.substreams,
        vec![SubstreamState::PendingFlush {
            conn_id: 1,
            substream: 'a'
        }]
    );
    h.received(visit(0, 0, 'x'), StreamPoll::Pending, 2);
    assert_eq!(h.poll(3), PollStep::PollNext(visit(1, 0, 'x')));
    assert_eq!(
        h.received(visit(1, 0, 'x'), StreamPoll::Pending, 4),
        PollStep::PollFlush(visit(0, 1, 'a'))
    );
}

#[test]
fn numbers_of_substreams_stay_distinct() {
    let mut h = handler();
    for n in 0..3 {
        h.inject_event(Message::Operation(n));
    }
    h.inject_dial_upgrade_error(ConnectionError::SendNotCompleted);
    h.inject_fully_negotiated_inbound('a');
    let ids: Vec<usize> = h
        .substreams
        .iter()
        .map(|s| match s {
            SubstreamState::OutPendingOpen { conn_id, .. } => *conn_id,
            SubstreamState::ReportError { conn_id, .. } => *conn_id,
            SubstreamState::WaitingMsg { conn_id, .. } => *conn_id,
            _ => panic!("no such substream was added"),
        })
        .collect();
    assert_eq!(ids, vec![0, 1, 2, 3, 4]);
    assert_eq!(h.uniq_conn_id, 5);
}

#[test]
fn states_are_told_apart() {
    assert!(free(0, 'a').is_free());
    assert!(!awaiting(0).is_free());
    assert!(awaiting(0).is_awaiting_first());
    assert!(!free(0, 'a').is_awaiting_first());
    let waiting: SubstreamState<char, u64> = SubstreamState::WaitingMsg {
        conn_id: 0,
        substream: 'a',
    };
    assert!(waiting.expects_message());
    assert!(awaiting(0).expects_message());
    assert!(!free(0, 'a').expects_message());
}

#[test]
fn messages_stay_until_they_are_sent() {
    let mut h = with(vec![free(0, 'a')]);
    for n in 1..4 {
        h.inject_event(Message::Operation(n));
    }
    // the first message has the free substream, the others ask for new ones
    assert_eq!(
        h.poll(1),
        PollStep::Ready(HandlerEvent::OutboundSubstreamRequest)
    );
    let step = h.poll(2);
    assert_eq!(
        step,
        PollStep::Ready(HandlerEvent::OutboundSubstreamRequest)
    );
    assert_eq!(
        h.pending,
        vec![Message::Operation(3), Message::Operation(2)]
    );
    assert_eq!(
        h.poll(3),
        PollStep::PollReady(visit(0, 0, 'a'), Message::Operation(1))
    );
    let step = h.sink_ready(visit(0, 0, 'a'), Message::Operation(1), SinkPoll::Ready, 4);
    assert_eq!(
        step,
        PollStep::StartSend(visit(0, 0, 'a'), Message::Operation(1))
    );
    assert_eq!(h.pending.len(), 2);
}

#[test]
fn pass_changes_which_request_is_served_first() {
    let mut h = handler();
    h.inject_event(Message::Operation(1));
    h.inject_event(Message::Operation(2));
    for _ in 0..2 {
        assert_eq!(
            h.poll(1),
            PollStep::Ready(HandlerEvent::OutboundSubstreamRequest)
        );
    }
    assert_eq!(h.substreams, vec![awaiting(1), awaiting(0)]);
    h.inject_fully_negotiated_outbound('a');
    assert_eq!(
        h.substreams,
        vec![
            awaiting(0),
            SubstreamState::WaitingMsg {
                conn_id: 1,
                substream: 'a'
            }
        ]
    );
}

#[test]
fn awaited_substreams_are_those_asked_for_and_not_opened() {
    let awaited = |h: &Handler<char, u64>| {
        h.substreams
            .iter()
            .filter(|s| s.is_awaiting_first())
            .count()
    };
    let mut h = handler();
    for n in 0..3 {
        h.inject_event(Message::Operation(n));
        assert_eq!(awaited(&h), n as usize);
        assert_eq!(
            h.poll(1),
            PollStep::Ready(HandlerEvent::OutboundSubstreamRequest)
        );
    }
    assert_eq!(awaited(&h), 3);
    h.inject_dial_upgrade_error(ConnectionError::SendNotCompleted);
    assert_eq!(awaited(&h), 3);
    h.inject_fully_negotiated_outbound('a');
    h.inject_fully_negotiated_outbound('b');
    assert_eq!(awaited(&h), 1);
    h.inject_fully_negotiated_outbound('c');
    assert_eq!(awaited(&h), 0);
}

#[test]
fn failed_upgrade_lasts() {
    let mut h = handler();
    h.inject_fully_negotiated_inbound('a');
    h.inject_dial_upgrade_error(ConnectionError::SendNotCompleted);
    assert_eq!(h.protocol_status, ProtocolStatus::FailedUpgrade);
    assert_eq!(h.uniq_conn_id, 2);
    // the confirmation is not reported any more
    assert_eq!(h.poll(1), report(ConnectionError::SendNotCompleted));
    assert_eq!(h.poll(2), PollStep::PollNext(visit(0, 0, 'a')));
    h.received(visit(0, 0, 'a'), StreamPoll::Pending, 3);
    h.inject_event(Message::Operation(1));
    h.inject_fully_negotiated_inbound('b');
    assert_eq!(h.protocol_status, ProtocolStatus::FailedUpgrade);
    assert_eq!(h.uniq_conn_id, 3);
}

#[test]
fn confirmation_waits_for_the_next_poll() {
    let confirmed = PollStep::Ready(HandlerEvent::Custom(Message::Internal(
        NodeActions::ConfirmedInbound,
    )));
    let mut h = handler();
    h.inject_event(Message::Operation(1));
    assert_eq!(
        h.poll(1),
        PollStep::Ready(HandlerEvent::OutboundSubstreamRequest)
    );
    h.inject_fully_negotiated_inbound('a');
    h.inject_event(Message::Operation(2));
    h.inject_fully_negotiated_outbound('b');
    h.inject_fully_negotiated_inbound('c');
    assert_eq!(h.protocol_status, ProtocolStatus::Confirmed);
    assert_eq!(h.poll(2), confirmed);
    assert_eq!(h.protocol_status, ProtocolStatus::Reported);
    for now in 3..6 {
        assert_ne!(h.poll(now), confirmed);
        h.inject_fully_negotiated_inbound('d');
        assert_eq!(h.protocol_status, ProtocolStatus::Reported);
    }
}

#[test]
fn finished_poll_leaves_nothing_undone() {
    let waiting = SubstreamState::WaitingMsg {
        conn_id: 1,
        substream: 'b',
    };
    let mut h = with(vec![awaiting(0), waiting, free(2, 'c')]);
    h.pending.push(Message::Operation(9));
    assert_eq!(
        h.poll(1),
        PollStep::PollReady(visit(2, 2, 'c'), Message::Operation(9))
    );
    assert_eq!(
        h.sink_ready(visit(2, 2, 'c'), Message::Operation(9), SinkPoll::Ready, 2),
        PollStep::StartSend(visit(2, 2, 'c'), Message::Operation(9))
    );
    assert_eq!(
        h.sent(visit(2, 2, 'c'), Ok(())),
        PollStep::PollFlush(visit(2, 2, 'c'))
    );
    assert_eq!(
        h.flushed(visit(2, 2, 'c'), SinkPoll::Pending, 3),
        PollStep::PollNext(visit(1, 1, 'b'))
    );
    assert_eq!(
        h.received(visit(1, 1, 'b'), StreamPoll::Pending, 4),
        PollStep::Pending
    );
    assert_eq!(
        h.substreams,
        vec![
            SubstreamState::WaitingMsg {
                conn_id: 1,
                substream: 'b'
            },
            SubstreamState::PendingFlush {
                conn_id: 2,
                substream: 'c'
            },
            awaiting(0)
        ]
    );
    assert!(h.pending.is_empty());
    assert_eq!(h.keep_alive, KeepAlive::Yes);
    assert_eq!(h.uniq_conn_id, 3);
    assert_eq!(h.protocol_status, ProtocolStatus::Unconfirmed);
}

#[test]
fn poll_gives_up_a_substream_for_a_message_of_the_node() {
    let stop = || Message::Internal(NodeActions::ShutdownNode);
    let mut h = with(vec![free(0, 'a'), free(1, 'b')]);
    h.pending.push(stop());
    assert_eq!(h.poll(1), PollStep::PollReady(visit(1, 1, 'b'), stop()));
    assert_eq!(
        h.sink_ready(visit(1, 1, 'b'), stop(), SinkPoll::Ready, 7),
        PollStep::Pending
    );
    assert_eq!(h.substreams, vec![free(0, 'a')]);
    assert!(h.pending.is_empty());
    assert_eq!(h.keep_alive, KeepAlive::Until(67));
}

#[test]
fn poll_that_reports_keeps_what_is_awaited() {
    let mut h = with(vec![
        awaiting(0),
        SubstreamState::OutPendingOpen {
            msg: Message::Operation(1),
            conn_id: 1,
        },
        awaiting(2),
    ]);
    assert_eq!(
        h.poll(1),
        PollStep::Ready(HandlerEvent::OutboundSubstreamRequest)
    );
    assert_eq!(h.substreams, vec![awaiting(0), awaiting(2), awaiting(1)]);
}
