//! What callers get from the operations of the crate, whatever state they are called in.

use libp2p::Multiaddr;
use vstd::prelude::*;
use vstd::utf8::encode_utf8;

use crate::address::{multiaddr_bytes, multiaddr_from_connection, IpAddr};
use crate::address_laws::law_address_names_ip_and_port;
use crate::behaviour::{
    asked, config_behaviour, known_routes, BehaviourAction, InitPeerNode, LocutusBehaviour,
    NetBehaviour,
};
use crate::behaviour_laws::law_connection_concerns_its_peer_alone;
use crate::bridge::P2pBridge;
use crate::error::{ConnResult, ConnectionError, IoErrorKind};
use crate::framing::{decode_frame, encode_frame, unframed, varint, Unframed};
use crate::framing_laws::{law_packet_is_length_and_payload, law_packet_is_read_back};
use crate::handler::{
    Handler, HandlerEvent, KeepAlive, PollStep, ProtocolStatus, SinkPoll, StreamPoll, Visit,
};
use crate::manager::{
    addresses_of, command, connections_after, selected, BuiltNode, IdentifyEvent, IdentifyInfo, ListenerCommand,
    ListenerInput, NetEvent, NodeConfig, P2pConnManager, Selected, SwarmEvent,
};
use crate::message::Message;
use crate::peer::PeerId;
use crate::peer_table::PeerTable;
use crate::protocol::{law_names_of_this_version, LocutusProtocol};
use crate::substream::SubstreamState;

verus! {

/// A handler that is made has no substreams and no messages, has confirmed nothing, and is kept for
/// the time-out.
pub proof fn law_new_handler_is_idle<S, T>(now: u64, peer_timeout: u64, handler: Handler<S, T>)
    requires
        now + peer_timeout <= u64::MAX,
        call_ensures(Handler::<S, T>::new, (now, peer_timeout), handler),
    ensures
        handler.substreams@.len() == 0,
        handler.pending@.len() == 0,
        handler.uniq_conn_id == 0,
        handler.protocol_status == ProtocolStatus::Unconfirmed,
        handler.keep_alive == KeepAlive::Until((now + peer_timeout) as u64),
        handler.peer_timeout == peer_timeout,
{
    assert(handler@.substreams.len() == 0);
    assert(handler@.pending.len() == 0);
    assert(handler@.uniq_conn_id == 0);
    assert(handler@.protocol_status == ProtocolStatus::Unconfirmed);
    assert(handler@.keep_alive == KeepAlive::Until((now + peer_timeout) as u64));
    assert(handler@.peer_timeout == peer_timeout);
}

/// A connection is kept, whatever its handler holds.
pub proof fn law_connection_is_kept<S, T>(handler: Handler<S, T>, keep: KeepAlive)
    requires
        call_ensures(Handler::<S, T>::connection_keep_alive, (&handler,), keep),
    ensures
        keep == KeepAlive::Yes,
{
}

/// The kinds of substreams are told apart.
pub proof fn law_substreams_are_told_apart<S, T>(
    stream: SubstreamState<S, T>,
    free: bool,
    awaiting: bool,
    expects: bool,
)
    requires
        call_ensures(SubstreamState::<S, T>::is_free, (&stream,), free),
        call_ensures(SubstreamState::<S, T>::is_awaiting_first, (&stream,), awaiting),
        call_ensures(SubstreamState::<S, T>::expects_message, (&stream,), expects),
    ensures
        free <==> stream is FreeStream,
        awaiting <==> stream is AwaitingFirst,
        expects <==> stream is AwaitingFirst || stream is WaitingMsg,
{
}

/// A substream that has taken a message is flushed next, whatever else the handler holds, and the
/// handler stays as it is.
pub proof fn law_call_sent<S, T>(
    handler: &mut Handler<S, T>,
    visit: Visit<S>,
    answer: Result<(), ConnectionError>,
    step: PollStep<S, T>,
)
    requires
        call_ensures(Handler::<S, T>::sent, (handler, visit, answer), step),
    ensures
        answer is Ok ==> step == PollStep::<S, T>::PollFlush(visit),
        answer is Err ==> step is Ready,
        final(handler).substreams@ == old(handler).substreams@,
        final(handler).pending@ == old(handler).pending@,
{
    assert(final(handler)@.substreams == old(handler)@.substreams);
    assert(final(handler)@.pending == old(handler)@.pending);
}

/// A message of the remote is reported as it is, and the substream it came on is kept for the
/// answer unless the message ends its operation.
pub proof fn law_call_received<S, T>(
    handler: &mut Handler<S, T>,
    visit: Visit<S>,
    msg: Message<T>,
    terminal: bool,
    now: u64,
    step: PollStep<S, T>,
)
    requires
        call_ensures(
            Handler::<S, T>::received,
            (handler, visit, StreamPoll::Message { msg, terminal }, now),
            step,
        ),
    ensures
        step == PollStep::<S, T>::Ready(HandlerEvent::Custom(msg)),
        terminal ==> final(handler).substreams@ == old(handler).substreams@,
        !terminal ==> final(handler).substreams@ == old(handler).substreams@.push(
            SubstreamState::FreeStream { conn_id: visit.conn_id, substream: visit.substream },
        ),
        final(handler).pending@ == old(handler).pending@,
{
    assert(final(handler)@.substreams == if terminal {
        old(handler)@.substreams
    } else {
        old(handler)@.substreams.push(
            SubstreamState::FreeStream { conn_id: visit.conn_id, substream: visit.substream },
        )
    });
    assert(final(handler)@.pending == old(handler)@.pending);
}

/// A substream that is flushed is asked for the answer, and one that is ready for a message that
/// goes to the remote is handed it; the handler stays as it is.
pub proof fn law_calls_of_a_sending<S, T>(
    handler: &mut Handler<S, T>,
    flushing: &mut Handler<S, T>,
    visit: Visit<S>,
    msg: Message<T>,
    now: u64,
    ready: PollStep<S, T>,
    flushed: PollStep<S, T>,
)
    requires
        !(msg is Internal),
        call_ensures(
            Handler::<S, T>::sink_ready,
            (handler, visit, msg, SinkPoll::Ready, now),
            ready,
        ),
        call_ensures(Handler::<S, T>::flushed, (flushing, visit, SinkPoll::Ready, now), flushed),
    ensures
        ready == PollStep::StartSend(visit, msg),
        flushed == PollStep::<S, T>::PollNext(visit),
        final(handler)@ == old(handler)@,
        final(flushing)@ == old(flushing)@,
{
}

/// The calls of a handler do to it what the model of a handler says.
pub proof fn law_poll_calls_follow_the_model<S, T>(
    polled: &mut Handler<S, T>,
    asked_ready: &mut Handler<S, T>,
    flushing: &mut Handler<S, T>,
    receiving: &mut Handler<S, T>,
    visit: Visit<S>,
    msg: Message<T>,
    answer: SinkPoll,
    reply: StreamPoll<T>,
    now: u64,
    steps: (PollStep<S, T>, PollStep<S, T>, PollStep<S, T>, PollStep<S, T>),
)
    requires
        call_ensures(Handler::<S, T>::poll, (polled, now), steps.0),
        call_ensures(
            Handler::<S, T>::sink_ready,
            (asked_ready, visit, msg, answer, now),
            steps.1,
        ),
        call_ensures(Handler::<S, T>::flushed, (flushing, visit, answer, now), steps.2),
        call_ensures(Handler::<S, T>::received, (receiving, visit, reply, now), steps.3),
    ensures
        (final(polled)@, steps.0) == old(polled)@.poll(now),
        (final(asked_ready)@, steps.1) == old(asked_ready)@.sink_ready(visit, msg, answer, now),
        (final(flushing)@, steps.2) == old(flushing)@.flushed(visit, answer, now),
        (final(receiving)@, steps.3) == old(receiving)@.received(visit, reply, now),
{
}

/// What is injected into a handler does to it what the model of a handler says.
pub proof fn law_injections_follow_the_model<S, T>(
    given: &mut Handler<S, T>,
    opened: &mut Handler<S, T>,
    inbound: &mut Handler<S, T>,
    failed: &mut Handler<S, T>,
    tried: &mut Handler<S, T>,
    msg: Message<T>,
    stream: S,
    error: ConnectionError,
    back: Option<Message<T>>,
)
    requires
        call_ensures(Handler::<S, T>::inject_event, (given, msg), ()),
        call_ensures(Handler::<S, T>::inject_fully_negotiated_outbound, (opened, stream), ()),
        call_ensures(Handler::<S, T>::inject_fully_negotiated_inbound, (inbound, stream), ()),
        call_ensures(Handler::<S, T>::inject_dial_upgrade_error, (failed, error), ()),
        call_ensures(Handler::<S, T>::send_to_free_substream, (tried, msg), back),
    ensures
        final(given)@ == old(given)@.inject_event(msg),
        final(opened)@ == old(opened)@.negotiated_outbound(stream),
        final(inbound)@ == old(inbound)@.negotiated_inbound(stream),
        final(failed)@ == old(failed)@.dial_upgrade_failed(error),
        (final(tried)@, back) == old(tried)@.send_to_free(msg),
{
}

/// A connection that is made with one peer leaves the connections of all others, and is the one of
/// the peer from then on.
pub proof fn law_call_connection_established<T, C>(
    b: &mut LocutusBehaviour<T, C>,
    peer_id: PeerId,
    connection_id: C,
    addr: Multiaddr,
    other: Seq<u8>,
)
    requires
        old(b).wf(),
        call_ensures(
            LocutusBehaviour::<T, C>::inject_connection_established,
            (b, &peer_id, connection_id, addr),
            (),
        ),
    ensures
        final(b).wf(),
        final(b)@.connected.contains_key(peer_id.bytes@),
        final(b)@.connected[peer_id.bytes@] == connection_id,
        !final(b)@.opening.contains(peer_id.bytes@),
        other != peer_id.bytes@ ==> final(b)@.connected.contains_key(other) == old(
            b,
        )@.connected.contains_key(other) && final(b)@.connected[other] == old(b)@.connected[other],
        final(b)@.queue == old(b)@.queue,
{
    law_connection_concerns_its_peer_alone(old(b)@, peer_id@, connection_id, addr, other);
}

/// The calls of a behaviour do to it what the model of a behaviour says.
pub proof fn law_behaviour_calls_follow_the_model<T, C: Copy>(
    queued: &mut LocutusBehaviour<T, C>,
    lost: &mut LocutusBehaviour<T, C>,
    polled: &mut LocutusBehaviour<T, C>,
    peer_id: PeerId,
    msg: Message<T>,
    action: Option<BehaviourAction<T, C>>,
)
    requires
        old(queued).wf(),
        old(lost).wf(),
        old(polled).wf(),
        call_ensures(LocutusBehaviour::<T, C>::inject_event, (queued, peer_id, msg), ()),
        call_ensures(LocutusBehaviour::<T, C>::inject_disconnected, (lost, &peer_id), ()),
        call_ensures(LocutusBehaviour::<T, C>::poll, (polled,), action),
    ensures
        final(queued)@ == old(queued)@.queued(peer_id.bytes@, msg),
        final(lost)@ == old(lost)@.disconnected(peer_id.bytes@),
        (final(polled)@, asked(action)) == old(polled)@.poll(),
{
}

/// A node that is configured tells its key and its version, knows its gateways, and has nothing
/// else; whether pinging alone keeps a connection is as was asked for.
pub proof fn law_call_config_behaviour<T, C, K>(
    key: K,
    debug_build: bool,
    gateways: Vec<InitPeerNode>,
    net: NetBehaviour<T, C, K>,
)
    requires
        call_ensures(config_behaviour::<T, C, K>, (key, debug_build, &gateways), net),
    ensures
        net.identify.protocol_version@ == "/id/1.0.0"@,
        net.identify.agent_version@ == "/locutus/agent/0.1.0"@,
        net.identify.local_public_key == key,
        net.ping_keep_alive == debug_build,
        net.locutus.wf(),
        net.locutus@.routing_table == known_routes(gateways@),
        net.locutus@.queue.len() == 0,
        forall|p: Seq<u8>| !(#[trigger] net.locutus@.connected.contains_key(p)),
        forall|p: Seq<u8>| !(#[trigger] net.locutus@.opening.contains(p)),
{
}

/// A peer is compatible if and only if its software is ours and one of its protocols is.
pub proof fn law_call_is_compatible_peer<G>(info: IdentifyInfo, yes: bool)
    requires
        call_ensures(P2pConnManager::<G>::is_compatible_peer, (&info,), yes),
    ensures
        yes <==> {
            &&& info.agent_version@ == "/locutus/agent/0.1.0"@
            &&& exists|i: int|
                0 <= i < info.protocols@.len() && (#[trigger] info.protocols@[i])@
                    == "/locutus/0.1.0"@
        },
{
}

/// What the event listener does about a message does not depend on whether the node or a peer has
/// sent it, and the connections stay.
pub proof fn law_call_event_listener_on_messages<G, T>(
    notified: &mut P2pConnManager<G>,
    received: &mut P2pConnManager<G>,
    msg: Message<T>,
    of_notified: ListenerCommand<T>,
    of_received: ListenerCommand<T>,
)
    requires
        call_ensures(
            P2pConnManager::<G>::run_event_listener::<T>,
            (notified, ListenerInput::Notification(Some(msg))),
            of_notified,
        ),
        call_ensures(
            P2pConnManager::<G>::run_event_listener::<T>,
            (
                received,
                ListenerInput::Swarm(SwarmEvent::Behaviour(NetEvent::Locutus(msg))),
            ),
            of_received,
        ),
    ensures
        of_notified == of_received,
        msg matches Message::Canceled(tx) ==> of_notified == ListenerCommand::<
            T,
        >::HandleCancelled(tx),
        msg is Internal ==> of_notified is Continue,
        msg is Operation ==> of_notified == ListenerCommand::Process(msg),
        final(notified).bridge@ == old(notified).bridge@,
        final(received).bridge@ == old(received).bridge@,
{
    assert(final(notified).bridge@ =~= old(notified).bridge@);
    assert(final(received).bridge@ =~= old(received).bridge@);
}

/// A peer that identifies itself is connected afterwards if it is one of ours, and else is
/// disconnected and not connected; nobody else is concerned.
pub proof fn law_call_event_listener_on_identification<G, T>(
    manager: &mut P2pConnManager<G>,
    peer_id: PeerId,
    info: IdentifyInfo,
    next: ListenerCommand<T>,
    other: Seq<u8>,
)
    requires
        call_ensures(
            P2pConnManager::<G>::run_event_listener::<T>,
            (
                manager,
                ListenerInput::Swarm(
                    SwarmEvent::Behaviour(
                        NetEvent::Identify(IdentifyEvent::Received { peer_id, info }),
                    ),
                ),
            ),
            next,
        ),
    ensures
        ({
            let ours = info.agent_version@ == "/locutus/agent/0.1.0"@ && exists|i: int|
                0 <= i < info.protocols@.len() && (#[trigger] info.protocols@[i])@
                    == "/locutus/0.1.0"@;
            let before = old(manager).bridge@.connections;
            let after = final(manager).bridge@.connections;
            &&& ours ==> next is Continue && after.contains_key(peer_id.bytes@)
                && after[peer_id.bytes@] == info.observed_addr
            &&& !ours ==> next == ListenerCommand::<T>::Disconnect(peer_id)
                && !after.contains_key(peer_id.bytes@)
            &&& other != peer_id.bytes@ ==> after.contains_key(other) == before.contains_key(other)
                && after[other] == before[other]
            &&& final(manager).bridge@.accepted == old(manager).bridge@.accepted
        }),
{
}

/// The calls of the manager give, and do to the connections, what the model of the event listener
/// says, and leave everything else of the manager alone.
pub proof fn law_manager_calls_follow_the_model<G, T>(
    acting: &mut P2pConnManager<G>,
    listening: &mut P2pConnManager<G>,
    input: ListenerInput<T>,
    picked: Selected<T>,
    outcome: Result<Selected<T>, ConnectionError>,
    commands: (ListenerCommand<T>, ListenerCommand<T>),
)
    requires
        call_ensures(P2pConnManager::<G>::select::<T>, (input,), picked),
        call_ensures(P2pConnManager::<G>::act::<T>, (acting, outcome), commands.0),
        call_ensures(
            P2pConnManager::<G>::run_event_listener::<T>,
            (listening, input),
            commands.1,
        ),
    ensures
        picked == selected(input),
        commands.0 == command(outcome),
        commands.1 == command(Ok(picked)),
        final(acting).bridge@.connections == connections_after(
            old(acting).bridge@.connections,
            outcome,
        ),
        final(listening).bridge@.connections == connections_after(
            old(listening).bridge@.connections,
            Ok(picked),
        ),
        final(acting).bridge@.accepted == old(acting).bridge@.accepted,
        final(listening).bridge@.accepted == old(listening).bridge@.accepted,
        final(acting).gateways == old(acting).gateways,
        final(listening).gateways == old(listening).gateways,
        final(acting).listen_on == old(acting).listen_on,
        final(listening).listen_on == old(listening).listen_on,
{
}

/// A node is built if and only if its gateways are known, and fails with what hindered that. It
/// listens where it is told if both an IP address and a port are given, and nowhere else.
pub proof fn law_call_build<G, T, C, K, E>(
    config: NodeConfig,
    key: K,
    debug_build: bool,
    gateways: Result<Vec<G>, E>,
    built: Result<BuiltNode<G, T, C, K>, E>,
)
    requires
        call_ensures(
            P2pConnManager::<G>::build::<T, C, K, E>,
            (&config, key, debug_build, gateways),
            built,
        ),
    ensures
        gateways is Ok <==> built is Ok,
        gateways matches Err(error) ==> built matches Err(e) && e == error,
        built matches Ok(node) ==> {
            &&& node.manager.gateways == gateways->Ok_0
            &&& config.local_ip is Some && config.local_port is Some ==> node.manager.listen_on
                == Some((config.local_ip->0, config.local_port->0))
            &&& config.local_ip is None || config.local_port is None
                ==> node.manager.listen_on is None
            &&& node.behaviour.identify.local_public_key == key
            &&& node.behaviour.identify.agent_version@ == "/locutus/agent/0.1.0"@
            &&& node.behaviour.identify.protocol_version@ == "/id/1.0.0"@
            &&& node.behaviour.ping_keep_alive == debug_build
            &&& node.external_addresses@ == addresses_of(config.remote_nodes@)
            &&& node.behaviour.locutus.wf()
            &&& forall|p: Seq<u8>|
                !(#[trigger] node.behaviour.locutus@.connected.contains_key(p))
            &&& forall|p: Seq<u8>| !(#[trigger] node.behaviour.locutus@.opening.contains(p))
            &&& node.behaviour.locutus@.routing_table == known_routes(config.remote_nodes@)
            &&& node.behaviour.locutus@.queue.len() == 0
            &&& forall|p: Seq<u8>| !(#[trigger] node.manager.bridge@.connections.contains_key(p))
            &&& forall|p: Seq<u8>| !(#[trigger] node.manager.bridge@.accepted.contains(p))
        },
{
}

/// The address of a place to listen names its IP address and its port, and the manager listens there
/// and nowhere else.
pub proof fn law_call_listen_on<G>(
    manager: P2pConnManager<G>,
    at: Option<Multiaddr>,
    conn: (IpAddr, u16),
    made: Multiaddr,
)
    requires
        call_ensures(P2pConnManager::<G>::listen_on, (&manager,), at),
        call_ensures(multiaddr_from_connection, (conn,), made),
    ensures
        at is Some <==> manager.listen_on is Some,
        at is Some && manager.listen_on == Some(conn) ==> multiaddr_bytes(at->0)
            == multiaddr_bytes(made),
        ({
            let bytes = multiaddr_bytes(made);
            let octets = match conn.0 {
                IpAddr::V4(octets) => octets@,
                IpAddr::V6(octets) => octets@,
            };
            let n = octets.len() as int;
            &&& bytes.len() == n + 4
            &&& bytes[0] == if conn.0 is V4 {
                4u8
            } else {
                41u8
            }
            &&& bytes.subrange(1, n + 1) == octets
            &&& bytes[n + 1] == 6
            &&& bytes[n + 2] * 256 + bytes[n + 3] == conn.1
        }),
{
    law_address_names_ip_and_port(conn.0, conn.1);
}

/// The protocol is negotiated under its name.
pub proof fn law_call_protocol_info(protocol: LocutusProtocol, name: &'static [u8])
    requires
        call_ensures(LocutusProtocol::protocol_info, (&protocol,), name),
    ensures
        name@ == encode_utf8("/locutus/0.1.0"@),
{
    law_names_of_this_version();
}

/// A new bridge has no connections. Its questions are answered by what it holds.
pub proof fn law_calls_that_ask_a_bridge(
    fresh: P2pBridge,
    bridge: P2pBridge,
    peer: PeerId,
    connected: bool,
    accepted: bool,
)
    requires
        call_ensures(P2pBridge::new, (), fresh),
        call_ensures(P2pBridge::is_connected, (&bridge, &peer), connected),
        call_ensures(P2pBridge::is_accepted, (&bridge, &peer), accepted),
    ensures
        !fresh@.connections.contains_key(peer.bytes@),
        !fresh@.accepted.contains(peer.bytes@),
        connected == bridge@.connections.contains_key(peer.bytes@),
        accepted == bridge@.accepted.contains(peer.bytes@),
{
}

/// Accepting succeeds always, and accepts the peer if it is connected; dropping ends it. Nobody else
/// is concerned, and the connections stay.
pub proof fn law_calls_that_accept(
    adding: &mut P2pBridge,
    dropping: &mut P2pBridge,
    peer: PeerId,
    outcome: ConnResult<()>,
    other: Seq<u8>,
)
    requires
        call_ensures(P2pBridge::add_connection, (adding, peer), outcome),
        call_ensures(P2pBridge::drop_connection, (dropping, &peer), ()),
    ensures
        outcome is Ok,
        final(adding)@.connections == old(adding)@.connections,
        final(adding)@.accepted.contains(peer.bytes@) <==> old(
            adding,
        )@.connections.contains_key(peer.bytes@) || old(adding)@.accepted.contains(peer.bytes@),
        final(dropping)@.connections == old(dropping)@.connections,
        !final(dropping)@.accepted.contains(peer.bytes@),
        other != peer.bytes@ ==> final(adding)@.accepted.contains(other) == old(
            adding,
        )@.accepted.contains(other) && final(dropping)@.accepted.contains(other) == old(
            dropping,
        )@.accepted.contains(other),
{
}

/// A connection that is made is there at its address; one that is over is not, and its address is
/// given back. Nobody else is concerned, and who is accepted stays so.
pub proof fn law_calls_that_connect(
    making: &mut P2pBridge,
    ending: &mut P2pBridge,
    peer: PeerId,
    addr: Multiaddr,
    given_back: Option<Multiaddr>,
    other: Seq<u8>,
)
    requires
        call_ensures(P2pBridge::connection_established, (making, peer, addr), ()),
        call_ensures(P2pBridge::connection_closed, (ending, &peer), given_back),
    ensures
        final(making)@.connections.contains_key(peer.bytes@),
        final(making)@.connections[peer.bytes@] == addr,
        !final(ending)@.connections.contains_key(peer.bytes@),
        given_back is Some <==> old(ending)@.connections.contains_key(peer.bytes@),
        given_back matches Some(a) ==> a == old(ending)@.connections[peer.bytes@],
        final(making)@.accepted == old(making)@.accepted,
        final(ending)@.accepted == old(ending)@.accepted,
        other != peer.bytes@ ==> {
            &&& final(making)@.connections.contains_key(other) == old(
                making,
            )@.connections.contains_key(other)
            &&& final(making)@.connections[other] == old(making)@.connections[other]
            &&& final(ending)@.connections.contains_key(other) == old(
                ending,
            )@.connections.contains_key(other)
            &&& final(ending)@.connections[other] == old(ending)@.connections[other]
        },
{
}

/// What is handed over to be sent is the message, for its target; sending has succeeded if and only
/// if it was delivered.
pub proof fn law_calls_that_send<T>(
    bridge: P2pBridge,
    target: PeerId,
    msg: Message<T>,
    handed: (PeerId, Message<T>),
    delivered: bool,
    outcome: ConnResult<()>,
)
    requires
        call_ensures(P2pBridge::send::<T>, (&bridge, &target, msg), handed),
        call_ensures(P2pBridge::send_outcome, (delivered,), outcome),
    ensures
        handed.0.bytes@ == target.bytes@,
        handed.1 == msg,
        outcome is Ok <==> delivered,
        !delivered ==> outcome == ConnResult::<()>::Err(ConnectionError::SendNotCompleted),
{
    assert(handed.0@ == target@);
}

/// A payload is framed if and only if it is within the limit, and what is read from the frame, with
/// any bytes after it, is the payload and those bytes.
pub proof fn law_framed_payload_is_read_back(
    payload: Vec<u8>,
    frame: ConnResult<Vec<u8>>,
    buf: Vec<u8>,
    rest: Seq<u8>,
    found: ConnResult<Option<(Vec<u8>, Vec<u8>)>>,
)
    requires
        call_ensures(encode_frame, (payload,), frame),
        call_ensures(decode_frame, (&buf,), found),
        frame is Ok ==> buf@ == frame->Ok_0@ + rest,
    ensures
        frame is Ok <==> payload@.len() <= 16384,
        frame is Err ==> frame == ConnResult::<Vec<u8>>::Err(
            ConnectionError::IOError(Some(IoErrorKind::PermissionDenied)),
        ),
        frame matches Ok(bytes) ==> {
            &&& bytes@ == varint(payload@.len()) + payload@
            &&& found matches Ok(Some((read, left)))
            &&& read@ == payload@
            &&& left@ == rest
        },
{
    if frame is Ok {
        law_packet_is_read_back(payload@, rest);
        law_packet_is_length_and_payload(0, payload@);
        assert(frame->Ok_0@ =~= varint(payload@.len()) + payload@);
    }
}

/// Received bytes give a packet and what comes after it once it is there; bytes that begin with a
/// length that is none are refused with the reason, and a packet above the limit is refused as not
/// permitted.
pub proof fn law_call_decode_frame(
    buf: Vec<u8>,
    found: ConnResult<Option<(Vec<u8>, Vec<u8>)>>,
)
    requires
        call_ensures(decode_frame, (&buf,), found),
    ensures
        match found {
            Ok(None) => unframed(buf@, 16384) is Incomplete,
            Ok(Some((payload, rest))) => unframed(buf@, 16384) == (Unframed::Packet {
                payload: payload@,
                rest: rest@,
            }),
            Err(ConnectionError::IOError(Some(IoErrorKind::PermissionDenied))) => unframed(
                buf@,
                16384,
            ) is Oversized,
            Err(ConnectionError::IOError(Some(IoErrorKind::Other(Some(text))))) => unframed(
                buf@,
                16384,
            ) == (Unframed::Malformed { reason: text@ }),
            Err(_) => false,
        },
{
}

/// A table of peers gives back what was put in for a peer, forgets what is taken out, and keeps what
/// belongs to other peers.
pub proof fn law_calls_of_a_peer_table<V>(
    fresh: PeerTable<V>,
    table: PeerTable<V>,
    filling: &mut PeerTable<V>,
    emptying: &mut PeerTable<V>,
    peer: PeerId,
    value: V,
    found: bool,
    got: Option<&V>,
    removed: Option<V>,
    other: Seq<u8>,
)
    requires
        table.wf(),
        old(filling).wf(),
        old(emptying).wf(),
        call_ensures(PeerTable::<V>::new, (), fresh),
        call_ensures(PeerTable::<V>::contains_key, (&table, &peer), found),
        call_ensures(PeerTable::<V>::get, (&table, &peer), got),
        call_ensures(PeerTable::<V>::insert, (filling, peer, value), ()),
        call_ensures(PeerTable::<V>::remove, (emptying, &peer), removed),
    ensures
        fresh.wf() && !fresh@.contains_key(other),
        found <==> table@.contains_key(peer.bytes@),
        got is Some <==> table@.contains_key(peer.bytes@),
        got matches Some(v) ==> *v == table@[peer.bytes@],
        final(filling).wf() && final(emptying).wf(),
        final(filling)@.contains_key(peer.bytes@),
        final(filling)@[peer.bytes@] == value,
        !final(emptying)@.contains_key(peer.bytes@),
        removed is Some <==> old(emptying)@.contains_key(peer.bytes@),
        removed matches Some(v) ==> v == old(emptying)@[peer.bytes@],
        other != peer.bytes@ ==> {
            &&& final(filling)@.contains_key(other) == old(filling)@.contains_key(other)
            &&& final(filling)@[other] == old(filling)@[other]
            &&& final(emptying)@.contains_key(other) == old(emptying)@.contains_key(other)
            &&& final(emptying)@[other] == old(emptying)@[other]
        },
{
}

/// What is appended for a peer comes after what its list held, which is nothing where there was no
/// list; the lists of other peers stay.
pub proof fn law_call_append<A>(
    table: &mut PeerTable<Vec<A>>,
    peer: PeerId,
    item: A,
    other: Seq<u8>,
)
    requires
        old(table).wf(),
        call_ensures(PeerTable::<Vec<A>>::append, (table, peer, item), ()),
    ensures
        final(table).wf(),
        final(table).lists().contains_key(peer.bytes@),
        old(table).lists().contains_key(peer.bytes@) ==> final(table).lists()[peer.bytes@] == old(
            table,
        ).lists()[peer.bytes@].push(item),
        !old(table).lists().contains_key(peer.bytes@) ==> final(table).lists()[peer.bytes@]
            == seq![item],
        other != peer.bytes@ ==> final(table).lists().contains_key(other) == old(
            table,
        ).lists().contains_key(other) && final(table).lists()[other] == old(table).lists()[other],
{
    if !old(table).lists().contains_key(peer@) {
        assert(Seq::empty().push(item) =~= seq![item]);
    }
}

/// Two values identify the same peer if and only if their bytes are the same.
pub proof fn law_call_same_as(a: PeerId, b: PeerId, same: bool)
    requires
        call_ensures(PeerId::same_as, (&a, &b), same),
    ensures
        same <==> a.bytes@ == b.bytes@,
{
}

} // verus!
