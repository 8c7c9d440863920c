//! What holds of the connections of a node over time.

use libp2p::Multiaddr;
use vstd::prelude::*;
use vstd::utf8::encode_utf8;

use crate::behaviour::{IdentifyConfig, InitPeerNode};
use crate::error::ConnectionError;
use crate::manager::{
    addresses_of, command, compatible, connections_after, selected, ConnMngrActions, IdentifyEvent, IdentifyInfo,
    ListenerCommand, ListenerInput, NetEvent, Selected, SwarmEvent,
};
use crate::message::Message;
use crate::peer::PeerId;
use crate::protocol::{law_protocol_name_is_utf8, protocol_name};

verus! {

/// The connections that there are after `inputs`, where there was none before.
pub open spec fn connections_of<T>(inputs: Seq<ListenerInput<T>>) -> Map<Seq<u8>, Multiaddr>
    decreases inputs.len(),
{
    if inputs.len() == 0 {
        Map::empty()
    } else {
        connections_after(connections_of(inputs.drop_last()), Ok(selected(inputs.last())))
    }
}

/// Whether `input` tells of a connection that was made with `peer`.
pub open spec fn establishes<T>(input: ListenerInput<T>, peer: Seq<u8>) -> bool {
    selected(input) matches Selected::Action(
        ConnMngrActions::ConnectionEstablished { peer_id, .. },
    ) && peer_id@ == peer
}

/// Whether `input` ends the connection with `peer`.
pub open spec fn closes<T>(input: ListenerInput<T>, peer: Seq<u8>) -> bool {
    selected(input) matches Selected::Action(ConnMngrActions::ConnectionClosed { peer_id })
        && peer_id@ == peer
}

/// Whether the input at `i` tells of a connection with `peer` that no later input ends.
pub open spec fn lasts<T>(inputs: Seq<ListenerInput<T>>, i: int, peer: Seq<u8>) -> bool {
    &&& 0 <= i < inputs.len()
    &&& establishes(inputs[i], peer)
    &&& forall|j: int| i < j < inputs.len() ==> !closes(#[trigger] inputs[j], peer)
}

/// Whether the input at `i` is the last one that tells of a connection with `peer` or of its end.
pub open spec fn last_about<T>(inputs: Seq<ListenerInput<T>>, i: int, peer: Seq<u8>) -> bool {
    &&& 0 <= i < inputs.len()
    &&& establishes(inputs[i], peer) || closes(inputs[i], peer)
    &&& forall|j: int|
        i < j < inputs.len() ==> !establishes(#[trigger] inputs[j], peer) && !closes(
            inputs[j],
            peer,
        )
}

/// Where the last input about a peer tells of a connection with it, the peer is connected, at the
/// address that this input gives. Where it tells of the end, or there is none, it is not.
pub proof fn law_connected_at_last_address<T>(inputs: Seq<ListenerInput<T>>, peer: Seq<u8>)
    ensures
        forall|i: int| #[trigger]
            last_about(inputs, i, peer) ==> match selected(inputs[i]) {
                Selected::Action(ConnMngrActions::ConnectionEstablished { addr, .. }) => {
                    &&& connections_of(inputs).contains_key(peer)
                    &&& connections_of(inputs)[peer] == addr
                },
                _ => !connections_of(inputs).contains_key(peer),
            },
        (forall|i: int| !#[trigger] last_about(inputs, i, peer)) ==> !connections_of(
            inputs,
        ).contains_key(peer),
    decreases inputs.len(),
{
    if inputs.len() > 0 {
        let front = inputs.drop_last();
        let last = inputs.len() - 1;
        law_connected_at_last_address(front, peer);
        if establishes(inputs[last], peer) || closes(inputs[last], peer) {
            assert(last_about(inputs, last, peer));
            assert forall|i: int| #[trigger] last_about(inputs, i, peer) implies i == last by {
                if i < last {
                    assert(!establishes(inputs[last], peer) && !closes(inputs[last], peer));
                }
            }
        } else {
            assert forall|i: int|
                #[trigger] last_about(inputs, i, peer) == last_about(front, i, peer) by {
                if last_about(inputs, i, peer) {
                    assert(i < last);
                    assert forall|j: int| i < j < front.len() implies !establishes(
                        #[trigger] front[j],
                        peer,
                    ) && !closes(front[j], peer) by {
                        assert(!establishes(inputs[j], peer));
                    }
                }
                if last_about(front, i, peer) {
                    assert forall|j: int| i < j < inputs.len() implies !establishes(
                        #[trigger] inputs[j],
                        peer,
                    ) && !closes(inputs[j], peer) by {
                        if j < last {
                            assert(!establishes(front[j], peer));
                        }
                    }
                }
            }
            assert forall|i: int| #[trigger] last_about(inputs, i, peer) implies match selected(
                inputs[i],
            ) {
                Selected::Action(ConnMngrActions::ConnectionEstablished { addr, .. }) => {
                    &&& connections_of(inputs).contains_key(peer)
                    &&& connections_of(inputs)[peer] == addr
                },
                _ => !connections_of(inputs).contains_key(peer),
            } by {
                assert(last_about(front, i, peer));
                assert(front[i] == inputs[i]);
            }
            if forall|i: int| !#[trigger] last_about(inputs, i, peer) {
                assert forall|i: int| !#[trigger] last_about(front, i, peer) by {
                    assert(!last_about(inputs, i, peer));
                }
            }
        }
    }
}

/// A peer is connected if and only if a connection with it was made and has not been closed since.
/// Its address is then the one that was given when a connection with it was last made.
pub proof fn law_connected_until_closed<T>(inputs: Seq<ListenerInput<T>>, peer: Seq<u8>)
    ensures
        connections_of(inputs).contains_key(peer) <==> exists|i: int| lasts(inputs, i, peer),
        forall|i: int| #[trigger]
            lasts(inputs, i, peer) && (forall|j: int|
                i < j < inputs.len() ==> !establishes(#[trigger] inputs[j], peer)) ==> (selected(
                inputs[i],
            ) matches Selected::Action(ConnMngrActions::ConnectionEstablished { addr, .. })
                && connections_of(inputs)[peer] == addr),
    decreases inputs.len(),
{
    if inputs.len() > 0 {
        let front = inputs.drop_last();
        let last = inputs.len() - 1;
        law_connected_until_closed(front, peer);
        law_connected_at_last_address(inputs, peer);
        assert forall|i: int| #[trigger]
            lasts(inputs, i, peer) && (forall|j: int|
                i < j < inputs.len() ==> !establishes(
                    #[trigger] inputs[j],
                    peer,
                )) implies last_about(inputs, i, peer) by {
            assert forall|j: int| i < j < inputs.len() implies !establishes(
                #[trigger] inputs[j],
                peer,
            ) && !closes(inputs[j], peer) by {}
        }
        if establishes(inputs[last], peer) {
            assert(lasts(inputs, last, peer));
        } else if closes(inputs[last], peer) {
            assert forall|i: int| !lasts(inputs, i, peer) by {
                if lasts(inputs, i, peer) {
                    assert(i < last);
                    assert(!closes(inputs[last], peer));
                }
            }
        } else {
            assert forall|i: int| lasts(inputs, i, peer) implies lasts(front, i, peer) by {
                assert forall|j: int| i < j < front.len() implies !closes(
                    #[trigger] front[j],
                    peer,
                ) by {
                    assert(!closes(inputs[j], peer));
                }
            }
            assert forall|i: int| lasts(front, i, peer) implies lasts(inputs, i, peer) by {
                assert forall|j: int| i < j < inputs.len() implies !closes(
                    #[trigger] inputs[j],
                    peer,
                ) by {
                    if j < last {
                        assert(!closes(front[j], peer));
                    }
                }
            }
            assert(connections_of(inputs).contains_key(peer) == connections_of(front).contains_key(
                peer,
            ));
            if exists|i: int| lasts(inputs, i, peer) {
                let i = choose|i: int| lasts(inputs, i, peer);
                assert(lasts(front, i, peer));
            }
            if exists|i: int| lasts(front, i, peer) {
                let i = choose|i: int| lasts(front, i, peer);
                assert(lasts(inputs, i, peer));
            }
        }
    }
}

/// Whether a peer can say `info` of itself that is configured with `identify` and names `name`, in
/// UTF-8, among the protocols that it speaks.
pub open spec fn announces<K>(
    identify: IdentifyConfig<K>,
    name: Seq<u8>,
    info: IdentifyInfo,
) -> bool {
    &&& info.agent_version@ == identify.agent_version@
    &&& exists|i: int|
        0 <= i < info.protocols@.len() && encode_utf8((#[trigger] info.protocols@[i])@) == name
}

/// Two nodes of this version accept each other: what such a node says of itself is compatible, and
/// makes it connected at the address at which it sees this node.
pub proof fn law_same_version_is_accepted<T, K>(
    connections: Map<Seq<u8>, Multiaddr>,
    identify: IdentifyConfig<K>,
    key: K,
    peer_id: PeerId,
    info: IdentifyInfo,
)
    requires
        identify.of_this_version(key),
        announces(identify, protocol_name(), info),
    ensures
        compatible(info),
        ({
            let input = ListenerInput::<T>::Swarm(
                SwarmEvent::Behaviour(
                    NetEvent::Identify(IdentifyEvent::Received { peer_id, info }),
                ),
            );
            &&& command(Ok(selected(input))) == ListenerCommand::<T>::Continue
            &&& connections_after(connections, Ok(selected(input))) == connections.insert(
                peer_id@,
                info.observed_addr,
            )
        }),
{
    let i = choose|i: int|
        0 <= i < info.protocols@.len() && encode_utf8((#[trigger] info.protocols@[i])@)
            == protocol_name();
    law_protocol_name_is_utf8(info.protocols@[i]@);
}

/// A peer can be talked to if and only if it runs our software, in our version, and speaks our
/// protocol, in our version; whatever else it speaks does not matter.
pub proof fn law_compatible_peer_is_one_of_ours(info: IdentifyInfo)
    ensures
        compatible(info) <==> {
            &&& info.agent_version@ == "/locutus/agent/0.1.0"@
            &&& exists|i: int|
                0 <= i < info.protocols@.len() && (#[trigger] info.protocols@[i])@
                    == "/locutus/0.1.0"@
        },
{
}

/// A peer whose software is another, or none of whose protocols is ours, is disconnected and is not
/// among the connections afterwards; all other connections stay.
pub proof fn law_foreign_peer_is_disconnected<T>(
    connections: Map<Seq<u8>, Multiaddr>,
    peer_id: PeerId,
    info: IdentifyInfo,
    other: Seq<u8>,
)
    requires
        info.agent_version@ != "/locutus/agent/0.1.0"@ || (forall|i: int|
            0 <= i < info.protocols@.len() ==> (#[trigger] info.protocols@[i])@
                != "/locutus/0.1.0"@),
    ensures
        ({
            let input = ListenerInput::<T>::Swarm(
                SwarmEvent::Behaviour(
                    NetEvent::Identify(IdentifyEvent::Received { peer_id, info }),
                ),
            );
            let after = connections_after(connections, Ok(selected(input)));
            &&& command(Ok(selected(input))) == ListenerCommand::<T>::Disconnect(peer_id)
            &&& !after.contains_key(peer_id.bytes@)
            &&& other != peer_id.bytes@ ==> after.contains_key(other) == connections.contains_key(
                other,
            ) && after[other] == connections[other]
        }),
{
    law_compatible_peer_is_one_of_ours(info);
}

/// A peer that runs our software and speaks our protocol is connected afterwards, at the address at
/// which it sees this node, and is not disconnected; all other connections stay.
pub proof fn law_own_peer_is_connected<T>(
    connections: Map<Seq<u8>, Multiaddr>,
    peer_id: PeerId,
    info: IdentifyInfo,
    i: int,
    other: Seq<u8>,
)
    requires
        info.agent_version@ == "/locutus/agent/0.1.0"@,
        0 <= i < info.protocols@.len(),
        info.protocols@[i]@ == "/locutus/0.1.0"@,
    ensures
        ({
            let input = ListenerInput::<T>::Swarm(
                SwarmEvent::Behaviour(
                    NetEvent::Identify(IdentifyEvent::Received { peer_id, info }),
                ),
            );
            let after = connections_after(connections, Ok(selected(input)));
            &&& command(Ok(selected(input))) == ListenerCommand::<T>::Continue
            &&& after.contains_key(peer_id.bytes@)
            &&& after[peer_id.bytes@] == info.observed_addr
            &&& other != peer_id.bytes@ ==> after.contains_key(other) == connections.contains_key(
                other,
            ) && after[other] == connections[other]
        }),
{
    law_compatible_peer_is_one_of_ours(info);
}

/// Whether a peer can be talked to depends on nothing but its software and whether it speaks our
/// protocol: two peers that agree in both are judged alike, whatever else they say of themselves.
pub proof fn law_peers_are_judged_by_software_and_protocol(a: IdentifyInfo, b: IdentifyInfo)
    requires
        a.agent_version@ == b.agent_version@,
        (exists|i: int|
            0 <= i < a.protocols@.len() && (#[trigger] a.protocols@[i])@ == "/locutus/0.1.0"@)
            <==> (exists|i: int|
            0 <= i < b.protocols@.len() && (#[trigger] b.protocols@[i])@ == "/locutus/0.1.0"@),
    ensures
        compatible(a) == compatible(b),
{
    law_compatible_peer_is_one_of_ours(a);
    law_compatible_peer_is_one_of_ours(b);
}

/// A message means the same wherever it comes from, and changes no connection. A cancellation is
/// dealt with as one, what is within the node needs nothing, and the rest is processed.
pub proof fn law_message_means_the_same_everywhere<T>(
    connections: Map<Seq<u8>, Multiaddr>,
    msg: Message<T>,
)
    ensures
        ({
            let received = ListenerInput::Swarm(SwarmEvent::Behaviour(NetEvent::Locutus(msg)));
            let notified = ListenerInput::Notification(Some(msg));
            &&& selected(received) == Selected::Message(msg)
            &&& selected(notified) == Selected::Message(msg)
            &&& command(Ok(selected(received))) == command(Ok(selected(notified)))
            &&& command(Ok(selected(notified))) == match msg {
                Message::Canceled(tx) => ListenerCommand::HandleCancelled(tx),
                Message::Internal(_) => ListenerCommand::Continue,
                Message::Operation(_) => ListenerCommand::Process(msg),
            }
            &&& connections_after(connections, Ok(selected(received))) == connections
            &&& connections_after(connections, Ok(selected(notified))) == connections
        }),
{
}

/// A message that is to be sent is queued for its peer, whichever message it is and whoever the
/// peer is, connected or not.
pub proof fn law_message_to_send_is_queued<T>(
    connections: Map<Seq<u8>, Multiaddr>,
    peer: PeerId,
    msg: Message<T>,
)
    ensures
        ({
            let input = ListenerInput::Bridge(Some((peer, msg)));
            &&& selected(input) == Selected::Action(ConnMngrActions::SendMessage { peer, msg })
            &&& command(Ok(selected(input))) == (ListenerCommand::Enqueue { peer, msg })
            &&& connections_after(connections, Ok(selected(input))) == connections
        }),
{
}

/// A connection that the swarm has closed is not among the connections afterwards, and its peer is
/// disconnected; all other connections stay.
pub proof fn law_closed_connection_is_gone<T>(
    connections: Map<Seq<u8>, Multiaddr>,
    peer_id: PeerId,
    other: Seq<u8>,
)
    ensures
        ({
            let input = ListenerInput::<T>::Swarm(SwarmEvent::ConnectionClosed { peer_id });
            let after = connections_after(connections, Ok(selected(input)));
            &&& command(Ok(selected(input))) == ListenerCommand::<T>::Disconnect(peer_id)
            &&& !after.contains_key(peer_id.bytes@)
            &&& other != peer_id.bytes@ ==> after.contains_key(other) == connections.contains_key(
                other,
            ) && after[other] == connections[other]
        }),
{
}

/// Everything else that the swarm reports needs nothing, and a channel that is closed ends the event
/// listener; none of it changes a connection.
pub proof fn law_other_inputs_change_nothing<T>(
    connections: Map<Seq<u8>, Multiaddr>,
    input: ListenerInput<T>,
)
    ensures
        match input {
            ListenerInput::Swarm(SwarmEvent::Behaviour(NetEvent::Ping))
            | ListenerInput::Swarm(
                SwarmEvent::Behaviour(NetEvent::Identify(IdentifyEvent::Other)),
            )
            | ListenerInput::Swarm(SwarmEvent::Dialing { .. })
            | ListenerInput::Swarm(SwarmEvent::Other) => {
                &&& selected(input) == Selected::<T>::Action(ConnMngrActions::NoAction)
                &&& command(Ok(selected(input))) is Continue
                &&& connections_after(connections, Ok(selected(input))) == connections
            },
            ListenerInput::Notification(None) | ListenerInput::Bridge(None) => {
                &&& selected(input) == Selected::<T>::Action(ConnMngrActions::ClosedChannel)
                &&& command(Ok(selected(input))) is Stop
                &&& connections_after(connections, Ok(selected(input))) == connections
            },
            _ => true,
        },
{
}

/// What has to be done about an outcome, and which connections there are then: a connection that
/// was made is entered, one that was closed is taken out and its peer disconnected, and nothing else
/// touches the connections. A failure is processed.
pub proof fn law_outcome_is_acted_upon<T>(
    connections: Map<Seq<u8>, Multiaddr>,
    outcome: Result<Selected<T>, ConnectionError>,
    other: Seq<u8>,
)
    ensures
        ({
            let after = connections_after(connections, outcome);
            match outcome {
                Err(error) => command(outcome) == ListenerCommand::<T>::ProcessError(error) && after
                    == connections,
                Ok(Selected::Message(msg)) => after == connections && command(outcome) == match msg {
                    Message::Canceled(tx) => ListenerCommand::HandleCancelled(tx),
                    Message::Internal(_) => ListenerCommand::Continue,
                    Message::Operation(_) => ListenerCommand::Process(msg),
                },
                Ok(Selected::Action(ConnMngrActions::ConnectionEstablished { peer_id, addr })) => {
                    &&& command(outcome) is Continue
                    &&& after.contains_key(peer_id.bytes@)
                    &&& after[peer_id.bytes@] == addr
                    &&& other != peer_id.bytes@ ==> after.contains_key(other)
                        == connections.contains_key(other) && after[other] == connections[other]
                },
                Ok(Selected::Action(ConnMngrActions::ConnectionClosed { peer_id })) => {
                    &&& command(outcome) == ListenerCommand::<T>::Disconnect(peer_id)
                    &&& !after.contains_key(peer_id.bytes@)
                    &&& other != peer_id.bytes@ ==> after.contains_key(other)
                        == connections.contains_key(other) && after[other] == connections[other]
                },
                Ok(Selected::Action(ConnMngrActions::SendMessage { peer, msg })) => after
                    == connections && command(outcome) == (ListenerCommand::Enqueue { peer, msg }),
                Ok(Selected::Action(ConnMngrActions::ClosedChannel)) => after == connections
                    && command(outcome) is Stop,
                Ok(Selected::Action(ConnMngrActions::NoAction)) => after == connections && command(
                    outcome,
                ) is Continue,
            }
        }),
{
}

/// The addresses that are given for nodes are told in the order of the nodes: those of two lists,
/// one after the other, are those of the first and then those of the second; a node with an address
/// has that one, and a node without has none.
pub proof fn law_addresses_keep_the_order_of_the_nodes(
    a: Seq<InitPeerNode>,
    b: Seq<InitPeerNode>,
    node: InitPeerNode,
)
    ensures
        addresses_of(a + b) == addresses_of(a) + addresses_of(b),
        addresses_of(seq![node]) == match node.addr {
            Some(addr) => seq![addr],
            None => Seq::empty(),
        },
        addresses_of(Seq::empty()).len() == 0,
    decreases b.len(),
{
    assert(seq![node].drop_last() =~= Seq::empty());
    assert(addresses_of(seq![node].drop_last()) =~= Seq::empty());
    if node.addr is Some {
        assert(addresses_of(seq![node]) =~= seq![node.addr->0]);
    }
    if b.len() == 0 {
        assert(a + b =~= a);
        assert(addresses_of(a) + addresses_of(b) =~= addresses_of(a));
    } else {
        law_addresses_keep_the_order_of_the_nodes(a, b.drop_last(), node);
        assert((a + b).drop_last() =~= a + b.drop_last());
        assert(addresses_of(a + b) =~= addresses_of(a) + addresses_of(b));
    }
}

/// A peer that speaks another protocol, or runs other software, is disconnected and does not count
/// as connected, whatever was known of it before.
pub proof fn law_incompatible_peer_is_cut_off<T>(
    connections: Map<Seq<u8>, Multiaddr>,
    peer_id: PeerId,
    info: IdentifyInfo,
)
    requires
        !compatible(info),
    ensures
        ({
            let input = ListenerInput::<T>::Swarm(
                SwarmEvent::Behaviour(
                    NetEvent::Identify(IdentifyEvent::Received { peer_id, info }),
                ),
            );
            &&& command(Ok(selected(input))) == ListenerCommand::<T>::Disconnect(peer_id)
            &&& connections_after(connections, Ok(selected(input))) == connections.remove(peer_id@)
        }),
{
}

/// The event listener ends when, and only when, one of its channels is closed.
pub proof fn law_listener_ends_with_its_channels<T>(input: ListenerInput<T>)
    ensures
        command(Ok(selected(input))) is Stop <==> (input == ListenerInput::<T>::Notification(None)
            || input == ListenerInput::<T>::Bridge(None)),
{
}

/// What an operation sends is processed wherever it comes from, and queued for its peer where it is
/// to be sent. The connections stay as they are.
pub proof fn law_operations_are_passed_on<T>(
    connections: Map<Seq<u8>, Multiaddr>,
    content: T,
    peer: PeerId,
)
    ensures
        ({
            let msg = Message::Operation(content);
            let received = ListenerInput::Swarm(SwarmEvent::Behaviour(NetEvent::Locutus(msg)));
            let notified = ListenerInput::Notification(Some(msg));
            let outgoing = ListenerInput::Bridge(Some((peer, msg)));
            &&& command(Ok(selected(received))) == ListenerCommand::Process(msg)
            &&& command(Ok(selected(notified))) == ListenerCommand::Process(msg)
            &&& command(Ok(selected(outgoing))) == (ListenerCommand::Enqueue { peer, msg })
            &&& connections_after(connections, Ok(selected(received))) == connections
            &&& connections_after(connections, Ok(selected(notified))) == connections
            &&& connections_after(connections, Ok(selected(outgoing))) == connections
        }),
{
}

} // verus!
