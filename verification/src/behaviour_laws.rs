//! What holds of the queue and the connections of a node.

use libp2p::Multiaddr;
use vstd::prelude::*;

use crate::behaviour::{
    asked, known_routes, lemma_configured_consistent, ActionView, BehaviourAction, BehaviourView,
    IdentifyConfig, InitPeerNode,
};
use crate::message::{Message, NodeActions};
use crate::peer::PeerId;
use crate::peer_table::list_of;

verus! {

/// Whether `msg` reports a failure.
pub open spec fn is_failure<T>(msg: Message<T>) -> bool {
    msg matches Message::Internal(action) && action is Error
}

/// The state after `n` polls.
pub open spec fn after_polls<T, C>(b: BehaviourView<T, C>, n: nat) -> BehaviourView<T, C>
    decreases n,
{
    if n == 0 {
        b
    } else {
        after_polls(b.poll().0, (n - 1) as nat)
    }
}

/// Something that happens to a behaviour.
pub enum BehaviourInput<T, C> {
    Event { peer: Seq<u8>, msg: Message<T> },
    Established { peer: Seq<u8>, connection: C, addr: Multiaddr },
    Disconnected { peer: Seq<u8> },
    Poll,
}

impl<T, C> BehaviourView<T, C> {
    /// The state after `input`.
    pub open spec fn next(self, input: BehaviourInput<T, C>) -> Self {
        match input {
            BehaviourInput::Event { peer, msg } => self.queued(peer, msg),
            BehaviourInput::Established { peer, connection, addr } => self.established(
                peer,
                connection,
                addr,
            ),
            BehaviourInput::Disconnected { peer } => self.disconnected(peer),
            BehaviourInput::Poll => self.poll().0,
        }
    }

    /// The state after `inputs`, one after the other.
    pub open spec fn run(self, inputs: Seq<BehaviourInput<T, C>>) -> Self
        decreases inputs.len(),
    {
        if inputs.len() == 0 {
            self
        } else {
            self.next(inputs[0]).run(inputs.drop_first())
        }
    }

    /// Whether a poll asks for `peer` to be dialled.
    pub open spec fn dials(self, peer: Seq<u8>) -> bool {
        self.poll().1 matches Some(ActionView::Dial { peer: p, .. }) && p == peer
    }
}

/// Whether `input` tells of a connection that was made with `peer`.
pub open spec fn connects<T, C>(input: BehaviourInput<T, C>, peer: Seq<u8>) -> bool {
    input matches BehaviourInput::Established { peer: p, .. } && p == peer
}

/// Whatever happens, a peer that is being dialled is not connected, a peer that is either may be
/// found somewhere, and a peer that may be found somewhere has an address.
pub proof fn law_tables_agree<T, C>(
    b: BehaviourView<T, C>,
    peer: Seq<u8>,
    msg: Message<T>,
    connection: C,
    addr: Multiaddr,
)
    requires
        b.consistent(),
    ensures
        b.queued(peer, msg).consistent(),
        b.established(peer, connection, addr).consistent(),
        b.disconnected(peer).consistent(),
        b.poll().0.consistent(),
{
}

proof fn lemma_run_consistent<T, C>(b: BehaviourView<T, C>, inputs: Seq<BehaviourInput<T, C>>)
    requires
        b.consistent(),
    ensures
        b.run(inputs).consistent(),
    decreases inputs.len(),
{
    if inputs.len() > 0 {
        lemma_run_consistent(b.next(inputs[0]), inputs.drop_first());
    }
}

/// A behaviour asks for what its action says: for the message to go to the connection that is
/// named, or for the peer to be dialled at all the addresses that are given, in their order.
pub proof fn law_action_asks_for_what_it_says<T, C>(
    peer_id: PeerId,
    handler: C,
    event: Message<T>,
    addresses: Vec<Multiaddr>,
)
    ensures
        asked(None::<BehaviourAction<T, C>>) is None,
        asked(Some(BehaviourAction::NotifyHandler { peer_id, handler, event })) == Some(
            ActionView::NotifyHandler { peer: peer_id.bytes@, handler, event },
        ),
        asked(Some(BehaviourAction::<T, C>::Dial { peer_id, addresses })) == Some(
            ActionView::<T, C>::Dial { peer: peer_id.bytes@, addresses: addresses@ },
        ),
{
}

/// A node that starts has nothing to send, is connected with nobody and dials nobody.
pub proof fn law_start_without_connections<T, C>(gateways: Seq<InitPeerNode>, peer: Seq<u8>)
    ensures
        ({
            let start = BehaviourView::<T, C>::configured(gateways);
            &&& start.queue.len() == 0
            &&& !start.connected.contains_key(peer)
            &&& !start.opening.contains(peer)
            &&& start.routing_table == known_routes(gateways)
        }),
{
}

/// What a node tells of itself is its key, the version of its software and the version of the
/// protocol with which peers identify themselves.
pub proof fn law_node_tells_its_version<K>(identify: IdentifyConfig<K>, key: K)
    ensures
        identify.of_this_version(key) <==> {
            &&& identify.protocol_version@ == "/id/1.0.0"@
            &&& identify.agent_version@ == "/locutus/agent/0.1.0"@
            &&& identify.local_public_key == key
        },
{
}

/// A message that is queued waits behind all that were queued before it, and changes nothing else.
pub proof fn law_queued_message_waits_behind_the_others<T, C>(
    b: BehaviourView<T, C>,
    peer: Seq<u8>,
    msg: Message<T>,
)
    ensures
        ({
            let after = b.queued(peer, msg);
            &&& after.queue.len() == b.queue.len() + 1
            &&& after.queue.last() == (peer, msg)
            &&& forall|i: int| 0 <= i < b.queue.len() ==> #[trigger] after.queue[i] == b.queue[i]
            &&& after.connected == b.connected
            &&& after.opening == b.opening
            &&& after.routing_table == b.routing_table
        }),
{
}

/// A connection that is made with a peer is that peer's connection, in place of any other one, and
/// the peer is not being dialled any more, whether it was or not. The address at which it was found
/// comes after those that were known. All other peers keep their connections, their addresses and
/// whether they are being dialled, and no message moves.
pub proof fn law_connection_concerns_its_peer_alone<T, C>(
    b: BehaviourView<T, C>,
    peer: Seq<u8>,
    connection: C,
    addr: Multiaddr,
    other: Seq<u8>,
)
    ensures
        ({
            let after = b.established(peer, connection, addr);
            &&& after.queue == b.queue
            &&& after.connected.contains_key(peer) && after.connected[peer] == connection
            &&& !after.opening.contains(peer)
            &&& after.routing_table.contains_key(peer)
            &&& b.routing_table.contains_key(peer) ==> after.routing_table[peer]
                == b.routing_table[peer].push(addr)
            &&& !b.routing_table.contains_key(peer) ==> after.routing_table[peer] == seq![addr]
            &&& other != peer ==> {
                &&& after.connected.contains_key(other) == b.connected.contains_key(other)
                &&& after.connected[other] == b.connected[other]
                &&& after.opening.contains(other) == b.opening.contains(other)
                &&& after.routing_table.contains_key(other) == b.routing_table.contains_key(other)
                &&& after.routing_table[other] == b.routing_table[other]
            }
        }),
{
    if !b.routing_table.contains_key(peer) {
        assert(Seq::empty().push(addr) =~= seq![addr]);
    }
}

/// A connection that is lost is no longer there. Its peer keeps its addresses, all other peers keep
/// their connections, nobody is dialled because of it, and no message moves.
pub proof fn law_loss_concerns_its_peer_alone<T, C>(
    b: BehaviourView<T, C>,
    peer: Seq<u8>,
    other: Seq<u8>,
)
    ensures
        ({
            let after = b.disconnected(peer);
            &&& !after.connected.contains_key(peer)
            &&& other != peer ==> {
                &&& after.connected.contains_key(other) == b.connected.contains_key(other)
                &&& after.connected[other] == b.connected[other]
            }
            &&& after.queue == b.queue
            &&& after.opening == b.opening
            &&& after.routing_table == b.routing_table
        }),
{
}

/// Connections with two peers do not depend on the order in which they are made or lost.
pub proof fn law_connections_of_two_peers_commute<T, C>(
    b: BehaviourView<T, C>,
    p: Seq<u8>,
    connection_p: C,
    addr_p: Multiaddr,
    q: Seq<u8>,
    connection_q: C,
    addr_q: Multiaddr,
)
    requires
        p != q,
    ensures
        b.established(p, connection_p, addr_p).established(q, connection_q, addr_q)
            == b.established(q, connection_q, addr_q).established(p, connection_p, addr_p),
        b.established(p, connection_p, addr_p).disconnected(q) == b.disconnected(q).established(
            p,
            connection_p,
            addr_p,
        ),
{
    assert(b.established(p, connection_p, addr_p).established(q, connection_q, addr_q)
        =~= b.established(q, connection_q, addr_q).established(p, connection_p, addr_p));
    assert(b.established(p, connection_p, addr_p).disconnected(q) =~= b.disconnected(
        q,
    ).established(p, connection_p, addr_p));
}

/// A poll looks at the message that has waited longest, and at no other; it never changes a
/// connection or an address. A failure, and a message for a peer that cannot be found, are dropped
/// and nothing is asked for. A message for a connected peer is given to the handler of the
/// connection. Any other message waits again, behind all others; where its peer is not being
/// dialled yet, that is asked for, at all the addresses of the peer.
pub proof fn law_poll_deals_with_the_oldest_message<T, C>(b: BehaviourView<T, C>)
    ensures
        b.poll().0.connected == b.connected,
        b.poll().0.routing_table == b.routing_table,
        b.queue.len() == 0 ==> b.poll() == (b, None::<ActionView<T, C>>),
        b.queue.len() > 0 ==> {
            let (after, action) = b.poll();
            let (peer, msg) = b.queue[0];
            let others = b.queue.skip(1);
            if msg matches Message::Internal(NodeActions::Error(_)) {
                &&& action is None
                &&& after.queue == others
                &&& after.opening == b.opening
            } else if b.connected.contains_key(peer) {
                &&& action == Some(
                    ActionView::NotifyHandler { peer, handler: b.connected[peer], event: msg },
                )
                &&& after.queue == others
                &&& after.opening == b.opening
            } else if b.opening.contains(peer) {
                &&& action is None
                &&& after.queue == others.push((peer, msg))
                &&& after.opening == b.opening
            } else if b.routing_table.contains_key(peer) {
                &&& action == Some(
                    ActionView::<T, C>::Dial { peer, addresses: b.routing_table[peer] },
                )
                &&& after.queue == others.push((peer, msg))
                &&& after.opening == b.opening.insert(peer)
            } else {
                &&& action is None
                &&& after.queue == others
                &&& after.opening == b.opening
            }
        },
{
    if b.queue.len() > 0 {
        assert(b.queue.drop_first() =~= b.queue.skip(1));
    }
}

/// However long a node runs, a peer that is being dialled is not connected, a peer that is either
/// may be found somewhere, and no list of addresses is empty.
pub proof fn law_tables_always_agree<T, C>(
    gateways: Seq<InitPeerNode>,
    inputs: Seq<BehaviourInput<T, C>>,
)
    ensures
        BehaviourView::<T, C>::configured(gateways).run(inputs).consistent(),
        ({
            let b = BehaviourView::<T, C>::configured(gateways).run(inputs);
            forall|p: Seq<u8>|
                {
                    &&& #[trigger] b.opening.contains(p) ==> !b.connected.contains_key(p)
                    &&& b.opening.contains(p) || b.connected.contains_key(p)
                        ==> b.routing_table.contains_key(p)
                    &&& b.routing_table.contains_key(p) ==> b.routing_table[p].len() > 0
                }
        }),
{
    lemma_configured_consistent::<T, C>(gateways);
    lemma_run_consistent(BehaviourView::<T, C>::configured(gateways), inputs);
}

/// A peer is dialled only where it is neither connected nor being dialled, at all the addresses
/// that are known for it, of which there is one at least where the tables agree. The poll that asks
/// for it makes the peer one that is being dialled; no other poll changes which peers are.
pub proof fn law_dial_once<T, C>(b: BehaviourView<T, C>)
    ensures
        b.poll().1 matches Some(ActionView::Dial { peer, addresses }) ==> {
            &&& !b.connected.contains_key(peer)
            &&& !b.opening.contains(peer)
            &&& b.routing_table.contains_key(peer)
            &&& addresses == b.routing_table[peer]
            &&& b.consistent() ==> addresses.len() > 0
            &&& b.poll().0.opening == b.opening.insert(peer)
        },
        !(b.poll().1 is Some && b.poll().1->0 is Dial) ==> b.poll().0.opening == b.opening,
{
}

/// A peer ceases to be one that is being dialled when, and only when, a connection with it is made.
pub proof fn law_dialling_ends_with_connection<T, C>(
    b: BehaviourView<T, C>,
    input: BehaviourInput<T, C>,
    peer: Seq<u8>,
)
    requires
        b.opening.contains(peer),
    ensures
        b.next(input).opening.contains(peer) <==> !connects(input, peer),
{
}

/// While no connection with it is made, a peer that is being dialled remains so, whatever else
/// happens and however long it takes, and no poll asks for it to be dialled a second time.
pub proof fn law_no_second_dial<T, C>(
    b: BehaviourView<T, C>,
    inputs: Seq<BehaviourInput<T, C>>,
    peer: Seq<u8>,
)
    requires
        b.opening.contains(peer),
        forall|i: int| 0 <= i < inputs.len() ==> !connects(#[trigger] inputs[i], peer),
    ensures
        b.run(inputs).opening.contains(peer),
        !b.run(inputs).dials(peer),
    decreases inputs.len(),
{
    if inputs.len() > 0 {
        assert(!connects(inputs[0], peer));
        law_dialling_ends_with_connection(b, inputs[0], peer);
        let later = inputs.drop_first();
        assert forall|i: int| 0 <= i < later.len() implies !connects(#[trigger] later[i], peer) by {
            assert(later[i] == inputs[i + 1]);
        }
        law_no_second_dial(b.next(inputs[0]), later, peer);
    }
}

/// A message leaves the queue only when it is given to the handler of its peer's connection, or
/// reports a failure, or belongs to a peer that cannot be found. No other message is touched.
pub proof fn law_messages_wait<T, C>(b: BehaviourView<T, C>)
    requires
        b.queue.len() > 0,
        b.consistent(),
    ensures
        ({
            let (peer, msg) = b.queue.first();
            let leaves = is_failure(msg) || b.connected.contains_key(peer)
                || !b.routing_table.contains_key(peer);
            b.poll().0.queue == if leaves {
                b.queue.drop_first()
            } else {
                b.queue.drop_first().push((peer, msg))
            }
        }),
        b.poll().1 matches Some(ActionView::NotifyHandler { peer, handler, event }) ==> {
            &&& b.queue.first() == (peer, event)
            &&& b.connected.contains_key(peer)
            &&& handler == b.connected[peer]
        },
{
}

/// Messages are looked at in the order in which they wait: what stands at place `i` is first
/// after `i` polls.
pub proof fn law_messages_get_their_turn<T, C>(b: BehaviourView<T, C>, i: nat)
    requires
        i < b.queue.len(),
    ensures
        after_polls(b, i).queue.len() > 0,
        after_polls(b, i).queue.first() == b.queue[i as int],
        after_polls(b, i).connected == b.connected,
    decreases i,
{
    if i > 0 {
        let next = b.poll().0;
        assert(next.queue[i - 1] == b.queue[i as int]);
        law_messages_get_their_turn(next, (i - 1) as nat);
    }
}

/// A message for a connected peer is given to the handler of the connection when its turn comes.
pub proof fn law_connected_peer_gets_message<T, C>(b: BehaviourView<T, C>, i: nat)
    requires
        i < b.queue.len(),
        b.connected.contains_key(b.queue[i as int].0),
        !is_failure(b.queue[i as int].1),
    ensures
        after_polls(b, i).poll().1 == Some(
            ActionView::NotifyHandler {
                peer: b.queue[i as int].0,
                handler: b.connected[b.queue[i as int].0],
                event: b.queue[i as int].1,
            },
        ),
{
    law_messages_get_their_turn(b, i);
}

/// A message that has made its peer be dialled is given to the handler once the connection is
/// made, after those that stand before it.
pub proof fn law_dialled_peer_gets_message<T, C>(
    b: BehaviourView<T, C>,
    connection: C,
    addr: Multiaddr,
)
    requires
        b.queue.len() > 0,
        b.poll().1 is Some,
        b.poll().1->0 is Dial,
    ensures
        ({
            let (peer, msg) = b.queue.first();
            let made = b.poll().0.established(peer, connection, addr);
            after_polls(made, (b.queue.len() - 1) as nat).poll().1 == Some(
                ActionView::NotifyHandler { peer, handler: connection, event: msg },
            )
        }),
{
    let (peer, msg) = b.queue.first();
    let made = b.poll().0.established(peer, connection, addr);
    let i = (b.queue.len() - 1) as nat;
    assert(made.queue[i as int] == (peer, msg));
    law_connected_peer_gets_message(made, i);
}

/// A peer whose connection was lost is dialled again for the next message that belongs to it.
pub proof fn law_lost_peer_is_dialled_again<T, C>(b: BehaviourView<T, C>, peer: Seq<u8>)
    requires
        b.consistent(),
        b.connected.contains_key(peer),
        b.queue.len() > 0,
        b.queue.first().0 == peer,
        !is_failure(b.queue.first().1),
    ensures
        b.disconnected(peer).poll().1 == Some(
            ActionView::<T, C>::Dial { peer, addresses: b.routing_table[peer] },
        ),
        b.disconnected(peer).poll().0.queue == b.queue.drop_first().push(b.queue.first()),
{
}

/// An address at which a peer was reached is the last at which it is dialled later, after those
/// that were known before.
pub proof fn law_addresses_are_remembered<T, C>(
    b: BehaviourView<T, C>,
    peer: Seq<u8>,
    connection: C,
    addr: Multiaddr,
)
    ensures
        b.established(peer, connection, addr).routing_table[peer] == list_of(
            b.routing_table,
            peer,
        ).push(addr),
        forall|p: Seq<u8>|
            b.routing_table.contains_key(p) ==> #[trigger] b.established(
                peer,
                connection,
                addr,
            ).routing_table.contains_key(p),
        b.disconnected(peer).routing_table == b.routing_table,
        b.poll().0.routing_table == b.routing_table,
{
}

/// Whether `node` says where `peer` may be found.
pub open spec fn locates(node: InitPeerNode, peer: Seq<u8>) -> bool {
    node.identifier@ == peer && node.addr is Some
}

/// A node that starts knows where to find a peer if and only if an address is given for it; where
/// several are given, the last one counts.
#[verifier::spinoff_prover]
pub proof fn law_known_routes(gateways: Seq<InitPeerNode>, peer: Seq<u8>)
    ensures
        known_routes(gateways).contains_key(peer) <==> exists|i: int|
            0 <= i < gateways.len() && locates(#[trigger] gateways[i], peer),
        forall|i: int|
            0 <= i < gateways.len() && locates(#[trigger] gateways[i], peer) && (forall|j: int|
                i < j < gateways.len() ==> !locates(#[trigger] gateways[j], peer))
                ==> known_routes(gateways)[peer] == seq![gateways[i].addr->0],
    decreases gateways.len(),
{
    if gateways.len() > 0 {
        let front = gateways.drop_last();
        let last = gateways.len() - 1;
        law_known_routes(front, peer);
        if locates(gateways[last], peer) {
            assert forall|i: int|
                0 <= i < gateways.len() && locates(#[trigger] gateways[i], peer) && (forall|j: int|
                    i < j < gateways.len() ==> !locates(
                        #[trigger] gateways[j],
                        peer,
                    )) implies i == last by {
                if i < last {
                    assert(!locates(gateways[last], peer));
                }
            }
        } else {
            if known_routes(front).contains_key(peer) {
                let i = choose|i: int|
                    0 <= i < front.len() && locates(#[trigger] front[i], peer);
                assert(locates(gateways[i], peer));
            }
            assert forall|i: int|
                0 <= i < gateways.len() && locates(
                    #[trigger] gateways[i],
                    peer,
                ) implies known_routes(front).contains_key(peer) by {
                assert(locates(front[i], peer));
            }
            assert forall|i: int|
                0 <= i < gateways.len() && locates(#[trigger] gateways[i], peer) && (forall|j: int|
                    i < j < gateways.len() ==> !locates(
                        #[trigger] gateways[j],
                        peer,
                    )) implies known_routes(gateways)[peer] == seq![gateways[i].addr->0] by {
                assert(front[i] == gateways[i]);
                assert forall|j: int| i < j < front.len() implies !locates(
                    #[trigger] front[j],
                    peer,
                ) by {
                    assert(!locates(gateways[j], peer));
                }
            }
        }
    }
}

} // verus!
