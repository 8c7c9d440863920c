//! What holds of the connections that a node accepts.

use libp2p::Multiaddr;
use vstd::prelude::*;

use crate::bridge::BridgeView;

verus! {

/// Something that is done to the connections, by whoever shares them.
pub enum BridgeInput {
    Add { peer: Seq<u8> },
    Drop { peer: Seq<u8> },
    Established { peer: Seq<u8>, addr: Multiaddr },
    Closed { peer: Seq<u8> },
}

impl BridgeView {
    /// The state after `input`.
    pub open spec fn next(self, input: BridgeInput) -> Self {
        match input {
            BridgeInput::Add { peer } => self.added(peer),
            BridgeInput::Drop { peer } => self.dropped(peer),
            BridgeInput::Established { peer, addr } => self.established(peer, addr),
            BridgeInput::Closed { peer } => self.closed(peer),
        }
    }
}

/// The state after `inputs`, where nothing had happened before.
pub open spec fn bridge_after(inputs: Seq<BridgeInput>) -> BridgeView
    decreases inputs.len(),
{
    if inputs.len() == 0 {
        BridgeView::empty()
    } else {
        bridge_after(inputs.drop_last()).next(inputs.last())
    }
}

/// Accepting a connection leaves the connections as they are, and accepting it a second time
/// changes nothing more. A peer that is not connected is not accepted.
pub proof fn law_accepting_twice_is_accepting_once(bridge: BridgeView, peer: Seq<u8>)
    ensures
        bridge.added(peer).connections == bridge.connections,
        bridge.added(peer).added(peer) == bridge.added(peer),
        !bridge.connections.contains_key(peer) ==> bridge.added(peer) == bridge,
        bridge.connections.contains_key(peer) ==> bridge.added(peer).accepted
            == bridge.accepted.insert(peer),
{
    assert(bridge.added(peer).added(peer) =~= bridge.added(peer));
}

/// A node that starts is connected with nobody and has accepted nobody.
pub proof fn law_nobody_is_connected_at_first(peer: Seq<u8>)
    ensures
        !BridgeView::empty().connections.contains_key(peer),
        !BridgeView::empty().accepted.contains(peer),
{
}

/// Accepting a connection accepts the peer if it is connected, and leaves everybody else as they
/// were.
pub proof fn law_accepting_concerns_its_peer_alone(
    bridge: BridgeView,
    peer: Seq<u8>,
    other: Seq<u8>,
)
    ensures
        bridge.added(peer).connections == bridge.connections,
        bridge.added(peer).accepted.contains(peer) <==> bridge.connections.contains_key(peer)
            || bridge.accepted.contains(peer),
        other != peer ==> bridge.added(peer).accepted.contains(other) == bridge.accepted.contains(
            other,
        ),
{
}

/// A connection that is made is there, at its address, in place of any other one with the peer. All
/// other connections stay, and who is accepted does not change.
pub proof fn law_made_connection_is_there(
    bridge: BridgeView,
    peer: Seq<u8>,
    addr: Multiaddr,
    other: Seq<u8>,
)
    ensures
        ({
            let after = bridge.established(peer, addr);
            &&& after.connections.contains_key(peer)
            &&& after.connections[peer] == addr
            &&& other != peer ==> after.connections.contains_key(other)
                == bridge.connections.contains_key(other) && after.connections[other]
                == bridge.connections[other]
            &&& after.accepted == bridge.accepted
        }),
{
}

/// A connection that is over is not there any more. All other connections stay, and who is accepted
/// does not change.
pub proof fn law_closed_connection_is_not_there(bridge: BridgeView, peer: Seq<u8>, other: Seq<u8>)
    ensures
        ({
            let after = bridge.closed(peer);
            &&& !after.connections.contains_key(peer)
            &&& other != peer ==> after.connections.contains_key(other)
                == bridge.connections.contains_key(other) && after.connections[other]
                == bridge.connections[other]
            &&& after.accepted == bridge.accepted
        }),
{
}

/// Dropping a connection undoes its acceptance, and concerns no other peer.
pub proof fn law_dropping_undoes_accepting(bridge: BridgeView, peer: Seq<u8>, other: Seq<u8>)
    requires
        peer != other,
    ensures
        bridge.added(peer).dropped(peer) == bridge.dropped(peer),
        !bridge.dropped(peer).accepted.contains(peer),
        bridge.dropped(peer).accepted.contains(other) == bridge.accepted.contains(other),
        bridge.dropped(peer).connections == bridge.connections,
{
    assert(bridge.added(peer).dropped(peer) =~= bridge.dropped(peer));
}

/// Whether the input at `i` accepts a connection with `peer` that is there, and no later input
/// drops it.
pub open spec fn stays_accepted(inputs: Seq<BridgeInput>, i: int, peer: Seq<u8>) -> bool {
    &&& 0 <= i < inputs.len()
    &&& inputs[i] == (BridgeInput::Add { peer })
    &&& bridge_after(inputs.take(i)).connections.contains_key(peer)
    &&& forall|j: int| i < j < inputs.len() ==> #[trigger] inputs[j] != (BridgeInput::Drop { peer })
}

/// A peer is accepted if and only if its connection was accepted while it was there and was not
/// dropped since. That a connection is closed does not change it.
pub proof fn law_accepted_until_dropped(inputs: Seq<BridgeInput>, peer: Seq<u8>)
    ensures
        bridge_after(inputs).accepted.contains(peer) <==> exists|i: int|
            stays_accepted(inputs, i, peer),
    decreases inputs.len(),
{
    if inputs.len() > 0 {
        let front = inputs.drop_last();
        let last = inputs.len() - 1;
        law_accepted_until_dropped(front, peer);
        assert(inputs.take(last) =~= front);
        let adds = inputs[last] == (BridgeInput::Add { peer }) && bridge_after(
            front,
        ).connections.contains_key(peer);
        if adds {
            assert(stays_accepted(inputs, last, peer));
        } else if inputs[last] == (BridgeInput::Drop { peer }) {
            assert forall|i: int| !stays_accepted(inputs, i, peer) by {
                if stays_accepted(inputs, i, peer) {
                    assert(i < last);
                    assert(inputs[last] != (BridgeInput::Drop { peer }));
                }
            }
        } else {
            assert(bridge_after(inputs).accepted.contains(peer) == bridge_after(
                front,
            ).accepted.contains(peer));
            assert forall|i: int|
                stays_accepted(inputs, i, peer) == #[trigger] stays_accepted(front, i, peer) by {
                if 0 <= i < last {
                    assert(inputs.take(i) =~= front.take(i));
                    assert(front[i] == inputs[i]);
                }
                if stays_accepted(inputs, i, peer) {
                    assert(i < last);
                    assert forall|j: int| i < j < front.len() implies #[trigger] front[j] != (
                    BridgeInput::Drop { peer }) by {
                        assert(inputs[j] != (BridgeInput::Drop { peer }));
                    }
                }
                if stays_accepted(front, i, peer) {
                    assert forall|j: int| i < j < inputs.len() implies #[trigger] inputs[j] != (
                    BridgeInput::Drop { peer }) by {
                        if j < last {
                            assert(front[j] != (BridgeInput::Drop { peer }));
                        }
                    }
                }
            }
            if exists|i: int| stays_accepted(inputs, i, peer) {
                let i = choose|i: int| stays_accepted(inputs, i, peer);
                assert(stays_accepted(front, i, peer));
            }
            if exists|i: int| stays_accepted(front, i, peer) {
                let i = choose|i: int| stays_accepted(front, i, peer);
                assert(stays_accepted(inputs, i, peer));
            }
        }
    }
}

} // verus!
