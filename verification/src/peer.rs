use vstd::prelude::*;

verus! {

/// Identifies a peer by the bytes of its public key's multihash.
#[derive(Debug, PartialEq, Eq)]
pub struct PeerId {
    pub bytes: Vec<u8>,
}

impl View for PeerId {
    type V = Seq<u8>;

    open spec fn view(&self) -> Seq<u8> {
        self.bytes@
    }
}

/// A peer is known by all its bytes and by nothing else: two values identify the same peer if and
/// only if they agree in length and in every byte.
pub proof fn law_peer_is_known_by_its_bytes(a: PeerId, b: PeerId)
    ensures
        a@ == b@ <==> (a.bytes@.len() == b.bytes@.len() && forall|i: int|
            0 <= i < a.bytes@.len() ==> #[trigger] a.bytes@[i] == b.bytes@[i]),
{
    if a.bytes@.len() == b.bytes@.len() && forall|i: int|
        0 <= i < a.bytes@.len() ==> #[trigger] a.bytes@[i] == b.bytes@[i] {
        assert(a@ =~= b@);
    }
}

impl PeerId {
    /// Whether both values identify the same peer.
    pub fn same_as(&self, other: &PeerId) -> (same: bool)
        ensures
            same == (self@ == other@),
    {
        if self.bytes.len() != other.bytes.len() {
            return false;
        }
        let mut i: usize = 0;
        while i < self.bytes.len()
            invariant
                self.bytes.len() == other.bytes.len(),
                i <= self.bytes.len(),
                forall|k: int| 0 <= k < i ==> self.bytes@[k] == other.bytes@[k],
            decreases self.bytes.len() - i,
        {
            if self.bytes[i] != other.bytes[i] {
                return false;
            }
            i += 1;
        }
        assert(self@ =~= other@);
        true
    }
}

impl Clone for PeerId {
    fn clone(&self) -> (copy: PeerId)
        ensures
            copy@ == self@,
    {
        PeerId { bytes: self.bytes.clone() }
    }
}

} // verus!
