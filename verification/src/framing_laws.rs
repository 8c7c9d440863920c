//! What holds of packets that are written and read.

use vstd::prelude::*;

use crate::framing::{
    header, max_header_size, packet, unframed, varint, varint_value, Header, Unframed,
    DEFAULT_MAX_PACKET_SIZE,
};
use crate::seq_ops::lemma_first_index;

verus! {

/// The packets that carry `payloads`, one after the other.
pub open spec fn packets(payloads: Seq<Seq<u8>>) -> Seq<u8>
    decreases payloads.len(),
{
    if payloads.len() == 0 {
        Seq::empty()
    } else {
        packet(payloads[0]) + packets(payloads.drop_first())
    }
}

/// The payloads of the first `count` packets in `buf`, as far as they can be read.
pub open spec fn read_packets(buf: Seq<u8>, max: nat, count: nat) -> Seq<Seq<u8>>
    decreases count,
{
    if count == 0 {
        Seq::empty()
    } else {
        match unframed(buf, max) {
            Unframed::Packet { payload, rest } => seq![payload] + read_packets(
                rest,
                max,
                (count - 1) as nat,
            ),
            _ => Seq::empty(),
        }
    }
}

/// `128` to the power of `k`.
spec fn groups(k: nat) -> nat
    decreases k,
{
    if k == 0 {
        1
    } else {
        128 * groups((k - 1) as nat)
    }
}

/// The last byte of a number is the only one without the highest bit, and is not zero where it is
/// not the only byte.
proof fn lemma_varint_bytes(n: nat)
    ensures
        varint(n).len() > 0,
        forall|i: int| 0 <= i < varint(n).len() - 1 ==> #[trigger] varint(n)[i] >= 128,
        varint(n).last() < 128,
        n > 0 ==> varint(n).last() > 0,
    decreases n,
{
    if n >= 128 {
        lemma_varint_bytes(n / 128);
        let tail = varint(n / 128);
        assert forall|i: int| 0 <= i < varint(n).len() - 1 implies #[trigger] varint(n)[i]
            >= 128 by {
            if i > 0 {
                assert(varint(n)[i] == tail[i - 1]);
            }
        }
        assert(varint(n).last() == tail.last());
    }
}

proof fn lemma_varint_value(n: nat)
    ensures
        varint_value(varint(n)) == n,
    decreases n,
{
    if n < 128 {
        assert(varint(n).drop_first() =~= Seq::<u8>::empty());
        assert(varint_value(Seq::<u8>::empty()) == 0);
        assert(varint(n)[0] == n);
    } else {
        lemma_varint_value(n / 128);
        assert(varint(n).drop_first() =~= varint(n / 128));
        assert(varint(n)[0] == n % 128 + 128);
    }
}

proof fn lemma_varint_len(n: nat, k: nat)
    requires
        k > 0,
        n < groups(k),
    ensures
        varint(n).len() <= k,
    decreases k,
{
    if n >= 128 {
        if k == 1 {
            assert(groups(1) == 128 * groups(0));
        }
        assert(n / 128 < groups((k - 1) as nat)) by (nonlinear_arith)
            requires
                n < 128 * groups((k - 1) as nat),
        ;
        lemma_varint_len(n / 128, (k - 1) as nat);
    }
}

proof fn lemma_varint_fits(n: nat)
    requires
        n <= usize::MAX,
    ensures
        varint(n).len() <= max_header_size(),
{
    reveal_with_fuel(groups, 11);
    assert(usize::BITS == 32 || usize::BITS == 64);
    if usize::BITS == 32 {
        assert(usize::MAX < groups(5));
        lemma_varint_len(n, 5);
    } else {
        assert(usize::MAX < groups(10));
        lemma_varint_len(n, 10);
    }
}

/// Bytes that begin with a length are read as that length.
pub proof fn law_header_is_read_back(n: nat, rest: Seq<u8>)
    requires
        n <= usize::MAX,
    ensures
        header(varint(n) + rest) == (Header::Length { value: n, size: varint(n).len() }),
{
    let buf = varint(n) + rest;
    let stop = varint(n).len() - 1;
    lemma_varint_bytes(n);
    lemma_varint_fits(n);
    lemma_varint_value(n);
    assert(buf[stop] == varint(n).last());
    assert forall|k: int| 0 <= k < stop implies !((#[trigger] buf[k]) < 128) by {
        assert(buf[k] == varint(n)[k]);
    }
    lemma_first_index(buf, |b: u8| b < 128, stop);
    assert(buf.take(stop + 1) =~= varint(n));
    assert(n % (usize::MAX + 1) as nat == n) by (nonlinear_arith)
        requires
            n <= usize::MAX,
    ;
}

/// What is read of a packet is what was written, and the bytes after it are left.
#[verifier::rlimit(30)]
pub proof fn law_packet_is_read_back(payload: Seq<u8>, rest: Seq<u8>)
    requires
        payload.len() <= DEFAULT_MAX_PACKET_SIZE,
    ensures
        unframed(packet(payload) + rest, DEFAULT_MAX_PACKET_SIZE as nat) == (Unframed::Packet {
            payload,
            rest,
        }),
{
    let buf = packet(payload) + rest;
    let size = varint(payload.len()).len();
    assert(buf =~= varint(payload.len()) + (payload + rest));
    law_header_is_read_back(payload.len(), payload + rest);
    assert(buf.subrange(size as int, (size + payload.len()) as int) =~= payload);
    assert(buf.skip((size + payload.len()) as int) =~= rest);
}

proof fn lemma_join(a: Seq<u8>, b: Seq<u8>, c: Seq<u8>)
    ensures
        (a + b) + c == a + (b + c),
{
    assert((a + b) + c =~= a + (b + c));
}

proof fn lemma_read_first(buf: Seq<u8>, max: nat, count: nat, payload: Seq<u8>, rest: Seq<u8>)
    requires
        count > 0,
        unframed(buf, max) == (Unframed::Packet { payload, rest }),
    ensures
        read_packets(buf, max, count) == seq![payload] + read_packets(
            rest,
            max,
            (count - 1) as nat,
        ),
{
}

/// What is read of packets that were written one after the other is what was written, in order.
#[verifier::rlimit(30)]
pub proof fn law_packets_are_read_back(payloads: Seq<Seq<u8>>, rest: Seq<u8>)
    requires
        forall|i: int|
            0 <= i < payloads.len() ==> (#[trigger] payloads[i]).len() <= DEFAULT_MAX_PACKET_SIZE,
    ensures
        read_packets(packets(payloads) + rest, DEFAULT_MAX_PACKET_SIZE as nat, payloads.len())
            == payloads,
    decreases payloads.len(),
{
    if payloads.len() > 0 {
        let tail = payloads.drop_first();
        assert forall|i: int| 0 <= i < tail.len() implies (#[trigger] tail[i]).len()
            <= DEFAULT_MAX_PACKET_SIZE by {
            assert(tail[i] == payloads[i + 1]);
        }
        law_packets_are_read_back(tail, rest);
        law_packet_is_read_back(payloads[0], packets(tail) + rest);
        lemma_join(packet(payloads[0]), packets(tail), rest);
        lemma_read_first(
            packets(payloads) + rest,
            DEFAULT_MAX_PACKET_SIZE as nat,
            payloads.len(),
            payloads[0],
            packets(tail) + rest,
        );
        assert(seq![payloads[0]] + tail =~= payloads);
    }
}

/// While a packet has not arrived as a whole, it is waited for.
#[verifier::rlimit(30)]
pub proof fn law_partial_packet_is_waited_for(payload: Seq<u8>, arrived: int)
    requires
        payload.len() <= DEFAULT_MAX_PACKET_SIZE,
        0 <= arrived < packet(payload).len(),
    ensures
        unframed(packet(payload).take(arrived), DEFAULT_MAX_PACKET_SIZE as nat) is Incomplete,
{
    let n = payload.len();
    let buf = packet(payload).take(arrived);
    let size = varint(n).len();
    lemma_varint_bytes(n);
    lemma_varint_fits(n);
    if arrived < size {
        assert forall|k: int| 0 <= k < arrived implies !((#[trigger] buf[k]) < 128) by {
            assert(buf[k] == varint(n)[k]);
        }
        lemma_first_index(buf, |b: u8| b < 128, arrived);
    } else {
        let part = payload.take(arrived - size);
        assert(buf =~= varint(n) + part);
        law_header_is_read_back(n, part);
    }
}

/// A packet that announces more bytes than are permitted is refused before they arrive.
pub proof fn law_oversized_packet_is_refused(n: nat, rest: Seq<u8>)
    requires
        DEFAULT_MAX_PACKET_SIZE < n <= usize::MAX,
    ensures
        unframed(varint(n) + rest, DEFAULT_MAX_PACKET_SIZE as nat) is Oversized,
{
    law_header_is_read_back(n, rest);
}

/// A packet carries up to sixteen kibibytes, and its length takes as many bytes as a machine word
/// has groups of seven bits.
pub proof fn law_limits_of_packets()
    ensures
        DEFAULT_MAX_PACKET_SIZE == 16384,
        usize::BITS == 32 ==> max_header_size() == 5,
        usize::BITS == 64 ==> max_header_size() == 10,
{
}

/// A length is written in groups of seven bits, the lowest first, and a byte that is not the last
/// has its highest bit set. A packet is the length of its payload and then the payload.
pub proof fn law_packet_is_length_and_payload(n: nat, payload: Seq<u8>)
    ensures
        n < 128 ==> varint(n) == seq![n as u8],
        n >= 128 ==> varint(n)[0] == n % 128 + 128 && varint(n).skip(1) == varint(n / 128),
        packet(payload).len() == varint(payload.len()).len() + payload.len(),
        packet(payload).take(varint(payload.len()).len() as int) == varint(payload.len()),
        packet(payload).skip(varint(payload.len()).len() as int) == payload,
{
    if n >= 128 {
        assert(varint(n).skip(1) =~= varint(n / 128));
    }
    let size = varint(payload.len()).len() as int;
    assert(packet(payload).take(size) =~= varint(payload.len()));
    assert(packet(payload).skip(size) =~= payload);
}

/// What received bytes begin with, where the first byte without its highest bit stands at `stop`, or
/// there is none and `stop` is how many bytes there are. That byte ends the length. A length that
/// does not end where it has to, or could be shorter, is refused; so is one above the limit. Else the
/// packet is the bytes after the length, as many as it says, once they are there, and what comes
/// after them is left.
pub proof fn law_what_bytes_begin_with(buf: Seq<u8>, max: nat, stop: int)
    requires
        0 <= stop <= buf.len(),
        forall|k: int| 0 <= k < stop ==> #[trigger] buf[k] >= 128,
        stop < buf.len() ==> buf[stop] < 128,
    ensures
        ({
            let value = varint_value(buf.take(stop + 1)) % (usize::MAX + 1) as nat;
            if stop < buf.len() && stop < max_header_size() {
                if stop > 0 && buf[stop] == 0 {
                    unframed(buf, max) == (Unframed::Malformed {
                        reason: "encoding is not minimal"@,
                    })
                } else if value > max {
                    unframed(buf, max) is Oversized
                } else if buf.len() < stop + 1 + value {
                    unframed(buf, max) is Incomplete
                } else {
                    unframed(buf, max) matches Unframed::Packet { payload, rest }
                        && payload.len() == value && buf == buf.take(stop + 1) + payload + rest
                }
            } else if buf.len() >= max_header_size() {
                unframed(buf, max) == (Unframed::Malformed {
                    reason: "input bytes exceed maximum"@,
                })
            } else {
                unframed(buf, max) is Incomplete
            }
        }),
{
    assert forall|k: int| 0 <= k < stop implies !((#[trigger] buf[k]) < 128) by {}
    lemma_first_index(buf, |b: u8| b < 128, stop);
    if unframed(buf, max) is Packet {
        let payload = unframed(buf, max)->payload;
        let rest = unframed(buf, max)->rest;
        assert(buf =~= buf.take(stop + 1) + payload + rest);
    }
}

/// Bytes that arrive later change nothing about a packet that is there, nor about one that was
/// refused: they only come after it.
pub proof fn law_later_bytes_change_no_decision(buf: Seq<u8>, more: Seq<u8>, max: nat)
    ensures
        match unframed(buf, max) {
            Unframed::Incomplete => true,
            Unframed::Malformed { reason } => unframed(buf + more, max) == (Unframed::Malformed {
                reason,
            }),
            Unframed::Oversized => unframed(buf + more, max) is Oversized,
            Unframed::Packet { payload, rest } => unframed(buf + more, max) == (Unframed::Packet {
                payload,
                rest: rest + more,
            }),
        },
{
    let both = buf + more;
    let stop = lemma_stop(buf);
    law_what_bytes_begin_with(buf, max, stop);
    if stop < buf.len() {
        assert forall|k: int| 0 <= k < stop implies #[trigger] both[k] >= 128 by {
            assert(both[k] == buf[k]);
        }
        law_what_bytes_begin_with(both, max, stop);
        assert(both.take(stop + 1) =~= buf.take(stop + 1));
        if unframed(buf, max) is Packet {
            let size = stop + 1;
            let payload = unframed(buf, max)->payload;
            let rest = unframed(buf, max)->rest;
            let later = unframed(both, max)->payload;
            let left = unframed(both, max)->rest;
            assert(both == both.take(size) + later + left);
            assert(buf == buf.take(size) + payload + rest);
            assert forall|i: int| 0 <= i < payload.len() implies payload[i] == later[i] by {
                assert(buf[size + i] == payload[i]);
                assert(both[size + i] == later[i]);
            }
            assert(later =~= payload);
            assert forall|i: int| 0 <= i < left.len() implies left[i] == (rest + more)[i] by {
                assert(both[size + payload.len() + i] == left[i]);
            }
            assert(left =~= rest + more);
        }
    } else if buf.len() >= max_header_size() {
        let end = lemma_stop(both);
        if end < stop {
            assert(both[end] == buf[end]);
        }
        law_what_bytes_begin_with(both, max, end);
    }
}

/// Where the first byte without its highest bit stands.
proof fn lemma_stop(buf: Seq<u8>) -> (stop: int)
    ensures
        0 <= stop <= buf.len(),
        forall|k: int| 0 <= k < stop ==> #[trigger] buf[k] >= 128,
        stop < buf.len() ==> buf[stop] < 128,
    decreases buf.len(),
{
    if buf.len() == 0 || buf[0] < 128 {
        0
    } else {
        let tail = buf.drop_first();
        let stop = lemma_stop(tail) + 1;
        assert forall|k: int| 0 <= k < stop implies #[trigger] buf[k] >= 128 by {
            if k > 0 {
                assert(buf[k] == tail[k - 1]);
            }
        }
        if stop < buf.len() {
            assert(buf[stop] == tail[stop - 1]);
        }
        stop
    }
}

} // verus!
