use vstd::prelude::*;
use vstd::string::{is_ascii, is_ascii_spec_bytes};
use vstd::utf8::{encode_utf8, encode_utf8_decode_utf8};

verus! {

/// How this node names its software to other peers.
pub const CURRENT_AGENT_VER: &'static str = "/locutus/agent/0.1.0";

/// The protocol of this node.
pub const CURRENT_PROTOC_VER_STR: &'static str = "/locutus/0.1.0";

/// The protocol with which peers identify themselves.
pub const CURRENT_IDENTIFY_PROTOC_VER: &'static str = "/id/1.0.0";

/// The name of the protocol of this node, a byte for each character.
pub open spec fn protocol_name() -> Seq<u8> {
    Seq::new(CURRENT_PROTOC_VER_STR@.len(), |i: int| CURRENT_PROTOC_VER_STR@[i] as u8)
}

/// The bytes of the protocol's name are the characters of the protocol's name in UTF-8, and of no
/// other name.
pub proof fn law_protocol_name_is_utf8(name: Seq<char>)
    ensures
        encode_utf8(name) == protocol_name() <==> name == CURRENT_PROTOC_VER_STR@,
{
    reveal_strlit("/locutus/0.1.0");
    assert(is_ascii(CURRENT_PROTOC_VER_STR));
    is_ascii_spec_bytes(CURRENT_PROTOC_VER_STR);
    assert(encode_utf8(CURRENT_PROTOC_VER_STR@) =~= protocol_name());
    encode_utf8_decode_utf8(name);
    encode_utf8_decode_utf8(CURRENT_PROTOC_VER_STR@);
}

/// The names and versions by which nodes know each other.
pub proof fn law_names_of_this_version()
    ensures
        CURRENT_AGENT_VER@ == "/locutus/agent/0.1.0"@,
        CURRENT_PROTOC_VER_STR@ == "/locutus/0.1.0"@,
        CURRENT_IDENTIFY_PROTOC_VER@ == "/id/1.0.0"@,
        protocol_name() == encode_utf8("/locutus/0.1.0"@),
{
    law_protocol_name_is_utf8(CURRENT_PROTOC_VER_STR@);
}

/// The protocol that is spoken on the substreams of a connection.
#[derive(Debug, Clone, Copy, PartialEq, Eq)]
pub struct LocutusProtocol;

impl LocutusProtocol {
    /// The name under which the protocol is negotiated, in bytes.
    pub fn protocol_info(&self) -> (name: &'static [u8])
        ensures
            name@ == protocol_name(),
    {
        proof {
            law_protocol_name_is_utf8(CURRENT_PROTOC_VER_STR@);
        }
        CURRENT_PROTOC_VER_STR.as_bytes()
    }
}

} // verus!
