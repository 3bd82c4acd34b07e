//! Sharing an album with a peer: reading the peer's node id from the
//! request. The invitation itself travels over the network, outside this
//! library.

use crate::db::fixed_32;
use crate::error::{spec_app_message, AppError};
use vstd::prelude::*;
use vstd::string::StringSliceAdditionalSpecFns;

verus! {

/// Whether byte `b` is an ASCII hex digit, either case.
pub open spec fn spec_is_hex_byte(b: u8) -> bool {
    (48 <= b <= 57) || (65 <= b <= 70) || (97 <= b <= 102)
}

/// The value of the hex digit `b`.
pub open spec fn spec_hex_val(b: u8) -> int {
    if b <= 57 {
        b - 48
    } else if b <= 70 {
        b - 55
    } else {
        b - 87
    }
}

/// Whether `t` is hex text: an even number of hex digits.
pub open spec fn spec_is_hex_text(t: Seq<u8>) -> bool {
    t.len() % 2 == 0 && forall|i: int| 0 <= i < t.len() ==> spec_is_hex_byte(#[trigger] t[i])
}

/// The bytes that hex text stands for, two digits each, the high half
/// first.
pub open spec fn spec_hex_decode(t: Seq<u8>) -> Seq<u8> {
    Seq::new(t.len() / 2, |i: int| (spec_hex_val(t[2 * i]) * 16 + spec_hex_val(t[2 * i + 1])) as u8)
}

/// Calls `hex::decode` on the UTF-8 bytes of `s`. The contract claims what
/// the crate documents and its source shows: the bytes decode exactly when
/// they are an even number of hex digits of either case, and then to one
/// byte per two digits, the first digit the high half.
#[verifier::external_body]
fn hex_decode(s: &str) -> (r: Option<Vec<u8>>)
    ensures
        r is Some <==> spec_is_hex_text(s.spec_bytes()),
        r matches Some(v) ==> v@ == spec_hex_decode(s.spec_bytes()),
{
    hex::decode(s).ok()
}

/// The node id a share request names: refused as a bad request when it is
/// not hex text, then when it does not stand for 32 bytes.
pub open spec fn spec_peer_node_id(hex: Seq<u8>) -> Result<Seq<u8>, Seq<char>> {
    if !spec_is_hex_text(hex) {
        Err("bad request: peer_node_id_hex must be hex"@)
    } else if spec_hex_decode(hex).len() != 32 {
        Err("bad request: peer_node_id must be 32 bytes"@)
    } else {
        Ok(spec_hex_decode(hex))
    }
}

/// Read the node id of the peer an album is shared with.
pub fn parse_peer_node_id(peer_node_id_hex: &str) -> (r: Result<[u8; 32], AppError>)
    ensures
        match r {
            Ok(id) => spec_peer_node_id(peer_node_id_hex.spec_bytes()) == Ok::<Seq<u8>, Seq<char>>(id@),
            Err(e) => e matches AppError::BadRequest(_) && spec_peer_node_id(peer_node_id_hex.spec_bytes())
                == Err::<Seq<u8>, Seq<char>>(spec_app_message(e)),
        },
{
    proof {
        reveal_strlit("bad request: ");
        reveal_strlit("peer_node_id_hex must be hex");
        reveal_strlit("bad request: peer_node_id_hex must be hex");
        reveal_strlit("peer_node_id must be 32 bytes");
        reveal_strlit("bad request: peer_node_id must be 32 bytes");
    }
    let bytes = match hex_decode(peer_node_id_hex) {
        Some(b) => b,
        None => {
            let m = "peer_node_id_hex must be hex".to_string();
            assert("bad request: "@ + m@ =~= "bad request: peer_node_id_hex must be hex"@);
            return Err(AppError::BadRequest(m));
        },
    };
    match fixed_32(bytes.as_slice()) {
        Some(id) => Ok(id),
        None => {
            let m = "peer_node_id must be 32 bytes".to_string();
            assert("bad request: "@ + m@ =~= "bad request: peer_node_id must be 32 bytes"@);
            Err(AppError::BadRequest(m))
        },
    }
}

/// Law: a peer node id is accepted exactly when it is 64 hex digits (of
/// either case), and it is then the 32 bytes they spell, two digits a byte,
/// the first the high half.
pub proof fn lemma_peer_node_id_rule(hex: Seq<u8>)
    ensures
        spec_peer_node_id(hex) is Ok <==> (hex.len() == 64 && forall|i: int| 0 <= i < 64 ==> ((48 <= #[trigger] hex[i]
            <= 57) || (65 <= hex[i] <= 70) || (97 <= hex[i] <= 102))),
        spec_peer_node_id(hex) matches Ok(id) ==> id.len() == 32 && forall|k: int| 0 <= k < 32 ==> (#[trigger] id[k])
            as int == spec_hex_val(hex[2 * k]) * 16 + spec_hex_val(hex[2 * k + 1]),
        forall|b: u8| #![trigger spec_hex_val(b)] (48 <= b <= 57 ==> spec_hex_val(b) == b - 48) && (65 <= b <= 70
            ==> spec_hex_val(b) == b - 55) && (97 <= b <= 102 ==> spec_hex_val(b) == b - 87),
{
    if spec_peer_node_id(hex) is Ok {
        let id = spec_hex_decode(hex);
        assert forall|k: int| 0 <= k < 32 implies (#[trigger] id[k]) as int == spec_hex_val(hex[2 * k]) * 16
            + spec_hex_val(hex[2 * k + 1]) by {
            assert(spec_is_hex_byte(hex[2 * k]) && spec_is_hex_byte(hex[2 * k + 1]));
        }
    }
}

} // verus!
