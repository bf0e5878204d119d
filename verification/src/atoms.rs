//! The fixed vocabulary of the wire format: every map key, envelope type and
//! variant tag that the codec writes or expects.

use vstd::prelude::*;

verus! {

/// The short text strings of the wire format: map keys, the envelope type
/// names, and the variant tags.
#[derive(Debug, Clone, Copy, PartialEq, Eq, Structural)]
pub enum Atom {
    KeyT,
    KeyC,
    KeyN,
    KeyRid,
    KeyInbox,
    KeyCtl,
    KeyId,
    KeyUsername,
    KeyNick,
    KeyProfile,
    KeyReply,
    KeyChain,
    KeyFrom,
    KeyUrl,
    KeyName,
    KeyContent,
    ValMessage,
    ValEvent,
    ValM,
    ValE,
    ValReq,
    ValRes,
    ValSub,
    ValUnsub,
    ValText,
    ValEdit,
    ValImage,
    ValRequestImage,
    ValRespondImage,
    ValRequestEcho,
    ValRespondEcho,
}

/// The UTF-8 bytes of an atom.
#[verifier::opaque]
pub open spec fn atom_seq(a: Atom) -> Seq<u8> {
    match a {
        Atom::KeyT => seq![116u8],
        Atom::KeyC => seq![99u8],
        Atom::KeyN => seq![110u8],
        Atom::KeyRid => seq![114u8, 105u8, 100u8],
        Atom::KeyInbox => seq![105u8, 110u8, 98u8, 111u8, 120u8],
        Atom::KeyCtl => seq![99u8, 116u8, 108u8],
        Atom::KeyId => seq![105u8, 100u8],
        Atom::KeyUsername => seq![117u8, 115u8, 101u8, 114u8, 110u8, 97u8, 109u8, 101u8],
        Atom::KeyNick => seq![110u8, 105u8, 99u8, 107u8],
        Atom::KeyProfile => seq![112u8, 114u8, 111u8, 102u8, 105u8, 108u8, 101u8],
        Atom::KeyReply => seq![114u8, 101u8, 112u8, 108u8, 121u8],
        Atom::KeyChain => seq![99u8, 104u8, 97u8, 105u8, 110u8],
        Atom::KeyFrom => seq![102u8, 114u8, 111u8, 109u8],
        Atom::KeyUrl => seq![117u8, 114u8, 108u8],
        Atom::KeyName => seq![110u8, 97u8, 109u8, 101u8],
        Atom::KeyContent => seq![99u8, 111u8, 110u8, 116u8, 101u8, 110u8, 116u8],
        Atom::ValMessage => seq![109u8, 101u8, 115u8, 115u8, 97u8, 103u8, 101u8],
        Atom::ValEvent => seq![101u8, 118u8, 101u8, 110u8, 116u8],
        Atom::ValM => seq![109u8],
        Atom::ValE => seq![101u8],
        Atom::ValReq => seq![114u8, 101u8, 113u8],
        Atom::ValRes => seq![114u8, 101u8, 115u8],
        Atom::ValSub => seq![115u8, 117u8, 98u8],
        Atom::ValUnsub => seq![117u8, 110u8, 115u8, 117u8, 98u8],
        Atom::ValText => seq![116u8, 101u8, 120u8, 116u8],
        Atom::ValEdit => seq![101u8, 100u8, 105u8, 116u8],
        Atom::ValImage => seq![105u8, 109u8, 97u8, 103u8, 101u8],
        Atom::ValRequestImage => seq![114u8, 101u8, 113u8, 117u8, 101u8, 115u8, 116u8, 95u8, 105u8, 109u8, 97u8, 103u8, 101u8],
        Atom::ValRespondImage => seq![114u8, 101u8, 115u8, 112u8, 111u8, 110u8, 100u8, 95u8, 105u8, 109u8, 97u8, 103u8, 101u8],
        Atom::ValRequestEcho => seq![114u8, 101u8, 113u8, 117u8, 101u8, 115u8, 116u8, 95u8, 101u8, 99u8, 104u8, 111u8],
        Atom::ValRespondEcho => seq![114u8, 101u8, 115u8, 112u8, 111u8, 110u8, 100u8, 95u8, 101u8, 99u8, 104u8, 111u8],
    }
}

/// Builds the UTF-8 bytes of an atom.
pub fn atom_vec(a: Atom) -> (r: Vec<u8>)
    ensures
        r@ == atom_seq(a),
{
    proof {
        reveal(atom_seq);
    }
    let r: Vec<u8> = match a {
        Atom::KeyT => vec![116],
        Atom::KeyC => vec![99],
        Atom::KeyN => vec![110],
        Atom::KeyRid => vec![114, 105, 100],
        Atom::KeyInbox => vec![105, 110, 98, 111, 120],
        Atom::KeyCtl => vec![99, 116, 108],
        Atom::KeyId => vec![105, 100],
        Atom::KeyUsername => vec![117, 115, 101, 114, 110, 97, 109, 101],
        Atom::KeyNick => vec![110, 105, 99, 107],
        Atom::KeyProfile => vec![112, 114, 111, 102, 105, 108, 101],
        Atom::KeyReply => vec![114, 101, 112, 108, 121],
        Atom::KeyChain => vec![99, 104, 97, 105, 110],
        Atom::KeyFrom => vec![102, 114, 111, 109],
        Atom::KeyUrl => vec![117, 114, 108],
        Atom::KeyName => vec![110, 97, 109, 101],
        Atom::KeyContent => vec![99, 111, 110, 116, 101, 110, 116],
        Atom::ValMessage => vec![109, 101, 115, 115, 97, 103, 101],
        Atom::ValEvent => vec![101, 118, 101, 110, 116],
        Atom::ValM => vec![109],
        Atom::ValE => vec![101],
        Atom::ValReq => vec![114, 101, 113],
        Atom::ValRes => vec![114, 101, 115],
        Atom::ValSub => vec![115, 117, 98],
        Atom::ValUnsub => vec![117, 110, 115, 117, 98],
        Atom::ValText => vec![116, 101, 120, 116],
        Atom::ValEdit => vec![101, 100, 105, 116],
        Atom::ValImage => vec![105, 109, 97, 103, 101],
        Atom::ValRequestImage => vec![114, 101, 113, 117, 101, 115, 116, 95, 105, 109, 97, 103, 101],
        Atom::ValRespondImage => vec![114, 101, 115, 112, 111, 110, 100, 95, 105, 109, 97, 103, 101],
        Atom::ValRequestEcho => vec![114, 101, 113, 117, 101, 115, 116, 95, 101, 99, 104, 111],
        Atom::ValRespondEcho => vec![114, 101, 115, 112, 111, 110, 100, 95, 101, 99, 104, 111],
    };
    proof {
        assert(r@ =~= atom_seq(a));
    }
    r
}

/// No atom is longer than a small constant; their encoded headers are one
/// byte.
pub proof fn lemma_atom_len(a: Atom)
    ensures
        atom_seq(a).len() <= 16,
{
    reveal(atom_seq);
}

} // verus!
