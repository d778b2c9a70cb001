use crate::identifier::{Identifier, IdentifyResult};
use crate::strings::{prefix_verdict, raw_string_matches};
use vstd::prelude::*;

verus! {

/// The four bytes every SSH identification string starts with: `SSH-`.
pub open spec fn ssh_signature() -> Seq<u8> {
    seq![0x53u8, 0x53u8, 0x48u8, 0x2du8]
}

/// The prefix matcher for SSH.
pub fn ssh_identifier() -> (r: Identifier)
    ensures
        r is Prefix,
        r->Prefix_0@ == ssh_signature(),
{
    let signature: Vec<u8> = vec![0x53u8, 0x53u8, 0x48u8, 0x2du8];
    assert(signature@ =~= ssh_signature());
    Identifier::Prefix(signature)
}

/// Recognises an SSH client by the start of its identification string.
pub fn identify(data: &[u8]) -> (r: IdentifyResult)
    ensures
        r == prefix_verdict(data@, ssh_signature()),
{
    let signature: [u8; 4] = [0x53u8, 0x53u8, 0x48u8, 0x2du8];
    assert(signature@ =~= ssh_signature());
    raw_string_matches(data, signature.as_slice())
}

} // verus!
