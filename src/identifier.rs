use vstd::prelude::*;

verus! {

/// What one identifier says of the bytes a client has sent so far.
#[derive(PartialEq, Eq, Structural, Debug, Clone, Copy)]
pub enum IdentifyResult {
    Positive,
    Negative,
    NeedMoreData,
}

/// A classifier for one protocol, applied to the whole prefix of the client's
/// stream received so far.
pub trait TrafficIdentifier {
    /// What the identifier says of `data`.
    spec fn verdict(&self, data: Seq<u8>) -> IdentifyResult;

    fn identify(&self, data: &[u8]) -> (r: IdentifyResult)
        ensures
            r == self.verdict(data@),
    ;
}

/// The identifiers this system knows.
#[derive(Debug, Clone)]
pub enum Identifier {
    /// Exact comparison with a fixed byte signature.
    Prefix(Vec<u8>),
    /// An attempt to parse a TLS plaintext record.
    TlsHandshake,
}

impl Identifier {
    /// The identifier's verdict on `data`.
    pub open spec fn spec_verdict(&self, data: Seq<u8>) -> IdentifyResult {
        match self {
            Identifier::Prefix(sig) => crate::strings::prefix_verdict(data, sig@),
            Identifier::TlsHandshake => crate::tls::tls_verdict(data),
        }
    }
}

impl TrafficIdentifier for Identifier {
    open spec fn verdict(&self, data: Seq<u8>) -> IdentifyResult {
        self.spec_verdict(data)
    }

    fn identify(&self, data: &[u8]) -> (r: IdentifyResult) {
        match self {
            Identifier::Prefix(sig) => crate::strings::raw_string_matches(data, sig.as_slice()),
            Identifier::TlsHandshake => crate::tls::identify(data),
        }
    }
}


/// Once a prefix matcher rejects a prefix of the stream, it rejects every
/// longer prefix too.
pub proof fn lemma_rejection_is_final(id: Identifier, data: Seq<u8>, more: Seq<u8>)
    requires
        id is Prefix,
        id.spec_verdict(data) == IdentifyResult::Negative,
    ensures
        id.spec_verdict(data + more) == IdentifyResult::Negative,
{
    crate::strings::lemma_prefix_rejection_is_final(data, more, id->Prefix_0@);
}

} // verus!
