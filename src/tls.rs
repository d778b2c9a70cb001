use crate::identifier::IdentifyResult;
use vstd::prelude::*;

verus! {

/// How parsing the start of a stream as one TLS plaintext record ended.
#[derive(PartialEq, Eq, Structural, Debug, Clone, Copy)]
pub enum RecordParse {
    /// A whole, well-formed record was read.
    Complete,
    /// The bytes so far are well-formed but the record is not finished.
    Incomplete,
    /// The bytes cannot start a TLS plaintext record.
    Invalid,
}

/// How `tls_parser::parse_tls_plaintext` ends on `data`.
pub uninterp spec fn plaintext_parse(data: Seq<u8>) -> RecordParse;

/// Relies on `tls_parser::parse_tls_plaintext`: it reads one record header and
/// then the record it announces, from `data` alone; `Ok` is a whole record,
/// `Err(Incomplete)` a record cut short, any other `Err` a malformed one.
#[verifier::external_body]
fn parse_plaintext(data: &[u8]) -> (r: RecordParse)
    ensures
        r == plaintext_parse(data@),
{
    match tls_parser::parse_tls_plaintext(data) {
        Ok(_) => RecordParse::Complete,
        Err(tls_parser::Err::Incomplete(_)) => RecordParse::Incomplete,
        Err(tls_parser::Err::Error(_)) => RecordParse::Invalid,
        Err(tls_parser::Err::Failure(_)) => RecordParse::Invalid,
    }
}

/// The verdict of the TLS handshake parser for a given parse outcome: a record
/// that is whole or merely unfinished is taken as TLS.
pub open spec fn record_verdict(p: RecordParse) -> IdentifyResult {
    match p {
        RecordParse::Complete => IdentifyResult::Positive,
        RecordParse::Incomplete => IdentifyResult::Positive,
        RecordParse::Invalid => IdentifyResult::Negative,
    }
}

/// The verdict for a parse outcome already at hand.
pub fn verdict_of(p: RecordParse) -> (r: IdentifyResult)
    ensures
        r == record_verdict(p),
{
    match p {
        RecordParse::Complete => IdentifyResult::Positive,
        RecordParse::Incomplete => IdentifyResult::Positive,
        RecordParse::Invalid => IdentifyResult::Negative,
    }
}

/// The length of a TLS record header: the fewest bytes a TLS client's stream
/// can be told by.
pub const RECORD_HEADER_LEN: usize = 5;

/// The verdict of the TLS handshake parser on `data`: more bytes are needed
/// until a whole record header is there; after that the parse decides.
pub open spec fn tls_verdict(data: Seq<u8>) -> IdentifyResult {
    if data.len() < RECORD_HEADER_LEN {
        IdentifyResult::NeedMoreData
    } else {
        record_verdict(plaintext_parse(data))
    }
}

/// Recognises a TLS client by trying to parse its first record, once its
/// header has arrived.
pub fn identify(data: &[u8]) -> (r: IdentifyResult)
    ensures
        r == tls_verdict(data@),
{
    if data.len() < RECORD_HEADER_LEN {
        return IdentifyResult::NeedMoreData;
    }
    let p = parse_plaintext(data);
    verdict_of(p)
}

} // verus!
