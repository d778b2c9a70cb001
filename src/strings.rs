use crate::identifier::IdentifyResult;
use vstd::prelude::*;

verus! {

/// Whether `test` and `needle` differ at some position that both have.
pub open spec fn differs_within(test: Seq<u8>, needle: Seq<u8>) -> bool {
    exists|k: int| 0 <= k < test.len() && k < needle.len() && test[k] != needle[k]
}

/// The verdict of a prefix matcher with signature `needle` on `test`.
pub open spec fn prefix_verdict(test: Seq<u8>, needle: Seq<u8>) -> IdentifyResult {
    if differs_within(test, needle) {
        IdentifyResult::Negative
    } else if test.len() >= needle.len() {
        IdentifyResult::Positive
    } else {
        IdentifyResult::NeedMoreData
    }
}

/// Compares the start of `test` with `starts_with_needle`, byte for byte.
pub fn raw_string_matches(test: &[u8], starts_with_needle: &[u8]) -> (r: IdentifyResult)
    ensures
        r == prefix_verdict(test@, starts_with_needle@),
{
    let n: usize = if test.len() < starts_with_needle.len() {
        test.len()
    } else {
        starts_with_needle.len()
    };
    let mut i: usize = 0;
    while i < n
        invariant
            n <= test@.len(),
            n <= starts_with_needle@.len(),
            n == test@.len() || n == starts_with_needle@.len(),
            i <= n,
            forall|k: int| 0 <= k < i ==> test@[k] == starts_with_needle@[k],
        decreases n - i,
    {
        if test[i] != starts_with_needle[i] {
            return IdentifyResult::Negative;
        }
        i = i + 1;
    }
    if test.len() >= starts_with_needle.len() {
        IdentifyResult::Positive
    } else {
        IdentifyResult::NeedMoreData
    }
}

/// Once a prefix matcher rejects a prefix, it rejects every extension of it.
pub proof fn lemma_prefix_rejection_is_final(test: Seq<u8>, more: Seq<u8>, needle: Seq<u8>)
    requires
        prefix_verdict(test, needle) == IdentifyResult::Negative,
    ensures
        prefix_verdict(test + more, needle) == IdentifyResult::Negative,
{
    let k = choose|k: int| 0 <= k < test.len() && k < needle.len() && test[k] != needle[k];
    assert((test + more)[k] == test[k]);
}

/// A prefix of the signature that is shorter than it is never rejected: the
/// matcher waits for more bytes.
pub proof fn lemma_short_agreeing_prefix_waits(test: Seq<u8>, needle: Seq<u8>)
    requires
        test.len() < needle.len(),
        test == needle.subrange(0, test.len() as int),
    ensures
        prefix_verdict(test, needle) == IdentifyResult::NeedMoreData,
{
    assert forall|k: int| 0 <= k < test.len() && k < needle.len() implies test[k] == needle[k] by {
        assert(test[k] == needle.subrange(0, test.len() as int)[k]);
    }
}

} // verus!
