//! The identifier codec: a reversible mapping from a counter value to a
//! short identifier string, delegated to the hashids encoding.

use vstd::prelude::*;

verus! {

/// The hashids encoding of a single value under the default configuration.
pub uninterp spec fn encoded_of(n: u64) -> Seq<char>;

/// What `harsh::Harsh::decode` recovers from a string under the default
/// configuration: the encoded values, or `None` for a malformed identifier.
pub uninterp spec fn decoded_of(s: Seq<char>) -> Option<Seq<u64>>;

/// Relies on `harsh::Harsh::encode` under the default configuration (no
/// salt, the standard alphabet, no minimum length), which makes the output
/// a function of the encoded value alone; and on `harsh::Harsh::decode`
/// recovering exactly the encoded values, which `decode` guarantees by
/// accepting only strings whose re-encoding reproduces the input.
#[verifier::external_body]
pub(crate) fn encode_value(n: u64) -> (r: String)
    ensures
        r@ == encoded_of(n),
        decoded_of(r@) == Some(seq![n]),
{
    harsh::Harsh::default().encode(&[n])
}

/// Distinct counter values receive distinct identifiers: each identifier
/// decodes back to the one value it encodes, so the encoding is injective.
pub fn encode_distinct(n1: u64, n2: u64) -> (r: (String, String))
    requires
        n1 != n2,
    ensures
        r.0@ == encoded_of(n1),
        r.1@ == encoded_of(n2),
        r.0@ != r.1@,
{
    let s1 = encode_value(n1);
    let s2 = encode_value(n2);
    proof {
        if s1@ == s2@ {
            assert(decoded_of(s1@) == decoded_of(s2@));
            assert(seq![n1][0] == n1);
            assert(seq![n2][0] == n2);
        }
    }
    (s1, s2)
}

} // verus!
