//! secp256k1 public keys as the wire code sees them: 33-byte compressed serializations that
//! the secp256k1 library accepts.
//!
//! Which byte strings are valid keys is decided by curve arithmetic inside the secp256k1 crate;
//! the library names that decision and carries the compressed bytes.

use vstd::prelude::*;

verus! {

/// The compressed serialization of the key that `secp256k1::PublicKey::from_slice` parses
/// from `bytes`, or `None` when it rejects them.
pub uninterp spec fn secp256k1_parse_public_key(bytes: Seq<u8>) -> Option<Seq<u8>>;

/// `s` is the compressed serialization of a valid secp256k1 key.
pub open spec fn is_valid_public_key(s: Seq<u8>) -> bool {
    secp256k1_parse_public_key(s) == Some(s)
}

/// Parses a public key with `secp256k1::PublicKey::from_slice` and returns its compressed
/// serialization (`PublicKey::serialize`).
///
/// Claims of the outside code: the result is the named parse of the input; the secp256k1 parser
/// only accepts 33- and 65-byte inputs; a 33-byte input it accepts (prefix 0x02/0x03 and an
/// x coordinate on the curve) serializes back to itself; and a compressed serialization parses
/// back to itself. Which inputs are accepted is not stated.
#[verifier::external_body]
fn secp256k1_public_key_from_slice(data: &[u8]) -> (res: Option<[u8; 33]>)
    ensures
        match res {
            Some(c) => secp256k1_parse_public_key(data@) == Some(c@),
            None => secp256k1_parse_public_key(data@) is None,
        },
        res is Some ==> data@.len() == 33 || data@.len() == 65,
        res matches Some(c) ==> data@.len() == 33 ==> c@ == data@,
        res matches Some(c) ==> is_valid_public_key(c@),
{
    match secp256k1::PublicKey::from_slice(data) {
        Ok(pk) => Some(pk.serialize()),
        Err(_) => None,
    }
}

/// A secp256k1 public key, held as its compressed serialization.
#[derive(Clone, Copy, PartialEq, Eq, PartialOrd, Ord, Debug, Hash)]
pub struct PublicKey {
    compressed: [u8; 33],
}

impl View for PublicKey {
    type V = Seq<u8>;

    closed spec fn view(&self) -> Seq<u8> {
        self.compressed@
    }
}

impl PublicKey {
    /// secp256k1 accepts the key's compressed serialization and parses it back to itself: every
    /// key held is one secp256k1 accepted.
    #[verifier::type_invariant]
    pub open spec fn is_valid(self) -> bool {
        is_valid_public_key(self@)
    }
}

/// Every key is 33 bytes long.
pub broadcast proof fn lemma_public_key_len(pk: PublicKey)
    ensures
        #[trigger] pk@.len() == 33,
{
}

impl PublicKey {
    /// Parses a public key from its 33-byte compressed or 65-byte uncompressed serialization.
    pub fn from_slice(data: &[u8]) -> (res: Option<PublicKey>)
        ensures
            match res {
                Some(pk) => secp256k1_parse_public_key(data@) == Some(pk@) && is_valid_public_key(
                    pk@,
                ),
                None => secp256k1_parse_public_key(data@) is None,
            },
            res matches Some(pk) ==> data@.len() == 33 ==> pk@ == data@,
            res is Some ==> data@.len() == 33 || data@.len() == 65,
    {
        match secp256k1_public_key_from_slice(data) {
            Some(c) => Some(PublicKey { compressed: c }),
            None => None,
        }
    }

    /// The 33-byte compressed serialization.
    pub fn serialize(&self) -> (bytes: [u8; 33])
        ensures
            bytes@ == self@,
            is_valid_public_key(bytes@),
    {
        proof {
            use_type_invariant(self);
        }
        self.compressed
    }
}

} // verus!
