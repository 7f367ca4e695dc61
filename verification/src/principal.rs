//! The identity of a simulated process.

use vstd::prelude::*;
use vstd::slice::slice_to_vec;
use vstd::std_specs::cmp::PartialEqSpecImpl;

verus! {

/// The longest byte string that is an identity.
pub const MAX_LENGTH_IN_BYTES: usize = 29;

/// The identity of a canister or a user: a byte string of at most
/// [`MAX_LENGTH_IN_BYTES`] bytes. Two identities are the same exactly when
/// their bytes are.
#[derive(Debug)]
pub struct Principal {
    bytes: Vec<u8>,
}

impl View for Principal {
    type V = Seq<u8>;

    closed spec fn view(&self) -> Seq<u8> {
        self.bytes@
    }
}

/// The bytes that `candid::Principal::from_text` decodes a text to, `None`
/// where it rejects the text.
pub uninterp spec fn principal_of_text(text: Seq<char>) -> Option<Seq<u8>>;

/// The text that `candid::Principal::to_text` prints for an identity with
/// the given bytes.
pub uninterp spec fn text_of_principal(bytes: Seq<u8>) -> Seq<char>;

/// Decodes the textual form of an identity with
/// `candid::Principal::from_text` and hands out the bytes of the identity
/// parsed, `None` where the text is rejected. The identity that candid
/// builds never holds more than 29 bytes.
#[verifier::external_body]
fn decode_text(text: &str) -> (bytes: Option<Vec<u8>>)
    ensures
        bytes is Some <==> principal_of_text(text@) is Some,
        bytes is Some ==> bytes->0@ == principal_of_text(text@)->0,
        bytes is Some ==> bytes->0@.len() <= MAX_LENGTH_IN_BYTES,
{
    match candid::Principal::from_text(text) {
        Ok(p) => Some(p.as_slice().to_vec()),
        Err(_) => None,
    }
}

/// Prints an identity with `candid::Principal::to_text`: the checksum and
/// the bytes in lower-case base 32, grouped by dashes.
/// `candid::Principal::from_slice` panics on more than 29 bytes, which
/// the precondition excludes.
#[verifier::external_body]
fn encode_text(bytes: &Vec<u8>) -> (text: String)
    requires
        bytes@.len() <= MAX_LENGTH_IN_BYTES,
    ensures
        text@ == text_of_principal(bytes@),
{
    candid::Principal::from_slice(bytes.as_slice()).to_text()
}

impl Principal {
    #[verifier::type_invariant]
    spec fn well_formed(self) -> bool {
        self.bytes@.len() <= MAX_LENGTH_IN_BYTES
    }

    /// The identity of the management canister: no bytes at all.
    pub fn management_canister() -> (p: Self)
        ensures
            p@ == Seq::<u8>::empty(),
    {
        Principal { bytes: Vec::new() }
    }

    /// The identity of a caller that did not sign: the single byte 4.
    pub fn anonymous() -> (p: Self)
        ensures
            p@ == seq![4u8],
    {
        let mut bytes: Vec<u8> = Vec::new();
        bytes.push(4u8);
        Principal { bytes }
    }

    /// The identity with the given bytes, `None` for more than 29 of them.
    pub fn try_from_slice(slice: &[u8]) -> (r: Option<Self>)
        ensures
            slice@.len() <= MAX_LENGTH_IN_BYTES ==> r is Some && r->0@ == slice@,
            slice@.len() > MAX_LENGTH_IN_BYTES ==> r is None,
    {
        if slice.len() <= MAX_LENGTH_IN_BYTES {
            Some(Principal { bytes: slice_to_vec(slice) })
        } else {
            None
        }
    }

    /// The identity with the given bytes.
    pub fn from_slice(slice: &[u8]) -> (p: Self)
        requires
            slice@.len() <= MAX_LENGTH_IN_BYTES,
        ensures
            p@ == slice@,
    {
        Principal { bytes: slice_to_vec(slice) }
    }

    /// The bytes of the identity.
    pub fn as_slice(&self) -> (slice: &[u8])
        ensures
            slice@ == self@,
            slice@.len() <= MAX_LENGTH_IN_BYTES,
    {
        proof {
            use_type_invariant(self);
        }
        self.bytes.as_slice()
    }

    /// Parses the textual form of an identity, such as `aaaaa-aa`.
    pub fn from_text(text: &str) -> (r: Option<Self>)
        ensures
            match principal_of_text(text@) {
                Some(bytes) => r is Some && r->0@ == bytes,
                None => r is None,
            },
    {
        match decode_text(text) {
            Some(bytes) => Some(Principal { bytes }),
            None => None,
        }
    }

    /// The textual form of the identity.
    pub fn to_text(&self) -> (text: String)
        ensures
            text@ == text_of_principal(self@),
    {
        proof {
            use_type_invariant(self);
        }
        encode_text(&self.bytes)
    }
}

impl Clone for Principal {
    fn clone(&self) -> (p: Self)
        ensures
            p@ == self@,
    {
        proof {
            use_type_invariant(self);
        }
        Principal { bytes: self.bytes.clone() }
    }
}

impl PartialEq for Principal {
    fn eq(&self, other: &Self) -> (r: bool) {
        let r = self.bytes == other.bytes;
        proof {
            if r {
                assert(self.bytes@ =~= other.bytes@);
            }
        }
        r
    }
}

impl Eq for Principal {

}

impl PartialEqSpecImpl for Principal {
    open spec fn obeys_eq_spec() -> bool {
        true
    }

    open spec fn eq_spec(&self, other: &Self) -> bool {
        self@ == other@
    }
}

} // verus!
