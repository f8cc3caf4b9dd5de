//! Caller identities: opaque byte strings of at most 29 bytes.

use vstd::prelude::*;

verus! {

/// The longest byte string that is an identity.
pub const MAX_IDENTITY_BYTES: usize = 29;

/// The bytes of the anonymous identity.
pub open spec fn anonymous_bytes() -> Seq<u8> {
    seq![4u8]
}

/// What `candid::Principal::to_text` returns for the principal with these bytes.
pub uninterp spec fn principal_text(bytes: Seq<u8>) -> Seq<char>;

/// `candid::Principal::anonymous`: the bytes of the anonymous principal, which
/// are the single byte 4.
#[verifier::external_body]
fn principal_anonymous() -> (r: Vec<u8>)
    ensures
        r@ == anonymous_bytes(),
{
    candid::Principal::anonymous().as_slice().to_vec()
}

/// `candid::Principal::to_text`: the textual form of the principal with the given
/// bytes. The encoding is not restated here; the result is named by
/// [`principal_text`]. More than 29 bytes make no principal and are left out.
#[verifier::external_body]
fn principal_to_text(bytes: &[u8]) -> (r: String)
    requires
        bytes@.len() <= MAX_IDENTITY_BYTES,
    ensures
        r@ == principal_text(bytes@),
{
    candid::Principal::from_slice(bytes).to_text()
}

/// An identity as the hosting environment supplies it: between 0 and 29 opaque bytes.
#[derive(Debug)]
pub struct Identity {
    bytes: Vec<u8>,
}

impl View for Identity {
    type V = Seq<u8>;

    closed spec fn view(&self) -> Seq<u8> {
        if self.bytes@.len() <= MAX_IDENTITY_BYTES {
            self.bytes@
        } else {
            Seq::empty()
        }
    }
}

impl DeepView for Identity {
    type V = Seq<u8>;

    open spec fn deep_view(&self) -> Seq<u8> {
        self@
    }
}

impl Identity {
    #[verifier::type_invariant]
    spec fn well_formed(&self) -> bool {
        self.bytes@.len() <= MAX_IDENTITY_BYTES
    }

    /// An identity has at most 29 bytes.
    pub proof fn lemma_len(&self)
        ensures
            self@.len() <= MAX_IDENTITY_BYTES,
    {
    }

    /// The identity with the given bytes, or `None` where there are more than 29 of them.
    pub fn from_slice(bytes: &[u8]) -> (r: Option<Identity>)
        ensures
            bytes@.len() <= MAX_IDENTITY_BYTES ==> r is Some && r->0@ == bytes@,
            bytes@.len() > MAX_IDENTITY_BYTES ==> r is None,
    {
        if bytes.len() > MAX_IDENTITY_BYTES {
            return None;
        }
        let mut v: Vec<u8> = Vec::new();
        let mut i: usize = 0;
        while i < bytes.len()
            invariant
                i <= bytes@.len(),
                v@ == bytes@.take(i as int),
            decreases bytes@.len() - i,
        {
            v.push(bytes[i]);
            i += 1;
        }
        assert(bytes@ =~= bytes@.take(i as int));
        Some(Identity { bytes: v })
    }

    /// The identity of a caller that has not identified itself: the one byte 4.
    /// It stands in a token's history for the side that a mint has no seller on.
    pub fn anonymous() -> (r: Identity)
        ensures
            r@ == anonymous_bytes(),
    {
        let bytes = principal_anonymous();
        Identity { bytes }
    }

    /// The identity in its textual form: a checksum and the bytes in base 32,
    /// in groups of five characters.
    pub fn to_text(&self) -> (r: String)
        ensures
            r@ == principal_text(self@),
    {
        proof {
            use_type_invariant(self);
        }
        principal_to_text(self.bytes.as_slice())
    }

    /// The bytes of the identity.
    pub fn as_slice(&self) -> (r: &[u8])
        ensures
            r@ == self@,
            r@.len() <= MAX_IDENTITY_BYTES,
    {
        proof {
            use_type_invariant(self);
        }
        self.bytes.as_slice()
    }

    /// Whether two identities have the same bytes.
    pub fn same(&self, other: &Identity) -> (r: bool)
        ensures
            r == (self@ == other@),
    {
        proof {
            use_type_invariant(self);
            use_type_invariant(other);
        }
        if self.bytes.len() != other.bytes.len() {
            return false;
        }
        let mut i: usize = 0;
        while i < self.bytes.len()
            invariant
                i <= self.bytes@.len(),
                self.bytes@.len() == other.bytes@.len(),
                self.bytes@.len() <= MAX_IDENTITY_BYTES,
                self.bytes@.take(i as int) == other.bytes@.take(i as int),
            decreases self.bytes@.len() - i,
        {
            if self.bytes[i] != other.bytes[i] {
                return false;
            }
            i += 1;
        }
        assert(self.bytes@ =~= self.bytes@.take(i as int));
        assert(other.bytes@ =~= other.bytes@.take(i as int));
        true
    }
}

impl PartialEq for Identity {
    fn eq(&self, other: &Identity) -> (r: bool) {
        self.same(other)
    }
}

impl vstd::std_specs::cmp::PartialEqSpecImpl for Identity {
    open spec fn obeys_eq_spec() -> bool {
        true
    }

    open spec fn eq_spec(&self, other: &Identity) -> bool {
        self@ == other@
    }
}

impl Eq for Identity {

}

impl Clone for Identity {
    fn clone(&self) -> (r: Identity)
        ensures
            r@ == self@,
    {
        proof {
            use_type_invariant(self);
        }
        Identity { bytes: self.bytes.clone() }
    }
}

} // verus!
