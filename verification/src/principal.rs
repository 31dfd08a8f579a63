//! Who calls: identities of at most 29 bytes.

use vstd::prelude::*;
use vstd::string::*;

use crate::hexadecimal;
use crate::hexadecimal::hex_text;
use crate::table::TextKey;

verus! {

/// The greatest length of a principal.
pub const MAX_PRINCIPAL_BYTES: usize = 29;

/// An identity: a short byte string.
#[derive(Clone, Copy, Debug)]
pub struct Principal {
    len: u8,
    bytes: [u8; 29],
}

impl View for Principal {
    type V = Seq<u8>;

    /// The bytes of the identity.
    closed spec fn view(&self) -> Seq<u8> {
        self.bytes@.take(self.len as int)
    }
}

impl Principal {
    /// The length fits, and the bytes beyond it are zero; every principal at run
    /// time is so.
    #[verifier::type_invariant]
    pub closed spec fn wf(self) -> bool {
        &&& self.len <= MAX_PRINCIPAL_BYTES
        &&& forall|i: int| self.len <= i < MAX_PRINCIPAL_BYTES ==> #[trigger] self.bytes@[i] == 0
    }

    /// The identity with the given bytes.
    pub fn from_slice(slice: &[u8]) -> (r: Principal)
        requires
            slice@.len() <= MAX_PRINCIPAL_BYTES,
        ensures
            r@ == slice@,
            r.wf(),
    {
        let mut bytes: [u8; 29] = [0u8; 29];
        let mut i: usize = 0;
        while i < MAX_PRINCIPAL_BYTES
            invariant
                i <= MAX_PRINCIPAL_BYTES,
                slice@.len() <= MAX_PRINCIPAL_BYTES,
                forall|k: int|
                    0 <= k < i ==> #[trigger] bytes@[k] == (if k < slice@.len() {
                        slice@[k]
                    } else {
                        0
                    }),
            decreases MAX_PRINCIPAL_BYTES - i,
        {
            bytes[i] = if i < slice.len() {
                slice[i]
            } else {
                0
            };
            i = i + 1;
        }
        let r = Principal { len: slice.len() as u8, bytes };
        assert(r@ =~= slice@);
        r
    }

    /// Whoever does not say who they are.
    pub fn anonymous() -> (r: Principal)
        ensures
            r@ == seq![4u8],
            r.wf(),
    {
        let bytes: [u8; 1] = [4u8];
        assert(bytes@ =~= seq![4u8]);
        Principal::from_slice(&bytes)
    }

    /// The bytes of the identity.
    pub fn to_bytes(&self) -> (r: Vec<u8>)
        ensures
            r@ == self@,
    {
        proof {
            use_type_invariant(self);
        }
        let mut r: Vec<u8> = Vec::new();
        let mut i: usize = 0;
        while i < self.len as usize
            invariant
                i <= self.len <= MAX_PRINCIPAL_BYTES,
                r@ == self.bytes@.take(i as int),
            decreases self.len - i,
        {
            r.push(self.bytes[i]);
            i = i + 1;
            assert(r@ =~= self.bytes@.take(i as int));
        }
        r
    }
}

/// Identities with the same bytes are one identity.
pub broadcast proof fn lemma_principal_bytes(a: Principal, b: Principal)
    requires
        a.wf(),
        b.wf(),
        #[trigger] a@ == #[trigger] b@,
    ensures
        a == b,
{
    assert(a@.len() == a.len);
    assert(b@.len() == b.len);
    assert(a.len == b.len);
    assert forall|i: int| 0 <= i < MAX_PRINCIPAL_BYTES implies a.bytes@[i] == b.bytes@[i] by {
        if i < a.len {
            assert(a@[i] == a.bytes@[i]);
            assert(b@[i] == b.bytes@[i]);
        } else {
            assert(a.bytes@[i] == 0);
            assert(b.bytes@[i] == 0);
        }
    }
    assert(a.bytes@ =~= b.bytes@);
    assert(a.bytes =~= b.bytes);
}

impl PartialEq for Principal {
    fn eq(&self, other: &Principal) -> (r: bool) {
        if self.len != other.len {
            return false;
        }
        let mut i: usize = 0;
        while i < 29
            invariant
                i <= 29,
                self.len == other.len,
                forall|k: int| 0 <= k < i ==> #[trigger] self.bytes@[k] == other.bytes@[k],
            decreases 29 - i,
        {
            if self.bytes[i] != other.bytes[i] {
                return false;
            }
            i = i + 1;
        }
        assert(self.bytes@ =~= other.bytes@);
        assert(self.bytes =~= other.bytes);
        true
    }
}

impl Eq for Principal {

}

impl vstd::std_specs::cmp::PartialEqSpecImpl for Principal {
    open spec fn obeys_eq_spec() -> bool {
        true
    }

    open spec fn eq_spec(&self, other: &Principal) -> bool {
        *self == *other
    }
}

/// Identities with one text are one identity.
pub proof fn lemma_text_tells_apart(a: Principal, b: Principal)
    requires
        a.wf(),
        b.wf(),
        a.text_of() == b.text_of(),
    ensures
        a == b,
{
    hexadecimal::lemma_hex_injective(a@, b@);
    lemma_principal_bytes(a, b);
}

impl TextKey for Principal {
    /// The bytes in hexadecimal.
    open spec fn text_of(self) -> Seq<char> {
        hexadecimal::hex(self@)
    }

    fn text(&self) -> (r: String) {
        let bytes = self.to_bytes();
        let mut r = String::new();
        let mut i: usize = 0;
        assert(r@ =~= hexadecimal::hex(bytes@.take(0)));
        while i < bytes.len()
            invariant
                i <= bytes@.len(),
                r@ == hexadecimal::hex(bytes@.take(i as int)),
            decreases bytes@.len() - i,
        {
            r.append(hex_text(bytes[i] / 16));
            r.append(hex_text(bytes[i] % 16));
            i = i + 1;
            assert(r@ =~= hexadecimal::hex(bytes@.take(i as int)));
        }
        assert(bytes@.take(i as int) =~= self@);
        r
    }
}

} // verus!
