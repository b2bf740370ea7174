use vstd::prelude::*;

verus! {

/// Who a depositor or a caller is: a 32-byte key. Two identities are the
/// same exactly when their bytes are.
#[derive(Clone, Copy, Debug, Eq)]
pub struct Identity {
    bytes: [u8; 32],
}

impl View for Identity {
    type V = Seq<u8>;

    closed spec fn view(&self) -> Seq<u8> {
        self.bytes@
    }
}

impl Identity {
    /// The identity with these bytes.
    pub fn new(bytes: [u8; 32]) -> (id: Identity)
        ensures
            id@ == bytes@,
    {
        Identity { bytes }
    }

    /// The bytes of this identity.
    pub fn to_bytes(&self) -> (bytes: [u8; 32])
        ensures
            bytes@ == self@,
    {
        self.bytes
    }

    /// The identity whose bytes `bytes` are, if they are 32.
    pub fn from_slice(bytes: &[u8]) -> (r: Option<Identity>)
        ensures
            match r {
                Some(id) => id@ == bytes@,
                None => bytes@.len() != 32,
            },
    {
        if bytes.len() != 32 {
            return None;
        }
        let mut key = [0u8; 32];
        let mut i: usize = 0;
        while i < 32
            invariant
                i <= 32,
                bytes@.len() == 32,
                forall|k: int| 0 <= k < i ==> key@[k] == bytes@[k],
            decreases 32 - i,
        {
            key[i] = bytes[i];
            i = i + 1;
        }
        assert(key@ =~= bytes@);
        Some(Identity { bytes: key })
    }

    /// An identity has 32 bytes.
    pub proof fn lemma_view_len(self)
        ensures
            self@.len() == 32,
    {
    }

    /// An identity is its bytes: equal views, equal identities.
    pub proof fn lemma_view_injective(a: Identity, b: Identity)
        ensures
            a@ == b@ <==> a == b,
    {
        broadcast use vstd::array::group_array_axioms;

        if a@ == b@ {
            assert(a.bytes@ =~= b.bytes@);
            assert(a.bytes == b.bytes);
        }
    }
}

impl PartialEq for Identity {
    fn eq(&self, other: &Identity) -> (same: bool) {
        let mut i: usize = 0;
        while i < 32
            invariant
                i <= 32,
                forall|k: int| 0 <= k < i ==> self.bytes@[k] == other.bytes@[k],
            decreases 32 - i,
        {
            if self.bytes[i] != other.bytes[i] {
                return false;
            }
            i = i + 1;
        }
        proof {
            assert(self.bytes@ =~= other.bytes@);
            Identity::lemma_view_injective(*self, *other);
        }
        true
    }
}

impl vstd::std_specs::cmp::PartialEqSpecImpl for Identity {
    open spec fn obeys_eq_spec() -> bool {
        true
    }

    open spec fn eq_spec(&self, other: &Identity) -> bool {
        *self == *other
    }
}

} // verus!
