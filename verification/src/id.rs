use vstd::prelude::*;

verus! {

/// An opaque identifier wrapping a 64-bit value.
///
/// Equality and hashing go by the wrapped value. Callers never construct one
/// from a raw value: the only constructor is the allocation operation, which
/// guarantees that every identifier it hands out is distinct from every other
/// one issued from the same counter.
#[derive(Clone, PartialEq, Eq, Hash, Debug, Structural)]
pub struct UID {
    value: u64,
}

impl View for UID {
    type V = u64;

    closed spec fn view(&self) -> u64 {
        self.value
    }
}

/// The identifier that wraps `v`. Ghost-only: executable code obtains
/// identifiers from the allocator alone.
pub closed spec fn uid_with(v: u64) -> UID {
    UID { value: v }
}

impl UID {
    /// Package a freshly issued value. Only the allocator calls this.
    pub(crate) fn from_raw(value: u64) -> (id: UID)
        ensures
            id@ == value,
    {
        UID { value }
    }

    /// The underlying 64-bit value; consumes the identifier.
    pub fn into_value(self) -> (v: u64)
        ensures
            v == self@,
    {
        self.value
    }
}

/// Converting an identifier to its underlying value and back preserves the
/// identifier, and two identifiers are equal exactly when their values are.
pub proof fn lemma_value_round_trip(a: UID, b: UID)
    ensures
        uid_with(a@) == a,
        uid_with(a@)@ == a@,
        a == b <==> a@ == b@,
{
}

} // verus!
