use vstd::prelude::*;

verus! {

/// The identity of a member: a token of sixteen bytes, drawn at random when
/// the node starts and never changed afterwards.
#[derive(Clone, Copy, Debug, Hash)]
pub struct HostKey {
    pub bytes: [u8; 16],
}

impl View for HostKey {
    type V = Seq<u8>;

    open spec fn view(&self) -> Seq<u8> {
        self.bytes@
    }
}

impl HostKey {
    /// The key made of the given bytes.
    pub fn from_bytes(bytes: [u8; 16]) -> (k: HostKey)
        ensures
            k@ == bytes@,
            k.bytes == bytes,
    {
        HostKey { bytes }
    }

    /// The sixteen bytes of the key.
    pub fn as_bytes(&self) -> (b: &[u8; 16])
        ensures
            b@ == self@,
    {
        &self.bytes
    }
}

impl PartialEq for HostKey {
    fn eq(&self, other: &HostKey) -> (r: bool) {
        let mut i: usize = 0;
        while i < 16
            invariant
                i <= 16,
                forall|j: int| 0 <= j < i ==> self.bytes@[j] == other.bytes@[j],
            decreases 16 - i,
        {
            if self.bytes[i] != other.bytes[i] {
                return false;
            }
            i = i + 1;
        }
        assert(self.bytes@ =~= other.bytes@);
        true
    }
}

impl Eq for HostKey {

}

impl vstd::std_specs::cmp::PartialEqSpecImpl for HostKey {
    open spec fn obeys_eq_spec() -> bool {
        true
    }

    open spec fn eq_spec(&self, other: &HostKey) -> bool {
        self@ == other@
    }
}

} // verus!
