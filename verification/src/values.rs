//! Plain values standing for the host objects the contract works with.
use vstd::prelude::*;

verus! {

broadcast use vstd::array::group_array_axioms;

/// An account or contract address, held as the 56 bytes of its strkey
/// text (`G...` for accounts, `C...` for contracts).
#[derive(Clone, Copy, Debug, PartialEq, Eq)]
pub struct Address {
    pub strkey: [u8; 56],
}

/// A symbol (up to 32 characters of `[a-zA-Z0-9_]`), held as its characters
/// followed by zero bytes.
#[derive(Clone, Copy, Debug, PartialEq, Eq)]
pub struct Symbol {
    pub chars: [u8; 32],
}

/// A 32-byte hash, such as the hash of an uploaded Wasm blob.
#[derive(Clone, Copy, Debug, PartialEq, Eq)]
pub struct Hash32 {
    pub bytes: [u8; 32],
}

impl Address {
    /// Whether two addresses are the same address.
    pub fn same_as(&self, other: &Address) -> (eq: bool)
        ensures
            eq == (*self == *other),
    {
        let mut i: usize = 0;
        while i < 56
            invariant
                i <= 56,
                forall|k: int| 0 <= k < i ==> self.strkey[k] == other.strkey[k],
            decreases 56 - i,
        {
            if self.strkey[i] != other.strkey[i] {
                return false;
            }
            i += 1;
        }
        assert(self.strkey =~= other.strkey);
        true
    }
}

impl Symbol {
    /// Whether two symbols are the same symbol.
    pub fn same_as(&self, other: &Symbol) -> (eq: bool)
        ensures
            eq == (*self == *other),
    {
        let mut i: usize = 0;
        while i < 32
            invariant
                i <= 32,
                forall|k: int| 0 <= k < i ==> self.chars[k] == other.chars[k],
            decreases 32 - i,
        {
            if self.chars[i] != other.chars[i] {
                return false;
            }
            i += 1;
        }
        assert(self.chars =~= other.chars);
        true
    }
}

} // verus!
