//! Keys, signatures and addresses, as the bytes that they are encoded in.
use vstd::prelude::*;

verus! {

/// A compressed curve point: a key that signatures are checked against.
#[derive(Debug, Clone, Copy)]
pub struct Pubkey {
    pub bytes: [u8; 33],
}

/// A signature in the compact form, `r` before `s`.
#[derive(Debug, Clone, Copy)]
pub struct Signature {
    pub bytes: [u8; 64],
}

/// An extended public key in its binary encoding: version, depth, fingerprint
/// of the parent, child number, chain code, key.
#[derive(Debug, Clone, Copy)]
pub struct Xpub {
    pub bytes: [u8; 78],
}

/// An account that coins are deposited for.
#[derive(Debug, Clone, Copy)]
pub struct Address {
    pub bytes: [u8; 20],
}

impl View for Pubkey {
    type V = Seq<u8>;

    open spec fn view(&self) -> Seq<u8> {
        self.bytes@
    }
}

impl View for Signature {
    type V = Seq<u8>;

    open spec fn view(&self) -> Seq<u8> {
        self.bytes@
    }
}

impl View for Xpub {
    type V = Seq<u8>;

    open spec fn view(&self) -> Seq<u8> {
        self.bytes@
    }
}

impl View for Address {
    type V = Seq<u8>;

    open spec fn view(&self) -> Seq<u8> {
        self.bytes@
    }
}

impl Pubkey {
    /// Whether the two keys are the same.
    pub fn same(&self, other: &Pubkey) -> (same: bool)
        ensures
            same == (self@ == other@),
    {
        let mut i: usize = 0;
        while i < 33
            invariant
                i <= 33,
                forall|j: int| 0 <= j < i ==> self.bytes@[j] == other.bytes@[j],
            decreases 33 - i,
        {
            if self.bytes[i] != other.bytes[i] {
                assert(self@[i as int] != other@[i as int]);
                return false;
            }
            i += 1;
        }
        assert(self@ =~= other@);
        true
    }
}

impl Xpub {
    /// How many derivations the key is away from its master key.
    pub open spec fn depth(&self) -> u8 {
        self.bytes@[4]
    }
}

impl Address {
    /// The bytes of the address that belongs to nobody.
    pub open spec fn null_bytes() -> Seq<u8> {
        Seq::new(20, |i: int| 0u8)
    }

    /// The address that belongs to nobody: coins held for it are the reserve.
    pub fn null() -> (address: Address)
        ensures
            address@ == Address::null_bytes(),
    {
        let address = Address { bytes: [0u8; 20] };
        assert(address@ =~= Address::null_bytes());
        address
    }
}

} // verus!
