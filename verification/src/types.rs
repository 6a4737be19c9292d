//! Fixed-width scalar values and the error taxonomy.
//!
//! Hashes, addresses and wide integers are exposed in their canonical
//! fixed-width external encoding: hashes are 256 bits, proposer addresses
//! 160 bits, and block numbers and quota are widened to 256-bit integers.

use vstd::prelude::*;

verus! {

/// A 256-bit hash in its canonical fixed-width form.
#[derive(Debug, PartialEq, Eq)]
pub struct Hash256 {
    bytes: Vec<u8>,
}

impl View for Hash256 {
    type V = Seq<u8>;

    closed spec fn view(&self) -> Seq<u8> {
        self.bytes@
    }
}

impl Hash256 {
    /// A hash always holds exactly 32 bytes.
    #[verifier::type_invariant]
    pub open spec fn wf(&self) -> bool {
        self@.len() == 32
    }

    /// Builds a hash from exactly 32 bytes; any other length is rejected.
    pub fn from_bytes(bytes: Vec<u8>) -> (r: Option<Hash256>)
        ensures
            r is Some <==> bytes@.len() == 32,
            r matches Some(h) ==> h@ == bytes@,
    {
        if bytes.len() == 32 {
            Some(Hash256 { bytes })
        } else {
            None
        }
    }

    /// Builds a hash from bytes already known to be exactly 32 long.
    pub(crate) fn from_exact(bytes: Vec<u8>) -> (r: Hash256)
        requires
            bytes@.len() == 32,
        ensures
            r@ == bytes@,
    {
        Hash256 { bytes }
    }

    /// The 32 bytes of the hash.
    pub fn as_bytes(&self) -> (r: &Vec<u8>)
        ensures
            r@ == self@,
    {
        &self.bytes
    }
}

/// A 160-bit account address in its canonical fixed-width form.
#[derive(Debug, PartialEq, Eq)]
pub struct Address {
    bytes: Vec<u8>,
}

impl View for Address {
    type V = Seq<u8>;

    closed spec fn view(&self) -> Seq<u8> {
        self.bytes@
    }
}

impl Address {
    /// An address always holds exactly 20 bytes.
    #[verifier::type_invariant]
    pub open spec fn wf(&self) -> bool {
        self@.len() == 20
    }

    /// Builds an address from exactly 20 bytes; any other length is rejected.
    pub fn from_bytes(bytes: Vec<u8>) -> (r: Option<Address>)
        ensures
            r is Some <==> bytes@.len() == 20,
            r matches Some(a) ==> a@ == bytes@,
    {
        if bytes.len() == 20 {
            Some(Address { bytes })
        } else {
            None
        }
    }

    /// Builds an address from bytes already known to be exactly 20 long.
    pub(crate) fn from_exact(bytes: Vec<u8>) -> (r: Address)
        requires
            bytes@.len() == 20,
        ensures
            r@ == bytes@,
    {
        Address { bytes }
    }

    /// The 20 bytes of the address.
    pub fn as_bytes(&self) -> (r: &Vec<u8>)
        ensures
            r@ == self@,
    {
        &self.bytes
    }
}

/// A 256-bit unsigned integer held as four 64-bit limbs, least significant
/// first: the canonical width of block numbers and quota.
#[derive(Debug, Clone, Copy, PartialEq, Eq)]
pub struct U256 {
    pub limb0: u64,
    pub limb1: u64,
    pub limb2: u64,
    pub limb3: u64,
}

impl U256 {
    /// The integer a value stands for.
    pub open spec fn value(&self) -> int {
        self.limb0 as int + self.limb1 as int * 0x1_0000_0000_0000_0000
            + self.limb2 as int * 0x1_0000_0000_0000_0000_0000_0000_0000_0000
            + self.limb3 as int
                * 0x1_0000_0000_0000_0000_0000_0000_0000_0000_0000_0000_0000_0000
    }

    /// Widens a 64-bit integer, as block heights and quota are widened.
    pub fn from_u64(x: u64) -> (r: U256)
        ensures
            r.value() == x,
            r.limb0 == x,
            r.limb1 == 0,
            r.limb2 == 0,
            r.limb3 == 0,
    {
        U256 { limb0: x, limb1: 0, limb2: 0, limb3: 0 }
    }
}

impl View for U256 {
    type V = int;

    open spec fn view(&self) -> int {
        self.value()
    }
}

/// A consensus proof in its client-facing form.
#[derive(Debug, PartialEq, Eq)]
pub struct Proof {
    pub content: Vec<u8>,
}

impl View for Proof {
    type V = Seq<u8>;

    open spec fn view(&self) -> Seq<u8> {
        self.content@
    }
}

/// The low-level cause carried by a decode failure.
#[derive(Debug, Clone, Copy, PartialEq, Eq)]
pub enum DecodeError {
    /// The bytes end before the structure does.
    Truncated,
    /// A presence tag holds neither zero nor one.
    BadTag,
    /// Bytes are left over after the block ends.
    Trailing,
}

/// The single error value surfaced to the calling layer.
#[derive(Debug, Clone, Copy, PartialEq, Eq)]
pub enum Error {
    /// The raw bytes are not a valid encoded block; carries the cause.
    Decode(DecodeError),
    /// A sub-structure failed to convert: a proof, a transaction asked for
    /// in full, or the supplied block hash.
    Conversion,
}

} // verus!
