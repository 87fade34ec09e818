use vstd::prelude::*;

verus! {

/// A 20-byte account or contract address.
pub struct Address {
    bytes: Vec<u8>,
}

impl View for Address {
    type V = Seq<u8>;

    closed spec fn view(&self) -> Seq<u8> {
        self.bytes@
    }
}

impl Clone for Address {
    fn clone(&self) -> (r: Self)
        ensures
            r@ == self@,
    {
        Address { bytes: self.bytes.clone() }
    }
}

impl Address {
    /// An address always holds exactly 20 bytes.
    pub open spec fn wf(&self) -> bool {
        self@.len() == 20
    }

    pub fn from_slice(bytes: &[u8]) -> (r: Self)
        requires
            bytes@.len() == 20,
        ensures
            r@ == bytes@,
            r.wf(),
    {
        Address { bytes: vstd::slice::slice_to_vec(bytes) }
    }

    pub fn from_vec(bytes: Vec<u8>) -> (r: Self)
        requires
            bytes@.len() == 20,
        ensures
            r@ == bytes@,
            r.wf(),
    {
        Address { bytes }
    }

    /// The all-zero address.
    pub fn zero() -> (r: Self)
        ensures
            r@ == crate::abi::zeros(20),
            r.wf(),
    {
        let mut bytes: Vec<u8> = Vec::new();
        crate::abi::push_zeros(&mut bytes, 20);
        proof {
            assert(bytes@ =~= crate::abi::zeros(20));
        }
        Address { bytes }
    }

    pub fn as_bytes(&self) -> (r: &[u8])
        ensures
            r@ == self@,
    {
        self.bytes.as_slice()
    }

    /// Whether two addresses hold the same bytes.
    pub fn equals(&self, other: &Address) -> (r: bool)
        ensures
            r == (self@ == other@),
    {
        crate::merkle::bytes_eq(self.bytes.as_slice(), other.bytes.as_slice())
    }
}

/// A 32-byte word, as carried in witnesses and block roots.
pub struct H256 {
    bytes: Vec<u8>,
}

impl View for H256 {
    type V = Seq<u8>;

    closed spec fn view(&self) -> Seq<u8> {
        self.bytes@
    }
}

impl Clone for H256 {
    fn clone(&self) -> (r: Self)
        ensures
            r@ == self@,
    {
        H256 { bytes: self.bytes.clone() }
    }
}

impl H256 {
    /// A word always holds exactly 32 bytes.
    pub open spec fn wf(&self) -> bool {
        self@.len() == 32
    }

    pub fn from_slice(bytes: &[u8]) -> (r: Self)
        requires
            bytes@.len() == 32,
        ensures
            r@ == bytes@,
            r.wf(),
    {
        H256 { bytes: vstd::slice::slice_to_vec(bytes) }
    }

    pub fn from_vec(bytes: Vec<u8>) -> (r: Self)
        requires
            bytes@.len() == 32,
        ensures
            r@ == bytes@,
            r.wf(),
    {
        H256 { bytes }
    }

    /// The all-zero word.
    pub fn zero() -> (r: Self)
        ensures
            r@ == crate::abi::zeros(32),
            r.wf(),
    {
        let mut bytes: Vec<u8> = Vec::new();
        crate::abi::push_zeros(&mut bytes, 32);
        proof {
            assert(bytes@ =~= crate::abi::zeros(32));
        }
        H256 { bytes }
    }

    pub fn as_bytes(&self) -> (r: &[u8])
        ensures
            r@ == self@,
    {
        self.bytes.as_slice()
    }

    /// Whether two words hold the same bytes.
    pub fn equals(&self, other: &H256) -> (r: bool)
        ensures
            r == (self@ == other@),
    {
        crate::merkle::bytes_eq(self.bytes.as_slice(), other.bytes.as_slice())
    }
}

} // verus!
