use vstd::prelude::*;
use crate::abi::{
    address_word, addr_at, be_word, bytes_tail, pad_len, word_u64_at, zeros, push_zeros,
    push_bytes, push_be_word, push_bytes_tail, read_address_word, read_u64_word, read_bytes,
    lemma_be_word_roundtrip, lemma_pad_len, lemma_word_at, lemma_addr_word_at,
};
use crate::error::{Error, ErrorKind};
use crate::primitives::Address;

verus! {

/// Mathematical view of a state object: the address of the predicate that
/// governs it and its opaque payload.
pub ghost struct StateObjectData {
    pub predicate: Seq<u8>,
    pub data: Seq<u8>,
}

pub open spec fn so_wf(v: StateObjectData) -> bool {
    v.predicate.len() == 20
}

/// The canonical encoding of a state object: the tuple (address, bytes).
pub open spec fn spec_so_encode(v: StateObjectData) -> Seq<u8> {
    address_word(v.predicate) + be_word(64) + bytes_tail(v.data)
}

/// The strict decoding of a state object: the address word, the offset
/// word pointing right behind the head, the payload length, and a total
/// length that matches exactly.
pub open spec fn spec_so_decode(data: Seq<u8>) -> Option<StateObjectData> {
    if data.len() < 96 {
        None
    } else if addr_at(data, 0) is None {
        None
    } else if word_u64_at(data, 32) != Some(64u64) {
        None
    } else if word_u64_at(data, 64) is None {
        None
    } else {
        let dlen = word_u64_at(data, 64)->Some_0 as int;
        if data.len() == 96 + pad_len(dlen) {
            Some(
                StateObjectData {
                    predicate: addr_at(data, 0)->Some_0,
                    data: data.subrange(96, 96 + dlen),
                },
            )
        } else {
            None
        }
    }
}

/// Decoding a canonical encoding gives the state object back.
pub proof fn lemma_so_roundtrip(v: StateObjectData)
    requires
        so_wf(v),
        v.data.len() <= u64::MAX,
    ensures
        spec_so_decode(spec_so_encode(v)) == Some(v),
{
    let e = spec_so_encode(v);
    let dlen = v.data.len() as int;
    lemma_pad_len(dlen);
    assert(e.len() == 96 + pad_len(dlen));
    assert(forall|j: int| 0 <= j < 32 ==> e[j] == address_word(v.predicate)[j]);
    lemma_addr_word_at(e, 0, v.predicate);
    assert(forall|j: int| 0 <= j < 32 ==> e[32 + j] == #[trigger] be_word(64)[j]);
    lemma_word_at(e, 32, 64);
    lemma_be_word_roundtrip(v.data.len() as u64);
    assert(forall|j: int| 0 <= j < 32 ==> e[64 + j] == #[trigger] be_word(v.data.len() as u64)[j]);
    lemma_word_at(e, 64, v.data.len() as u64);
    assert(e.subrange(96, 96 + dlen) =~= v.data);
}

/// The payload owned within a range, referencing the predicate that
/// governs it.
pub struct StateObject {
    predicate: Address,
    data: Vec<u8>,
}

impl View for StateObject {
    type V = StateObjectData;

    closed spec fn view(&self) -> StateObjectData {
        StateObjectData { predicate: self.predicate@, data: self.data@ }
    }
}

impl Clone for StateObject {
    fn clone(&self) -> (r: Self)
        ensures
            r@ == self@,
    {
        StateObject { predicate: self.predicate.clone(), data: self.data.clone() }
    }
}

impl StateObject {
    pub open spec fn wf(&self) -> bool {
        so_wf(self@)
    }

    pub fn new(predicate: Address, data: &[u8]) -> (r: Self)
        requires
            predicate.wf(),
        ensures
            r@ == (StateObjectData { predicate: predicate@, data: data@ }),
            r.wf(),
    {
        StateObject { predicate, data: vstd::slice::slice_to_vec(data) }
    }

    pub fn get_predicate(&self) -> (r: &Address)
        ensures
            r@ == self@.predicate,
    {
        &self.predicate
    }

    /// Whether two state objects hold the same predicate and payload.
    pub fn equals(&self, other: &StateObject) -> (r: bool)
        ensures
            r == (self@ == other@),
    {
        self.predicate.equals(&other.predicate) && crate::merkle::bytes_eq(
            self.data.as_slice(),
            other.data.as_slice(),
        )
    }

    /// The canonical byte encoding: the tuple (predicate address, data).
    pub fn to_abi(&self) -> (r: Vec<u8>)
        requires
            self.wf(),
        ensures
            r@ == spec_so_encode(self@),
    {
        let mut out: Vec<u8> = Vec::new();
        push_zeros(&mut out, 12);
        push_bytes(&mut out, self.predicate.as_bytes());
        push_be_word(&mut out, 64);
        push_bytes_tail(&mut out, self.data.as_slice());
        proof {
            assert(out@ =~= spec_so_encode(self@));
        }
        out
    }

    /// Decodes a canonical encoding; fails with `AbiDecode` on anything
    /// else.
    pub fn from_abi(data: &[u8]) -> (r: Result<StateObject, Error>)
        ensures
            (r matches Ok(v) ==> spec_so_decode(data@) == Some(v@) && v.wf()),
            r is Err ==> spec_so_decode(data@) is None,
            (r matches Err(e) ==> e.spec_kind() == ErrorKind::AbiDecode),
    {
        let n = data.len();
        if n < 96 {
            return Err(Error::from_kind(ErrorKind::AbiDecode));
        }
        let addr_bytes = match read_address_word(data, 0) {
            Some(a) => a,
            None => {
                return Err(Error::from_kind(ErrorKind::AbiDecode));
            },
        };
        match read_u64_word(data, 32) {
            Some(off) => {
                if off != 64 {
                    return Err(Error::from_kind(ErrorKind::AbiDecode));
                }
            },
            None => {
                return Err(Error::from_kind(ErrorKind::AbiDecode));
            },
        }
        let dlen = match read_u64_word(data, 64) {
            Some(d) => d,
            None => {
                return Err(Error::from_kind(ErrorKind::AbiDecode));
            },
        };
        proof {
            lemma_pad_len(dlen as int);
        }
        if dlen > (n as u64) || (dlen as usize) > n - 96 {
            return Err(Error::from_kind(ErrorKind::AbiDecode));
        }
        let dl = dlen as usize;
        let pad = ((dl + 31) / 32) * 32;
        if n - 96 != pad {
            return Err(Error::from_kind(ErrorKind::AbiDecode));
        }
        let bytes = read_bytes(data, 96, dl);
        Ok(StateObject { predicate: Address::from_vec(addr_bytes), data: bytes })
    }
}

} // verus!
