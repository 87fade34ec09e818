use vstd::prelude::*;
use crate::abi::{
    address_word, addr_at, be_word, bytes_tail, pad_len, word_u64_at, push_zeros, push_bytes,
    push_be_word, push_bytes_tail, read_address_word, read_u64_word, read_bytes,
    lemma_be_word_roundtrip, lemma_pad_len, lemma_pad_exact, lemma_word_at, lemma_addr_word_at,
};
use crate::error::{Error, ErrorKind};
use crate::primitives::Address;
use crate::state_object::{
    StateObject, StateObjectData, so_wf, spec_so_encode, spec_so_decode, lemma_so_roundtrip,
};

verus! {

/// Mathematical view of a state update: the successor state object over a
/// range, stamped with a block number and the plasma contract.
pub ghost struct StateUpdateData {
    pub state_object: StateObjectData,
    pub start: u64,
    pub end: u64,
    pub block_number: u64,
    pub plasma_contract: Seq<u8>,
}

pub open spec fn su_wf(v: StateUpdateData) -> bool {
    &&& so_wf(v.state_object)
    &&& v.plasma_contract.len() == 20
}

/// The canonical encoding of a state update: the tuple
/// (state object bytes, start, end, block number, contract address).
pub open spec fn spec_su_encode(v: StateUpdateData) -> Seq<u8> {
    be_word(160) + be_word(v.start) + be_word(v.end) + be_word(v.block_number) + address_word(
        v.plasma_contract,
    ) + bytes_tail(spec_so_encode(v.state_object))
}

/// The strict decoding of a state update.
pub open spec fn spec_su_decode(data: Seq<u8>) -> Option<StateUpdateData> {
    if data.len() < 192 {
        None
    } else if word_u64_at(data, 0) != Some(160u64) {
        None
    } else if word_u64_at(data, 32) is None || word_u64_at(data, 64) is None || word_u64_at(
        data,
        96,
    ) is None {
        None
    } else if addr_at(data, 128) is None {
        None
    } else if word_u64_at(data, 160) is None {
        None
    } else {
        let dlen = word_u64_at(data, 160)->Some_0 as int;
        if data.len() == 192 + pad_len(dlen) {
            match spec_so_decode(data.subrange(192, 192 + dlen)) {
                Some(so) => Some(
                    StateUpdateData {
                        state_object: so,
                        start: word_u64_at(data, 32)->Some_0,
                        end: word_u64_at(data, 64)->Some_0,
                        block_number: word_u64_at(data, 96)->Some_0,
                        plasma_contract: addr_at(data, 128)->Some_0,
                    },
                ),
                None => None,
            }
        } else {
            None
        }
    }
}

/// Decoding a canonical encoding gives the state update back.
pub proof fn lemma_su_roundtrip(v: StateUpdateData)
    requires
        su_wf(v),
        v.state_object.data.len() <= u64::MAX - 128,
    ensures
        spec_su_decode(spec_su_encode(v)) == Some(v),
{
    let e = spec_su_encode(v);
    let inner = spec_so_encode(v.state_object);
    lemma_pad_len(v.state_object.data.len() as int);
    let dlen = inner.len() as int;
    assert(dlen == 96 + pad_len(v.state_object.data.len() as int));
    assert(dlen % 32 == 0) by {
        vstd::arithmetic::div_mod::lemma_add_mod_noop(
            96,
            pad_len(v.state_object.data.len() as int),
            32,
        );
    }
    lemma_pad_exact(dlen);
    assert(e.len() == 192 + pad_len(dlen));
    assert(forall|j: int| 0 <= j < 32 ==> e[j] == #[trigger] be_word(160)[j]);
    lemma_word_at(e, 0, 160);
    assert(forall|j: int| 0 <= j < 32 ==> e[32 + j] == #[trigger] be_word(v.start)[j]);
    lemma_word_at(e, 32, v.start);
    assert(forall|j: int| 0 <= j < 32 ==> e[64 + j] == #[trigger] be_word(v.end)[j]);
    lemma_word_at(e, 64, v.end);
    assert(forall|j: int| 0 <= j < 32 ==> e[96 + j] == #[trigger] be_word(v.block_number)[j]);
    lemma_word_at(e, 96, v.block_number);
    assert(forall|j: int| 0 <= j < 32 ==> e[128 + j] == #[trigger] address_word(
        v.plasma_contract,
    )[j]);
    lemma_addr_word_at(e, 128, v.plasma_contract);
    assert(forall|j: int| 0 <= j < 32 ==> e[160 + j] == #[trigger] be_word(dlen as u64)[j]);
    lemma_word_at(e, 160, dlen as u64);
    assert(e.subrange(192, 192 + dlen) =~= inner);
    lemma_so_roundtrip(v.state_object);
}

/// The successor state over a range, as stored and hashed.
pub struct StateUpdate {
    state_object: StateObject,
    start: u64,
    end: u64,
    block_number: u64,
    plasma_contract: Address,
}

impl View for StateUpdate {
    type V = StateUpdateData;

    closed spec fn view(&self) -> StateUpdateData {
        StateUpdateData {
            state_object: self.state_object@,
            start: self.start,
            end: self.end,
            block_number: self.block_number,
            plasma_contract: self.plasma_contract@,
        }
    }
}

impl Clone for StateUpdate {
    fn clone(&self) -> (r: Self)
        ensures
            r@ == self@,
    {
        StateUpdate {
            state_object: self.state_object.clone(),
            start: self.start,
            end: self.end,
            block_number: self.block_number,
            plasma_contract: self.plasma_contract.clone(),
        }
    }
}

impl StateUpdate {
    pub open spec fn wf(&self) -> bool {
        su_wf(self@)
    }

    pub fn new(
        state_object: &StateObject,
        start: u64,
        end: u64,
        block_number: u64,
        plasma_contract: Address,
    ) -> (r: Self)
        requires
            state_object.wf(),
            plasma_contract.wf(),
        ensures
            r@ == (StateUpdateData {
                state_object: state_object@,
                start,
                end,
                block_number,
                plasma_contract: plasma_contract@,
            }),
            r.wf(),
    {
        StateUpdate {
            state_object: state_object.clone(),
            start,
            end,
            block_number,
            plasma_contract,
        }
    }

    pub fn get_start(&self) -> (r: u64)
        ensures
            r == self@.start,
    {
        self.start
    }

    pub fn get_end(&self) -> (r: u64)
        ensures
            r == self@.end,
    {
        self.end
    }

    pub fn get_block_number(&self) -> (r: u64)
        ensures
            r == self@.block_number,
    {
        self.block_number
    }

    pub fn get_state_object(&self) -> (r: &StateObject)
        ensures
            r@ == self@.state_object,
    {
        &self.state_object
    }

    /// Whether two state updates agree in every field.
    pub fn equals(&self, other: &StateUpdate) -> (r: bool)
        ensures
            r == (self@ == other@),
    {
        self.state_object.equals(&other.state_object) && self.start == other.start && self.end
            == other.end && self.block_number == other.block_number && self.plasma_contract.equals(
            &other.plasma_contract,
        )
    }

    /// The canonical byte encoding: the tuple
    /// (state object bytes, start, end, block number, contract address).
    pub fn to_abi(&self) -> (r: Vec<u8>)
        requires
            self.wf(),
        ensures
            r@ == spec_su_encode(self@),
    {
        let so_abi = self.state_object.to_abi();
        let mut out: Vec<u8> = Vec::new();
        push_be_word(&mut out, 160);
        push_be_word(&mut out, self.start);
        push_be_word(&mut out, self.end);
        push_be_word(&mut out, self.block_number);
        push_zeros(&mut out, 12);
        push_bytes(&mut out, self.plasma_contract.as_bytes());
        push_bytes_tail(&mut out, so_abi.as_slice());
        proof {
            assert(out@ =~= spec_su_encode(self@));
        }
        out
    }

    /// Decodes a canonical encoding; fails with `AbiDecode` on anything
    /// else.
    pub fn from_abi(data: &[u8]) -> (r: Result<StateUpdate, Error>)
        ensures
            (r matches Ok(v) ==> spec_su_decode(data@) == Some(v@) && v.wf()),
            r is Err ==> spec_su_decode(data@) is None,
            (r matches Err(e) ==> e.spec_kind() == ErrorKind::AbiDecode),
    {
        let n = data.len();
        if n < 192 {
            return Err(Error::from_kind(ErrorKind::AbiDecode));
        }
        match read_u64_word(data, 0) {
            Some(off) => {
                if off != 160 {
                    return Err(Error::from_kind(ErrorKind::AbiDecode));
                }
            },
            None => {
                return Err(Error::from_kind(ErrorKind::AbiDecode));
            },
        }
        let start = match read_u64_word(data, 32) {
            Some(x) => x,
            None => {
                return Err(Error::from_kind(ErrorKind::AbiDecode));
            },
        };
        let end = match read_u64_word(data, 64) {
            Some(x) => x,
            None => {
                return Err(Error::from_kind(ErrorKind::AbiDecode));
            },
        };
        let block_number = match read_u64_word(data, 96) {
            Some(x) => x,
            None => {
                return Err(Error::from_kind(ErrorKind::AbiDecode));
            },
        };
        let contract = match read_address_word(data, 128) {
            Some(a) => a,
            None => {
                return Err(Error::from_kind(ErrorKind::AbiDecode));
            },
        };
        let dlen = match read_u64_word(data, 160) {
            Some(d) => d,
            None => {
                return Err(Error::from_kind(ErrorKind::AbiDecode));
            },
        };
        proof {
            lemma_pad_len(dlen as int);
        }
        if dlen > (n as u64) || (dlen as usize) > n - 192 {
            return Err(Error::from_kind(ErrorKind::AbiDecode));
        }
        let dl = dlen as usize;
        let pad = ((dl + 31) / 32) * 32;
        if n - 192 != pad {
            return Err(Error::from_kind(ErrorKind::AbiDecode));
        }
        let inner = read_bytes(data, 192, dl);
        let state_object = match StateObject::from_abi(inner.as_slice()) {
            Ok(so) => so,
            Err(_) => {
                return Err(Error::from_kind(ErrorKind::AbiDecode));
            },
        };
        Ok(
            StateUpdate {
                state_object,
                start,
                end,
                block_number,
                plasma_contract: Address::from_vec(contract),
            },
        )
    }
}

} // verus!
