use vstd::prelude::*;
use crate::abi::{
    address_word, addr_at, be_word, bytes_tail, fixed1_word, pad_len, word_u64_at, zeros,
    push_zeros, push_bytes, push_be_word, push_bytes_tail, read_address_word, read_u64_word,
    read_bytes, lemma_pad_len, lemma_word_at, lemma_addr_word_at,
};
use crate::error::{Error, ErrorKind};
use crate::hashing::{sha3_256, sha3_256_of};
use crate::primitives::{Address, H256};

verus! {

/// Mathematical view of a witness: opaque authorization data.
pub ghost struct WitnessData {
    pub v: Seq<u8>,
    pub r: Seq<u8>,
    pub s: u64,
}

/// Opaque authorization data accompanying a transaction; carried, not
/// validated, by this core.
pub struct Witness {
    v: H256,
    r: H256,
    s: u64,
}

impl View for Witness {
    type V = WitnessData;

    closed spec fn view(&self) -> WitnessData {
        WitnessData { v: self.v@, r: self.r@, s: self.s }
    }
}

impl Clone for Witness {
    fn clone(&self) -> (r: Self)
        ensures
            r@ == self@,
    {
        Witness { v: self.v.clone(), r: self.r.clone(), s: self.s }
    }
}

impl Witness {
    pub open spec fn wf(&self) -> bool {
        self@.v.len() == 32 && self@.r.len() == 32
    }

    pub fn new(v: H256, r: H256, s: u64) -> (w: Self)
        requires
            v.wf(),
            r.wf(),
        ensures
            w@ == (WitnessData { v: v@, r: r@, s }),
            w.wf(),
    {
        Witness { v, r, s }
    }
}

/// Mathematical view of a transaction over `[start, end)`.
pub ghost struct TransactionData {
    pub plasma_contract_address: Seq<u8>,
    pub start: u64,
    pub end: u64,
    pub method_id: u8,
    pub parameters: Seq<u8>,
    pub witness: WitnessData,
}

pub open spec fn tx_wf(v: TransactionData) -> bool {
    &&& v.plasma_contract_address.len() == 20
    &&& v.witness.v.len() == 32
    &&& v.witness.r.len() == 32
}

/// The canonical body encoding: the tuple
/// (contract address, start, end, method id, parameters).
pub open spec fn spec_tx_body_encode(v: TransactionData) -> Seq<u8> {
    address_word(v.plasma_contract_address) + be_word(v.start) + be_word(v.end) + fixed1_word(
        v.method_id,
    ) + be_word(160) + bytes_tail(v.parameters)
}

/// The canonical full encoding: the body tuple followed by the witness
/// words (v, r, s).
pub open spec fn spec_tx_encode(v: TransactionData) -> Seq<u8> {
    address_word(v.plasma_contract_address) + be_word(v.start) + be_word(v.end) + fixed1_word(
        v.method_id,
    ) + be_word(256) + v.witness.v + v.witness.r + be_word(v.witness.s) + bytes_tail(v.parameters)
}

/// The strict decoding of a full transaction encoding.
pub open spec fn spec_tx_decode(data: Seq<u8>) -> Option<TransactionData> {
    if data.len() < 288 {
        None
    } else if addr_at(data, 0) is None {
        None
    } else if word_u64_at(data, 32) is None || word_u64_at(data, 64) is None {
        None
    } else if !(forall|j: int| 97 <= j < 128 ==> data[j] == 0) {
        None
    } else if word_u64_at(data, 128) != Some(256u64) {
        None
    } else if word_u64_at(data, 224) is None {
        None
    } else if word_u64_at(data, 256) is None {
        None
    } else {
        let plen = word_u64_at(data, 256)->Some_0 as int;
        if data.len() == 288 + pad_len(plen) {
            Some(
                TransactionData {
                    plasma_contract_address: addr_at(data, 0)->Some_0,
                    start: word_u64_at(data, 32)->Some_0,
                    end: word_u64_at(data, 64)->Some_0,
                    method_id: data[96],
                    parameters: data.subrange(288, 288 + plen),
                    witness: WitnessData {
                        v: data.subrange(160, 192),
                        r: data.subrange(192, 224),
                        s: word_u64_at(data, 224)->Some_0,
                    },
                },
            )
        } else {
            None
        }
    }
}

/// Decoding a canonical full encoding gives the transaction back.
pub proof fn lemma_tx_roundtrip(v: TransactionData)
    requires
        tx_wf(v),
        v.parameters.len() <= u64::MAX,
    ensures
        spec_tx_decode(spec_tx_encode(v)) == Some(v),
{
    let e = spec_tx_encode(v);
    let plen = v.parameters.len() as int;
    lemma_pad_len(plen);
    assert(e.len() == 288 + pad_len(plen));
    assert(forall|j: int| 0 <= j < 32 ==> e[j] == #[trigger] address_word(
        v.plasma_contract_address,
    )[j]);
    lemma_addr_word_at(e, 0, v.plasma_contract_address);
    assert(forall|j: int| 0 <= j < 32 ==> e[32 + j] == #[trigger] be_word(v.start)[j]);
    lemma_word_at(e, 32, v.start);
    assert(forall|j: int| 0 <= j < 32 ==> e[64 + j] == #[trigger] be_word(v.end)[j]);
    lemma_word_at(e, 64, v.end);
    assert(e[96] == v.method_id);
    assert(forall|j: int| 97 <= j < 128 ==> e[j] == #[trigger] fixed1_word(v.method_id)[j - 96]);
    assert(forall|j: int| 0 <= j < 32 ==> e[128 + j] == #[trigger] be_word(256)[j]);
    lemma_word_at(e, 128, 256);
    assert(e.subrange(160, 192) =~= v.witness.v);
    assert(e.subrange(192, 224) =~= v.witness.r);
    assert(forall|j: int| 0 <= j < 32 ==> e[224 + j] == #[trigger] be_word(v.witness.s)[j]);
    lemma_word_at(e, 224, v.witness.s);
    assert(forall|j: int| 0 <= j < 32 ==> e[256 + j] == #[trigger] be_word(
        v.parameters.len() as u64,
    )[j]);
    lemma_word_at(e, 256, v.parameters.len() as u64);
    assert(e.subrange(288, 288 + plen) =~= v.parameters);
}

/// A transaction over `[start, end)`, constructed at the trust boundary
/// and immutable afterwards.
pub struct Transaction {
    plasma_contract_address: Address,
    start: u64,
    end: u64,
    method_id: u8,
    parameters: Vec<u8>,
    witness: Witness,
}

impl View for Transaction {
    type V = TransactionData;

    closed spec fn view(&self) -> TransactionData {
        TransactionData {
            plasma_contract_address: self.plasma_contract_address@,
            start: self.start,
            end: self.end,
            method_id: self.method_id,
            parameters: self.parameters@,
            witness: self.witness@,
        }
    }
}

impl Clone for Transaction {
    fn clone(&self) -> (r: Self)
        ensures
            r@ == self@,
    {
        Transaction {
            plasma_contract_address: self.plasma_contract_address.clone(),
            start: self.start,
            end: self.end,
            method_id: self.method_id,
            parameters: self.parameters.clone(),
            witness: self.witness.clone(),
        }
    }
}

impl Transaction {
    pub open spec fn wf(&self) -> bool {
        tx_wf(self@)
    }

    pub fn new(
        plasma_contract_address: Address,
        start: u64,
        end: u64,
        method_id: u8,
        parameters: &[u8],
        witness: &Witness,
    ) -> (r: Self)
        requires
            plasma_contract_address.wf(),
            witness.wf(),
        ensures
            r@ == (TransactionData {
                plasma_contract_address: plasma_contract_address@,
                start,
                end,
                method_id,
                parameters: parameters@,
                witness: witness@,
            }),
            r.wf(),
    {
        Transaction {
            plasma_contract_address,
            start,
            end,
            method_id,
            parameters: vstd::slice::slice_to_vec(parameters),
            witness: witness.clone(),
        }
    }

    /// The first byte of the SHA3-256 digest of a method signature.
    pub fn create_method_id(value: &[u8]) -> (r: u8)
        ensures
            r == sha3_256_of(value@)[0],
    {
        let digest = sha3_256(value);
        digest[0]
    }

    pub fn get_start(&self) -> (r: u64)
        ensures
            r == self@.start,
    {
        self.start
    }

    pub fn get_end(&self) -> (r: u64)
        ensures
            r == self@.end,
    {
        self.end
    }

    pub fn get_parameters(&self) -> (r: &[u8])
        ensures
            r@ == self@.parameters,
    {
        self.parameters.as_slice()
    }

    pub fn get_plasma_contract_address(&self) -> (r: &Address)
        ensures
            r@ == self@.plasma_contract_address,
    {
        &self.plasma_contract_address
    }

    /// The canonical body encoding, without the witness.
    pub fn to_body_abi(&self) -> (r: Vec<u8>)
        requires
            self.wf(),
        ensures
            r@ == spec_tx_body_encode(self@),
    {
        let mut out: Vec<u8> = Vec::new();
        push_zeros(&mut out, 12);
        push_bytes(&mut out, self.plasma_contract_address.as_bytes());
        push_be_word(&mut out, self.start);
        push_be_word(&mut out, self.end);
        out.push(self.method_id);
        push_zeros(&mut out, 31);
        push_be_word(&mut out, 160);
        push_bytes_tail(&mut out, self.parameters.as_slice());
        proof {
            assert(out@ =~= spec_tx_body_encode(self@));
        }
        out
    }

    /// The canonical full encoding, with the witness words appended.
    pub fn to_abi(&self) -> (r: Vec<u8>)
        requires
            self.wf(),
        ensures
            r@ == spec_tx_encode(self@),
    {
        let mut out: Vec<u8> = Vec::new();
        push_zeros(&mut out, 12);
        push_bytes(&mut out, self.plasma_contract_address.as_bytes());
        push_be_word(&mut out, self.start);
        push_be_word(&mut out, self.end);
        out.push(self.method_id);
        push_zeros(&mut out, 31);
        push_be_word(&mut out, 256);
        push_bytes(&mut out, self.witness.v.as_bytes());
        push_bytes(&mut out, self.witness.r.as_bytes());
        push_be_word(&mut out, self.witness.s);
        push_bytes_tail(&mut out, self.parameters.as_slice());
        proof {
            assert(out@ =~= spec_tx_encode(self@));
        }
        out
    }

    /// Decodes a canonical full encoding; fails with `AbiDecode` on
    /// anything else.
    pub fn from_abi(data: &[u8]) -> (r: Result<Transaction, Error>)
        ensures
            (r matches Ok(v) ==> spec_tx_decode(data@) == Some(v@) && v.wf()),
            r is Err ==> spec_tx_decode(data@) is None,
            (r matches Err(e) ==> e.spec_kind() == ErrorKind::AbiDecode),
    {
        let n = data.len();
        if n < 288 {
            return Err(Error::from_kind(ErrorKind::AbiDecode));
        }
        let contract = match read_address_word(data, 0) {
            Some(a) => a,
            None => {
                return Err(Error::from_kind(ErrorKind::AbiDecode));
            },
        };
        let start = match read_u64_word(data, 32) {
            Some(x) => x,
            None => {
                return Err(Error::from_kind(ErrorKind::AbiDecode));
            },
        };
        let end = match read_u64_word(data, 64) {
            Some(x) => x,
            None => {
                return Err(Error::from_kind(ErrorKind::AbiDecode));
            },
        };
        let method_id = *vstd::slice::slice_index_get(data, 96);
        let mut j: usize = 97;
        while j < 128
            invariant
                data@.len() >= 288,
                data@.len() <= usize::MAX,
                97 <= j <= 128,
                forall|t: int| 97 <= t < j ==> data@[t] == 0,
            decreases 128 - j,
        {
            if *vstd::slice::slice_index_get(data, j) != 0 {
                return Err(Error::from_kind(ErrorKind::AbiDecode));
            }
            j += 1;
        }
        match read_u64_word(data, 128) {
            Some(off) => {
                if off != 256 {
                    return Err(Error::from_kind(ErrorKind::AbiDecode));
                }
            },
            None => {
                return Err(Error::from_kind(ErrorKind::AbiDecode));
            },
        }
        let wv = read_bytes(data, 160, 32);
        let wr = read_bytes(data, 192, 32);
        let ws = match read_u64_word(data, 224) {
            Some(x) => x,
            None => {
                return Err(Error::from_kind(ErrorKind::AbiDecode));
            },
        };
        let plen = match read_u64_word(data, 256) {
            Some(d) => d,
            None => {
                return Err(Error::from_kind(ErrorKind::AbiDecode));
            },
        };
        proof {
            lemma_pad_len(plen as int);
        }
        if plen > (n as u64) || (plen as usize) > n - 288 {
            return Err(Error::from_kind(ErrorKind::AbiDecode));
        }
        let pl = plen as usize;
        let pad = ((pl + 31) / 32) * 32;
        if n - 288 != pad {
            return Err(Error::from_kind(ErrorKind::AbiDecode));
        }
        let parameters = read_bytes(data, 288, pl);
        Ok(
            Transaction {
                plasma_contract_address: Address::from_vec(contract),
                start,
                end,
                method_id,
                parameters,
                witness: Witness { v: H256::from_vec(wv), r: H256::from_vec(wr), s: ws },
            },
        )
    }
}

} // verus!
