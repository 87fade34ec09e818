use vstd::prelude::*;
use crate::abi::{
    be_word, bytes_tail, pad_len, word_u64_at, push_be_word, push_bytes_tail, read_u64_word,
    read_bytes, lemma_pad_len, lemma_pad_exact, lemma_word_at,
};
use crate::error::{Error, ErrorKind};
use crate::range::{Range, RangeData, range_intersects, range_views};
use crate::range_store::{
    RangeDbMemoryImpl, spec_store_put, store_wf, lemma_filter_subset, lemma_store_put_values,
};
use crate::state_update::{
    StateUpdate, StateUpdateData, su_wf, spec_su_encode, spec_su_decode, lemma_su_roundtrip,
};

verus! {

/// Mathematical view of a verified state update: a state update committed
/// into the store with the block number at which it was verified.
pub ghost struct VsuData {
    pub start: u64,
    pub end: u64,
    pub verified_block_number: u64,
    pub state_update: StateUpdateData,
}

pub open spec fn vsu_wf(v: VsuData) -> bool {
    su_wf(v.state_update)
}

/// The canonical encoding of a verified state update: the tuple
/// (start, end, verified block number, state update bytes).
pub open spec fn spec_vsu_encode(v: VsuData) -> Seq<u8> {
    be_word(v.start) + be_word(v.end) + be_word(v.verified_block_number) + be_word(128)
        + bytes_tail(spec_su_encode(v.state_update))
}

/// The strict decoding of a verified state update.
pub open spec fn spec_vsu_decode(data: Seq<u8>) -> Option<VsuData> {
    if data.len() < 160 {
        None
    } else if word_u64_at(data, 0) is None || word_u64_at(data, 32) is None || word_u64_at(
        data,
        64,
    ) is None {
        None
    } else if word_u64_at(data, 96) != Some(128u64) {
        None
    } else if word_u64_at(data, 128) is None {
        None
    } else {
        let dlen = word_u64_at(data, 128)->Some_0 as int;
        if data.len() == 160 + pad_len(dlen) {
            match spec_su_decode(data.subrange(160, 160 + dlen)) {
                Some(su) => Some(
                    VsuData {
                        start: word_u64_at(data, 0)->Some_0,
                        end: word_u64_at(data, 32)->Some_0,
                        verified_block_number: word_u64_at(data, 64)->Some_0,
                        state_update: su,
                    },
                ),
                None => None,
            }
        } else {
            None
        }
    }
}

/// Decoding a canonical encoding gives the verified state update back.
pub proof fn lemma_vsu_roundtrip(v: VsuData)
    requires
        vsu_wf(v),
        v.state_update.state_object.data.len() <= u64::MAX - 512,
    ensures
        spec_vsu_decode(spec_vsu_encode(v)) == Some(v),
{
    let e = spec_vsu_encode(v);
    let inner = spec_su_encode(v.state_update);
    lemma_pad_len(v.state_update.state_object.data.len() as int);
    let so_len = 96 + pad_len(v.state_update.state_object.data.len() as int);
    assert(so_len % 32 == 0) by {
        vstd::arithmetic::div_mod::lemma_add_mod_noop(
            96,
            pad_len(v.state_update.state_object.data.len() as int),
            32,
        );
    }
    lemma_pad_exact(so_len);
    lemma_pad_len(so_len);
    let dlen = inner.len() as int;
    assert(dlen == 192 + pad_len(so_len));
    assert(dlen % 32 == 0) by {
        vstd::arithmetic::div_mod::lemma_add_mod_noop(192, pad_len(so_len), 32);
    }
    lemma_pad_exact(dlen);
    assert(e.len() == 160 + pad_len(dlen));
    assert(forall|j: int| 0 <= j < 32 ==> e[j] == #[trigger] be_word(v.start)[j]);
    lemma_word_at(e, 0, v.start);
    assert(forall|j: int| 0 <= j < 32 ==> e[32 + j] == #[trigger] be_word(v.end)[j]);
    lemma_word_at(e, 32, v.end);
    assert(forall|j: int| 0 <= j < 32 ==> e[64 + j] == #[trigger] be_word(
        v.verified_block_number,
    )[j]);
    lemma_word_at(e, 64, v.verified_block_number);
    assert(forall|j: int| 0 <= j < 32 ==> e[96 + j] == #[trigger] be_word(128)[j]);
    lemma_word_at(e, 96, 128);
    assert(forall|j: int| 0 <= j < 32 ==> e[128 + j] == #[trigger] be_word(dlen as u64)[j]);
    lemma_word_at(e, 128, dlen as u64);
    assert(e.subrange(160, 160 + dlen) =~= inner);
    lemma_su_roundtrip(v.state_update);
}

/// A state update committed into the store with its verification stamp.
pub struct VerifiedStateUpdate {
    start: u64,
    end: u64,
    verified_block_number: u64,
    state_update: StateUpdate,
}

impl View for VerifiedStateUpdate {
    type V = VsuData;

    closed spec fn view(&self) -> VsuData {
        VsuData {
            start: self.start,
            end: self.end,
            verified_block_number: self.verified_block_number,
            state_update: self.state_update@,
        }
    }
}

impl Clone for VerifiedStateUpdate {
    fn clone(&self) -> (r: Self)
        ensures
            r@ == self@,
    {
        VerifiedStateUpdate {
            start: self.start,
            end: self.end,
            verified_block_number: self.verified_block_number,
            state_update: self.state_update.clone(),
        }
    }
}

impl VerifiedStateUpdate {
    pub open spec fn wf(&self) -> bool {
        vsu_wf(self@)
    }

    pub fn new(start: u64, end: u64, verified_block_number: u64, state_update: &StateUpdate) -> (r:
        Self)
        requires
            state_update.wf(),
        ensures
            r@ == (VsuData {
                start,
                end,
                verified_block_number,
                state_update: state_update@,
            }),
            r.wf(),
    {
        VerifiedStateUpdate {
            start,
            end,
            verified_block_number,
            state_update: state_update.clone(),
        }
    }

    /// A verified state update over exactly the state update's own range.
    pub fn from(verified_block_number: u64, state_update: &StateUpdate) -> (r: Self)
        requires
            state_update.wf(),
        ensures
            r@ == (VsuData {
                start: state_update@.start,
                end: state_update@.end,
                verified_block_number,
                state_update: state_update@,
            }),
            r.wf(),
    {
        VerifiedStateUpdate {
            start: state_update.get_start(),
            end: state_update.get_end(),
            verified_block_number,
            state_update: state_update.clone(),
        }
    }

    pub fn get_start(&self) -> (r: u64)
        ensures
            r == self@.start,
    {
        self.start
    }

    pub fn get_end(&self) -> (r: u64)
        ensures
            r == self@.end,
    {
        self.end
    }

    pub fn get_state_update(&self) -> (r: &StateUpdate)
        ensures
            r@ == self@.state_update,
    {
        &self.state_update
    }

    /// The canonical byte encoding: the tuple
    /// (start, end, verified block number, state update bytes).
    pub fn to_abi(&self) -> (r: Vec<u8>)
        requires
            self.wf(),
        ensures
            r@ == spec_vsu_encode(self@),
    {
        let su_abi = self.state_update.to_abi();
        let mut out: Vec<u8> = Vec::new();
        push_be_word(&mut out, self.start);
        push_be_word(&mut out, self.end);
        push_be_word(&mut out, self.verified_block_number);
        push_be_word(&mut out, 128);
        push_bytes_tail(&mut out, su_abi.as_slice());
        proof {
            assert(out@ =~= spec_vsu_encode(self@));
        }
        out
    }

    /// Decodes a canonical encoding; fails with `AbiDecode` on anything
    /// else.
    pub fn from_abi(data: &[u8]) -> (r: Result<VerifiedStateUpdate, Error>)
        ensures
            (r matches Ok(v) ==> spec_vsu_decode(data@) == Some(v@) && v.wf()),
            r is Err ==> spec_vsu_decode(data@) is None,
            (r matches Err(e) ==> e.spec_kind() == ErrorKind::AbiDecode),
    {
        let n = data.len();
        if n < 160 {
            return Err(Error::from_kind(ErrorKind::AbiDecode));
        }
        let start = match read_u64_word(data, 0) {
            Some(x) => x,
            None => {
                return Err(Error::from_kind(ErrorKind::AbiDecode));
            },
        };
        let end = match read_u64_word(data, 32) {
            Some(x) => x,
            None => {
                return Err(Error::from_kind(ErrorKind::AbiDecode));
            },
        };
        let verified_block_number = match read_u64_word(data, 64) {
            Some(x) => x,
            None => {
                return Err(Error::from_kind(ErrorKind::AbiDecode));
            },
        };
        match read_u64_word(data, 96) {
            Some(off) => {
                if off != 128 {
                    return Err(Error::from_kind(ErrorKind::AbiDecode));
                }
            },
            None => {
                return Err(Error::from_kind(ErrorKind::AbiDecode));
            },
        }
        let dlen = match read_u64_word(data, 128) {
            Some(d) => d,
            None => {
                return Err(Error::from_kind(ErrorKind::AbiDecode));
            },
        };
        proof {
            lemma_pad_len(dlen as int);
        }
        if dlen > (n as u64) || (dlen as usize) > n - 160 {
            return Err(Error::from_kind(ErrorKind::AbiDecode));
        }
        let dl = dlen as usize;
        let pad = ((dl + 31) / 32) * 32;
        if n - 160 != pad {
            return Err(Error::from_kind(ErrorKind::AbiDecode));
        }
        let inner = read_bytes(data, 160, dl);
        let state_update = match StateUpdate::from_abi(inner.as_slice()) {
            Ok(su) => su,
            Err(_) => {
                return Err(Error::from_kind(ErrorKind::AbiDecode));
            },
        };
        Ok(VerifiedStateUpdate { start, end, verified_block_number, state_update })
    }
}

/// The views of a sequence of verified state updates.
pub open spec fn vsu_views(s: Seq<VerifiedStateUpdate>) -> Seq<VsuData> {
    s.map_values(|v: VerifiedStateUpdate| v@)
}

/// The verified state updates a store holds over a window, in ascending
/// `end` order.
pub open spec fn spec_db_vsus(s: Seq<RangeData>, start: u64, end: u64) -> Seq<VsuData> {
    s.filter(|rg: RangeData| range_intersects(rg, start, end)).map_values(
        |rg: RangeData| spec_vsu_decode(rg.value)->Some_0,
    )
}

/// A range store holding only canonical encodings of verified state
/// updates.
pub struct StateDb {
    db: RangeDbMemoryImpl,
}

impl View for StateDb {
    type V = Seq<RangeData>;

    closed spec fn view(&self) -> Seq<RangeData> {
        self.db@
    }
}

impl StateDb {
    /// The store is well formed and every stored value decodes to a
    /// verified state update.
    pub open spec fn wf(&self) -> bool {
        &&& store_wf(self@)
        &&& forall|i: int|
            0 <= i < self@.len() ==> spec_vsu_decode((#[trigger] self@[i]).value) is Some
    }

    pub fn new() -> (r: Self)
        ensures
            r@ == Seq::<RangeData>::empty(),
            r.wf(),
    {
        StateDb { db: RangeDbMemoryImpl::open("state") }
    }

    /// Fetches and decodes every verified state update overlapping the
    /// window; never fails on a well-formed store.
    pub fn get_verified_state_updates(&self, start: u64, end: u64) -> (r: Result<
        Vec<VerifiedStateUpdate>,
        Error,
    >)
        requires
            self.wf(),
        ensures
            r matches Ok(v) && vsu_views(v@) == spec_db_vsus(self@, start, end),
            r matches Ok(v) && forall|t: int| 0 <= t < v@.len() ==> (#[trigger] v@[t]).wf(),
    {
        let ranges = match self.db.get(start, end) {
            Ok(rs) => rs,
            Err(e) => {
                return Err(e);
            },
        };
        proof {
            lemma_filter_subset(self@, |rg: RangeData| range_intersects(rg, start, end));
            assert forall|t: int| 0 <= t < ranges@.len() implies self@.contains(
                #[trigger] ranges@[t]@,
            ) by {
                assert(ranges@[t]@ == range_views(ranges@)[t]);
                assert(self@.contains(
                    self@.filter(|rg: RangeData| range_intersects(rg, start, end))[t],
                ));
            }
        }
        let mut out: Vec<VerifiedStateUpdate> = Vec::new();
        let nn = ranges.len();
        let mut i: usize = 0;
        while i < nn
            invariant
                self.wf(),
                nn == ranges@.len(),
                range_views(ranges@) == self@.filter(
                    |rg: RangeData| range_intersects(rg, start, end),
                ),
                forall|t: int| 0 <= t < nn ==> self@.contains(#[trigger] ranges@[t]@),
                i <= nn,
                out@.len() == i,
                forall|t: int| 0 <= t < i ==> (#[trigger] out@[t])@ == spec_vsu_decode(
                    ranges@[t]@.value,
                )->Some_0,
                forall|t: int| 0 <= t < i ==> (#[trigger] out@[t]).wf(),
            decreases nn - i,
        {
            let rg = &ranges[i];
            proof {
                assert(self@.contains(ranges@[i as int]@));
                let w = choose|w: int| 0 <= w < self@.len() && self@[w] == ranges@[i as int]@;
                assert(spec_vsu_decode(self@[w].value) is Some);
            }
            let vsu = match VerifiedStateUpdate::from_abi(rg.get_value()) {
                Ok(v) => v,
                Err(e) => {
                    proof {
                        assert(false);
                    }
                    return Err(e);
                },
            };
            out.push(vsu);
            i += 1;
        }
        proof {
            assert(vsu_views(out@) =~= spec_db_vsus(self@, start, end));
        }
        Ok(out)
    }

    /// Persists a verified state update over its own range with the
    /// coalescing put; fails with `InvalidRange` on an empty range.
    #[verifier::rlimit(80)]
    pub fn put_verified_state_update(&mut self, verified_state_update: &VerifiedStateUpdate) -> (r:
        Result<(), Error>)
        requires
            old(self).wf(),
            verified_state_update.wf(),
            verified_state_update@.state_update.state_object.data.len() <= u64::MAX - 512,
        ensures
            final(self).wf(),
            verified_state_update@.start >= verified_state_update@.end ==> (r matches Err(e)
                && e.spec_kind() == ErrorKind::InvalidRange && final(self)@ == old(self)@),
            verified_state_update@.start < verified_state_update@.end ==> (r is Ok
                && final(self)@ == spec_store_put(
                old(self)@,
                verified_state_update@.start,
                verified_state_update@.end,
                spec_vsu_encode(verified_state_update@),
            )),
    {
        let value = verified_state_update.to_abi();
        let start = verified_state_update.get_start();
        let end = verified_state_update.get_end();
        let r = self.db.put(start, end, value.as_slice());
        proof {
            lemma_vsu_roundtrip(verified_state_update@);
            if start < end {
                lemma_store_put_values(
                    old(self)@,
                    start,
                    end,
                    spec_vsu_encode(verified_state_update@),
                    |val: Seq<u8>| spec_vsu_decode(val) is Some,
                );
            }
        }
        r
    }
}

} // verus!
