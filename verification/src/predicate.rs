use vstd::prelude::*;
use crate::abi::{
    be_word, word_u64_at, push_be_word, push_zeros, push_bytes, push_bytes_tail, read_u64_word,
    read_bytes, lemma_word_at, lemma_pad_len,
};
use crate::error::{Error, ErrorKind};
use crate::primitives::Address;
use crate::state_object::{
    StateObject, StateObjectData, spec_so_encode, spec_so_decode, lemma_so_roundtrip, so_wf,
};
use crate::state_update::{StateUpdate, StateUpdateData};
use crate::transaction::{Transaction, TransactionData};

verus! {

/// The canonical parameters of the ownership predicate: the successor
/// state object as a tuple, then the origin and maximum block numbers.
pub open spec fn spec_params_encode(so: StateObjectData, origin_block: u64, max_block: u64) -> Seq<
    u8,
> {
    be_word(96) + be_word(origin_block) + be_word(max_block) + spec_so_encode(so)
}

/// The strict decoding of ownership-predicate parameters.
pub open spec fn spec_params_decode(data: Seq<u8>) -> Option<(StateObjectData, u64, u64)> {
    if data.len() < 96 {
        None
    } else if word_u64_at(data, 0) != Some(96u64) {
        None
    } else if word_u64_at(data, 32) is None || word_u64_at(data, 64) is None {
        None
    } else {
        match spec_so_decode(data.subrange(96, data.len() as int)) {
            Some(so) => Some(
                (so, word_u64_at(data, 32)->Some_0, word_u64_at(data, 64)->Some_0),
            ),
            None => None,
        }
    }
}

/// Decoding canonical parameters gives the parameters back.
pub proof fn lemma_params_roundtrip(so: StateObjectData, origin_block: u64, max_block: u64)
    requires
        so_wf(so),
        so.data.len() <= u64::MAX - 128,
    ensures
        spec_params_decode(spec_params_encode(so, origin_block, max_block)) == Some(
            (so, origin_block, max_block),
        ),
{
    let e = spec_params_encode(so, origin_block, max_block);
    lemma_pad_len(so.data.len() as int);
    assert(forall|j: int| 0 <= j < 32 ==> e[j] == #[trigger] be_word(96)[j]);
    lemma_word_at(e, 0, 96);
    assert(forall|j: int| 0 <= j < 32 ==> e[32 + j] == #[trigger] be_word(origin_block)[j]);
    lemma_word_at(e, 32, origin_block);
    assert(forall|j: int| 0 <= j < 32 ==> e[64 + j] == #[trigger] be_word(max_block)[j]);
    lemma_word_at(e, 64, max_block);
    assert(e.subrange(96, e.len() as int) =~= spec_so_encode(so));
    lemma_so_roundtrip(so);
}

/// What the ownership predicate decides for one prior state update and a
/// transaction: the successor decoded from the parameters, over the
/// transaction's range, provided the prior state is not newer than the
/// origin block named in the parameters.
pub open spec fn spec_ownership_transition(input: StateUpdateData, tx: TransactionData) -> Result<
    StateUpdateData,
    ErrorKind,
> {
    match spec_params_decode(tx.parameters) {
        None => Err(ErrorKind::AbiDecode),
        Some(p) => if input.block_number <= p.1 {
            Ok(
                StateUpdateData {
                    state_object: p.0,
                    start: tx.start,
                    end: tx.end,
                    block_number: 0,
                    plasma_contract: tx.plasma_contract_address,
                },
            )
        } else {
            Err(ErrorKind::InvalidStateTransition)
        },
    }
}

/// A pluggable state-transition rule: given a prior state update and a
/// transaction, decide the successor state or refuse the transition.
pub trait PredicatePlugin {
    fn execute_state_transition(&self, input: &StateUpdate, transaction: &Transaction) -> (r:
        Result<StateUpdate, Error>)
        requires
            input.wf(),
            transaction.wf(),
        ensures
            (r matches Ok(v) ==> v.wf()),
    ;
}

/// The built-in ownership predicate: the transaction's parameters carry
/// the successor state object and the block window in which the spent
/// state must lie.
pub struct OwnershipPredicate {}

impl OwnershipPredicate {
    /// Encodes ownership parameters: the successor state object as the
    /// tuple (predicate, owner bytes), then the origin and maximum block.
    pub fn make_parameters(
        predicate: Address,
        owner: Address,
        origin_block: u64,
        max_block: u64,
    ) -> (r: Vec<u8>)
        requires
            predicate.wf(),
            owner.wf(),
        ensures
            r@ == spec_params_encode(
                StateObjectData { predicate: predicate@, data: owner@ },
                origin_block,
                max_block,
            ),
    {
        let mut out: Vec<u8> = Vec::new();
        push_be_word(&mut out, 96);
        push_be_word(&mut out, origin_block);
        push_be_word(&mut out, max_block);
        push_zeros(&mut out, 12);
        push_bytes(&mut out, predicate.as_bytes());
        push_be_word(&mut out, 64);
        push_bytes_tail(&mut out, owner.as_bytes());
        proof {
            assert(out@ =~= spec_params_encode(
                StateObjectData { predicate: predicate@, data: owner@ },
                origin_block,
                max_block,
            ));
        }
        out
    }

    /// Parses ownership parameters: the successor state object and the
    /// origin block.
    pub fn parse_parameters(data: &[u8]) -> (r: Option<(StateObject, u64)>)
        ensures
            (r matches Some(p) ==> (spec_params_decode(data@) matches Some(q) && p.0@ == q.0
                && p.1 == q.1 && p.0.wf())),
            r is None <==> spec_params_decode(data@) is None,
    {
        let n = data.len();
        if n < 96 {
            return None;
        }
        match read_u64_word(data, 0) {
            Some(off) => {
                if off != 96 {
                    return None;
                }
            },
            None => {
                return None;
            },
        }
        let origin_block = match read_u64_word(data, 32) {
            Some(x) => x,
            None => {
                return None;
            },
        };
        let max_block = match read_u64_word(data, 64) {
            Some(x) => x,
            None => {
                return None;
            },
        };
        let inner = read_bytes(data, 96, n - 96);
        proof {
            assert(inner@ =~= data@.subrange(96, data@.len() as int));
        }
        match StateObject::from_abi(inner.as_slice()) {
            Ok(so) => Some((so, origin_block)),
            None_ => None,
        }
    }

    /// The ownership transition: decode the successor from the
    /// transaction's parameters, refuse a prior state newer than the
    /// origin block, and hand the successor the transaction's range.
    pub fn execute_ownership_transition(&self, input: &StateUpdate, transaction: &Transaction) -> (
        r: Result<StateUpdate, Error>)
        requires
            input.wf(),
            transaction.wf(),
        ensures
            (match r {
                Ok(v) => spec_ownership_transition(input@, transaction@) == Ok::<
                    StateUpdateData,
                    ErrorKind,
                >(v@) && v.wf(),
                Err(e) => spec_ownership_transition(input@, transaction@) == Err::<
                    StateUpdateData,
                    ErrorKind,
                >(e.spec_kind()),
            }),
    {
        let parsed = Self::parse_parameters(transaction.get_parameters());
        match parsed {
            Some(p) => {
                if input.get_block_number() <= p.1 {
                    Ok(
                        StateUpdate::new(
                            &p.0,
                            transaction.get_start(),
                            transaction.get_end(),
                            0,
                            transaction.get_plasma_contract_address().clone(),
                        ),
                    )
                } else {
                    Err(Error::from_kind(ErrorKind::InvalidStateTransition))
                }
            },
            None => Err(Error::from_kind(ErrorKind::AbiDecode)),
        }
    }
}

impl Default for OwnershipPredicate {
    fn default() -> (r: Self)
        ensures
            r == (OwnershipPredicate {  }),
    {
        OwnershipPredicate {}
    }
}

impl PredicatePlugin for OwnershipPredicate {
    fn execute_state_transition(&self, input: &StateUpdate, transaction: &Transaction) -> (r:
        Result<StateUpdate, Error>) {
        self.execute_ownership_transition(input, transaction)
    }
}

/// Resolves the predicate plugin governing a state object; this registry
/// knows only the built-in ownership predicate.
pub struct PredicateManager {}

impl PredicateManager {
    pub fn get_plugin(_address: &Address) -> (r: OwnershipPredicate) {
        OwnershipPredicate {}
    }
}

} // verus!
