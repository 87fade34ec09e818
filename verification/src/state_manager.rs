use vstd::prelude::*;
use crate::abi::lemma_pad_len;
use crate::error::{Error, ErrorKind};
use crate::range::{RangeData, range_intersects};
use crate::range_store::spec_store_put;
use crate::predicate::{
    OwnershipPredicate, PredicateManager, spec_params_decode, spec_ownership_transition,
};
use crate::state_db::{
    StateDb, VerifiedStateUpdate, VsuData, vsu_views, spec_db_vsus, spec_vsu_encode,
};
use crate::state_update::{StateUpdate, StateUpdateData};
use crate::transaction::{Transaction, TransactionData};

verus! {

/// What executing a transaction against a store yields: the agreed
/// successor state update and the consumed verified state updates; or the
/// error naming what failed — no overlapping state, undecodable
/// parameters, or a prior state newer than the origin block.
pub open spec fn spec_execute(s: Seq<RangeData>, tx: TransactionData) -> Result<
    (StateUpdateData, Seq<VsuData>),
    ErrorKind,
> {
    let vsus = spec_db_vsus(s, tx.start, tx.end);
    if vsus.len() == 0 {
        Err(ErrorKind::NoMatchingState)
    } else {
        match spec_params_decode(tx.parameters) {
            None => Err(ErrorKind::AbiDecode),
            Some(p) => if forall|t: int|
                0 <= t < vsus.len() ==> (#[trigger] vsus[t]).state_update.block_number <= p.1 {
                Ok(
                    (
                        StateUpdateData {
                            state_object: p.0,
                            start: tx.start,
                            end: tx.end,
                            block_number: 0,
                            plasma_contract: tx.plasma_contract_address,
                        },
                        vsus,
                    ),
                )
            } else {
                Err(ErrorKind::InvalidStateTransition)
            },
        }
    }
}

/// The successor state update together with the verified state updates
/// the transaction consumed.
pub struct ResultOfExecuteTransaction {
    state_update: Box<StateUpdate>,
    ranges: Vec<VerifiedStateUpdate>,
}

impl View for ResultOfExecuteTransaction {
    type V = (StateUpdateData, Seq<VsuData>);

    closed spec fn view(&self) -> (StateUpdateData, Seq<VsuData>) {
        (self.state_update@, vsu_views(self.ranges@))
    }
}

impl ResultOfExecuteTransaction {
    pub fn new(state_update: &StateUpdate, ranges: Vec<VerifiedStateUpdate>) -> (r: Self)
        ensures
            r@ == (state_update@, vsu_views(ranges@)),
    {
        ResultOfExecuteTransaction { state_update: Box::new(state_update.clone()), ranges }
    }

    pub fn get_state_update(&self) -> (r: &StateUpdate)
        ensures
            r@ == self@.0,
    {
        &self.state_update
    }

    pub fn get_ranges(&self) -> (r: &[VerifiedStateUpdate])
        ensures
            vsu_views(r@) == self@.1,
    {
        self.ranges.as_slice()
    }
}

/// Orchestrates state transitions: fetches the verified state updates a
/// transaction's window overlaps, lets the governing predicate compute
/// the successor for each, demands agreement, and persists the result.
pub struct StateManager {
    db: StateDb,
}

impl View for StateManager {
    type V = Seq<RangeData>;

    closed spec fn view(&self) -> Seq<RangeData> {
        self.db@
    }
}

impl Default for StateManager {
    fn default() -> (r: Self)
        ensures
            r@ == Seq::<RangeData>::empty(),
            r.wf(),
    {
        StateManager { db: StateDb::new() }
    }
}

impl StateManager {
    pub closed spec fn wf(&self) -> bool {
        self.db.wf()
    }

    pub fn new() -> (r: Self)
        ensures
            r@ == Seq::<RangeData>::empty(),
            r.wf(),
    {
        StateManager { db: StateDb::new() }
    }

    /// Force-writes a verified state update at block number 0: the
    /// initial capitalization of a range, with no predicate check.
    pub fn deposit(&mut self, start: u64, end: u64, state_update: &StateUpdate) -> (r: Result<
        (),
        Error,
    >)
        requires
            old(self).wf(),
            state_update.wf(),
            state_update@.state_object.data.len() <= u64::MAX - 512,
        ensures
            final(self).wf(),
            start >= end ==> (r matches Err(e) && e.spec_kind() == ErrorKind::InvalidRange
                && final(self)@ == old(self)@),
            start < end ==> (r is Ok && final(self)@ == spec_store_put(
                old(self)@,
                start,
                end,
                spec_vsu_encode(
                    VsuData {
                        start,
                        end,
                        verified_block_number: 0,
                        state_update: state_update@,
                    },
                ),
            )),
    {
        let vsu = VerifiedStateUpdate::new(start, end, 0, state_update);
        self.db.put_verified_state_update(&vsu)
    }

    /// Executes a transaction: every overlapping verified state update is
    /// run through its predicate, the successor states must agree, and
    /// the agreed successor replaces the window.
    pub fn execute_transaction(&mut self, transaction: &Transaction) -> (r: Result<
        ResultOfExecuteTransaction,
        Error,
    >)
        requires
            old(self).wf(),
            transaction.wf(),
            transaction@.parameters.len() <= u64::MAX - 1024,
        ensures
            final(self).wf(),
            (match r {
                Ok(res) => spec_execute(old(self)@, transaction@) == Ok::<
                    (StateUpdateData, Seq<VsuData>),
                    ErrorKind,
                >(res@) && final(self)@ == spec_store_put(
                    old(self)@,
                    transaction@.start,
                    transaction@.end,
                    spec_vsu_encode(
                        VsuData {
                            start: transaction@.start,
                            end: transaction@.end,
                            verified_block_number: 0,
                            state_update: res@.0,
                        },
                    ),
                ),
                Err(e) => spec_execute(old(self)@, transaction@) == Err::<
                    (StateUpdateData, Seq<VsuData>),
                    ErrorKind,
                >(e.spec_kind()) && final(self)@ == old(self)@,
            }),
    {
        let ghost s0 = self@;
        let ghost vsus_spec = spec_db_vsus(s0, transaction@.start, transaction@.end);
        let verified_state_updates = match self.db.get_verified_state_updates(
            transaction.get_start(),
            transaction.get_end(),
        ) {
            Ok(v) => v,
            Err(_) => {
                return Err(Error::from_kind(ErrorKind::StorageError));
            },
        };
        let count = verified_state_updates.len();
        if count == 0 {
            return Err(Error::from_kind(ErrorKind::NoMatchingState));
        }
        // the window intersects a stored, valid range, so it is non-empty
        proof {
            let pred = |rg: RangeData| range_intersects(rg, transaction@.start, transaction@.end);
            assert(s0.filter(pred).len() == vsus_spec.len());
            s0.lemma_filter_pred(pred, 0);
            assert(pred(s0.filter(pred)[0]));
        }
        let mut chosen: Option<StateUpdate> = None;
        let mut t: usize = 0;
        while t < count
            invariant
                count == verified_state_updates@.len(),
                count > 0,
                t <= count,
                transaction.wf(),
                transaction@.parameters.len() <= u64::MAX - 1024,
                *self == *old(self),
                old(self).wf(),
                s0 == old(self)@,
                vsus_spec == spec_db_vsus(s0, transaction@.start, transaction@.end),
                vsu_views(verified_state_updates@) == vsus_spec,
                forall|u: int|
                    0 <= u < count ==> (#[trigger] verified_state_updates@[u]).wf(),
                t == 0 ==> chosen is None,
                t > 0 ==> (chosen matches Some(c) && spec_ownership_transition(
                    vsus_spec[0].state_update,
                    transaction@,
                ) == Ok::<StateUpdateData, ErrorKind>(c@) && c.wf()),
                forall|u: int|
                    0 <= u < t ==> spec_ownership_transition(
                        (#[trigger] vsus_spec[u]).state_update,
                        transaction@,
                    ) is Ok,
            decreases count - t,
        {
            let input = verified_state_updates[t].get_state_update();
            let plugin = PredicateManager::get_plugin(input.get_state_object().get_predicate());
            let candidate = match plugin.execute_ownership_transition(input, transaction) {
                Ok(c) => c,
                Err(e) => {
                    proof {
                        let k = e.spec_kind();
                        if k == ErrorKind::AbiDecode {
                            assert(spec_params_decode(transaction@.parameters) is None);
                        } else {
                            assert(spec_params_decode(transaction@.parameters) is Some);
                            assert(vsus_spec[t as int].state_update.block_number
                                > spec_params_decode(transaction@.parameters)->Some_0.1);
                        }
                    }
                    return Err(e);
                },
            };
            match &chosen {
                Some(c) => {
                    if !candidate.equals(c) {
                        return Err(Error::from_kind(ErrorKind::InvalidStateTransition));
                    }
                },
                None => {
                    chosen = Some(candidate);
                },
            }
            t += 1;
        }
        let new_state_update = match chosen {
            Some(c) => c,
            None => {
                proof {
                    assert(false);
                }
                return Err(Error::from_kind(ErrorKind::NoMatchingState));
            },
        };
        // every prior state passed its predicate, so the successor stands
        proof {
            let p = spec_params_decode(transaction@.parameters)->Some_0;
            assert forall|u: int|
                0 <= u < vsus_spec.len() implies (#[trigger] vsus_spec[u]).state_update.block_number
                <= p.1 by {
                assert(spec_ownership_transition(vsus_spec[u].state_update, transaction@) is Ok);
            }
            // the decoded successor's payload fits within the parameters
            lemma_pad_len(p.0.data.len() as int);
        }
        let new_vsu = VerifiedStateUpdate::from(new_state_update.get_block_number(),
            &new_state_update);
        match self.db.put_verified_state_update(&new_vsu) {
            Ok(_) => {},
            Err(e) => {
                proof {
                    assert(false);
                }
                return Err(e);
            },
        }
        Ok(ResultOfExecuteTransaction::new(&new_state_update, verified_state_updates))
    }
}

} // verus!
