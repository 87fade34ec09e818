use vstd::prelude::*;
use crate::range::{Range, range_views};
use crate::range_processor::{RangeProcessor, spec_processor_put};
use crate::transaction::{Transaction, spec_tx_encode};

verus! {

/// The pure range-mutation half of transition application: a transaction
/// replaces its window with its own canonical encoding, truncating the
/// boundary ranges.
pub struct StateProcessor {}

impl StateProcessor {
    pub fn apply(input_ranges: &[Range], transaction: &Transaction) -> (r: Vec<Range>)
        requires
            transaction.wf(),
        ensures
            range_views(r@) == spec_processor_put(
                range_views(input_ranges@),
                transaction@.start,
                transaction@.end,
                spec_tx_encode(transaction@),
            ),
    {
        let value = transaction.to_abi();
        RangeProcessor::put(
            input_ranges,
            transaction.get_start(),
            transaction.get_end(),
            value.as_slice(),
        )
    }
}

} // verus!
