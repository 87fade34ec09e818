use vstd::prelude::*;
use crate::range::{Range, RangeData, range_views};

verus! {

/// What `RangeProcessor::put` returns: nothing for an empty input or an
/// invalid window; otherwise the left remainder of the first input range
/// (when it begins before the window), then the right remainder of the
/// last input range (when it ends after the window), then the new range.
pub open spec fn spec_processor_put(
    input: Seq<RangeData>,
    start: u64,
    end: u64,
    value: Seq<u8>,
) -> Seq<RangeData> {
    if input.len() == 0 || start >= end {
        Seq::empty()
    } else {
        let left = if input[0].start < start {
            seq![RangeData { start: input[0].start, end: start, value: input[0].value }]
        } else {
            Seq::empty()
        };
        let right = if end < input.last().end {
            seq![RangeData { start: end, end: input.last().end, value: input.last().value }]
        } else {
            Seq::empty()
        };
        left + right + seq![RangeData { start, end, value }]
    }
}

/// Pure range-mutation half of transition application: truncates the
/// boundary ranges of a window to the part outside it and replaces the
/// window itself with a new value.
pub struct RangeProcessor {}

impl RangeProcessor {
    pub fn validate_range(start: u64, end: u64) -> (r: bool)
        ensures
            r == (start < end),
    {
        start < end
    }

    /// Puts a range over `input_ranges` and returns the affected output ranges.
    pub fn put(input_ranges: &[Range], start: u64, end: u64, value: &[u8]) -> (r: Vec<Range>)
        ensures
            range_views(r@) == spec_processor_put(range_views(input_ranges@), start, end, value@),
    {
        let mut output_ranges: Vec<Range> = Vec::new();
        if input_ranges.len() == 0 || !Self::validate_range(start, end) {
            assert(range_views(output_ranges@) =~= spec_processor_put(
                range_views(input_ranges@), start, end, value@));
            return output_ranges;
        }
        let first = vstd::slice::slice_index_get(input_ranges, 0);
        if first.get_start() < start {
            output_ranges.push(Range::new(first.get_start(), start, first.get_value()));
        }
        let last = vstd::slice::slice_index_get(input_ranges, input_ranges.len() - 1);
        if end < last.get_end() {
            output_ranges.push(Range::new(end, last.get_end(), last.get_value()));
        }
        output_ranges.push(Range::new(start, end, value));
        assert(range_views(output_ranges@) =~= spec_processor_put(
            range_views(input_ranges@), start, end, value@));
        output_ranges
    }
}

} // verus!
