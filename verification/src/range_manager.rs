use vstd::prelude::*;
use crate::range::RangeData;
use crate::range_processor::spec_processor_put;

verus! {

/// A range value private to the manager, mirroring `crate::range::Range`.
pub struct Range {
    start: u64,
    end: u64,
    value: Vec<u8>,
}

impl View for Range {
    type V = RangeData;

    closed spec fn view(&self) -> RangeData {
        RangeData { start: self.start, end: self.end, value: self.value@ }
    }
}

impl Range {
    pub fn new(start: u64, end: u64, value: &[u8]) -> (r: Self)
        ensures
            r@ == (RangeData { start, end, value: value@ }),
    {
        Range { start, end, value: vstd::slice::slice_to_vec(value) }
    }
}

pub open spec fn manager_range_views(s: Seq<Range>) -> Seq<RangeData> {
    s.map_values(|r: Range| r@)
}

/// Applies the coalescing put rule to a slice of ranges held in memory.
pub struct RangeManager {}

impl RangeManager {
    pub fn validate_range(start: u64, end: u64) -> (r: bool)
        ensures
            r == (start < end),
    {
        start < end
    }

    /// Puts a range over `input_ranges` and returns the affected output ranges.
    pub fn put(input_ranges: &[Range], start: u64, end: u64, value: &[u8]) -> (r: Vec<Range>)
        ensures
            manager_range_views(r@) == spec_processor_put(
                manager_range_views(input_ranges@), start, end, value@),
    {
        let mut output_ranges: Vec<Range> = Vec::new();
        if input_ranges.len() == 0 || !Self::validate_range(start, end) {
            assert(manager_range_views(output_ranges@) =~= spec_processor_put(
                manager_range_views(input_ranges@), start, end, value@));
            return output_ranges;
        }
        let first = vstd::slice::slice_index_get(input_ranges, 0);
        if first.start < start {
            output_ranges.push(Range::new(first.start, start, first.value.as_slice()));
        }
        let last = vstd::slice::slice_index_get(input_ranges, input_ranges.len() - 1);
        if end < last.end {
            output_ranges.push(Range::new(end, last.end, last.value.as_slice()));
        }
        output_ranges.push(Range::new(start, end, value));
        assert(manager_range_views(output_ranges@) =~= spec_processor_put(
            manager_range_views(input_ranges@), start, end, value@));
        output_ranges
    }
}

} // verus!
