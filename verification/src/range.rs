use vstd::prelude::*;

verus! {

/// Mathematical view of a stored range: the half-open interval
/// `[start, end)` together with its payload bytes.
pub ghost struct RangeData {
    pub start: u64,
    pub end: u64,
    pub value: Seq<u8>,
}

/// A range `[start, end)` is valid when it is non-empty.
pub open spec fn range_valid(r: RangeData) -> bool {
    r.start < r.end
}

/// Whether `[r.start, r.end)` and `[start, end)` share at least one key.
pub open spec fn range_intersects(r: RangeData, start: u64, end: u64) -> bool {
    vstd::math::max(r.start as int, start as int) < vstd::math::min(r.end as int, end as int)
}

/// A half-open interval `[start, end)` of the keyspace carrying an
/// opaque payload: the basic unit of ownership.
pub struct Range {
    start: u64,
    end: u64,
    value: Vec<u8>,
}

impl View for Range {
    type V = RangeData;

    closed spec fn view(&self) -> RangeData {
        RangeData { start: self.start, end: self.end, value: self.value@ }
    }
}

impl Clone for Range {
    fn clone(&self) -> (r: Self)
        ensures
            r@ == self@,
    {
        Range { start: self.start, end: self.end, value: self.value.clone() }
    }
}

impl Range {
    pub fn new(start: u64, end: u64, value: &[u8]) -> (r: Self)
        ensures
            r@ == (RangeData { start, end, value: value@ }),
    {
        Range { start, end, value: vstd::slice::slice_to_vec(value) }
    }

    pub fn get_start(&self) -> (r: u64)
        ensures
            r == self@.start,
    {
        self.start
    }

    pub fn get_end(&self) -> (r: u64)
        ensures
            r == self@.end,
    {
        self.end
    }

    pub fn get_value(&self) -> (r: &[u8])
        ensures
            r@ == self@.value,
    {
        self.value.as_slice()
    }

    /// A range is well formed when its interval is non-empty.
    pub fn validate(&self) -> (r: bool)
        ensures
            r == range_valid(self@),
    {
        self.start < self.end
    }

    /// Whether this range shares a key with the window `[start, end)`.
    pub fn intersect(&self, start: u64, end: u64) -> (r: bool)
        ensures
            r == range_intersects(self@, start, end),
    {
        let max_start = if self.start >= start { self.start } else { start };
        let min_end = if self.end <= end { self.end } else { end };
        max_start < min_end
    }
}

/// The views of a sequence of ranges.
pub open spec fn range_views(s: Seq<Range>) -> Seq<RangeData> {
    s.map_values(|r: Range| r@)
}

} // verus!
