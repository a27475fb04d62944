use vstd::prelude::*;
use crate::cursor::{Cursor, fits, u16_at, u16_seq};
use crate::error::{Error, ReadError, eof};
use crate::table::common::offset_table::OffsetTable;

verus! {

/// A range of glyphs with the coverage index of its first glyph.
#[derive(Debug, Clone, Copy)]
pub struct RangeRecord {
    pub start_glyph_id: u16,
    pub end_glyph_id: u16,
    pub start_coverage_index: u16,
}

/// The six-byte range record at `p`.
pub open spec fn range_record_at(d: Seq<u8>, p: int) -> RangeRecord {
    RangeRecord { start_glyph_id: u16_at(d, p), end_glyph_id: u16_at(d, p + 2), start_coverage_index: u16_at(d, p + 4) }
}

impl RangeRecord {
    pub fn parse(cursor: &mut Cursor) -> (r: Result<Self, Error>)
        ensures
            final(cursor).data@ == old(cursor).data@,
            r is Ok <==> fits(old(cursor).data@, old(cursor).pos as int, 6),
            r matches Ok(v) ==> v == range_record_at(old(cursor).data@, old(cursor).pos as int)
                && final(cursor).pos == old(cursor).pos + 6,
            r matches Err(e) ==> e == eof(),
    {
        cursor.require(6)?;
        Ok(Self { start_glyph_id: cursor.read_u16()?, end_glyph_id: cursor.read_u16()?, start_coverage_index: cursor.read_u16()? })
    }
}

/// The glyphs a lookup applies to, each with its coverage index: a sorted list
/// (format 1, the index is the position) or sorted ranges (format 2).
#[derive(Debug, Clone)]
pub enum Coverage {
    Format1 { glyph_count: u16, glyph_array: Vec<u16> },
    Format2 { range_count: u16, range_records: Vec<RangeRecord> },
}

/// The error, if any, of reading a coverage table at `p`.
pub open spec fn coverage_error(d: Seq<u8>, p: int) -> Option<Error> {
    if !fits(d, p, 2) {
        Some(eof())
    } else if u16_at(d, p) != 1 && u16_at(d, p) != 2 {
        Some(Error::Unknown)
    } else if !fits(d, p + 2, 2) {
        Some(eof())
    } else if u16_at(d, p) == 1 && !fits(d, p + 4, 2 * u16_at(d, p + 2)) {
        Some(eof())
    } else if u16_at(d, p) == 2 && !fits(d, p + 4, 6 * u16_at(d, p + 2)) {
        Some(eof())
    } else {
        None
    }
}

/// Where a coverage table at `p` ends.
pub open spec fn coverage_end(d: Seq<u8>, p: int) -> int {
    if u16_at(d, p) == 1 { p + 4 + 2 * u16_at(d, p + 2) } else { p + 4 + 6 * u16_at(d, p + 2) }
}

/// Whether `c` is the coverage table at `p`.
pub open spec fn coverage_matches(d: Seq<u8>, p: int, c: Coverage) -> bool {
    match c {
        Coverage::Format1 { glyph_count, glyph_array } => u16_at(d, p) == 1 && glyph_count == u16_at(d, p + 2)
            && glyph_array@ == u16_seq(d, p + 4, glyph_count as int),
        Coverage::Format2 { range_count, range_records } => u16_at(d, p) == 2 && range_count == u16_at(d, p + 2)
            && range_records@ == Seq::new(range_count as nat, |i: int| range_record_at(d, p + 4 + 6 * i)),
    }
}

/// Whether the values increase strictly.
pub open spec fn strictly_sorted(s: Seq<u16>) -> bool {
    forall|i: int, j: int| 0 <= i < j < s.len() ==> s[i] < s[j]
}

/// Whether the ranges are well formed, sorted and apart.
pub open spec fn ranges_sorted(r: Seq<RangeRecord>) -> bool {
    &&& forall|i: int| 0 <= i < r.len() ==> #[trigger] r[i].start_glyph_id <= r[i].end_glyph_id
    &&& forall|i: int, j: int| 0 <= i < j < r.len() ==> r[i].end_glyph_id < r[j].start_glyph_id
}

/// Whether range `r` holds glyph `g`.
pub open spec fn range_holds(r: RangeRecord, g: u16) -> bool {
    r.start_glyph_id <= g <= r.end_glyph_id
}

/// The coverage index of glyph `g` in range `r`, wrapping at 16 bits.
pub open spec fn range_index(r: RangeRecord, g: u16) -> u16 {
    ((r.start_coverage_index + (g - r.start_glyph_id)) % 65536) as u16
}

/// In a range, the first glyph gets the range's start coverage index and each next glyph
/// the next index, wrapping at 16 bits; so glyph `g` gets the start index plus how far
/// `g` lies past the range's first glyph.
pub proof fn lemma_range_index_law(r: RangeRecord, g: u16)
    ensures
        range_index(r, r.start_glyph_id) == r.start_coverage_index,
        r.start_glyph_id <= g < r.end_glyph_id ==> range_index(r, (g + 1) as u16) == (range_index(r, g) + 1) % 65536,
        r.start_glyph_id <= g ==> range_index(r, g) as int == (r.start_coverage_index as int + (g as int - r.start_glyph_id as int)) % 65536,
{
    assert((r.start_coverage_index as int + 0) % 65536 == r.start_coverage_index as int);
    if r.start_glyph_id <= g < r.end_glyph_id {
        let a = r.start_coverage_index as int + (g as int - r.start_glyph_id as int);
        assert(((a + 1) % 65536) == ((a % 65536) + 1) % 65536) by (nonlinear_arith)
            requires a >= 0;
    }
}

/// What a coverage index lookup in a glyph list may give.
pub open spec fn format1_index_ok(a: Seq<u16>, g: u16, r: Option<u16>) -> bool {
    &&& r matches Some(v) ==> exists|i: int| 0 <= i < a.len() && a[i] == g && v == i as u16
    &&& r is None && strictly_sorted(a) ==> !a.contains(g)
    &&& strictly_sorted(a) && a.contains(g) ==> r is Some
}

/// What a coverage index lookup in a range list may give.
pub open spec fn format2_index_ok(ranges: Seq<RangeRecord>, g: u16, r: Option<u16>) -> bool {
    &&& r matches Some(v) ==> exists|i: int| 0 <= i < ranges.len() && range_holds(ranges[i], g)
        && v == range_index(ranges[i], g)
    &&& r is None && ranges_sorted(ranges) ==> forall|i: int| 0 <= i < ranges.len() ==> !range_holds(#[trigger] ranges[i], g)
}

/// A coverage table read from `p` holds what its format lays out: in format 1, after the
/// format word, the glyph count and then one glyph id per word; in format 2, after the
/// format word, the range count and then six-byte records of first glyph, last glyph and
/// start coverage index, in that order.
pub proof fn lemma_coverage_layout(d: Seq<u8>, p: int, c: Coverage)
    requires
        coverage_matches(d, p, c),
    ensures
        c matches Coverage::Format1 { glyph_count, glyph_array } ==> u16_at(d, p) == 1
            && glyph_count == u16_at(d, p + 2) && glyph_array@.len() == glyph_count
            && forall|k: int| #![trigger glyph_array@[k]] 0 <= k < glyph_count ==> glyph_array@[k] == u16_at(d, p + 4 + 2 * k),
        c matches Coverage::Format2 { range_count, range_records } ==> u16_at(d, p) == 2
            && range_count == u16_at(d, p + 2) && range_records@.len() == range_count
            && forall|k: int| #![trigger range_records@[k]] 0 <= k < range_count ==> {
                &&& range_records@[k].start_glyph_id == u16_at(d, p + 4 + 6 * k)
                &&& range_records@[k].end_glyph_id == u16_at(d, p + 6 + 6 * k)
                &&& range_records@[k].start_coverage_index == u16_at(d, p + 8 + 6 * k)
            },
{
}

impl Coverage {
    pub fn parse(cursor: &mut Cursor) -> (r: Result<Self, Error>)
        ensures
            final(cursor).data@ == old(cursor).data@,
            match r {
                Ok(c) => coverage_error(old(cursor).data@, old(cursor).pos as int) is None
                    && coverage_matches(old(cursor).data@, old(cursor).pos as int, c)
                    && final(cursor).pos == coverage_end(old(cursor).data@, old(cursor).pos as int),
                Err(e) => coverage_error(old(cursor).data@, old(cursor).pos as int) == Some(e),
            },
    {
        let ghost d = cursor.data@;
        let ghost p = cursor.pos as int;
        let format = cursor.read_u16()?;
        if format == 1 {
            let glyph_count = cursor.read_u16()?;
            let glyph_array = cursor.read_u16_array(glyph_count as usize)?;
            Ok(Coverage::Format1 { glyph_count, glyph_array })
        } else if format == 2 {
            let range_count = cursor.read_u16()?;
            if range_count as usize > cursor.size() / 6 {
                return Err(Error::ReadError(ReadError::UnexpectedEof));
            }
            cursor.require(6 * range_count as usize)?;
            let mut range_records: Vec<RangeRecord> = Vec::new();
            let mut i: u16 = 0;
            while i < range_count
                invariant
                    i <= range_count,
                    cursor.data@ == d,
                    cursor.pos == p + 4 + 6 * i,
                    fits(d, p + 4, 6 * range_count),
                    range_records@ == Seq::new(i as nat, |k: int| range_record_at(d, p + 4 + 6 * k)),
                decreases range_count - i,
            {
                range_records.push(RangeRecord::parse(cursor)?);
                i = i + 1;
                assert(range_records@ =~= Seq::new(i as nat, |k: int| range_record_at(d, p + 4 + 6 * k)));
            }
            Ok(Coverage::Format2 { range_count, range_records })
        } else {
            Err(Error::Unknown)
        }
    }

    /// The coverage index of `glyph_id`, if the table covers it. An index found is
    /// always right; in a table whose glyphs or ranges are sorted, as the format asks,
    /// a glyph that is not found is not covered.
    pub fn coverage_index(&self, glyph_id: u16) -> (r: Option<u16>)
        ensures
            self is Format1 ==> format1_index_ok(self->Format1_glyph_array@, glyph_id, r),
            self is Format2 ==> format2_index_ok(self->Format2_range_records@, glyph_id, r),
            self is Format2 && ranges_sorted(self->Format2_range_records@) ==> forall|i: int|
                0 <= i < self->Format2_range_records@.len() && #[trigger] range_holds(self->Format2_range_records@[i], glyph_id)
                ==> r == Some(range_index(self->Format2_range_records@[i], glyph_id)),
    {
        match self {
            Coverage::Format1 { glyph_array, .. } => {
                let mut left: usize = 0;
                let mut right: usize = glyph_array.len();
                while left < right
                    invariant
                        left <= right <= glyph_array@.len(),
                        self is Format1,
                        glyph_array@ == self->Format1_glyph_array@,
                        strictly_sorted(glyph_array@) ==> forall|i: int| 0 <= i < left ==> glyph_array@[i] < glyph_id,
                        strictly_sorted(glyph_array@) ==> forall|i: int| right <= i < glyph_array@.len() ==> glyph_array@[i] > glyph_id,
                    decreases right - left,
                {
                    let mid = left + (right - left) / 2;
                    let v = glyph_array[mid];
                    if glyph_id < v {
                        right = mid;
                    } else if glyph_id > v {
                        left = mid + 1;
                    } else {
                        assert(glyph_array@[mid as int] == glyph_id);
                        return Some(mid as u16);
                    }
                }
                None
            },
            Coverage::Format2 { range_records, .. } => {
                let mut left: usize = 0;
                let mut right: usize = range_records.len();
                while left < right
                    invariant
                        left <= right <= range_records@.len(),
                        self is Format2,
                        range_records@ == self->Format2_range_records@,
                        ranges_sorted(range_records@) ==> forall|i: int| 0 <= i < left
                            ==> range_records@[i].end_glyph_id < glyph_id,
                        ranges_sorted(range_records@) ==> forall|i: int| right <= i < range_records@.len()
                            ==> range_records@[i].start_glyph_id > glyph_id,
                    decreases right - left,
                {
                    let mid = left + (right - left) / 2;
                    let range = &range_records[mid];
                    if glyph_id < range.start_glyph_id {
                        right = mid;
                    } else if glyph_id > range.end_glyph_id {
                        left = mid + 1;
                    } else {
                        let v = ((range.start_coverage_index as u32 + (glyph_id - range.start_glyph_id) as u32) % 65536) as u16;
                        assert(range_holds(range_records@[mid as int], glyph_id));
                        assert(v == range_index(range_records@[mid as int], glyph_id));
                        proof {
                            let rs = range_records@;
                            if ranges_sorted(rs) {
                                assert forall|i: int| 0 <= i < rs.len() && #[trigger] range_holds(rs[i], glyph_id)
                                    implies i == mid as int by {
                                    if i < mid as int {
                                        assert(rs[i].end_glyph_id < rs[mid as int].start_glyph_id);
                                    } else if i > mid as int {
                                        assert(rs[mid as int].end_glyph_id < rs[i].start_glyph_id);
                                    }
                                }
                            }
                        }
                        return Some(v);
                    }
                }
                None
            },
        }
    }
}

impl OffsetTable for Coverage {
    open spec fn table_end(d: Seq<u8>, p: int, base: int) -> int {
        coverage_end(d, p)
    }

    open spec fn table_error(d: Seq<u8>, p: int, base: int) -> Option<Error> {
        coverage_error(d, p)
    }

    open spec fn table_matches(d: Seq<u8>, p: int, base: int, v: Self) -> bool {
        coverage_matches(d, p, v)
    }

    fn parse_table(cursor: &mut Cursor, base: usize) -> (r: Result<Self, Error>) {
        Coverage::parse(cursor)
    }
}

} // verus!
