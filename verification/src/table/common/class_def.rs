use vstd::prelude::*;
use crate::cursor::{Cursor, fits, u16_at, u16_seq};
use crate::error::{Error, ReadError, eof};

use crate::table::common::offset_table::OffsetTable;

verus! {

/// A range of glyphs that share a class.
#[derive(Debug, Clone, Copy)]
pub struct ClassRange {
    pub start_glyph_id: u16,
    pub end_glyph_id: u16,
    pub class: u16,
}

/// The six-byte class range record at `p`.
pub open spec fn class_range_at(d: Seq<u8>, p: int) -> ClassRange {
    ClassRange { start_glyph_id: u16_at(d, p), end_glyph_id: u16_at(d, p + 2), class: u16_at(d, p + 4) }
}

impl ClassRange {
    pub fn parse(cursor: &mut Cursor) -> (r: Result<Self, Error>)
        ensures
            final(cursor).data@ == old(cursor).data@,
            r is Ok <==> fits(old(cursor).data@, old(cursor).pos as int, 6),
            r matches Ok(v) ==> v == class_range_at(old(cursor).data@, old(cursor).pos as int)
                && final(cursor).pos == old(cursor).pos + 6,
            r matches Err(e) ==> e == eof(),
    {
        cursor.require(6)?;
        Ok(Self { start_glyph_id: cursor.read_u16()?, end_glyph_id: cursor.read_u16()?, class: cursor.read_u16()? })
    }
}

/// The class of each glyph: consecutive glyphs from a start (format 1) or ranges
/// (format 2).
#[derive(Debug, Clone)]
pub enum ClassDefinition {
    Format1 { start_glyph_id: u16, glyph_count: u16, class_values: Vec<u16> },
    Format2 { class_range_count: u16, class_range_records: Vec<ClassRange> },
}

/// The error, if any, of reading a class definition table at `p`.
pub open spec fn class_def_error(d: Seq<u8>, p: int) -> Option<Error> {
    if !fits(d, p, 2) {
        Some(eof())
    } else if u16_at(d, p) != 1 && u16_at(d, p) != 2 {
        Some(Error::Unknown)
    } else if u16_at(d, p) == 1 && !fits(d, p + 2, 4) {
        Some(eof())
    } else if u16_at(d, p) == 1 && !fits(d, p + 6, 2 * u16_at(d, p + 4)) {
        Some(eof())
    } else if u16_at(d, p) == 2 && !fits(d, p + 2, 2) {
        Some(eof())
    } else if u16_at(d, p) == 2 && !fits(d, p + 4, 6 * u16_at(d, p + 2)) {
        Some(eof())
    } else {
        None
    }
}

/// Where a class definition table at `p` ends.
pub open spec fn class_def_end(d: Seq<u8>, p: int) -> int {
    if u16_at(d, p) == 1 { p + 6 + 2 * u16_at(d, p + 4) } else { p + 4 + 6 * u16_at(d, p + 2) }
}

/// Whether `c` is the class definition table at `p`.
pub open spec fn class_def_matches(d: Seq<u8>, p: int, c: ClassDefinition) -> bool {
    match c {
        ClassDefinition::Format1 { start_glyph_id, glyph_count, class_values } => u16_at(d, p) == 1
            && start_glyph_id == u16_at(d, p + 2) && glyph_count == u16_at(d, p + 4)
            && class_values@ == u16_seq(d, p + 6, glyph_count as int),
        ClassDefinition::Format2 { class_range_count, class_range_records } => u16_at(d, p) == 2
            && class_range_count == u16_at(d, p + 2)
            && class_range_records@ == Seq::new(class_range_count as nat, |i: int| class_range_at(d, p + 4 + 6 * i)),
    }
}

/// A class definition read from `p` holds what its format lays out: in format 1, after the
/// format word, the first glyph, the glyph count and then one class per word; in format 2,
/// after the format word, the range count and then six-byte records of first glyph, last
/// glyph and class, in that order.
pub proof fn lemma_class_def_layout(d: Seq<u8>, p: int, c: ClassDefinition)
    requires
        class_def_matches(d, p, c),
    ensures
        c matches ClassDefinition::Format1 { start_glyph_id, glyph_count, class_values } ==> u16_at(d, p) == 1
            && start_glyph_id == u16_at(d, p + 2) && glyph_count == u16_at(d, p + 4)
            && class_values@.len() == glyph_count
            && forall|k: int| #![trigger class_values@[k]] 0 <= k < glyph_count ==> class_values@[k] == u16_at(d, p + 6 + 2 * k),
        c matches ClassDefinition::Format2 { class_range_count, class_range_records } ==> u16_at(d, p) == 2
            && class_range_count == u16_at(d, p + 2) && class_range_records@.len() == class_range_count
            && forall|k: int| #![trigger class_range_records@[k]] 0 <= k < class_range_count ==> {
                &&& class_range_records@[k].start_glyph_id == u16_at(d, p + 4 + 6 * k)
                &&& class_range_records@[k].end_glyph_id == u16_at(d, p + 6 + 6 * k)
                &&& class_range_records@[k].class == u16_at(d, p + 8 + 6 * k)
            },
{
}

impl ClassDefinition {
    pub fn parse(cursor: &mut Cursor) -> (r: Result<Self, Error>)
        ensures
            final(cursor).data@ == old(cursor).data@,
            match r {
                Ok(c) => class_def_error(old(cursor).data@, old(cursor).pos as int) is None
                    && class_def_matches(old(cursor).data@, old(cursor).pos as int, c)
                    && final(cursor).pos == class_def_end(old(cursor).data@, old(cursor).pos as int),
                Err(e) => class_def_error(old(cursor).data@, old(cursor).pos as int) == Some(e),
            },
    {
        let ghost d = cursor.data@;
        let ghost p = cursor.pos as int;
        let format = cursor.read_u16()?;
        if format == 1 {
            cursor.require(4)?;
            let start_glyph_id = cursor.read_u16()?;
            let glyph_count = cursor.read_u16()?;
            let class_values = cursor.read_u16_array(glyph_count as usize)?;
            Ok(ClassDefinition::Format1 { start_glyph_id, glyph_count, class_values })
        } else if format == 2 {
            let class_range_count = cursor.read_u16()?;
            if class_range_count as usize > cursor.size() / 6 {
                return Err(Error::ReadError(ReadError::UnexpectedEof));
            }
            cursor.require(6 * class_range_count as usize)?;
            let mut class_range_records: Vec<ClassRange> = Vec::new();
            let mut i: u16 = 0;
            while i < class_range_count
                invariant
                    i <= class_range_count,
                    cursor.data@ == d,
                    cursor.pos == p + 4 + 6 * i,
                    fits(d, p + 4, 6 * class_range_count),
                    class_range_records@ == Seq::new(i as nat, |k: int| class_range_at(d, p + 4 + 6 * k)),
                decreases class_range_count - i,
            {
                class_range_records.push(ClassRange::parse(cursor)?);
                i = i + 1;
                assert(class_range_records@ =~= Seq::new(i as nat, |k: int| class_range_at(d, p + 4 + 6 * k)));
            }
            Ok(ClassDefinition::Format2 { class_range_count, class_range_records })
        } else {
            Err(Error::Unknown)
        }
    }
}

impl OffsetTable for ClassDefinition {
    open spec fn table_end(d: Seq<u8>, p: int, base: int) -> int {
        class_def_end(d, p)
    }

    open spec fn table_error(d: Seq<u8>, p: int, base: int) -> Option<Error> {
        class_def_error(d, p)
    }

    open spec fn table_matches(d: Seq<u8>, p: int, base: int, v: Self) -> bool {
        class_def_matches(d, p, v)
    }

    fn parse_table(cursor: &mut Cursor, base: usize) -> (r: Result<Self, Error>) {
        ClassDefinition::parse(cursor)
    }
}

} // verus!
