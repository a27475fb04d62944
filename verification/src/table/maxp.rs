use vstd::prelude::*;
use crate::cursor::{Cursor, fits, u16_at};
use crate::error::{Error, eof};
use crate::table::{find_table, TableDirectory, MAXP};

verus! {

/// The maximum profile.
#[derive(Debug, Clone, Copy)]
pub struct Maxp {
    pub vers_major: u32,
    pub vers_minor: u32,
    pub num_glyphs: u16,
    pub max_points: u16,
    pub max_contours: u16,
    pub max_composite_points: u16,
    pub max_composite_contours: u16,
    pub max_zones: u16,
    pub max_twilight_points: u16,
    pub max_storage: u16,
    pub max_function_defs: u16,
    pub max_stack_elements: u16,
    pub max_size_of_instructions: u16,
    pub max_component_elements: u16,
    pub max_component_depth: u16,
}

/// The fifteen big-endian words of a `maxp` table at `p`, in order.
pub open spec fn maxp_at(d: Seq<u8>, p: int) -> Maxp {
    Maxp {
        vers_major: u16_at(d, p) as u32,
        vers_minor: u16_at(d, p + 2) as u32,
        num_glyphs: u16_at(d, p + 4),
        max_points: u16_at(d, p + 6),
        max_contours: u16_at(d, p + 8),
        max_composite_points: u16_at(d, p + 10),
        max_composite_contours: u16_at(d, p + 12),
        max_zones: u16_at(d, p + 14),
        max_twilight_points: u16_at(d, p + 16),
        max_storage: u16_at(d, p + 18),
        max_function_defs: u16_at(d, p + 20),
        max_stack_elements: u16_at(d, p + 22),
        max_size_of_instructions: u16_at(d, p + 24),
        max_component_elements: u16_at(d, p + 26),
        max_component_depth: u16_at(d, p + 28),
    }
}

/// What parsing the `maxp` table gives.
pub open spec fn maxp_result(d: Seq<u8>, dir: Map<u32, crate::table::TableRecord>) -> Result<Maxp, Error> {
    if !dir.contains_key(MAXP) {
        Err(Error::MissingTable("maxp"))
    } else if !fits(d, dir[MAXP].table_offset as int, 30) {
        Err(eof())
    } else {
        Ok(maxp_at(d, dir[MAXP].table_offset as int))
    }
}

/// A `maxp` table read without error holds its fifteen words in order: the version at
/// bytes 0 and 2, the number of glyphs at 4, then the limits from 6 to 28 in the order of
/// the OpenType layout.
pub proof fn lemma_maxp_layout(d: Seq<u8>, dir: Map<u32, crate::table::TableRecord>)
    requires
        maxp_result(d, dir) is Ok,
    ensures
        ({
            let m = maxp_result(d, dir)->Ok_0;
            let p = dir[MAXP].table_offset as int;
            &&& m.vers_major == u16_at(d, p) && m.vers_minor == u16_at(d, p + 2)
            &&& m.num_glyphs == u16_at(d, p + 4)
            &&& m.max_points == u16_at(d, p + 6) && m.max_contours == u16_at(d, p + 8)
            &&& m.max_composite_points == u16_at(d, p + 10) && m.max_composite_contours == u16_at(d, p + 12)
            &&& m.max_zones == u16_at(d, p + 14) && m.max_twilight_points == u16_at(d, p + 16)
            &&& m.max_storage == u16_at(d, p + 18) && m.max_function_defs == u16_at(d, p + 20)
            &&& m.max_stack_elements == u16_at(d, p + 22) && m.max_size_of_instructions == u16_at(d, p + 24)
            &&& m.max_component_elements == u16_at(d, p + 26) && m.max_component_depth == u16_at(d, p + 28)
        }),
{
}

impl Maxp {
    pub fn parse(data: &[u8], tables: &TableDirectory) -> (r: Result<Self, Error>)
        ensures
            r == maxp_result(data@, tables@),
    {
        let rec = find_table(tables, MAXP, "maxp")?;
        let mut cursor = Cursor::set(data, rec.table_offset);
        let ghost p = rec.table_offset as int;
        if cursor.size() < 30 || cursor.position() > cursor.size() - 30 {
            return Err(crate::error::Error::ReadError(crate::error::ReadError::UnexpectedEof));
        }
        let vers_major = cursor.read_u16()? as u32;
        let vers_minor = cursor.read_u16()? as u32;
        let num_glyphs = cursor.read_u16()?;
        let max_points = cursor.read_u16()?;
        let max_contours = cursor.read_u16()?;
        let max_composite_points = cursor.read_u16()?;
        let max_composite_contours = cursor.read_u16()?;
        let max_zones = cursor.read_u16()?;
        let max_twilight_points = cursor.read_u16()?;
        let max_storage = cursor.read_u16()?;
        let max_function_defs = cursor.read_u16()?;
        let max_stack_elements = cursor.read_u16()?;
        let max_size_of_instructions = cursor.read_u16()?;
        let max_component_elements = cursor.read_u16()?;
        let max_component_depth = cursor.read_u16()?;
        Ok(Self {
            vers_major,
            vers_minor,
            num_glyphs,
            max_points,
            max_contours,
            max_composite_points,
            max_composite_contours,
            max_zones,
            max_twilight_points,
            max_storage,
            max_function_defs,
            max_stack_elements,
            max_size_of_instructions,
            max_component_elements,
            max_component_depth,
        })
    }
}

} // verus!
