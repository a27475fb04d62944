use vstd::prelude::*;
use crate::cursor::{Cursor, fits, u16_at, i16_at};
use crate::error::{Error, ReadError, eof, out_of_bounds};
use crate::table::{find_table, TableDirectory, TableRecord, HHEA};

verus! {

/// The horizontal header.
#[derive(Debug, Clone, Copy)]
pub struct Hhea {
    pub major: u16,
    pub minor: u16,
    pub ascent: i16,
    pub descent: i16,
    pub line_gap: i16,
    pub advance_width_max: u16,
    pub min_left_side_bearing: i16,
    pub min_right_side_bearing: i16,
    pub x_max_extent: i16,
    pub caret_slope_rise: i16,
    pub caret_slope_run: i16,
    pub caret_offset: i16,
    pub metric_data_format: i16,
    pub number_of_long_hor_metrics: u16,
}

/// The `hhea` fields of a table at `p`: twelve words, eight reserved bytes, two words.
pub open spec fn hhea_at(d: Seq<u8>, p: int) -> Hhea {
    Hhea {
        major: u16_at(d, p),
        minor: u16_at(d, p + 2),
        ascent: i16_at(d, p + 4),
        descent: i16_at(d, p + 6),
        line_gap: i16_at(d, p + 8),
        advance_width_max: u16_at(d, p + 10),
        min_left_side_bearing: i16_at(d, p + 12),
        min_right_side_bearing: i16_at(d, p + 14),
        x_max_extent: i16_at(d, p + 16),
        caret_slope_rise: i16_at(d, p + 18),
        caret_slope_run: i16_at(d, p + 20),
        caret_offset: i16_at(d, p + 22),
        metric_data_format: i16_at(d, p + 32),
        number_of_long_hor_metrics: u16_at(d, p + 34),
    }
}

/// What parsing the `hhea` table gives: the reserved bytes are skipped by a seek, which
/// fails on its own when they run past the end of the data.
pub open spec fn hhea_result(d: Seq<u8>, dir: Map<u32, TableRecord>) -> Result<Hhea, Error> {
    if !dir.contains_key(HHEA) {
        Err(Error::MissingTable("hhea"))
    } else {
        let p = dir[HHEA].table_offset as int;
        if !fits(d, p, 24) {
            Err(eof())
        } else if p + 32 > d.len() {
            Err(out_of_bounds())
        } else if !fits(d, p + 32, 4) {
            Err(eof())
        } else {
            Ok(hhea_at(d, p))
        }
    }
}

/// An `hhea` table read without error holds each field at its place in the OpenType
/// layout: the version words at bytes 0 and 2, ascender, descender and line gap at 4, 6
/// and 8, the largest advance at 10, the smallest bearings at 12 and 14, the largest extent
/// at 16, the caret slope at 18 and 20 and its offset at 22; eight reserved bytes follow,
/// then the metric data format at 32 and the number of full horizontal metrics at 34.
pub proof fn lemma_hhea_layout(d: Seq<u8>, dir: Map<u32, TableRecord>)
    requires
        hhea_result(d, dir) is Ok,
    ensures
        ({
            let h = hhea_result(d, dir)->Ok_0;
            let p = dir[HHEA].table_offset as int;
            &&& h.major == u16_at(d, p) && h.minor == u16_at(d, p + 2)
            &&& h.ascent == i16_at(d, p + 4) && h.descent == i16_at(d, p + 6) && h.line_gap == i16_at(d, p + 8)
            &&& h.advance_width_max == u16_at(d, p + 10)
            &&& h.min_left_side_bearing == i16_at(d, p + 12) && h.min_right_side_bearing == i16_at(d, p + 14)
            &&& h.x_max_extent == i16_at(d, p + 16)
            &&& h.caret_slope_rise == i16_at(d, p + 18) && h.caret_slope_run == i16_at(d, p + 20)
            &&& h.caret_offset == i16_at(d, p + 22)
            &&& h.metric_data_format == i16_at(d, p + 32)
            &&& h.number_of_long_hor_metrics == u16_at(d, p + 34)
        }),
{
}

impl Hhea {
    pub fn parse(data: &[u8], tables: &TableDirectory) -> (r: Result<Self, Error>)
        ensures
            r == hhea_result(data@, tables@),
    {
        let rec = find_table(tables, HHEA, "hhea")?;
        let mut cursor = Cursor::set(data, rec.table_offset);
        if cursor.size() < 24 || cursor.position() > cursor.size() - 24 {
            return Err(Error::ReadError(ReadError::UnexpectedEof));
        }
        let major = cursor.read_u16()?;
        let minor = cursor.read_u16()?;
        let ascent = cursor.read_i16()?;
        let descent = cursor.read_i16()?;
        let line_gap = cursor.read_i16()?;
        let advance_width_max = cursor.read_u16()?;
        let min_left_side_bearing = cursor.read_i16()?;
        let min_right_side_bearing = cursor.read_i16()?;
        let x_max_extent = cursor.read_i16()?;
        let caret_slope_rise = cursor.read_i16()?;
        let caret_slope_run = cursor.read_i16()?;
        let caret_offset = cursor.read_i16()?;
        // Reserved words.
        cursor.seek_rel(cursor.position(), 8)?;
        let metric_data_format = cursor.read_i16()?;
        let number_of_long_hor_metrics = cursor.read_u16()?;
        Ok(Self {
            major,
            minor,
            ascent,
            descent,
            line_gap,
            advance_width_max,
            min_left_side_bearing,
            min_right_side_bearing,
            x_max_extent,
            caret_slope_rise,
            caret_slope_run,
            caret_offset,
            metric_data_format,
            number_of_long_hor_metrics,
        })
    }
}

} // verus!
