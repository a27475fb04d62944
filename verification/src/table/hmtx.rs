use vstd::prelude::*;
use crate::cursor::{Cursor, fits, u16_at, i16_at};
use crate::error::{Error, ReadError, eof};
use crate::table::{find_table, TableDirectory, TableRecord, HMTX};

verus! {

/// The advance width and left side bearing of a glyph.
#[derive(Clone, Copy, Debug)]
pub struct HMetric {
    pub advance_width: u16,
    pub left_side_bearing: i16,
}

/// The horizontal metrics: one full metric for each of the first glyphs, then a left
/// side bearing alone for each of the rest, which share the last advance width.
#[derive(Debug, Clone)]
pub struct Hmtx {
    hmetrics: Vec<HMetric>,
    left_side_bearings: Vec<i16>,
}

/// The `i`-th full metric of a table at `p`.
pub open spec fn hmetric_at(d: Seq<u8>, p: int, i: int) -> HMetric {
    HMetric { advance_width: u16_at(d, p + 4 * i), left_side_bearing: i16_at(d, p + 4 * i + 2) }
}

/// What parsing `hmtx` needs: the table, and room for `long` full metrics and then
/// `short` bearings.
pub open spec fn hmtx_ok(d: Seq<u8>, dir: Map<u32, TableRecord>, long: int, short: int) -> bool {
    dir.contains_key(HMTX) && fits(d, dir[HMTX].table_offset as int, 4 * long + 2 * short)
}

/// Full metric `i` of a table at `p` is the four bytes from `p + 4i`: the advance width
/// first, then the signed left side bearing.
pub proof fn lemma_hmetric_layout(d: Seq<u8>, p: int, i: int)
    ensures
        hmetric_at(d, p, i).advance_width == u16_at(d, p + 4 * i),
        hmetric_at(d, p, i).left_side_bearing == i16_at(d, p + 4 * i + 2),
{
}

impl Hmtx {
    /// The full metrics.
    pub closed spec fn spec_hmetrics(&self) -> Seq<HMetric> {
        self.hmetrics@
    }

    /// The bearings of the glyphs past the full metrics.
    pub closed spec fn spec_left_side_bearings(&self) -> Seq<i16> {
        self.left_side_bearings@
    }

    pub fn parse(
        data: &[u8],
        tables: &TableDirectory,
        number_of_long_hor_metrics: u16,
        num_glyphs: u16,
    ) -> (r: Result<Self, Error>)
        requires
            number_of_long_hor_metrics <= num_glyphs,
        ensures
            r is Ok <==> hmtx_ok(data@, tables@, number_of_long_hor_metrics as int,
                num_glyphs - number_of_long_hor_metrics),
            !tables@.contains_key(HMTX) ==> r == Err::<Hmtx, Error>(Error::MissingTable("hmtx")),
            tables@.contains_key(HMTX) && r is Err ==> r == Err::<Hmtx, Error>(eof()),
            r matches Ok(h) ==> {
                let p = tables@[HMTX].table_offset as int;
                let long = number_of_long_hor_metrics as int;
                &&& h.spec_hmetrics() == Seq::new(long as nat, |i: int| hmetric_at(data@, p, i))
                &&& h.spec_left_side_bearings() == Seq::new((num_glyphs - long) as nat,
                    |i: int| i16_at(data@, p + 4 * long + 2 * i))
            },
    {
        let rec = find_table(tables, HMTX, "hmtx")?;
        let mut cursor = Cursor::set(data, rec.table_offset);
        let ghost p = rec.table_offset as int;
        let num_short_metrics = num_glyphs - number_of_long_hor_metrics;
        let total: usize = 4 * number_of_long_hor_metrics as usize + 2 * num_short_metrics as usize;
        if cursor.size() < total || cursor.position() > cursor.size() - total {
            return Err(Error::ReadError(ReadError::UnexpectedEof));
        }
        let mut hmetrics: Vec<HMetric> = Vec::with_capacity(number_of_long_hor_metrics as usize);
        let mut i: u16 = 0;
        while i < number_of_long_hor_metrics
            invariant
                i <= number_of_long_hor_metrics,
                cursor.data@ == data@,
                cursor.pos == p + 4 * i,
                fits(data@, p, total as int),
                total == 4 * number_of_long_hor_metrics + 2 * num_short_metrics,
                hmetrics@ == Seq::new(i as nat, |k: int| hmetric_at(data@, p, k)),
            decreases number_of_long_hor_metrics - i,
        {
            let advance_width = cursor.read_u16()?;
            let left_side_bearing = cursor.read_i16()?;
            hmetrics.push(HMetric { advance_width, left_side_bearing });
            i = i + 1;
            assert(hmetrics@ =~= Seq::new(i as nat, |k: int| hmetric_at(data@, p, k)));
        }
        let ghost q = p + 4 * number_of_long_hor_metrics;
        let mut left_side_bearings: Vec<i16> = Vec::with_capacity(num_short_metrics as usize);
        let mut j: u16 = 0;
        while j < num_short_metrics
            invariant
                j <= num_short_metrics,
                cursor.data@ == data@,
                cursor.pos == q + 2 * j,
                q == p + 4 * number_of_long_hor_metrics,
                fits(data@, p, total as int),
                total == 4 * number_of_long_hor_metrics + 2 * num_short_metrics,
                left_side_bearings@ == Seq::new(j as nat, |k: int| i16_at(data@, q + 2 * k)),
            decreases num_short_metrics - j,
        {
            left_side_bearings.push(cursor.read_i16()?);
            j = j + 1;
            assert(left_side_bearings@ =~= Seq::new(j as nat, |k: int| i16_at(data@, q + 2 * k)));
        }
        Ok(Self { hmetrics, left_side_bearings })
    }

    /// The metric of `glyph_id`: its own full metric, or the last advance width with its
    /// own bearing.
    pub fn metric_for_glyph(&self, glyph_id: u16) -> (m: HMetric)
        requires
            glyph_id < self.spec_hmetrics().len() || (self.spec_hmetrics().len() > 0
                && glyph_id - self.spec_hmetrics().len() < self.spec_left_side_bearings().len()),
        ensures
            glyph_id < self.spec_hmetrics().len() ==> m == self.spec_hmetrics()[glyph_id as int],
            glyph_id >= self.spec_hmetrics().len() ==> m == (HMetric {
                advance_width: self.spec_hmetrics().last().advance_width,
                left_side_bearing: self.spec_left_side_bearings()[glyph_id - self.spec_hmetrics().len()],
            }),
    {
        if (glyph_id as usize) < self.hmetrics.len() {
            self.hmetrics[glyph_id as usize]
        } else {
            let last = self.hmetrics[self.hmetrics.len() - 1];
            HMetric {
                advance_width: last.advance_width,
                left_side_bearing: self.left_side_bearings[(glyph_id as usize) - self.hmetrics.len()],
            }
        }
    }
}

} // verus!
