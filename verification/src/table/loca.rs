use vstd::prelude::*;
use crate::cursor::{Cursor, fits, u16_seq, u32_seq, u16_at, u32_at};
use crate::error::{Error, eof};
use crate::table::{find_table, TableDirectory, TableRecord, LOCA};

verus! {

/// What `parse_loca` gives: in the short format (0) `glyph_count / 2` words, each
/// doubled; in the long format (1) `glyph_count / 4` long offsets.
pub open spec fn loca_result(d: Seq<u8>, dir: Map<u32, TableRecord>, glyph_count: int, format: i16)
    -> Result<Seq<u32>, Error>
{
    if !dir.contains_key(LOCA) {
        Err(Error::MissingTable("loca"))
    } else {
        let p = dir[LOCA].table_offset as int;
        if format == 0 {
            let n = glyph_count / 2;
            if fits(d, p, 2 * n) {
                Ok(u16_seq(d, p, n).map_values(|v: u16| (v as int * 2) as u32))
            } else {
                Err(eof())
            }
        } else if format == 1 {
            let n = glyph_count / 4;
            if fits(d, p, 4 * n) { Ok(u32_seq(d, p, n)) } else { Err(eof()) }
        } else {
            Err(Error::InvalidFormat(""))
        }
    }
}

/// The offsets read from `loca`: in the short format, `glyph_count / 2` of them, offset `k`
/// being twice the word at byte `2k`; in the long format, `glyph_count / 4` of them,
/// offset `k` being the long word at byte `4k`.
pub proof fn lemma_loca_layout(d: Seq<u8>, dir: Map<u32, TableRecord>, glyph_count: int, format: i16)
    requires
        glyph_count >= 0,
        loca_result(d, dir, glyph_count, format) is Ok,
    ensures
        ({
            let v = loca_result(d, dir, glyph_count, format)->Ok_0;
            let p = dir[LOCA].table_offset as int;
            &&& format == 0 || format == 1
            &&& format == 0 ==> v.len() == glyph_count / 2
                && forall|k: int| #![trigger v[k]] 0 <= k < v.len() ==> v[k] == 2 * u16_at(d, p + 2 * k)
            &&& format == 1 ==> v.len() == glyph_count / 4
                && forall|k: int| #![trigger v[k]] 0 <= k < v.len() ==> v[k] == u32_at(d, p + 4 * k)
        }),
{
    let p = dir[LOCA].table_offset as int;
    if format == 0 {
        let n = glyph_count / 2;
        let w = u16_seq(d, p, n);
        let v = w.map_values(|x: u16| (x as int * 2) as u32);
        assert forall|k: int| 0 <= k < v.len() implies v[k] == 2 * u16_at(d, p + 2 * k) by {
            assert(w[k] == u16_at(d, p + 2 * k));
        }
    }
}

/// Reads the glyph offsets of the `loca` table.
pub fn parse_loca(data: &[u8], table: &TableDirectory, glyph_count: usize, format: i16) -> (r: Result<Vec<u32>, Error>)
    ensures
        match (r, loca_result(data@, table@, glyph_count as int, format)) {
            (Ok(v), Ok(s)) => v@ == s,
            (Err(e), Err(f)) => e == f,
            _ => false,
        },
{
    let rec = find_table(table, LOCA, "loca")?;
    let mut cursor = Cursor::set(data, rec.table_offset);
    match format {
        0 => {
            let count = glyph_count / 2;
            let raw = cursor.read_u16_array(count)?;
            let mut offsets: Vec<u32> = Vec::with_capacity(count);
            let mut i: usize = 0;
            while i < raw.len()
                invariant
                    i <= raw.len(),
                    offsets@ == raw@.take(i as int).map_values(|v: u16| (v as int * 2) as u32),
                decreases raw.len() - i,
            {
                offsets.push((raw[i] as u32) * 2);
                i = i + 1;
                assert(offsets@ =~= raw@.take(i as int).map_values(|v: u16| (v as int * 2) as u32));
            }
            assert(raw@.take(raw.len() as int) =~= raw@);
            Ok(offsets)
        },
        1 => {
            let count = glyph_count / 4;
            cursor.read_u32_array(count)
        },
        _ => Err(Error::InvalidFormat("")),
    }
}

} // verus!
