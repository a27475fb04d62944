use vstd::prelude::*;
use crate::cursor::{Cursor, fits, u32_at};
use crate::error::{Error, ReadError, eof};
use crate::table::cmap::CMapGroup;

verus! {

/// The `i`-th twelve-byte group of an array at `p`.
pub open spec fn group_at(d: Seq<u8>, p: int, i: int) -> CMapGroup {
    CMapGroup {
        start_char: u32_at(d, p + 12 * i),
        end_char: u32_at(d, p + 12 * i + 4),
        start_glyph: u32_at(d, p + 12 * i + 8),
    }
}

/// The error, if any, of reading a format 12 subtable at `p`: a sixteen-byte header
/// (format, reserved, length, language, group count) and then the groups.
pub open spec fn f12_error(d: Seq<u8>, p: int) -> Option<Error> {
    if !fits(d, p, 16) {
        Some(eof())
    } else if !fits(d, p + 16, 12 * u32_at(d, p + 12) as int) {
        Some(eof())
    } else {
        None
    }
}

/// The groups of a format 12 subtable at `p`, as stored.
pub open spec fn f12_groups(d: Seq<u8>, p: int) -> Seq<CMapGroup> {
    Seq::new(u32_at(d, p + 12) as nat, |i: int| group_at(d, p + 16, i))
}

/// The groups of a format 12 subtable: as many as the long word at byte 12 says, group `k`
/// being the twelve bytes from byte `16 + 12k`: the first character, the last character,
/// then the glyph of the first character.
pub proof fn lemma_f12_layout(d: Seq<u8>, p: int)
    ensures
        f12_groups(d, p).len() == u32_at(d, p + 12),
        forall|k: int| #![trigger f12_groups(d, p)[k]] 0 <= k < f12_groups(d, p).len() ==> {
            &&& f12_groups(d, p)[k].start_char == u32_at(d, p + 16 + 12 * k)
            &&& f12_groups(d, p)[k].end_char == u32_at(d, p + 20 + 12 * k)
            &&& f12_groups(d, p)[k].start_glyph == u32_at(d, p + 24 + 12 * k)
        },
{
}

/// Reads a format 12 (segmented coverage) character map subtable at the cursor.
pub fn parse_format12(cursor: &mut Cursor) -> (r: Result<Vec<CMapGroup>, Error>)
    ensures
        final(cursor).data@ == old(cursor).data@,
        match r {
            Ok(v) => f12_error(old(cursor).data@, old(cursor).pos as int) is None
                && v@ == f12_groups(old(cursor).data@, old(cursor).pos as int)
                && final(cursor).pos == old(cursor).pos + 16 + 12 * u32_at(old(cursor).data@, old(cursor).pos + 12),
            Err(e) => f12_error(old(cursor).data@, old(cursor).pos as int) == Some(e),
        },
{
    let ghost d = cursor.data@;
    let ghost p = cursor.pos as int;
    cursor.require(16)?;
    let _format = cursor.read_u16()?;
    let _reserved = cursor.read_u16()?;
    let _length = cursor.read_u32()?;
    let _language = cursor.read_u32()?;
    let num_groups = cursor.read_u32()?;
    if num_groups as usize > cursor.size() / 12 {
        return Err(Error::ReadError(ReadError::UnexpectedEof));
    }
    cursor.require(12 * num_groups as usize)?;
    let mut groups: Vec<CMapGroup> = Vec::new();
    let mut i: u32 = 0;
    while i < num_groups
        invariant
            i <= num_groups,
            cursor.data@ == d,
            cursor.pos == p + 16 + 12 * i,
            fits(d, p + 16, 12 * num_groups),
            groups@ == Seq::new(i as nat, |k: int| group_at(d, p + 16, k)),
        decreases num_groups - i,
    {
        let start_char = cursor.read_u32()?;
        let end_char = cursor.read_u32()?;
        let start_glyph = cursor.read_u32()?;
        groups.push(CMapGroup { start_char, end_char, start_glyph });
        i = i + 1;
        assert(groups@ =~= Seq::new(i as nat, |k: int| group_at(d, p + 16, k)));
    }
    Ok(groups)
}

} // verus!
