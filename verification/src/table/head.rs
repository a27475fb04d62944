use vstd::prelude::*;
use crate::cursor::{Cursor, fits, u16_at, i16_at, u32_at, i64_at};
use crate::error::{Error, ParseError, ReadError, eof};
use crate::table::{find_table, TableDirectory, TableRecord, HEAD};

verus! {

/// The value every `head` table holds in its magic number field.
pub const MAGIC_NUMBER: u32 = 0x5F0F3CF5;

/// The font header.
#[derive(Debug, Clone, Copy)]
pub struct Head {
    pub major: u16,
    pub minor: u16,
    /// The font revision as a 16.16 fixed-point number, made of the second word of the
    /// field as its high half and the first word as its low half; divided by 65536 it is
    /// the revision as a number.
    pub font_revision: u32,
    pub checksum: u32,
    pub magic_number: u32,
    pub flags: u16,
    pub units_per_em: u16,
    pub created: i64,
    pub modified: i64,
    pub x_min: i16,
    pub y_min: i16,
    pub x_max: i16,
    pub y_max: i16,
    pub mac_style: u16,
    pub lowest_rec_ppem: u16,
    pub font_direction_hint: i16,
    pub index_to_loc_format: i16,
    pub glyph_data_format: i16,
}

pub open spec fn head_at(d: Seq<u8>, p: int) -> Head {
    Head {
        major: u16_at(d, p),
        minor: u16_at(d, p + 2),
        font_revision: (u16_at(d, p + 6) as int * 0x10000 + u16_at(d, p + 4) as int) as u32,
        checksum: u32_at(d, p + 8),
        magic_number: u32_at(d, p + 12),
        flags: u16_at(d, p + 16),
        units_per_em: u16_at(d, p + 18),
        created: i64_at(d, p + 20),
        modified: i64_at(d, p + 28),
        x_min: i16_at(d, p + 36),
        y_min: i16_at(d, p + 38),
        x_max: i16_at(d, p + 40),
        y_max: i16_at(d, p + 42),
        mac_style: u16_at(d, p + 44),
        lowest_rec_ppem: u16_at(d, p + 46),
        font_direction_hint: i16_at(d, p + 48),
        index_to_loc_format: i16_at(d, p + 50),
        glyph_data_format: i16_at(d, p + 52),
    }
}

/// What parsing the `head` table gives: the magic number is checked once the first
/// sixteen bytes are read.
pub open spec fn head_result(d: Seq<u8>, dir: Map<u32, TableRecord>) -> Result<Head, Error> {
    if !dir.contains_key(HEAD) {
        Err(Error::MissingTable("head"))
    } else {
        let p = dir[HEAD].table_offset as int;
        if !fits(d, p, 16) {
            Err(eof())
        } else if u32_at(d, p + 12) != MAGIC_NUMBER {
            Err(Error::ParseError(ParseError::MagicNumber))
        } else if !fits(d, p, 54) {
            Err(eof())
        } else {
            Ok(head_at(d, p))
        }
    }
}

/// A `head` table read without error holds each field at its place in the OpenType
/// layout: the version words at bytes 0 and 2, the revision's words at 4 and 6, the
/// checksum adjustment at 8, the magic number at 12, the flags at 16, the units per em at
/// 18, the two dates at 20 and 28, the bounding box at 36, 38, 40 and 42, the style at 44,
/// the smallest readable size at 46, the direction hint at 48, the `loca` format at 50 and
/// the glyph data format at 52.
pub proof fn lemma_head_layout(d: Seq<u8>, dir: Map<u32, TableRecord>)
    requires
        head_result(d, dir) is Ok,
    ensures
        ({
            let h = head_result(d, dir)->Ok_0;
            let p = dir[HEAD].table_offset as int;
            &&& h.major == u16_at(d, p)
            &&& h.minor == u16_at(d, p + 2)
            &&& h.font_revision == u16_at(d, p + 6) as int * 0x10000 + u16_at(d, p + 4) as int
            &&& h.checksum == u32_at(d, p + 8)
            &&& h.magic_number == u32_at(d, p + 12) && h.magic_number == MAGIC_NUMBER
            &&& h.flags == u16_at(d, p + 16)
            &&& h.units_per_em == u16_at(d, p + 18)
            &&& h.created == i64_at(d, p + 20)
            &&& h.modified == i64_at(d, p + 28)
            &&& h.x_min == i16_at(d, p + 36)
            &&& h.y_min == i16_at(d, p + 38)
            &&& h.x_max == i16_at(d, p + 40)
            &&& h.y_max == i16_at(d, p + 42)
            &&& h.mac_style == u16_at(d, p + 44)
            &&& h.lowest_rec_ppem == u16_at(d, p + 46)
            &&& h.font_direction_hint == i16_at(d, p + 48)
            &&& h.index_to_loc_format == i16_at(d, p + 50)
            &&& h.glyph_data_format == i16_at(d, p + 52)
        }),
{
}

impl Head {
    pub fn parse(data: &[u8], tables: &TableDirectory) -> (r: Result<Self, Error>)
        ensures
            r == head_result(data@, tables@),
    {
        let rec = find_table(tables, HEAD, "head")?;
        let mut cursor = Cursor::set(data, rec.table_offset);
        if cursor.size() < 16 || cursor.position() > cursor.size() - 16 {
            return Err(Error::ReadError(ReadError::UnexpectedEof));
        }
        let major = cursor.read_u16()?;
        let minor = cursor.read_u16()?;
        let font_rev_major = cursor.read_u16()? as u32;
        let font_rev_minor = cursor.read_u16()? as u32;
        let font_revision = font_rev_minor * 0x10000 + font_rev_major;
        let checksum = cursor.read_u32()?;
        let magic_number = cursor.read_u32()?;
        if magic_number != MAGIC_NUMBER {
            return Err(Error::ParseError(ParseError::MagicNumber));
        }
        if cursor.size() < 38 || cursor.position() > cursor.size() - 38 {
            return Err(Error::ReadError(ReadError::UnexpectedEof));
        }
        let flags = cursor.read_u16()?;
        let units_per_em = cursor.read_u16()?;
        let created = cursor.read_i64()?;
        let modified = cursor.read_i64()?;
        let x_min = cursor.read_i16()?;
        let y_min = cursor.read_i16()?;
        let x_max = cursor.read_i16()?;
        let y_max = cursor.read_i16()?;
        let mac_style = cursor.read_u16()?;
        let lowest_rec_ppem = cursor.read_u16()?;
        let font_direction_hint = cursor.read_i16()?;
        let index_to_loc_format = cursor.read_i16()?;
        let glyph_data_format = cursor.read_i16()?;
        Ok(Head {
            major,
            minor,
            font_revision,
            checksum,
            magic_number,
            flags,
            units_per_em,
            created,
            modified,
            x_min,
            y_min,
            x_max,
            y_max,
            mac_style,
            lowest_rec_ppem,
            font_direction_hint,
            index_to_loc_format,
            glyph_data_format,
        })
    }
}

} // verus!
