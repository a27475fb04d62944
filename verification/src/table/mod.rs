use vstd::prelude::*;
use std::collections::HashMap;
use crate::cursor::{Cursor, fits, u16_at, u32_at};
use crate::error::{Error, eof};


pub mod cmap;
pub mod common;
pub mod glyf;
pub mod gsub;
pub mod head;
pub mod hhea;
pub mod hmtx;
pub mod kern;
pub mod loca;
pub mod maxp;

verus! {

broadcast use vstd::std_specs::hash::group_hash_axioms;

/// A glyph index.
pub type GlyphId = u16;

/// Where a table lies in the font file.
#[derive(Debug, Clone, Copy)]
pub struct TableRecord {
    pub checksum: u32,
    pub table_offset: usize,
    pub length: usize,
}

/// The font's table directory, keyed by each table's tag read as a big-endian `u32`.
pub type TableDirectory = HashMap<u32, TableRecord>;

pub const CMAP: u32 = 0x636d6170;
pub const LOCA: u32 = 0x6c6f6361;
pub const MAXP: u32 = 0x6d617870;
pub const HHEA: u32 = 0x68686561;
pub const HMTX: u32 = 0x686d7478;
pub const HEAD: u32 = 0x68656164;
pub const KERN: u32 = 0x6b65726e;
pub const GLYF: u32 = 0x676c7966;
pub const GSUB: u32 = 0x47535542;

/// Looks up the record of the table `tag`; `name` is the table's name for the error.
pub fn find_table<'t>(tables: &'t TableDirectory, tag: u32, name: &'static str) -> (r: Result<&'t TableRecord, Error>)
    ensures
        match r {
            Ok(rec) => tables@.contains_key(tag) && *rec == tables@[tag],
            Err(e) => !tables@.contains_key(tag) && e == Error::MissingTable(name),
        },
{
    match tables.get(&tag) {
        Some(rec) => Ok(rec),
        None => Err(Error::MissingTable(name)),
    }
}

/// The table records of the first `n` entries of a table directory at the start of the
/// font data, keyed by tag; a later record of a tag replaces an earlier one.
pub open spec fn directory_records(d: Seq<u8>, n: int) -> Map<u32, TableRecord>
    decreases n,
{
    if n <= 0 {
        Map::empty()
    } else {
        let r = 12 + 16 * (n - 1);
        directory_records(d, n - 1).insert(
            u32_at(d, r),
            TableRecord { checksum: u32_at(d, r + 4), table_offset: u32_at(d, r + 8) as usize, length: u32_at(d, r + 12) as usize },
        )
    }
}

/// The tag of record `j` of the table directory.
pub open spec fn directory_tag(d: Seq<u8>, j: int) -> u32 {
    u32_at(d, 12 + 16 * j)
}

/// Record `i` of the table directory, the sixteen bytes from byte `12 + 16i` (tag,
/// checksum, offset, length), is what the directory gives for its tag when no later
/// record of the first `n` has the same tag.
pub proof fn lemma_directory_record(d: Seq<u8>, n: int, i: int)
    requires
        0 <= i < n,
        forall|j: int| i < j < n ==> #[trigger] directory_tag(d, j) != u32_at(d, 12 + 16 * i),
    ensures
        directory_records(d, n).contains_key(u32_at(d, 12 + 16 * i)),
        directory_records(d, n)[u32_at(d, 12 + 16 * i)] == (TableRecord {
            checksum: u32_at(d, 12 + 16 * i + 4),
            table_offset: u32_at(d, 12 + 16 * i + 8) as usize,
            length: u32_at(d, 12 + 16 * i + 12) as usize,
        }),
    decreases n,
{
    if i < n - 1 {
        assert(directory_tag(d, n - 1) != u32_at(d, 12 + 16 * i));
        lemma_directory_record(d, n - 1, i);
    }
}

/// Reads the table directory at the start of the font data: the table count at offset 4,
/// then sixteen-byte records (tag, checksum, offset, length) from offset 12.
pub fn parse_table_directory(data: &[u8]) -> (r: Result<TableDirectory, Error>)
    ensures
        r is Ok <==> fits(data@, 0, 12) && fits(data@, 12, 16 * u16_at(data@, 4)),
        r matches Ok(t) ==> t@ == directory_records(data@, u16_at(data@, 4) as int),
        r matches Err(e) ==> e == eof(),
{
    let mut cursor = Cursor::set(data, 0);
    cursor.require(12)?;
    let _sfnt_version = cursor.read_u32()?;
    let num_tables = cursor.read_u16()?;
    cursor.seek(12)?;
    cursor.require(16 * num_tables as usize)?;
    let mut tables: TableDirectory = HashMap::new();
    let mut i: u16 = 0;
    while i < num_tables
        invariant
            i <= num_tables,
            num_tables == u16_at(data@, 4),
            fits(data@, 12, 16 * num_tables),
            cursor.data@ == data@,
            cursor.pos == 12 + 16 * i,
            tables@ == directory_records(data@, i as int),
        decreases num_tables - i,
    {
        let tag = cursor.read_u32()?;
        let checksum = cursor.read_u32()?;
        let table_offset = cursor.read_u32()? as usize;
        let length = cursor.read_u32()? as usize;
        tables.insert(tag, TableRecord { checksum, table_offset, length });
        i = i + 1;
    }
    Ok(tables)
}

} // verus!
