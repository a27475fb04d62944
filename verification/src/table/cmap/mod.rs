use vstd::prelude::*;
use crate::cursor::{Cursor, fits, u16_at, u32_at};
use crate::error::{Error, ParseError, eof, out_of_bounds};
use crate::spec_util::{first_err, lemma_first_err_skip, lemma_first_err_none};
use crate::table::{find_table, TableDirectory, TableRecord, CMAP};
use crate::table::cmap::format4::{parse_format4, f4_error, f4_groups};
use crate::table::cmap::format12::{parse_format12, f12_error, f12_groups};

pub mod format12;
pub mod format4;

verus! {

/// Consecutive characters `start_char..=end_char` mapped to consecutive glyphs from
/// `start_glyph` on.
#[derive(Debug, Clone, Copy)]
pub struct CMapGroup {
    pub start_char: u32,
    pub end_char: u32,
    pub start_glyph: u32,
}

/// An encoding record of the `cmap` table with the format of the subtable it points to.
#[derive(Debug, Clone, Copy)]
pub struct CMapSubtable {
    pub platform_id: u16,
    pub encoding_id: u16,
    pub offset: usize,
    pub format: u16,
}

/// Whether `s` has the given platform, encoding and format.
pub open spec fn is_kind(s: CMapSubtable, platform: u16, encoding: u16, format: u16) -> bool {
    s.platform_id == platform && s.encoding_id == encoding && s.format == format
}

/// The first index from `i` on of a subtable of the given kind.
pub open spec fn first_kind(s: Seq<CMapSubtable>, platform: u16, encoding: u16, format: u16, i: int) -> Option<int>
    decreases s.len() - i,
{
    if i >= s.len() {
        None
    } else if is_kind(s[i], platform, encoding, format) {
        Some(i)
    } else {
        first_kind(s, platform, encoding, format, i + 1)
    }
}

/// The subtable to use, in order of preference: Unicode full repertoire (0, 4) in
/// format 12, Windows full repertoire (3, 10) in format 12, Unicode BMP (0, 3) in
/// format 4, Windows BMP (3, 1) in format 4; the first of its kind in each case.
pub open spec fn best_cmap(s: Seq<CMapSubtable>) -> Option<int> {
    if first_kind(s, 0, 4, 12, 0) is Some {
        first_kind(s, 0, 4, 12, 0)
    } else if first_kind(s, 3, 10, 12, 0) is Some {
        first_kind(s, 3, 10, 12, 0)
    } else if first_kind(s, 0, 3, 4, 0) is Some {
        first_kind(s, 0, 3, 4, 0)
    } else {
        first_kind(s, 3, 1, 4, 0)
    }
}

proof fn lemma_first_kind_range(s: Seq<CMapSubtable>, platform: u16, encoding: u16, format: u16, i: int)
    requires
        0 <= i,
    ensures
        first_kind(s, platform, encoding, format, i) matches Some(k) ==> i <= k < s.len()
            && is_kind(s[k], platform, encoding, format),
    decreases s.len() - i,
{
    if i < s.len() && !is_kind(s[i], platform, encoding, format) {
        lemma_first_kind_range(s, platform, encoding, format, i + 1);
    }
}

/// How much a subtable is preferred, 0 most: Unicode full repertoire in format 12, then
/// Windows full repertoire in format 12, then Unicode BMP in format 4, then Windows BMP in
/// format 4; 4 for any other.
pub open spec fn preference(t: CMapSubtable) -> int {
    if t.platform_id == 0 && t.encoding_id == 4 && t.format == 12 {
        0
    } else if t.platform_id == 3 && t.encoding_id == 10 && t.format == 12 {
        1
    } else if t.platform_id == 0 && t.encoding_id == 3 && t.format == 4 {
        2
    } else if t.platform_id == 3 && t.encoding_id == 1 && t.format == 4 {
        3
    } else {
        4
    }
}

/// The subtable chosen is one of the usable kinds, no subtable is preferred to it, and it
/// is the first of its kind; none is chosen exactly when no subtable is of a usable kind.
pub proof fn lemma_best_cmap_law(s: Seq<CMapSubtable>)
    ensures
        best_cmap(s) is None <==> forall|j: int| 0 <= j < s.len() ==> preference(#[trigger] s[j]) == 4,
        best_cmap(s) matches Some(k) ==> 0 <= k < s.len() && preference(s[k]) < 4
            && (forall|j: int| 0 <= j < s.len() ==> preference(#[trigger] s[j]) >= preference(s[k]))
            && (forall|j: int| 0 <= j < k ==> preference(#[trigger] s[j]) != preference(s[k])),
{
    lemma_first_kind_range(s, 0, 4, 12, 0);
    lemma_first_kind_range(s, 3, 10, 12, 0);
    lemma_first_kind_range(s, 0, 3, 4, 0);
    lemma_first_kind_range(s, 3, 1, 4, 0);
    lemma_first_kind_none(s, 0, 4, 12, 0);
    lemma_first_kind_none(s, 3, 10, 12, 0);
    lemma_first_kind_none(s, 0, 3, 4, 0);
    lemma_first_kind_none(s, 3, 1, 4, 0);
    lemma_first_kind_first(s, 0, 4, 12, 0);
    lemma_first_kind_first(s, 3, 10, 12, 0);
    lemma_first_kind_first(s, 0, 3, 4, 0);
    lemma_first_kind_first(s, 3, 1, 4, 0);
}

/// No subtable of a kind is found from `i` on exactly when none from `i` on is of it.
proof fn lemma_first_kind_none(s: Seq<CMapSubtable>, platform: u16, encoding: u16, format: u16, i: int)
    requires
        0 <= i,
    ensures
        first_kind(s, platform, encoding, format, i) is None
            <==> forall|j: int| i <= j < s.len() ==> !is_kind(#[trigger] s[j], platform, encoding, format),
    decreases s.len() - i,
{
    if i < s.len() {
        lemma_first_kind_none(s, platform, encoding, format, i + 1);
    }
}

/// The subtable found of a kind is the first of that kind from `i` on.
proof fn lemma_first_kind_first(s: Seq<CMapSubtable>, platform: u16, encoding: u16, format: u16, i: int)
    requires
        0 <= i,
    ensures
        first_kind(s, platform, encoding, format, i) matches Some(k)
            ==> forall|j: int| i <= j < k ==> !is_kind(#[trigger] s[j], platform, encoding, format),
    decreases s.len() - i,
{
    if i < s.len() && !is_kind(s[i], platform, encoding, format) {
        lemma_first_kind_first(s, platform, encoding, format, i + 1);
    }
}

fn find_kind(subtables: &[CMapSubtable], platform: u16, encoding: u16, format: u16) -> (r: Option<usize>)
    ensures
        match r {
            Some(k) => first_kind(subtables@, platform, encoding, format, 0) == Some(k as int),
            None => first_kind(subtables@, platform, encoding, format, 0) is None,
        },
{
    let mut i: usize = 0;
    while i < subtables.len()
        invariant
            i <= subtables.len(),
            first_kind(subtables@, platform, encoding, format, 0)
                == first_kind(subtables@, platform, encoding, format, i as int),
        decreases subtables.len() - i,
    {
        let s = &subtables[i];
        if s.platform_id == platform && s.encoding_id == encoding && s.format == format {
            return Some(i);
        }
        i = i + 1;
    }
    None
}

/// Picks the character map subtable to use, as `best_cmap` orders them.
pub fn select_best_cmap(subtables: &[CMapSubtable]) -> (r: Option<&CMapSubtable>)
    ensures
        match best_cmap(subtables@) {
            Some(k) => r matches Some(s) && 0 <= k < subtables@.len() && *s == subtables@[k],
            None => r is None,
        },
{
    proof {
        lemma_first_kind_range(subtables@, 0, 4, 12, 0);
        lemma_first_kind_range(subtables@, 3, 10, 12, 0);
        lemma_first_kind_range(subtables@, 0, 3, 4, 0);
        lemma_first_kind_range(subtables@, 3, 1, 4, 0);
    }
    if let Some(k) = find_kind(subtables, 0, 4, 12) {
        return Some(&subtables[k]);
    }
    if let Some(k) = find_kind(subtables, 3, 10, 12) {
        return Some(&subtables[k]);
    }
    if let Some(k) = find_kind(subtables, 0, 3, 4) {
        return Some(&subtables[k]);
    }
    if let Some(k) = find_kind(subtables, 3, 1, 4) {
        return Some(&subtables[k]);
    }
    None
}

/// Whether group `g` covers character `c`.
pub open spec fn covers(g: CMapGroup, c: u32) -> bool {
    g.start_char <= c && c <= g.end_char
}

/// The first group from `i` on that covers `c`.
pub open spec fn first_group(groups: Seq<CMapGroup>, c: u32, i: int) -> Option<int>
    decreases groups.len() - i,
{
    if i >= groups.len() {
        None
    } else if covers(groups[i], c) {
        Some(i)
    } else {
        first_group(groups, c, i + 1)
    }
}

pub proof fn lemma_first_group_range(groups: Seq<CMapGroup>, c: u32, i: int)
    requires
        0 <= i,
    ensures
        first_group(groups, c, i) matches Some(k) ==> i <= k < groups.len() && covers(groups[k], c),
    decreases groups.len() - i,
{
    if i < groups.len() && !covers(groups[i], c) {
        lemma_first_group_range(groups, c, i + 1);
    }
}

/// The glyph the groups give to `c`: the first group that covers it maps it to its
/// start glyph plus the distance from its start character.
pub open spec fn lookup_spec(groups: Seq<CMapGroup>, c: u32) -> Option<u32> {
    match first_group(groups, c, 0) {
        Some(k) => Some((groups[k].start_glyph + (c - groups[k].start_char)) as u32),
        None => None,
    }
}

/// Looking characters up in groups: nothing exactly when no group covers the character;
/// the first character of the first group covering it gets that group's first glyph; and
/// of two neighbouring characters whose first covering group is the same, the second gets
/// the glyph after the glyph of the first.
pub proof fn lemma_lookup_law(groups: Seq<CMapGroup>, c: u32)
    ensures
        lookup_spec(groups, c) is None <==> forall|k: int| 0 <= k < groups.len() ==> !covers(#[trigger] groups[k], c),
        first_group(groups, c, 0) is Some && groups[first_group(groups, c, 0)->0].start_char == c
            ==> lookup_spec(groups, c) == Some(groups[first_group(groups, c, 0)->0].start_glyph),
        c < u32::MAX && first_group(groups, c, 0) is Some
            && first_group(groups, (c + 1) as u32, 0) == first_group(groups, c, 0)
            && groups[first_group(groups, c, 0)->0].start_glyph + (c + 1 - groups[first_group(groups, c, 0)->0].start_char) <= u32::MAX
            ==> lookup_spec(groups, (c + 1) as u32) == Some((lookup_spec(groups, c)->0 + 1) as u32),
{
    lemma_first_group_range(groups, c, 0);
    lemma_first_group_none(groups, c, 0);
}

/// No group from `i` on is found for `c` exactly when none from `i` on covers it.
pub proof fn lemma_first_group_none(groups: Seq<CMapGroup>, c: u32, i: int)
    requires
        0 <= i,
    ensures
        first_group(groups, c, i) is None <==> forall|k: int| i <= k < groups.len() ==> !covers(#[trigger] groups[k], c),
    decreases groups.len() - i,
{
    if i < groups.len() {
        lemma_first_group_none(groups, c, i + 1);
    }
}

/// Maps a character to its glyph.
pub fn lookup(groups: &[CMapGroup], c: u32) -> (r: Option<u32>)
    requires
        first_group(groups@, c, 0) matches Some(k) ==> groups@[k].start_glyph + (c - groups@[k].start_char)
            <= u32::MAX,
    ensures
        r == lookup_spec(groups@, c),
{
    proof {
        lemma_first_group_range(groups@, c, 0);
    }
    let mut i: usize = 0;
    while i < groups.len()
        invariant
            i <= groups.len(),
            first_group(groups@, c, 0) == first_group(groups@, c, i as int),
            first_group(groups@, c, 0) matches Some(k) ==> 0 <= k < groups@.len() && covers(groups@[k], c)
                && groups@[k].start_glyph + (c - groups@[k].start_char) <= u32::MAX,
        decreases groups.len() - i,
    {
        let g = &groups[i];
        if g.start_char <= c && c <= g.end_char {
            return Some(g.start_glyph + (c - g.start_char));
        }
        i = i + 1;
    }
    None
}

/// The position of the `i`-th encoding record of a `cmap` table at `p`.
pub open spec fn record_pos(p: int, i: int) -> int {
    p + 4 + 8 * i
}

/// The error, if any, of reading the `i`-th encoding record and the format of the
/// subtable it points to.
pub open spec fn record_error(d: Seq<u8>, p: int, i: int) -> Option<Error> {
    let r = record_pos(p, i);
    if !fits(d, r, 8) {
        Some(eof())
    } else if p + u32_at(d, r + 4) > d.len() {
        Some(out_of_bounds())
    } else if !fits(d, p + u32_at(d, r + 4), 2) {
        Some(eof())
    } else {
        None
    }
}

/// The errors of the encoding records, by index.
pub open spec fn record_errors(d: Seq<u8>, p: int) -> spec_fn(int) -> Option<Error> {
    |i: int| record_error(d, p, i)
}

/// The `i`-th encoding record with the format it points to.
pub open spec fn record_at(d: Seq<u8>, p: int, i: int) -> CMapSubtable {
    let r = record_pos(p, i);
    CMapSubtable {
        platform_id: u16_at(d, r),
        encoding_id: u16_at(d, r + 2),
        offset: u32_at(d, r + 4) as usize,
        format: u16_at(d, p + u32_at(d, r + 4)),
    }
}

/// The encoding records of a `cmap` table at `p`.
pub open spec fn cmap_records(d: Seq<u8>, p: int) -> Seq<CMapSubtable> {
    Seq::new(u16_at(d, p + 2) as nat, |i: int| record_at(d, p, i))
}

/// What parsing the `cmap` table gives: the groups of its preferred subtable.
pub open spec fn cmap_result(d: Seq<u8>, dir: Map<u32, TableRecord>) -> Result<Seq<CMapGroup>, Error> {
    if !dir.contains_key(CMAP) {
        Err(Error::MissingTable("cmap"))
    } else {
        let p = dir[CMAP].table_offset as int;
        if !fits(d, p, 4) {
            Err(eof())
        } else if first_err(record_errors(d, p), 0, u16_at(d, p + 2) as int) is Some {
            Err(first_err(record_errors(d, p), 0, u16_at(d, p + 2) as int)->0)
        } else {
            match best_cmap(cmap_records(d, p)) {
                None => Err(Error::ParseError(ParseError::InvalidCmap)),
                Some(k) => {
                    let q = p + cmap_records(d, p)[k].offset;
                    if cmap_records(d, p)[k].format == 4 {
                        match f4_error(d, q) {
                            Some(e) => Err(e),
                            None => Ok(f4_groups(d, q)),
                        }
                    } else {
                        match f12_error(d, q) {
                            Some(e) => Err(e),
                            None => Ok(f12_groups(d, q)),
                        }
                    }
                },
            }
        }
    }
}

/// Reads the `cmap` table and the groups of its preferred subtable.
pub fn parse_cmap(data: &[u8], tables: &TableDirectory) -> (r: Result<Vec<CMapGroup>, Error>)
    ensures
        match (r, cmap_result(data@, tables@)) {
            (Ok(v), Ok(s)) => v@ == s,
            (Err(e), Err(f)) => e == f,
            _ => false,
        },
{
    let rec = find_table(tables, CMAP, "cmap")?;
    let base = rec.table_offset;
    let ghost d = data@;
    let ghost p = base as int;
    let ghost f = record_errors(d, p);
    let mut cursor = Cursor::set(data, base);
    let _version = cursor.read_u16()?;
    let num_tables = cursor.read_u16()?;
    let mut subtables: Vec<CMapSubtable> = Vec::new();
    let mut i: u16 = 0;
    while i < num_tables
        invariant
            i <= num_tables,
            num_tables == u16_at(d, p + 2),
            fits(d, p, 4),
            cursor.data@ == d,
            d == data@,
            p == base,
            tables@.contains_key(CMAP),
            tables@[CMAP].table_offset == base,
            f == record_errors(d, p),
            cursor.pos == record_pos(p, i as int),
            forall|k: int| 0 <= k < i ==> #[trigger] f(k) is None,
            subtables@ == Seq::new(i as nat, |k: int| record_at(d, p, k)),
        decreases num_tables - i,
    {
        proof {
            lemma_first_err_skip(f, 0, i as int, num_tables as int);
        }
        if cursor.require(8).is_err() {
            assert(f(i as int) == Some(eof()));
            return Err(Error::ReadError(crate::error::ReadError::UnexpectedEof));
        }
        let platform_id = cursor.read_u16()?;
        let encoding_id = cursor.read_u16()?;
        let offset = cursor.read_u32()? as usize;
        let saved = cursor.position();
        if cursor.seek_rel(base, offset).is_err() {
            assert(f(i as int) == Some(out_of_bounds()));
            return Err(Error::ReadError(crate::error::ReadError::OutOfBounds));
        }
        let format = cursor.read_u16()?;
        cursor.seek(saved)?;
        subtables.push(CMapSubtable { platform_id, encoding_id, offset, format });
        i = i + 1;
        assert(subtables@ =~= Seq::new(i as nat, |k: int| record_at(d, p, k)));
    }
    proof {
        lemma_first_err_none(f, 0, num_tables as int);
        assert(subtables@ =~= cmap_records(d, p));
        assert forall|k: int| 0 <= k < subtables@.len() implies p + #[trigger] subtables@[k].offset <= d.len() by {
            assert(f(k) is None);
        }
    }
    let chosen = match select_best_cmap(subtables.as_slice()) {
        Some(c) => c,
        None => return Err(Error::ParseError(ParseError::InvalidCmap)),
    };
    cursor.seek_rel(base, chosen.offset)?;
    if chosen.format == 4 {
        parse_format4(&mut cursor)
    } else {
        parse_format12(&mut cursor)
    }
}

} // verus!
