use vstd::prelude::*;
use crate::cursor::{Cursor, fits, u16_at, i16_at, u32_at};
use crate::error::{Error, ReadError, eof, out_of_bounds};
use crate::spec_util::prepend;
use crate::table::{find_table, TableDirectory, TableRecord, KERN};

verus! {

/// The kerning value of a pair of glyphs.
#[derive(Debug, Clone, Copy)]
pub struct KernPair {
    pub left: u16,
    pub right: u16,
    pub value: i16,
}

/// A Microsoft kerning subtable in the ordered-pair format (format 0).
#[derive(Debug, Clone)]
pub struct MsSubtable {
    pub coverage: u16,
    pub pairs: Vec<KernPair>,
}

/// An Apple kerning subtable header.
#[derive(Debug, Clone, Copy)]
pub struct AppleSubtable {
    pub coverage: u16,
}

/// The `kern` table in one of its two layouts.
#[derive(Debug)]
pub enum Kern {
    Apple { version: u32, subtables: Vec<AppleSubtable> },
    Microsoft { version: u16, subtables: Vec<MsSubtable> },
}

/// A subtable as coverage and pairs.
pub open spec fn ms_view(s: MsSubtable) -> (u16, Seq<KernPair>) {
    (s.coverage, s.pairs@)
}

/// The `i`-th six-byte pair of an array at `p`.
pub open spec fn kern_pair_at(d: Seq<u8>, p: int, i: int) -> KernPair {
    KernPair { left: u16_at(d, p + 6 * i), right: u16_at(d, p + 6 * i + 2), value: i16_at(d, p + 6 * i + 4) }
}

/// The pairs of a format 0 subtable whose body starts at `s`, when the subtable is in
/// that format (`None` for the other formats, which are skipped).
pub open spec fn ms_body(d: Seq<u8>, s: int, coverage: u16) -> Result<Option<(u16, Seq<KernPair>)>, Error> {
    if coverage % 256 != 0 {
        Ok(None)
    } else if !fits(d, s, 8) {
        Err(eof())
    } else {
        let n = u16_at(d, s) as int;
        if !fits(d, s + 8, 6 * n) {
            Err(eof())
        } else {
            Ok(Some((coverage, Seq::new(n as nat, |i: int| kern_pair_at(d, s + 8, i)))))
        }
    }
}

/// The pairs read from any format 0 subtable body at `s`: as many as its first word says,
/// pair `k` being the six-byte record `k` after the eight-byte body header, with the left
/// glyph first, then the right glyph, then the signed kerning value.
pub proof fn lemma_ms_body_pairs(d: Seq<u8>, s: int, coverage: u16)
    requires
        ms_body(d, s, coverage) matches Ok(Some(_)),
    ensures
        ({
            let (cov, pairs) = ms_body(d, s, coverage)->Ok_0->Some_0;
            &&& cov == coverage
            &&& pairs.len() == u16_at(d, s)
            &&& forall|k: int| #![trigger pairs[k]] 0 <= k < pairs.len() ==> {
                &&& pairs[k].left == u16_at(d, s + 8 + 6 * k)
                &&& pairs[k].right == u16_at(d, s + 10 + 6 * k)
                &&& pairs[k].value == i16_at(d, s + 12 + 6 * k)
            }
        }),
{
}

/// The Microsoft subtables that remain, `k` of them starting at `p`: each has a
/// six-byte header (version, length, coverage), and the next starts `length` bytes
/// after it.
pub open spec fn ms_walk(d: Seq<u8>, p: int, k: nat) -> Result<Seq<(u16, Seq<KernPair>)>, Error>
    decreases k,
{
    if k == 0 {
        Ok(Seq::empty())
    } else if !fits(d, p, 6) {
        Err(eof())
    } else {
        let length = u16_at(d, p + 2) as int;
        let coverage = u16_at(d, p + 4);
        match ms_body(d, p + 6, coverage) {
            Err(e) => Err(e),
            Ok(o) => {
                if length < 6 {
                    Err(Error::InvalidFormat("kern subtable length"))
                } else if p + length > d.len() {
                    Err(out_of_bounds())
                } else {
                    match ms_walk(d, p + length, (k - 1) as nat) {
                        Err(e) => Err(e),
                        Ok(rest) => Ok(
                            match o {
                                Some(x) => seq![x] + rest,
                                None => rest,
                            },
                        ),
                    }
                }
            },
        }
    }
}

/// The Apple subtables that remain, `k` of them starting at `p`: each has an eight-byte
/// header (length, coverage, tuple index), and the next starts `length` bytes after it.
pub open spec fn apple_walk(d: Seq<u8>, p: int, k: nat) -> Result<Seq<u16>, Error>
    decreases k,
{
    if k == 0 {
        Ok(Seq::empty())
    } else if !fits(d, p, 8) {
        Err(eof())
    } else {
        let length = u32_at(d, p) as int;
        if length < 8 {
            Err(Error::InvalidFormat("kern subtable length"))
        } else if p + length > d.len() {
            Err(out_of_bounds())
        } else {
            match apple_walk(d, p + length, (k - 1) as nat) {
                Err(e) => Err(e),
                Ok(rest) => Ok(seq![u16_at(d, p + 4)] + rest),
            }
        }
    }
}

/// The layout of a `kern` table whose first word... is read as a whole `u32` first:
/// `0x00010000` marks the Apple layout, anything else the Microsoft one.
pub open spec fn kern_is_apple(d: Seq<u8>, p: int) -> bool {
    u32_at(d, p) == 0x00010000
}

impl Kern {
    /// Whether this is the Apple layout, its version, and its subtables' coverages; or
    /// the Microsoft layout, its version, and its format 0 subtables.
    pub open spec fn spec_matches(self, d: Seq<u8>, p: int) -> bool {
        match self {
            Kern::Apple { version, subtables } => kern_is_apple(d, p) && version == u32_at(d, p)
                && apple_walk(d, p + 8, u32_at(d, p + 4) as nat)
                    == Ok::<Seq<u16>, Error>(subtables@.map_values(|s: AppleSubtable| s.coverage)),
            Kern::Microsoft { version, subtables } => !kern_is_apple(d, p) && version == u16_at(d, p)
                && ms_walk(d, p + 4, u16_at(d, p + 2) as nat)
                    == Ok::<Seq<(u16, Seq<KernPair>)>, Error>(subtables@.map_values(|s: MsSubtable| ms_view(s))),
        }
    }

    /// The error, if any, of parsing a `kern` table at `p`.
    pub open spec fn spec_error(d: Seq<u8>, p: int) -> Option<Error> {
        if !fits(d, p, 4) {
            Some(eof())
        } else if kern_is_apple(d, p) {
            if !fits(d, p, 8) {
                Some(eof())
            } else {
                match apple_walk(d, p + 8, u32_at(d, p + 4) as nat) {
                    Err(e) => Some(e),
                    Ok(_) => None,
                }
            }
        } else {
            match ms_walk(d, p + 4, u16_at(d, p + 2) as nat) {
                Err(e) => Some(e),
                Ok(_) => None,
            }
        }
    }

    pub fn parse(data: &[u8], tables: &TableDirectory) -> (r: Result<Self, Error>)
        ensures
            !tables@.contains_key(KERN) ==> r == Err::<Kern, Error>(Error::MissingTable("kern")),
            tables@.contains_key(KERN) ==> {
                let p = tables@[KERN].table_offset as int;
                match r {
                    Ok(k) => Kern::spec_error(data@, p) is None && k.spec_matches(data@, p),
                    Err(e) => Kern::spec_error(data@, p) == Some(e),
                }
            },
    {
        let rec = find_table(tables, KERN, "kern")?;
        let mut cursor = Cursor::set(data, rec.table_offset);
        let start = cursor.position();
        let version32 = cursor.read_u32()?;
        cursor.seek(start)?;
        if version32 == 0x00010000 {
            Self::parse_apple(cursor)
        } else {
            Self::parse_ms(cursor)
        }
    }

    /// In a Microsoft-layout table at `p` whose first subtable is in format 0, that
    /// subtable is the first one read: its coverage is the word after its version and
    /// length, it has as many pairs as its first body word says, and pair `k` is the
    /// six-byte record `k` after the eight-byte body header: the left glyph, then the right
    /// glyph, then the signed kerning value.
    pub proof fn lemma_first_subtable_pairs(k: Kern, d: Seq<u8>, p: int)
        requires
            k.spec_matches(d, p),
            k is Microsoft,
            u16_at(d, p + 2) >= 1,
            u16_at(d, p + 8) % 256 == 0,
        ensures
            ({
                let subs = k->Microsoft_subtables@;
                let pairs = subs[0].pairs@;
                &&& subs.len() >= 1
                &&& subs[0].coverage == u16_at(d, p + 8)
                &&& pairs.len() == u16_at(d, p + 10)
                &&& forall|i: int| #![trigger pairs[i]] 0 <= i < pairs.len() ==> {
                    &&& pairs[i].left == u16_at(d, p + 18 + 6 * i)
                    &&& pairs[i].right == u16_at(d, p + 20 + 6 * i)
                    &&& pairs[i].value == i16_at(d, p + 22 + 6 * i)
                }
            }),
    {
        let subs = k->Microsoft_subtables@;
        let w = ms_walk(d, p + 4, u16_at(d, p + 2) as nat);
        assert(w == Ok::<Seq<(u16, Seq<KernPair>)>, Error>(subs.map_values(|s: MsSubtable| ms_view(s))));
        let body = ms_body(d, p + 10, u16_at(d, p + 8));
        assert(body is Ok);
        let (cov, pairs) = body->Ok_0->Some_0;
        let n = u16_at(d, p + 2) as nat;
        let rest = ms_walk(d, p + 4 + u16_at(d, p + 6), (n - 1) as nat);
        assert(rest is Ok);
        assert(w->Ok_0 == seq![(cov, pairs)] + rest->Ok_0);
        assert(subs.map_values(|s: MsSubtable| ms_view(s)).len() == subs.len());
        assert(subs.len() >= 1);
        assert(subs.map_values(|s: MsSubtable| ms_view(s))[0] == ms_view(subs[0]));
        assert(ms_view(subs[0]) == (cov, pairs));
        assert forall|i: int| #![trigger pairs[i]] 0 <= i < pairs.len() implies pairs[i] == kern_pair_at(d, p + 18, i) by {}
    }

    /// Does nothing: the table offers no lookup yet.
    pub fn search() {
    }

    fn parse_ms(start: Cursor) -> (r: Result<Self, Error>)
        requires
            fits(start.data@, start.pos as int, 4),
            !kern_is_apple(start.data@, start.pos as int),
        ensures
            match r {
                Ok(k) => Kern::spec_error(start.data@, start.pos as int) is None
                    && k.spec_matches(start.data@, start.pos as int),
                Err(e) => Kern::spec_error(start.data@, start.pos as int) == Some(e),
            },
    {
        let ghost d = start.data@;
        let ghost p = start.pos as int;
        let mut cursor = start;
        let version = cursor.read_u16()?;
        let n_tables = cursor.read_u16()?;
        let mut subtables: Vec<MsSubtable> = Vec::with_capacity(n_tables as usize);
        let mut i: u16 = 0;
        while i < n_tables
            invariant
                i <= n_tables,
                n_tables == u16_at(d, p + 2),
                cursor.data@ == d,
                d == start.data@,
                p == start.pos,
                fits(d, p, 4),
                !kern_is_apple(d, p),
                ms_walk(d, p + 4, n_tables as nat) == prepend(
                    subtables@.map_values(|s: MsSubtable| ms_view(s)),
                    ms_walk(d, cursor.pos as int, (n_tables - i) as nat),
                ),
            decreases n_tables - i,
        {
            let ghost q = cursor.pos as int;
            let ghost before = subtables@.map_values(|s: MsSubtable| ms_view(s));
            cursor.require(6)?;
            let _sub_version = cursor.read_u16()?;
            let length = cursor.read_u16()?;
            let coverage = cursor.read_u16()?;
            let format = coverage % 256;
            let subtable_start = cursor.position();
            if format == 0 {
                cursor.require(8)?;
                let n_pairs = cursor.read_u16()?;
                let _search_range = cursor.read_u16()?;
                let _entry_selector = cursor.read_u16()?;
                let _range_shift = cursor.read_u16()?;
                let ghost s8 = cursor.pos as int;
                if n_pairs as usize > cursor.size() / 6 {
                    return Err(Error::ReadError(ReadError::UnexpectedEof));
                }
                cursor.require(6 * n_pairs as usize)?;
                let mut pairs: Vec<KernPair> = Vec::with_capacity(n_pairs as usize);
                let mut j: u16 = 0;
                while j < n_pairs
                    invariant
                        j <= n_pairs,
                        cursor.data@ == d,
                        cursor.pos == s8 + 6 * j,
                        pairs@ == Seq::new(j as nat, |k: int| kern_pair_at(d, s8, k)),
                        fits(d, s8, 6 * n_pairs),
                    decreases n_pairs - j,
                {
                    let left = cursor.read_u16()?;
                    let right = cursor.read_u16()?;
                    let value = cursor.read_i16()?;
                    pairs.push(KernPair { left, right, value });
                    j = j + 1;
                    assert(pairs@ =~= Seq::new(j as nat, |k: int| kern_pair_at(d, s8, k)));
                }
                subtables.push(MsSubtable { coverage, pairs });
            }
            if length < 6 {
                return Err(Error::InvalidFormat("kern subtable length"));
            }
            cursor.seek_rel(subtable_start, (length - 6) as usize)?;
            i = i + 1;
            proof {
                let after = subtables@.map_values(|s: MsSubtable| ms_view(s));
                if format == 0 {
                    assert(after =~= before + seq![after.last()]);
                } else {
                    assert(after =~= before);
                }
                match ms_walk(d, cursor.pos as int, (n_tables - i) as nat) {
                    Ok(rest) => {
                        if format == 0 {
                            assert(before + (seq![after.last()] + rest) =~= after + rest);
                        }
                    },
                    Err(_) => {},
                }
            }
        }
        proof {
            assert(subtables@.map_values(|s: MsSubtable| ms_view(s)) + Seq::<(u16, Seq<KernPair>)>::empty()
                =~= subtables@.map_values(|s: MsSubtable| ms_view(s)));
        }
        Ok(Kern::Microsoft { version, subtables })
    }

    fn parse_apple(start: Cursor) -> (r: Result<Self, Error>)
        requires
            fits(start.data@, start.pos as int, 4),
            kern_is_apple(start.data@, start.pos as int),
        ensures
            match r {
                Ok(k) => Kern::spec_error(start.data@, start.pos as int) is None
                    && k.spec_matches(start.data@, start.pos as int),
                Err(e) => Kern::spec_error(start.data@, start.pos as int) == Some(e),
            },
    {
        let ghost d = start.data@;
        let ghost p = start.pos as int;
        let mut cursor = start;
        let version = cursor.read_u32()?;
        let n_tables = cursor.read_u32()?;
        let mut subtables: Vec<AppleSubtable> = Vec::new();
        let mut i: u32 = 0;
        while i < n_tables
            invariant
                i <= n_tables,
                n_tables == u32_at(d, p + 4),
                cursor.data@ == d,
                d == start.data@,
                p == start.pos,
                fits(d, p, 8),
                kern_is_apple(d, p),
                apple_walk(d, p + 8, n_tables as nat) == prepend(
                    subtables@.map_values(|s: AppleSubtable| s.coverage),
                    apple_walk(d, cursor.pos as int, (n_tables - i) as nat),
                ),
            decreases n_tables - i,
        {
            let ghost before = subtables@.map_values(|s: AppleSubtable| s.coverage);
            let ghost q = cursor.pos as int;
            if cursor.require(8).is_err() {
                return Err(Error::ReadError(ReadError::UnexpectedEof));
            }
            let length = cursor.read_u32()?;
            let coverage = cursor.read_u16()?;
            let _tuple_index = cursor.read_u16()?;
            let subtable_start = cursor.position();
            subtables.push(AppleSubtable { coverage });
            if length < 8 {
                return Err(Error::InvalidFormat("kern subtable length"));
            }
            cursor.seek_rel(subtable_start, (length - 8) as usize)?;
            i = i + 1;
            proof {
                let after = subtables@.map_values(|s: AppleSubtable| s.coverage);
                assert(after =~= before + seq![coverage]);
                match apple_walk(d, cursor.pos as int, (n_tables - i) as nat) {
                    Ok(rest) => {
                        assert(before + (seq![coverage] + rest) =~= after + rest);
                    },
                    Err(_) => {},
                }
            }
        }
        proof {
            assert(subtables@.map_values(|s: AppleSubtable| s.coverage) + Seq::<u16>::empty()
                =~= subtables@.map_values(|s: AppleSubtable| s.coverage));
        }
        Ok(Kern::Apple { version, subtables })
    }
}

} // verus!
