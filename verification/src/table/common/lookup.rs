use vstd::prelude::*;
use crate::cursor::{Cursor, fits, u16_at, u16_seq};
use crate::error::{Error, ReadError, eof};
use crate::spec_util::{first_err, lemma_first_err_skip, lemma_first_err_none};

verus! {

/// Lookup flag bit: right to left.
pub const RIGHT_TO_LEFT: u16 = 0x0001;
/// Lookup flag bit: skip base glyphs.
pub const IGNORE_BASE_GLYPHS: u16 = 0x0002;
/// Lookup flag bit: skip ligatures.
pub const IGNORE_LIGATURES: u16 = 0x0004;
/// Lookup flag bit: skip marks.
pub const IGNORE_MARKS: u16 = 0x0008;
/// Lookup flag bit: a mark filtering set index follows the subtable offsets.
pub const USE_MARK_FILTERING_SET: u16 = 0x0010;
/// Lookup flag bits: reserved.
pub const RESERVED: u16 = 0x00E0;
/// Lookup flag bits: the mark attachment class filter.
pub const MARK_ATTACHMENT_CLASS_FILTER: u16 = 0xFF00;

/// The flags of a lookup. Every bit of the word belongs to one of the named flags.
#[derive(Debug, Clone, Copy, PartialEq, Eq, Structural)]
pub struct LookupFlag {
    pub bits: u16,
}

impl LookupFlag {
    /// The flags of `bits`, keeping only the bits of named flags, which are all of them.
    pub fn from_bits_truncate(bits: u16) -> (f: LookupFlag)
        ensures
            f.bits == bits,
    {
        let all: u16 = RIGHT_TO_LEFT | IGNORE_BASE_GLYPHS | IGNORE_LIGATURES | IGNORE_MARKS
            | USE_MARK_FILTERING_SET | RESERVED | MARK_ATTACHMENT_CLASS_FILTER;
        assert(all == 0xFFFF) by (bit_vector)
            requires all == 0x0001u16 | 0x0002u16 | 0x0004u16 | 0x0008u16 | 0x0010u16 | 0x00E0u16 | 0xFF00u16;
        assert(bits & 0xFFFF == bits) by (bit_vector);
        LookupFlag { bits: bits & all }
    }

    /// Whether all the bits of `flags` are set.
    pub fn contains(&self, flags: u16) -> (b: bool)
        ensures
            b == (self.bits & flags == flags),
    {
        self.bits & flags == flags
    }
}

/// A lookup table: its type, flags, and the offsets of its subtables from its start.
#[derive(Debug, Clone)]
pub struct Lookup {
    pub lookup_type: u16,
    pub lookup_flag: LookupFlag,
    pub sub_table_count: u16,
    pub sub_table_offsets: Vec<u16>,
    pub mark_filtering_set: Option<u16>,
    /// Where the lookup table starts in the data; the subtable offsets count from here.
    pub offset: usize,
}

/// The error, if any, of reading a lookup table at `t`.
pub open spec fn lookup_error(d: Seq<u8>, t: int) -> Option<Error> {
    if !fits(d, t, 6) {
        Some(eof())
    } else if !fits(d, t + 6, 2 * u16_at(d, t + 4)) {
        Some(eof())
    } else if u16_at(d, t + 2) & USE_MARK_FILTERING_SET == USE_MARK_FILTERING_SET
        && !fits(d, t + 6 + 2 * u16_at(d, t + 4), 2) {
        Some(eof())
    } else {
        None
    }
}

/// Whether `l` is the lookup table at `t`.
pub open spec fn lookup_matches(d: Seq<u8>, t: int, l: Lookup) -> bool {
    let n = u16_at(d, t + 4) as int;
    &&& l.lookup_type == u16_at(d, t)
    &&& l.lookup_flag.bits == u16_at(d, t + 2)
    &&& l.sub_table_count == n
    &&& l.sub_table_offsets@ == u16_seq(d, t + 6, n)
    &&& l.mark_filtering_set == (if u16_at(d, t + 2) & USE_MARK_FILTERING_SET == USE_MARK_FILTERING_SET {
        Some(u16_at(d, t + 6 + 2 * n))
    } else {
        None
    })
    &&& l.offset == t
}

/// Where the lookup table at `p` ends: after its subtable offsets, and after its mark
/// filtering set when its flags say there is one.
pub open spec fn lookup_end(d: Seq<u8>, p: int) -> int {
    let after = p + 6 + 2 * u16_at(d, p + 4);
    if u16_at(d, p + 2) & USE_MARK_FILTERING_SET == USE_MARK_FILTERING_SET { after + 2 } else { after }
}

/// A lookup table read from `t`: its type at byte 0, its flags at 2, its subtable count at
/// 4 and then one subtable offset per word; when the flags ask for a mark filtering set,
/// its index is the word after the offsets.
pub proof fn lemma_lookup_layout(d: Seq<u8>, t: int, l: Lookup)
    requires
        lookup_matches(d, t, l),
    ensures
        l.lookup_type == u16_at(d, t),
        l.lookup_flag.bits == u16_at(d, t + 2),
        l.sub_table_count == u16_at(d, t + 4),
        l.sub_table_offsets@.len() == l.sub_table_count,
        forall|k: int| #![trigger l.sub_table_offsets@[k]] 0 <= k < l.sub_table_count
            ==> l.sub_table_offsets@[k] == u16_at(d, t + 6 + 2 * k),
        l.mark_filtering_set is Some <==> u16_at(d, t + 2) & USE_MARK_FILTERING_SET != 0,
        l.mark_filtering_set matches Some(m) ==> m == u16_at(d, t + 6 + 2 * l.sub_table_count),
{
    let f = u16_at(d, t + 2);
    assert((f & USE_MARK_FILTERING_SET == USE_MARK_FILTERING_SET) <==> (f & USE_MARK_FILTERING_SET != 0)) by (bit_vector)
        requires USE_MARK_FILTERING_SET == 0x10u16;
}

impl Lookup {
    pub fn parse(cursor: &mut Cursor) -> (r: Result<Self, Error>)
        ensures
            final(cursor).data@ == old(cursor).data@,
            match r {
                Ok(l) => lookup_error(old(cursor).data@, old(cursor).pos as int) is None
                    && lookup_matches(old(cursor).data@, old(cursor).pos as int, l)
                    && final(cursor).pos == lookup_end(old(cursor).data@, old(cursor).pos as int),
                Err(e) => lookup_error(old(cursor).data@, old(cursor).pos as int) == Some(e),
            },
    {
        let offset = cursor.position();
        cursor.require(6)?;
        let lookup_type = cursor.read_u16()?;
        let lookup_flag = LookupFlag::from_bits_truncate(cursor.read_u16()?);
        let sub_table_count = cursor.read_u16()?;
        let sub_table_offsets = cursor.read_u16_array(sub_table_count as usize)?;
        let mark_filtering_set = if lookup_flag.contains(USE_MARK_FILTERING_SET) {
            Some(cursor.read_u16()?)
        } else {
            None
        };
        Ok(Self { lookup_type, lookup_flag, sub_table_count, sub_table_offsets, mark_filtering_set, offset })
    }
}

/// The lookups of a layout table.
#[derive(Debug, Clone)]
pub struct LookupList {
    pub lookups: Vec<Lookup>,
}

/// Where lookup `j` of a lookup list at `p` is read: at its offset from `p`, or, when
/// that lies past the end of the data (the failed move is ignored), right after its
/// offset.
pub open spec fn lookup_pos(d: Seq<u8>, p: int, j: int) -> int {
    if p + u16_at(d, p + 2 + 2 * j) <= d.len() {
        p + u16_at(d, p + 2 + 2 * j)
    } else {
        p + 4 + 2 * j
    }
}

/// The error, if any, of reading lookup `j` of a lookup list at `p`.
pub open spec fn lookup_item_error(d: Seq<u8>, p: int, j: int) -> Option<Error> {
    if !fits(d, p + 2 + 2 * j, 2) {
        Some(eof())
    } else {
        lookup_error(d, lookup_pos(d, p, j))
    }
}

/// The errors of the lookups, by index.
pub open spec fn lookup_item_errors(d: Seq<u8>, p: int) -> spec_fn(int) -> Option<Error> {
    |j: int| lookup_item_error(d, p, j)
}

/// The error, if any, of reading a lookup list at `p`.
pub open spec fn lookup_list_error(d: Seq<u8>, p: int) -> Option<Error> {
    if !fits(d, p, 2) {
        Some(eof())
    } else {
        first_err(lookup_item_errors(d, p), 0, u16_at(d, p) as int)
    }
}

/// Whether `l` is the lookup list at `p`.
pub open spec fn lookup_list_matches(d: Seq<u8>, p: int, l: LookupList) -> bool {
    &&& l.lookups@.len() == u16_at(d, p)
    &&& forall|j: int| 0 <= j < l.lookups@.len() ==> lookup_matches(d, lookup_pos(d, p, j), #[trigger] l.lookups@[j])
}

/// The sum of the subtable counts of the lookups.
pub open spec fn sub_table_sum(lookups: Seq<Lookup>) -> int
    decreases lookups.len(),
{
    if lookups.len() == 0 {
        0
    } else {
        sub_table_sum(lookups.drop_last()) + lookups.last().sub_table_count
    }
}

impl LookupList {
    /// Reads a lookup list at the cursor; the cursor is left after the offsets.
    pub fn parse(cursor: &mut Cursor) -> (r: Result<Self, Error>)
        ensures
            final(cursor).data@ == old(cursor).data@,
            match r {
                Ok(l) => lookup_list_error(old(cursor).data@, old(cursor).pos as int) is None
                    && lookup_list_matches(old(cursor).data@, old(cursor).pos as int, l)
                    && final(cursor).pos == old(cursor).pos + 2 + 2 * u16_at(old(cursor).data@, old(cursor).pos as int),
                Err(e) => lookup_list_error(old(cursor).data@, old(cursor).pos as int) == Some(e),
            },
    {
        let ghost d = cursor.data@;
        let base = cursor.position();
        let ghost p = base as int;
        let ghost f = lookup_item_errors(d, p);
        let lookup_count = cursor.read_u16()?;
        let mut lookups: Vec<Lookup> = Vec::with_capacity(lookup_count as usize);
        let mut j: u16 = 0;
        while j < lookup_count
            invariant
                j <= lookup_count,
                lookup_count == u16_at(d, p),
                fits(d, p, 2),
                cursor.data@ == d,
                d == old(cursor).data@,
                p == old(cursor).pos,
                p == base,
                f == lookup_item_errors(d, p),
                cursor.pos == p + 2 + 2 * j,
                forall|k: int| 0 <= k < j ==> #[trigger] f(k) is None,
                lookups@.len() == j,
                forall|k: int| 0 <= k < j ==> lookup_matches(d, lookup_pos(d, p, k), #[trigger] lookups@[k]),
            decreases lookup_count - j,
        {
            proof {
                lemma_first_err_skip(f, 0, j as int, lookup_count as int);
            }
            let offset = match cursor.read_u16() {
                Ok(o) => o,
                Err(e) => {
                    assert(f(j as int) == Some(eof()));
                    return Err(e);
                },
            };
            let saved_pos = cursor.position();
            let _ = cursor.seek_rel(base, offset as usize);
            let lookup = match Lookup::parse(cursor) {
                Ok(l) => l,
                Err(e) => {
                    assert(f(j as int) == Some(e));
                    return Err(e);
                },
            };
            lookups.push(lookup);
            let _ = cursor.seek(saved_pos);
            j = j + 1;
        }
        proof {
            lemma_first_err_none(f, 0, lookup_count as int);
        }
        Ok(Self { lookups })
    }

    /// The number of subtables of all lookups, counted in 16 bits.
    pub fn total_sub_tables(&self) -> (n: usize)
        requires
            sub_table_sum(self.lookups@) <= u16::MAX,
        ensures
            n == sub_table_sum(self.lookups@),
    {
        let mut counter: u16 = 0;
        let mut i: usize = 0;
        while i < self.lookups.len()
            invariant
                i <= self.lookups@.len(),
                counter == sub_table_sum(self.lookups@.take(i as int)),
                sub_table_sum(self.lookups@) <= u16::MAX,
            decreases self.lookups@.len() - i,
        {
            proof {
                lemma_sub_table_sum_prefix(self.lookups@, i as int + 1);
                assert(self.lookups@.take(i + 1).drop_last() =~= self.lookups@.take(i as int));
            }
            counter = counter + self.lookups[i].sub_table_count;
            i = i + 1;
        }
        assert(self.lookups@.take(i as int) =~= self.lookups@);
        counter as usize
    }
}

/// A prefix adds up to no more than the whole.
pub proof fn lemma_sub_table_sum_prefix(lookups: Seq<Lookup>, k: int)
    requires
        0 <= k <= lookups.len(),
    ensures
        sub_table_sum(lookups.take(k)) <= sub_table_sum(lookups),
    decreases lookups.len(),
{
    if k < lookups.len() {
        assert(lookups.drop_last().take(k) =~= lookups.take(k));
        lemma_sub_table_sum_prefix(lookups.drop_last(), k);
    } else {
        assert(lookups.take(k) =~= lookups);
    }
}

} // verus!
