use vstd::prelude::*;
use crate::cursor::{Cursor, fits, u16_at, u16_seq, u32_at};
use crate::error::{Error, ReadError, eof, out_of_bounds};
use crate::spec_util::{first_err, lemma_first_err_skip, lemma_first_err_none};
use crate::table::common::class_def::{ClassDefinition, class_def_end, class_def_matches};
use crate::table::common::coverage::{Coverage, coverage_matches};
use crate::table::common::offset_table::{OffsetTable, parse_counted_tables, counted_tables_error,
    counted_tables_match, counted_tables_end, table_at_error, tables_match, tables_error, tables_end, parse_tables,
    parse_tables_back, parse_counted_tables_back};

verus! {

/// A lookup record of a contextual rule: apply a lookup at a position of the input.
#[derive(Debug, Clone, Copy)]
pub struct LookupRecord {
    pub sequence_index: u16,
    pub lookup_list_index: u16,
}

/// The four-byte lookup record at `p`.
pub open spec fn lookup_record_at(d: Seq<u8>, p: int) -> LookupRecord {
    LookupRecord { sequence_index: u16_at(d, p), lookup_list_index: u16_at(d, p + 2) }
}

/// `n` consecutive lookup records starting at `p`.
pub open spec fn lookup_records_at(d: Seq<u8>, p: int, n: int) -> Seq<LookupRecord> {
    Seq::new(n as nat, |i: int| lookup_record_at(d, p + 4 * i))
}

/// Lookup record `k` of an array at `p` is the four bytes from `p + 4k`: the sequence index
/// first, then the lookup list index.
pub proof fn lemma_lookup_records_layout(d: Seq<u8>, p: int, n: int, k: int)
    requires
        0 <= k < n,
    ensures
        lookup_records_at(d, p, n).len() == n,
        lookup_records_at(d, p, n)[k].sequence_index == u16_at(d, p + 4 * k),
        lookup_records_at(d, p, n)[k].lookup_list_index == u16_at(d, p + 4 * k + 2),
{
}

/// A counted glyph list at `p`: as many glyph ids as its first word says, one per word after it.
pub proof fn lemma_glyph_list_layout(d: Seq<u8>, p: int)
    ensures
        glyph_list_at(d, p).len() == u16_at(d, p),
        forall|k: int| #![trigger glyph_list_at(d, p)[k]] 0 <= k < glyph_list_at(d, p).len()
            ==> glyph_list_at(d, p)[k] == u16_at(d, p + 2 + 2 * k),
{
}

impl LookupRecord {
    pub fn parse(cursor: &mut Cursor) -> (r: Result<Self, Error>)
        ensures
            final(cursor).data@ == old(cursor).data@,
            r is Ok <==> fits(old(cursor).data@, old(cursor).pos as int, 4),
            r matches Ok(v) ==> v == lookup_record_at(old(cursor).data@, old(cursor).pos as int)
                && final(cursor).pos == old(cursor).pos + 4,
            r matches Err(e) ==> e == eof(),
    {
        cursor.require(4)?;
        Ok(Self { sequence_index: cursor.read_u16()?, lookup_list_index: cursor.read_u16()? })
    }
}

/// Reads `n` consecutive lookup records.
fn parse_lookup_records(cursor: &mut Cursor, n: u16) -> (r: Result<Vec<LookupRecord>, Error>)
    ensures
        final(cursor).data@ == old(cursor).data@,
        r is Ok <==> fits(old(cursor).data@, old(cursor).pos as int, 4 * n),
        r matches Ok(v) ==> v@ == lookup_records_at(old(cursor).data@, old(cursor).pos as int, n as int)
            && final(cursor).pos == old(cursor).pos + 4 * n,
        r matches Err(e) ==> e == eof(),
{
    let ghost d = cursor.data@;
    let ghost p = cursor.pos as int;
    cursor.require(4 * n as usize)?;
    let mut out: Vec<LookupRecord> = Vec::new();
    let mut i: u16 = 0;
    while i < n
        invariant
            i <= n,
            cursor.data@ == d,
            d == old(cursor).data@,
            p == old(cursor).pos,
            cursor.pos == p + 4 * i,
            fits(d, p, 4 * n),
            out@ == lookup_records_at(d, p, i as int),
        decreases n - i,
    {
        out.push(LookupRecord::parse(cursor)?);
        i = i + 1;
        assert(out@ =~= lookup_records_at(d, p, i as int));
    }
    Ok(out)
}

/// The error, if any, of reading at `p` a glyph count and that many glyph ids.
pub open spec fn glyph_list_error(d: Seq<u8>, p: int) -> Option<Error> {
    if !fits(d, p, 2) || !fits(d, p + 2, 2 * u16_at(d, p)) {
        Some(eof())
    } else {
        None
    }
}

/// The glyph ids of the counted list at `p`.
pub open spec fn glyph_list_at(d: Seq<u8>, p: int) -> Seq<u16> {
    u16_seq(d, p + 2, u16_at(d, p) as int)
}

/// Reads a glyph count and that many glyph ids.
fn parse_glyph_list(cursor: &mut Cursor) -> (r: Result<Vec<u16>, Error>)
    ensures
        final(cursor).data@ == old(cursor).data@,
        match r {
            Ok(v) => glyph_list_error(old(cursor).data@, old(cursor).pos as int) is None
                && v@ == glyph_list_at(old(cursor).data@, old(cursor).pos as int)
                && final(cursor).pos == old(cursor).pos + 2 + 2 * u16_at(old(cursor).data@, old(cursor).pos as int),
            Err(e) => glyph_list_error(old(cursor).data@, old(cursor).pos as int) == Some(e),
        },
{
    let glyph_count = cursor.read_u16()?;
    cursor.read_u16_array(glyph_count as usize)
}

/// The glyphs that replace one glyph.
#[derive(Debug, Clone)]
pub struct Sequence {
    pub substitute_glyph_ids: Vec<u16>,
}

impl OffsetTable for Sequence {
    open spec fn table_end(d: Seq<u8>, p: int, base: int) -> int {
        p + 2 + 2 * u16_at(d, p)
    }

    open spec fn table_error(d: Seq<u8>, p: int, base: int) -> Option<Error> {
        glyph_list_error(d, p)
    }

    open spec fn table_matches(d: Seq<u8>, p: int, base: int, v: Self) -> bool {
        v.substitute_glyph_ids@ == glyph_list_at(d, p)
    }

    fn parse_table(cursor: &mut Cursor, base: usize) -> (r: Result<Self, Error>) {
        Sequence::parse(cursor)
    }
}

impl Sequence {
    pub fn parse(cursor: &mut Cursor) -> (r: Result<Self, Error>)
        ensures
            final(cursor).data@ == old(cursor).data@,
            match r {
                Ok(s) => glyph_list_error(old(cursor).data@, old(cursor).pos as int) is None
                    && s.substitute_glyph_ids@ == glyph_list_at(old(cursor).data@, old(cursor).pos as int)
                    && final(cursor).pos == old(cursor).pos + 2 + 2 * u16_at(old(cursor).data@, old(cursor).pos as int),
                Err(e) => glyph_list_error(old(cursor).data@, old(cursor).pos as int) == Some(e),
            },
    {
        Ok(Self { substitute_glyph_ids: parse_glyph_list(cursor)? })
    }
}

/// The alternatives offered for one glyph.
#[derive(Debug, Clone)]
pub struct AlternateSet {
    pub alternate_glyph_ids: Vec<u16>,
}

impl OffsetTable for AlternateSet {
    open spec fn table_end(d: Seq<u8>, p: int, base: int) -> int {
        p + 2 + 2 * u16_at(d, p)
    }

    open spec fn table_error(d: Seq<u8>, p: int, base: int) -> Option<Error> {
        glyph_list_error(d, p)
    }

    open spec fn table_matches(d: Seq<u8>, p: int, base: int, v: Self) -> bool {
        v.alternate_glyph_ids@ == glyph_list_at(d, p)
    }

    fn parse_table(cursor: &mut Cursor, base: usize) -> (r: Result<Self, Error>) {
        AlternateSet::parse(cursor)
    }
}

impl AlternateSet {
    pub fn parse(cursor: &mut Cursor) -> (r: Result<Self, Error>)
        ensures
            final(cursor).data@ == old(cursor).data@,
            match r {
                Ok(s) => glyph_list_error(old(cursor).data@, old(cursor).pos as int) is None
                    && s.alternate_glyph_ids@ == glyph_list_at(old(cursor).data@, old(cursor).pos as int)
                    && final(cursor).pos == old(cursor).pos + 2 + 2 * u16_at(old(cursor).data@, old(cursor).pos as int),
                Err(e) => glyph_list_error(old(cursor).data@, old(cursor).pos as int) == Some(e),
            },
    {
        Ok(Self { alternate_glyph_ids: parse_glyph_list(cursor)? })
    }
}

/// A ligature: the glyph that replaces a first glyph and the components that follow it.
#[derive(Debug, Clone)]
pub struct Ligature {
    pub ligature_glyph: u16,
    pub component_glyph_ids: Vec<u16>,
}

/// The error, if any, of reading a ligature table at `p`; its component count counts the
/// first glyph too, so it cannot be zero.
pub open spec fn ligature_error(d: Seq<u8>, p: int) -> Option<Error> {
    if !fits(d, p, 4) {
        Some(eof())
    } else if u16_at(d, p + 2) == 0 {
        Some(Error::AnyMessage("Unrecognized ligature"))
    } else if !fits(d, p + 4, 2 * (u16_at(d, p + 2) - 1)) {
        Some(eof())
    } else {
        None
    }
}

/// Whether `l` is the ligature table at `p`.
pub open spec fn ligature_matches(d: Seq<u8>, p: int, l: Ligature) -> bool {
    &&& l.ligature_glyph == u16_at(d, p)
    &&& l.component_glyph_ids@ == u16_seq(d, p + 4, u16_at(d, p + 2) - 1)
}

impl OffsetTable for Ligature {
    open spec fn table_end(d: Seq<u8>, p: int, base: int) -> int {
        p + 4 + 2 * (u16_at(d, p + 2) - 1)
    }

    open spec fn table_error(d: Seq<u8>, p: int, base: int) -> Option<Error> {
        ligature_error(d, p)
    }

    open spec fn table_matches(d: Seq<u8>, p: int, base: int, v: Self) -> bool {
        ligature_matches(d, p, v)
    }

    fn parse_table(cursor: &mut Cursor, base: usize) -> (r: Result<Self, Error>) {
        Ligature::parse(cursor)
    }
}

/// A ligature table read from `p`: the ligature glyph first, then the component count,
/// which counts the first glyph too, then one glyph id per word for each component after
/// the first.
pub proof fn lemma_ligature_layout(d: Seq<u8>, p: int, l: Ligature)
    requires
        ligature_matches(d, p, l),
        u16_at(d, p + 2) >= 1,
    ensures
        l.ligature_glyph == u16_at(d, p),
        l.component_glyph_ids@.len() == u16_at(d, p + 2) - 1,
        forall|k: int| #![trigger l.component_glyph_ids@[k]] 0 <= k < l.component_glyph_ids@.len()
            ==> l.component_glyph_ids@[k] == u16_at(d, p + 4 + 2 * k),
{
}

impl Ligature {
    pub fn parse(cursor: &mut Cursor) -> (r: Result<Self, Error>)
        ensures
            final(cursor).data@ == old(cursor).data@,
            match r {
                Ok(l) => ligature_error(old(cursor).data@, old(cursor).pos as int) is None
                    && ligature_matches(old(cursor).data@, old(cursor).pos as int, l)
                    && final(cursor).pos == old(cursor).pos + 4 + 2 * (u16_at(old(cursor).data@, old(cursor).pos + 2) - 1),
                Err(e) => ligature_error(old(cursor).data@, old(cursor).pos as int) == Some(e),
            },
    {
        cursor.require(4)?;
        let ligature_glyph = cursor.read_u16()?;
        let component_count = cursor.read_u16()?;
        if component_count == 0 {
            return Err(Error::AnyMessage("Unrecognized ligature"));
        }
        let component_glyph_ids = cursor.read_u16_array((component_count - 1) as usize)?;
        Ok(Self { ligature_glyph, component_glyph_ids })
    }
}

/// The ligatures that start with one glyph.
#[derive(Debug, Clone)]
pub struct LigatureSet {
    pub ligatures: Vec<Ligature>,
}

impl OffsetTable for LigatureSet {
    open spec fn table_end(d: Seq<u8>, p: int, base: int) -> int {
        counted_tables_end::<Ligature>(d, p, base, base)
    }

    open spec fn table_error(d: Seq<u8>, p: int, base: int) -> Option<Error> {
        counted_tables_error::<Ligature>(d, p, base, base)
    }

    open spec fn table_matches(d: Seq<u8>, p: int, base: int, v: Self) -> bool {
        counted_tables_match::<Ligature>(d, p, base, base, v.ligatures@)
    }

    fn parse_table(cursor: &mut Cursor, base: usize) -> (r: Result<Self, Error>) {
        LigatureSet::parse(cursor, base)
    }
}

impl LigatureSet {
    /// Reads the set at the cursor; its ligature offsets count from `base`.
    pub fn parse(cursor: &mut Cursor, base: usize) -> (r: Result<Self, Error>)
        ensures
            final(cursor).data@ == old(cursor).data@,
            match r {
                Ok(s) => Self::table_error(old(cursor).data@, old(cursor).pos as int, base as int) is None
                    && Self::table_matches(old(cursor).data@, old(cursor).pos as int, base as int, s)
                    && final(cursor).pos == Self::table_end(old(cursor).data@, old(cursor).pos as int, base as int),
                Err(e) => Self::table_error(old(cursor).data@, old(cursor).pos as int, base as int) == Some(e),
            },
    {
        Ok(Self { ligatures: parse_counted_tables(cursor, base, base)? })
    }
}

/// `n - 1`, or zero when `n` is zero: the number of glyphs that a rule lists after the
/// first one.
pub open spec fn minus_one(n: u16) -> int {
    if n == 0 { 0 } else { n - 1 }
}

/// `n - 1`, or zero when `n` is zero.
fn count_after_first(n: u16) -> (m: u16)
    ensures
        m == minus_one(n),
{
    if n == 0 { 0 } else { n - 1 }
}

/// The error, if any, of reading a rule at `p`: an input count, a lookup record count,
/// the input after the first glyph, and the lookup records.
pub open spec fn rule_error(d: Seq<u8>, p: int) -> Option<Error> {
    let m = minus_one(u16_at(d, p));
    if !fits(d, p, 4) || !fits(d, p + 4, 2 * m) || !fits(d, p + 4 + 2 * m, 4 * u16_at(d, p + 2)) {
        Some(eof())
    } else {
        None
    }
}

/// The input of the rule at `p`, after its first glyph.
pub open spec fn rule_inputs(d: Seq<u8>, p: int) -> Seq<u16> {
    u16_seq(d, p + 4, minus_one(u16_at(d, p)))
}

/// The lookup records of the rule at `p`.
pub open spec fn rule_records(d: Seq<u8>, p: int) -> Seq<LookupRecord> {
    lookup_records_at(d, p + 4 + 2 * minus_one(u16_at(d, p)), u16_at(d, p + 2) as int)
}

/// Where the rule at `p` ends.
pub open spec fn rule_end(d: Seq<u8>, p: int) -> int {
    p + 4 + 2 * minus_one(u16_at(d, p)) + 4 * u16_at(d, p + 2)
}

/// Reads a rule: its input count, its input after the first glyph and its lookup records.
fn parse_rule(cursor: &mut Cursor) -> (r: Result<(u16, Vec<u16>, Vec<LookupRecord>), Error>)
    ensures
        final(cursor).data@ == old(cursor).data@,
        match r {
            Ok((n, inputs, records)) => rule_error(old(cursor).data@, old(cursor).pos as int) is None
                && n == u16_at(old(cursor).data@, old(cursor).pos as int)
                && inputs@ == rule_inputs(old(cursor).data@, old(cursor).pos as int)
                && records@ == rule_records(old(cursor).data@, old(cursor).pos as int)
                && final(cursor).pos == rule_end(old(cursor).data@, old(cursor).pos as int),
            Err(e) => rule_error(old(cursor).data@, old(cursor).pos as int) == Some(e),
        },
{
    cursor.require(4)?;
    let count = cursor.read_u16()?;
    let lookup_record_count = cursor.read_u16()?;
    let inputs = cursor.read_u16_array(count_after_first(count) as usize)?;
    let records = parse_lookup_records(cursor, lookup_record_count)?;
    Ok((count, inputs, records))
}

/// A rule of a glyph context: the input glyphs after the first and the lookups to apply.
#[derive(Debug, Clone)]
pub struct Subrule {
    pub input_glyph_count: u16,
    pub input_glyphs: Vec<u16>,
    pub lookup_records: Vec<LookupRecord>,
}

impl OffsetTable for Subrule {
    open spec fn table_end(d: Seq<u8>, p: int, base: int) -> int {
        rule_end(d, p)
    }

    open spec fn table_error(d: Seq<u8>, p: int, base: int) -> Option<Error> {
        rule_error(d, p)
    }

    open spec fn table_matches(d: Seq<u8>, p: int, base: int, v: Self) -> bool {
        &&& v.input_glyph_count == u16_at(d, p)
        &&& v.input_glyphs@ == rule_inputs(d, p)
        &&& v.lookup_records@ == rule_records(d, p)
    }

    fn parse_table(cursor: &mut Cursor, base: usize) -> (r: Result<Self, Error>) {
        Subrule::parse(cursor)
    }
}

impl Subrule {
    pub fn parse(cursor: &mut Cursor) -> (r: Result<Self, Error>)
        ensures
            final(cursor).data@ == old(cursor).data@,
            match r {
                Ok(s) => Self::table_error(old(cursor).data@, old(cursor).pos as int, 0) is None
                    && Self::table_matches(old(cursor).data@, old(cursor).pos as int, 0, s)
                    && final(cursor).pos == Self::table_end(old(cursor).data@, old(cursor).pos as int, 0),
                Err(e) => Self::table_error(old(cursor).data@, old(cursor).pos as int, 0) == Some(e),
            },
    {
        let (input_glyph_count, input_glyphs, lookup_records) = parse_rule(cursor)?;
        Ok(Self { input_glyph_count, input_glyphs, lookup_records })
    }
}

/// A rule of a class context: the input classes after the first and the lookups to apply.
#[derive(Debug, Clone)]
pub struct SubclassRule {
    pub class_count: u16,
    pub classes: Vec<u16>,
    pub lookup_records: Vec<LookupRecord>,
}

impl OffsetTable for SubclassRule {
    open spec fn table_end(d: Seq<u8>, p: int, base: int) -> int {
        rule_end(d, p)
    }

    open spec fn table_error(d: Seq<u8>, p: int, base: int) -> Option<Error> {
        rule_error(d, p)
    }

    open spec fn table_matches(d: Seq<u8>, p: int, base: int, v: Self) -> bool {
        &&& v.class_count == u16_at(d, p)
        &&& v.classes@ == rule_inputs(d, p)
        &&& v.lookup_records@ == rule_records(d, p)
    }

    fn parse_table(cursor: &mut Cursor, base: usize) -> (r: Result<Self, Error>) {
        SubclassRule::parse(cursor)
    }
}

impl SubclassRule {
    pub fn parse(cursor: &mut Cursor) -> (r: Result<Self, Error>)
        ensures
            final(cursor).data@ == old(cursor).data@,
            match r {
                Ok(s) => Self::table_error(old(cursor).data@, old(cursor).pos as int, 0) is None
                    && Self::table_matches(old(cursor).data@, old(cursor).pos as int, 0, s)
                    && final(cursor).pos == Self::table_end(old(cursor).data@, old(cursor).pos as int, 0),
                Err(e) => Self::table_error(old(cursor).data@, old(cursor).pos as int, 0) == Some(e),
            },
    {
        let (class_count, classes, lookup_records) = parse_rule(cursor)?;
        Ok(Self { class_count, classes, lookup_records })
    }
}

/// Where the input count of a chained rule at `p` stands.
pub open spec fn chain_q1(d: Seq<u8>, p: int) -> int {
    p + 2 + 2 * u16_at(d, p)
}

/// Where the lookahead count of a chained rule at `p` stands.
pub open spec fn chain_q2(d: Seq<u8>, p: int) -> int {
    chain_q1(d, p) + 2 + 2 * minus_one(u16_at(d, chain_q1(d, p)))
}

/// Where the lookup record count of a chained rule at `p` stands.
pub open spec fn chain_q3(d: Seq<u8>, p: int) -> int {
    chain_q2(d, p) + 2 + 2 * u16_at(d, chain_q2(d, p))
}

/// Where the chained rule at `p` ends.
pub open spec fn chain_rule_end(d: Seq<u8>, p: int) -> int {
    chain_q3(d, p) + 2 + 4 * u16_at(d, chain_q3(d, p))
}

/// The error, if any, of reading a chained rule at `p`: counted backtrack items, counted
/// input items after the first, counted lookahead items, and counted lookup records.
pub open spec fn chain_rule_error(d: Seq<u8>, p: int) -> Option<Error> {
    let q1 = chain_q1(d, p);
    let q2 = chain_q2(d, p);
    let q3 = chain_q3(d, p);
    if !fits(d, p, 2) || !fits(d, p + 2, 2 * u16_at(d, p)) || !fits(d, q1, 2)
        || !fits(d, q1 + 2, 2 * minus_one(u16_at(d, q1))) || !fits(d, q2, 2)
        || !fits(d, q2 + 2, 2 * u16_at(d, q2)) || !fits(d, q3, 2) || !fits(d, q3 + 2, 4 * u16_at(d, q3)) {
        Some(eof())
    } else {
        None
    }
}

/// The counts and sequences of a chained rule, before its lookup records.
pub struct ChainHead {
    pub backtrack_count: u16,
    pub backtrack: Vec<u16>,
    pub input_count: u16,
    pub input: Vec<u16>,
    pub lookahead_count: u16,
    pub lookahead: Vec<u16>,
    pub record_count: u16,
}

/// Whether `h` is the head of the chained rule at `p`.
pub open spec fn chain_head_matches(d: Seq<u8>, p: int, h: ChainHead) -> bool {
    let q1 = chain_q1(d, p);
    let q2 = chain_q2(d, p);
    let q3 = chain_q3(d, p);
    &&& h.backtrack_count == u16_at(d, p)
    &&& h.backtrack@ == u16_seq(d, p + 2, u16_at(d, p) as int)
    &&& h.input_count == u16_at(d, q1)
    &&& h.input@ == u16_seq(d, q1 + 2, minus_one(u16_at(d, q1)))
    &&& h.lookahead_count == u16_at(d, q2)
    &&& h.lookahead@ == u16_seq(d, q2 + 2, u16_at(d, q2) as int)
    &&& h.record_count == u16_at(d, q3)
}

/// Reads the head of a chained rule; the cursor is left at its lookup records.
pub fn parse_chain_head(cursor: &mut Cursor) -> (r: Result<ChainHead, Error>)
    ensures
        final(cursor).data@ == old(cursor).data@,
        match r {
            Ok(h) => chain_head_matches(old(cursor).data@, old(cursor).pos as int, h)
                && final(cursor).pos == chain_q3(old(cursor).data@, old(cursor).pos as int) + 2,
            Err(e) => e == eof() && chain_rule_error(old(cursor).data@, old(cursor).pos as int) == Some(e),
        },
{
    let backtrack_count = cursor.read_u16()?;
    let backtrack = cursor.read_u16_array(backtrack_count as usize)?;
    let input_count = cursor.read_u16()?;
    let input = cursor.read_u16_array(count_after_first(input_count) as usize)?;
    let lookahead_count = cursor.read_u16()?;
    let lookahead = cursor.read_u16_array(lookahead_count as usize)?;
    let record_count = cursor.read_u16()?;
    Ok(ChainHead { backtrack_count, backtrack, input_count, input, lookahead_count, lookahead, record_count })
}

/// A chained rule of a glyph context.
#[derive(Debug, Clone)]
pub struct ChainSubrule {
    pub backtrack_glyph_count: u16,
    pub backtrack_glyphs: Vec<u16>,
    pub input_glyph_count: u16,
    pub input_glyphs: Vec<u16>,
    pub lookahead_glyph_count: u16,
    pub lookahead_glyphs: Vec<u16>,
    pub lookup_records: Vec<LookupRecord>,
}

impl OffsetTable for ChainSubrule {
    open spec fn table_end(d: Seq<u8>, p: int, base: int) -> int {
        chain_rule_end(d, p)
    }

    open spec fn table_error(d: Seq<u8>, p: int, base: int) -> Option<Error> {
        chain_rule_error(d, p)
    }

    open spec fn table_matches(d: Seq<u8>, p: int, base: int, v: Self) -> bool {
        let q1 = chain_q1(d, p);
        let q2 = chain_q2(d, p);
        let q3 = chain_q3(d, p);
        &&& v.backtrack_glyph_count == u16_at(d, p)
        &&& v.backtrack_glyphs@ == u16_seq(d, p + 2, u16_at(d, p) as int)
        &&& v.input_glyph_count == u16_at(d, q1)
        &&& v.input_glyphs@ == u16_seq(d, q1 + 2, minus_one(u16_at(d, q1)))
        &&& v.lookahead_glyph_count == u16_at(d, q2)
        &&& v.lookahead_glyphs@ == u16_seq(d, q2 + 2, u16_at(d, q2) as int)
        &&& v.lookup_records@ == lookup_records_at(d, q3 + 2, u16_at(d, q3) as int)
    }

    fn parse_table(cursor: &mut Cursor, base: usize) -> (r: Result<Self, Error>) {
        ChainSubrule::parse(cursor)
    }
}

impl ChainSubrule {
    pub fn parse(cursor: &mut Cursor) -> (r: Result<Self, Error>)
        ensures
            final(cursor).data@ == old(cursor).data@,
            match r {
                Ok(s) => Self::table_error(old(cursor).data@, old(cursor).pos as int, 0) is None
                    && Self::table_matches(old(cursor).data@, old(cursor).pos as int, 0, s)
                    && final(cursor).pos == Self::table_end(old(cursor).data@, old(cursor).pos as int, 0),
                Err(e) => Self::table_error(old(cursor).data@, old(cursor).pos as int, 0) == Some(e),
            },
    {
        let h = parse_chain_head(cursor)?;
        let lookup_records = parse_lookup_records(cursor, h.record_count)?;
        Ok(Self {
            backtrack_glyph_count: h.backtrack_count,
            backtrack_glyphs: h.backtrack,
            input_glyph_count: h.input_count,
            input_glyphs: h.input,
            lookahead_glyph_count: h.lookahead_count,
            lookahead_glyphs: h.lookahead,
            lookup_records,
        })
    }
}

/// A chained rule of a class context.
#[derive(Debug, Clone)]
pub struct ChainSubclassRule {
    pub backtrack_class_count: u16,
    pub backtrack_classes: Vec<u16>,
    pub input_class_count: u16,
    pub input_classes: Vec<u16>,
    pub lookahead_class_count: u16,
    pub lookahead_classes: Vec<u16>,
    pub lookup_records: Vec<LookupRecord>,
}

impl OffsetTable for ChainSubclassRule {
    open spec fn table_end(d: Seq<u8>, p: int, base: int) -> int {
        chain_rule_end(d, p)
    }

    open spec fn table_error(d: Seq<u8>, p: int, base: int) -> Option<Error> {
        chain_rule_error(d, p)
    }

    open spec fn table_matches(d: Seq<u8>, p: int, base: int, v: Self) -> bool {
        let q1 = chain_q1(d, p);
        let q2 = chain_q2(d, p);
        let q3 = chain_q3(d, p);
        &&& v.backtrack_class_count == u16_at(d, p)
        &&& v.backtrack_classes@ == u16_seq(d, p + 2, u16_at(d, p) as int)
        &&& v.input_class_count == u16_at(d, q1)
        &&& v.input_classes@ == u16_seq(d, q1 + 2, minus_one(u16_at(d, q1)))
        &&& v.lookahead_class_count == u16_at(d, q2)
        &&& v.lookahead_classes@ == u16_seq(d, q2 + 2, u16_at(d, q2) as int)
        &&& v.lookup_records@ == lookup_records_at(d, q3 + 2, u16_at(d, q3) as int)
    }

    fn parse_table(cursor: &mut Cursor, base: usize) -> (r: Result<Self, Error>) {
        ChainSubclassRule::parse(cursor)
    }
}

impl ChainSubclassRule {
    pub fn parse(cursor: &mut Cursor) -> (r: Result<Self, Error>)
        ensures
            final(cursor).data@ == old(cursor).data@,
            match r {
                Ok(s) => Self::table_error(old(cursor).data@, old(cursor).pos as int, 0) is None
                    && Self::table_matches(old(cursor).data@, old(cursor).pos as int, 0, s)
                    && final(cursor).pos == Self::table_end(old(cursor).data@, old(cursor).pos as int, 0),
                Err(e) => Self::table_error(old(cursor).data@, old(cursor).pos as int, 0) == Some(e),
            },
    {
        let h = parse_chain_head(cursor)?;
        let lookup_records = parse_lookup_records(cursor, h.record_count)?;
        Ok(Self {
            backtrack_class_count: h.backtrack_count,
            backtrack_classes: h.backtrack,
            input_class_count: h.input_count,
            input_classes: h.input,
            lookahead_class_count: h.lookahead_count,
            lookahead_classes: h.lookahead,
            lookup_records,
        })
    }
}

/// The rules of a glyph context that start with one glyph.
#[derive(Debug, Clone)]
pub struct SubruleSet {
    pub subrules: Vec<Subrule>,
}

impl OffsetTable for SubruleSet {
    open spec fn table_end(d: Seq<u8>, p: int, base: int) -> int {
        p + 2 + 2 * u16_at(d, p)
    }

    open spec fn table_error(d: Seq<u8>, p: int, base: int) -> Option<Error> {
        counted_tables_error::<Subrule>(d, p, base, base)
    }

    open spec fn table_matches(d: Seq<u8>, p: int, base: int, v: Self) -> bool {
        counted_tables_match::<Subrule>(d, p, base, base, v.subrules@)
    }

    fn parse_table(cursor: &mut Cursor, base: usize) -> (r: Result<Self, Error>) {
        SubruleSet::parse(cursor, base)
    }
}

impl SubruleSet {
    /// Reads the set at the cursor; its rule offsets count from `base`.
    pub fn parse(cursor: &mut Cursor, base: usize) -> (r: Result<Self, Error>)
        ensures
            final(cursor).data@ == old(cursor).data@,
            match r {
                Ok(s) => Self::table_error(old(cursor).data@, old(cursor).pos as int, base as int) is None
                    && Self::table_matches(old(cursor).data@, old(cursor).pos as int, base as int, s)
                    && final(cursor).pos == Self::table_end(old(cursor).data@, old(cursor).pos as int, base as int),
                Err(e) => Self::table_error(old(cursor).data@, old(cursor).pos as int, base as int) == Some(e),
            },
    {
        Ok(Self { subrules: parse_counted_tables_back(cursor, base, base)? })
    }
}

/// The rules of a class context that start with one class.
#[derive(Debug, Clone)]
pub struct SubclassSet {
    pub subclass_rules: Vec<SubclassRule>,
}

impl OffsetTable for SubclassSet {
    open spec fn table_end(d: Seq<u8>, p: int, base: int) -> int {
        p + 2 + 2 * u16_at(d, p)
    }

    open spec fn table_error(d: Seq<u8>, p: int, base: int) -> Option<Error> {
        counted_tables_error::<SubclassRule>(d, p, base, base)
    }

    open spec fn table_matches(d: Seq<u8>, p: int, base: int, v: Self) -> bool {
        counted_tables_match::<SubclassRule>(d, p, base, base, v.subclass_rules@)
    }

    fn parse_table(cursor: &mut Cursor, base: usize) -> (r: Result<Self, Error>) {
        SubclassSet::parse(cursor, base)
    }
}

impl SubclassSet {
    /// Reads the set at the cursor; its rule offsets count from `base`.
    pub fn parse(cursor: &mut Cursor, base: usize) -> (r: Result<Self, Error>)
        ensures
            final(cursor).data@ == old(cursor).data@,
            match r {
                Ok(s) => Self::table_error(old(cursor).data@, old(cursor).pos as int, base as int) is None
                    && Self::table_matches(old(cursor).data@, old(cursor).pos as int, base as int, s)
                    && final(cursor).pos == Self::table_end(old(cursor).data@, old(cursor).pos as int, base as int),
                Err(e) => Self::table_error(old(cursor).data@, old(cursor).pos as int, base as int) == Some(e),
            },
    {
        Ok(Self { subclass_rules: parse_counted_tables_back(cursor, base, base)? })
    }
}

/// The chained rules of a glyph context that start with one glyph.
#[derive(Debug, Clone)]
pub struct ChainSubruleSet {
    pub chain_subrules: Vec<ChainSubrule>,
}

impl OffsetTable for ChainSubruleSet {
    open spec fn table_end(d: Seq<u8>, p: int, base: int) -> int {
        p + 2 + 2 * u16_at(d, p)
    }

    open spec fn table_error(d: Seq<u8>, p: int, base: int) -> Option<Error> {
        counted_tables_error::<ChainSubrule>(d, p, base, base)
    }

    open spec fn table_matches(d: Seq<u8>, p: int, base: int, v: Self) -> bool {
        counted_tables_match::<ChainSubrule>(d, p, base, base, v.chain_subrules@)
    }

    fn parse_table(cursor: &mut Cursor, base: usize) -> (r: Result<Self, Error>) {
        ChainSubruleSet::parse(cursor, base)
    }
}

impl ChainSubruleSet {
    /// Reads the set at the cursor; its rule offsets count from `base`.
    pub fn parse(cursor: &mut Cursor, base: usize) -> (r: Result<Self, Error>)
        ensures
            final(cursor).data@ == old(cursor).data@,
            match r {
                Ok(s) => Self::table_error(old(cursor).data@, old(cursor).pos as int, base as int) is None
                    && Self::table_matches(old(cursor).data@, old(cursor).pos as int, base as int, s)
                    && final(cursor).pos == Self::table_end(old(cursor).data@, old(cursor).pos as int, base as int),
                Err(e) => Self::table_error(old(cursor).data@, old(cursor).pos as int, base as int) == Some(e),
            },
    {
        Ok(Self { chain_subrules: parse_counted_tables_back(cursor, base, base)? })
    }
}

/// The chained rules of a class context that start with one class.
#[derive(Debug, Clone)]
pub struct ChainSubclassSet {
    pub chain_subclass_rules: Vec<ChainSubclassRule>,
}

impl OffsetTable for ChainSubclassSet {
    open spec fn table_end(d: Seq<u8>, p: int, base: int) -> int {
        p + 2 + 2 * u16_at(d, p)
    }

    open spec fn table_error(d: Seq<u8>, p: int, base: int) -> Option<Error> {
        counted_tables_error::<ChainSubclassRule>(d, p, base, base)
    }

    open spec fn table_matches(d: Seq<u8>, p: int, base: int, v: Self) -> bool {
        counted_tables_match::<ChainSubclassRule>(d, p, base, base, v.chain_subclass_rules@)
    }

    fn parse_table(cursor: &mut Cursor, base: usize) -> (r: Result<Self, Error>) {
        ChainSubclassSet::parse(cursor, base)
    }
}

impl ChainSubclassSet {
    /// Reads the set at the cursor; its rule offsets count from `base`.
    pub fn parse(cursor: &mut Cursor, base: usize) -> (r: Result<Self, Error>)
        ensures
            final(cursor).data@ == old(cursor).data@,
            match r {
                Ok(s) => Self::table_error(old(cursor).data@, old(cursor).pos as int, base as int) is None
                    && Self::table_matches(old(cursor).data@, old(cursor).pos as int, base as int, s)
                    && final(cursor).pos == Self::table_end(old(cursor).data@, old(cursor).pos as int, base as int),
                Err(e) => Self::table_error(old(cursor).data@, old(cursor).pos as int, base as int) == Some(e),
            },
    {
        Ok(Self { chain_subclass_rules: parse_counted_tables_back(cursor, base, base)? })
    }
}

/// The error, if any, of reading at `p` a format and a coverage offset, and the coverage
/// table at that offset from `base`.
pub open spec fn head_error(d: Seq<u8>, p: int, base: int) -> Option<Error> {
    if !fits(d, p, 4) {
        Some(eof())
    } else {
        table_at_error::<Coverage>(d, base, u16_at(d, p + 2) as int, 0)
    }
}

/// Whether `c` is the coverage table that the offset at `p + 2` points to from `base`.
pub open spec fn head_coverage(d: Seq<u8>, p: int, base: int, c: Coverage) -> bool {
    coverage_matches(d, base + u16_at(d, p + 2), c)
}

/// Reads a format, a coverage offset and the coverage table at that offset from `base`;
/// the cursor is left after the offset.
fn parse_head(cursor: &mut Cursor, base: usize) -> (r: Result<(u16, Coverage), Error>)
    ensures
        final(cursor).data@ == old(cursor).data@,
        match r {
            Ok((format, coverage)) => head_error(old(cursor).data@, old(cursor).pos as int, base as int) is None
                && format == u16_at(old(cursor).data@, old(cursor).pos as int)
                && head_coverage(old(cursor).data@, old(cursor).pos as int, base as int, coverage)
                && final(cursor).pos == old(cursor).pos + 4,
            Err(e) => head_error(old(cursor).data@, old(cursor).pos as int, base as int) == Some(e),
        },
{
    cursor.require(4)?;
    let format = cursor.read_u16()?;
    let coverage_offset = cursor.read_u16()?;
    let saved = cursor.position();
    cursor.seek_rel(base, coverage_offset as usize)?;
    let coverage = Coverage::parse(cursor)?;
    cursor.seek(saved)?;
    Ok((format, coverage))
}

/// Replaces one glyph by another: by adding a delta to its id (format 1) or by the
/// glyph listed at its coverage index (format 2).
#[derive(Debug, Clone)]
pub enum SingleSubstitution {
    Format1 { coverage: Coverage, delta_glyph_id: u16 },
    Format2 { coverage: Coverage, substitute_glyph_ids: Vec<u16> },
}

/// The error, if any, of reading a single substitution at `p` whose offsets count from `base`.
pub open spec fn single_error(d: Seq<u8>, p: int, base: int) -> Option<Error> {
    if head_error(d, p, base) is Some {
        head_error(d, p, base)
    } else if u16_at(d, p) == 1 {
        if !fits(d, p + 4, 2) { Some(eof()) } else { None }
    } else if u16_at(d, p) == 2 {
        glyph_list_error(d, p + 4)
    } else {
        Some(Error::AnyMessage("Unrecognized single substitution"))
    }
}

/// Where the single substitution at `p` ends: after its delta (format 1) or its glyph
/// list (format 2).
pub open spec fn single_end(d: Seq<u8>, p: int) -> int {
    if u16_at(d, p) == 1 { p + 6 } else { p + 6 + 2 * u16_at(d, p + 4) }
}

/// Whether `s` is the single substitution at `p` whose offsets count from `base`.
pub open spec fn single_matches(d: Seq<u8>, p: int, base: int, s: SingleSubstitution) -> bool {
    match s {
        SingleSubstitution::Format1 { coverage, delta_glyph_id } => u16_at(d, p) == 1
            && head_coverage(d, p, base, coverage) && delta_glyph_id == u16_at(d, p + 4),
        SingleSubstitution::Format2 { coverage, substitute_glyph_ids } => u16_at(d, p) == 2
            && head_coverage(d, p, base, coverage) && substitute_glyph_ids@ == glyph_list_at(d, p + 4),
    }
}

/// A single substitution read from `p`: the format word, the coverage offset from `base`
/// at byte 2, then in format 1 the glyph delta at byte 4, and in format 2 the substitute
/// count at byte 4 and one substitute glyph per word after it.
pub proof fn lemma_single_layout(d: Seq<u8>, p: int, base: int, s: SingleSubstitution)
    requires
        single_matches(d, p, base, s),
    ensures
        s matches SingleSubstitution::Format1 { coverage, delta_glyph_id } ==> u16_at(d, p) == 1
            && coverage_matches(d, base + u16_at(d, p + 2), coverage) && delta_glyph_id == u16_at(d, p + 4),
        s matches SingleSubstitution::Format2 { coverage, substitute_glyph_ids } ==> u16_at(d, p) == 2
            && coverage_matches(d, base + u16_at(d, p + 2), coverage)
            && substitute_glyph_ids@.len() == u16_at(d, p + 4)
            && forall|k: int| #![trigger substitute_glyph_ids@[k]] 0 <= k < substitute_glyph_ids@.len()
                ==> substitute_glyph_ids@[k] == u16_at(d, p + 6 + 2 * k),
{
}

impl SingleSubstitution {
    /// Reads a single substitution at the cursor; its offsets count from `base`.
    pub fn parse(cursor: &mut Cursor, base: usize) -> (r: Result<Self, Error>)
        ensures
            final(cursor).data@ == old(cursor).data@,
            match r {
                Ok(s) => single_error(old(cursor).data@, old(cursor).pos as int, base as int) is None
                    && single_matches(old(cursor).data@, old(cursor).pos as int, base as int, s)
                    && final(cursor).pos == single_end(old(cursor).data@, old(cursor).pos as int),
                Err(e) => single_error(old(cursor).data@, old(cursor).pos as int, base as int) == Some(e),
            },
    {
        let (format, coverage) = parse_head(cursor, base)?;
        if format == 1 {
            let delta_glyph_id = cursor.read_u16()?;
            Ok(Self::Format1 { coverage, delta_glyph_id })
        } else if format == 2 {
            let substitute_glyph_ids = parse_glyph_list(cursor)?;
            Ok(Self::Format2 { coverage, substitute_glyph_ids })
        } else {
            Err(Error::AnyMessage("Unrecognized single substitution"))
        }
    }
}

/// Replaces one glyph by a sequence of glyphs.
#[derive(Debug, Clone)]
pub struct MultipleSubstitution {
    pub format: u16,
    pub coverage: Coverage,
    pub sequences: Vec<Sequence>,
}

/// The error, if any, of reading a multiple substitution at `p` whose offsets count from `base`.
pub open spec fn multiple_error(d: Seq<u8>, p: int, base: int) -> Option<Error> {
    if head_error(d, p, base) is Some {
        head_error(d, p, base)
    } else {
        counted_tables_error::<Sequence>(d, p + 4, base, base)
    }
}

/// Whether `m` is the multiple substitution at `p` whose offsets count from `base`.
pub open spec fn multiple_matches(d: Seq<u8>, p: int, base: int, m: MultipleSubstitution) -> bool {
    &&& m.format == u16_at(d, p)
    &&& head_coverage(d, p, base, m.coverage)
    &&& counted_tables_match::<Sequence>(d, p + 4, base, base, m.sequences@)
}

impl MultipleSubstitution {
    /// Reads a multiple substitution at the cursor; its offsets count from `base`.
    pub fn parse(cursor: &mut Cursor, base: usize) -> (r: Result<Self, Error>)
        ensures
            final(cursor).data@ == old(cursor).data@,
            match r {
                Ok(m) => multiple_error(old(cursor).data@, old(cursor).pos as int, base as int) is None
                    && multiple_matches(old(cursor).data@, old(cursor).pos as int, base as int, m)
                    && final(cursor).pos == counted_tables_end::<Sequence>(old(cursor).data@, old(cursor).pos + 4,
                        base as int, base as int),
                Err(e) => multiple_error(old(cursor).data@, old(cursor).pos as int, base as int) == Some(e),
            },
    {
        let (format, coverage) = parse_head(cursor, base)?;
        let sequences = parse_counted_tables(cursor, base, base)?;
        Ok(Self { format, coverage, sequences })
    }
}

/// Offers alternatives for one glyph.
#[derive(Debug, Clone)]
pub struct AlternateSubstitution {
    pub format: u16,
    pub coverage: Coverage,
    pub alternate_sets: Vec<AlternateSet>,
}

/// The error, if any, of reading offset `k` of an alternate substitution at `p` and the
/// set it points to: each offset is read just before its set.
pub open spec fn alternate_item_error(d: Seq<u8>, p: int, base: int, k: int) -> Option<Error> {
    if !fits(d, p + 6 + 2 * k, 2) {
        Some(eof())
    } else {
        table_at_error::<AlternateSet>(d, base, u16_at(d, p + 6 + 2 * k) as int, base)
    }
}

/// The errors of the alternate sets, by index.
pub open spec fn alternate_item_errors(d: Seq<u8>, p: int, base: int) -> spec_fn(int) -> Option<Error> {
    |k: int| alternate_item_error(d, p, base, k)
}

/// The error, if any, of reading an alternate substitution at `p` whose offsets count from `base`.
pub open spec fn alternate_error(d: Seq<u8>, p: int, base: int) -> Option<Error> {
    if head_error(d, p, base) is Some {
        head_error(d, p, base)
    } else if !fits(d, p + 4, 2) {
        Some(eof())
    } else {
        first_err(alternate_item_errors(d, p, base), 0, u16_at(d, p + 4) as int)
    }
}

/// Whether `a` is the alternate substitution at `p` whose offsets count from `base`.
pub open spec fn alternate_matches(d: Seq<u8>, p: int, base: int, a: AlternateSubstitution) -> bool {
    &&& a.format == u16_at(d, p)
    &&& head_coverage(d, p, base, a.coverage)
    &&& tables_match::<AlternateSet>(d, base, u16_seq(d, p + 6, u16_at(d, p + 4) as int), base, a.alternate_sets@)
}

impl AlternateSubstitution {
    /// Reads an alternate substitution at the cursor; its offsets count from `base`.
    pub fn parse(cursor: &mut Cursor, base: usize) -> (r: Result<Self, Error>)
        ensures
            final(cursor).data@ == old(cursor).data@,
            match r {
                Ok(a) => alternate_error(old(cursor).data@, old(cursor).pos as int, base as int) is None
                    && alternate_matches(old(cursor).data@, old(cursor).pos as int, base as int, a)
                    && final(cursor).pos == old(cursor).pos + 6 + 2 * u16_at(old(cursor).data@, old(cursor).pos + 4),
                Err(e) => alternate_error(old(cursor).data@, old(cursor).pos as int, base as int) == Some(e),
            },
    {
        let ghost d = cursor.data@;
        let ghost p = cursor.pos as int;
        let ghost f = alternate_item_errors(d, p, base as int);
        let (format, coverage) = parse_head(cursor, base)?;
        let alternate_set_count = cursor.read_u16()?;
        let mut alternate_sets: Vec<AlternateSet> = Vec::new();
        let mut k: u16 = 0;
        while k < alternate_set_count
            invariant
                k <= alternate_set_count,
                alternate_set_count == u16_at(d, p + 4),
                cursor.data@ == d,
                d == old(cursor).data@,
                p == old(cursor).pos,
                f == alternate_item_errors(d, p, base as int),
                cursor.pos == p + 6 + 2 * k,
                forall|i: int| 0 <= i < k ==> #[trigger] f(i) is None,
                alternate_sets@.len() == k,
                head_error(d, p, base as int) is None,
                fits(d, p + 4, 2),
                forall|i: int| #![trigger alternate_sets@[i]] 0 <= i < k ==> fits(d, p + 6 + 2 * i, 2)
                    && AlternateSet::table_matches(d, base + u16_at(d, p + 6 + 2 * i), base as int, alternate_sets@[i]),
            decreases alternate_set_count - k,
        {
            proof {
                lemma_first_err_skip(f, 0, k as int, alternate_set_count as int);
            }
            let offset = match cursor.read_u16() {
                Ok(v) => v,
                Err(e) => {
                    assert(f(k as int) == Some(eof()));
                    return Err(e);
                },
            };
            let saved = cursor.position();
            if cursor.seek_rel(base, offset as usize).is_err() {
                assert(f(k as int) == Some(out_of_bounds()));
                return Err(Error::ReadError(ReadError::OutOfBounds));
            }
            match AlternateSet::parse(cursor) {
                Ok(v) => {
                    alternate_sets.push(v);
                },
                Err(e) => {
                    assert(f(k as int) == Some(e));
                    return Err(e);
                },
            }
            cursor.seek(saved)?;
            assert(f(k as int) is None);
            k = k + 1;
        }
        proof {
            lemma_first_err_none(f, 0, alternate_set_count as int);
            let offs = u16_seq(d, p + 6, alternate_set_count as int);
            assert forall|i: int| 0 <= i < alternate_sets@.len() implies
                AlternateSet::table_matches(d, base + offs[i], base as int, #[trigger] alternate_sets@[i]) by {
                assert(offs[i] == u16_at(d, p + 6 + 2 * i));
            }
        }
        Ok(Self { format, coverage, alternate_sets })
    }
}

/// Replaces a sequence of glyphs by a ligature.
#[derive(Debug, Clone)]
pub struct LigatureSubstitution {
    pub format: u16,
    pub coverage: Coverage,
    pub ligature_sets: Vec<LigatureSet>,
}

/// The error, if any, of reading a ligature substitution at `p`, whose offsets count from `p`.
pub open spec fn ligature_subst_error(d: Seq<u8>, p: int) -> Option<Error> {
    if head_error(d, p, p) is Some {
        head_error(d, p, p)
    } else {
        counted_tables_error::<LigatureSet>(d, p + 4, p, p)
    }
}

/// Whether `l` is the ligature substitution at `p`.
pub open spec fn ligature_subst_matches(d: Seq<u8>, p: int, l: LigatureSubstitution) -> bool {
    &&& l.format == u16_at(d, p)
    &&& head_coverage(d, p, p, l.coverage)
    &&& counted_tables_match::<LigatureSet>(d, p + 4, p, p, l.ligature_sets@)
}

impl LigatureSubstitution {
    /// Reads a ligature substitution at the cursor; its offsets, and those of its sets,
    /// count from its start.
    pub fn parse(cursor: &mut Cursor) -> (r: Result<Self, Error>)
        ensures
            final(cursor).data@ == old(cursor).data@,
            match r {
                Ok(l) => ligature_subst_error(old(cursor).data@, old(cursor).pos as int) is None
                    && ligature_subst_matches(old(cursor).data@, old(cursor).pos as int, l)
                    && final(cursor).pos == counted_tables_end::<LigatureSet>(old(cursor).data@, old(cursor).pos + 4,
                        old(cursor).pos as int, old(cursor).pos as int),
                Err(e) => ligature_subst_error(old(cursor).data@, old(cursor).pos as int) == Some(e),
            },
    {
        let base = cursor.position();
        let (format, coverage) = parse_head(cursor, base)?;
        let ligature_sets = parse_counted_tables(cursor, base, base)?;
        Ok(Self { format, coverage, ligature_sets })
    }
}

/// Applies lookups where a context of glyphs (format 1), classes (format 2) or coverage
/// tables (format 3) matches.
#[derive(Debug, Clone)]
pub enum ContextualSubstitution {
    Format1 { coverage: Coverage, subrule_sets: Vec<SubruleSet> },
    /// The class definition is not read: `class_def` stays empty.
    Format2 { coverage: Coverage, class_def: Vec<u16>, subclass_sets: Vec<SubclassSet> },
    Format3 { glyph_count: u16, lookup_count: u16, coverages: Vec<Coverage>, lookup_records: Vec<LookupRecord> },
}

/// The error, if any, of reading the body of a contextual substitution of format 1 at `q`,
/// just after its format.
pub open spec fn contextual1_error(d: Seq<u8>, q: int, base: int) -> Option<Error> {
    if !fits(d, q, 4) {
        Some(eof())
    } else if table_at_error::<Coverage>(d, base, u16_at(d, q) as int, 0) is Some {
        table_at_error::<Coverage>(d, base, u16_at(d, q) as int, 0)
    } else {
        counted_tables_error::<SubruleSet>(d, q + 2, base, base)
    }
}

/// The error, if any, of reading the body of a contextual substitution of format 2 at `q`.
pub open spec fn contextual2_error(d: Seq<u8>, q: int, base: int) -> Option<Error> {
    if !fits(d, q, 6) {
        Some(eof())
    } else if table_at_error::<Coverage>(d, base, u16_at(d, q) as int, 0) is Some {
        table_at_error::<Coverage>(d, base, u16_at(d, q) as int, 0)
    } else if base + u16_at(d, q + 2) > d.len() {
        Some(out_of_bounds())
    } else {
        counted_tables_error::<SubclassSet>(d, q + 4, base, base)
    }
}

/// The error, if any, of reading the body of a contextual substitution of format 3 at `q`.
pub open spec fn contextual3_error(d: Seq<u8>, q: int, base: int) -> Option<Error> {
    let g = u16_at(d, q) as int;
    if !fits(d, q, 4) || !fits(d, q + 4, 2 * g) || !fits(d, q + 4 + 2 * g, 4 * u16_at(d, q + 2)) {
        Some(eof())
    } else {
        tables_error::<Coverage>(d, base, u16_seq(d, q + 4, g), 0)
    }
}

/// The error, if any, of reading a contextual substitution at `p` whose offsets count from `base`.
pub open spec fn contextual_error(d: Seq<u8>, p: int, base: int) -> Option<Error> {
    if !fits(d, p, 2) {
        Some(eof())
    } else if u16_at(d, p) == 1 {
        contextual1_error(d, p + 2, base)
    } else if u16_at(d, p) == 2 {
        contextual2_error(d, p + 2, base)
    } else if u16_at(d, p) == 3 {
        contextual3_error(d, p + 2, base)
    } else {
        Some(Error::AnyMessage("Unrecognized Contextual substitution"))
    }
}

/// Whether `c` is the body at `q` of a contextual substitution of its format.
pub open spec fn contextual_body_matches(d: Seq<u8>, q: int, base: int, c: ContextualSubstitution) -> bool {
    match c {
        ContextualSubstitution::Format1 { coverage, subrule_sets } =>
            coverage_matches(d, base + u16_at(d, q), coverage)
            && counted_tables_match::<SubruleSet>(d, q + 2, base, base, subrule_sets@),
        ContextualSubstitution::Format2 { coverage, class_def, subclass_sets } =>
            coverage_matches(d, base + u16_at(d, q), coverage) && class_def@.len() == 0
            && counted_tables_match::<SubclassSet>(d, q + 4, base, base, subclass_sets@),
        ContextualSubstitution::Format3 { glyph_count, lookup_count, coverages, lookup_records } =>
            glyph_count == u16_at(d, q) && lookup_count == u16_at(d, q + 2)
            && tables_match::<Coverage>(d, base, u16_seq(d, q + 4, glyph_count as int), 0, coverages@)
            && lookup_records@ == lookup_records_at(d, q + 4 + 2 * glyph_count, lookup_count as int),
    }
}

/// Whether `c` is the contextual substitution at `p` whose offsets count from `base`.
pub open spec fn contextual_matches(d: Seq<u8>, p: int, base: int, c: ContextualSubstitution) -> bool {
    &&& c is Format1 ==> u16_at(d, p) == 1
    &&& c is Format2 ==> u16_at(d, p) == 2
    &&& c is Format3 ==> u16_at(d, p) == 3
    &&& contextual_body_matches(d, p + 2, base, c)
}

/// Where the reading of the body at `q` of a contextual substitution of format `format`
/// leaves the cursor: after its rule set offsets (formats 1 and 2), or after its lookup
/// records (format 3); it comes back after each table it reads at an offset.
pub open spec fn contextual_body_end(d: Seq<u8>, q: int, base: int, format: u16) -> int {
    if format == 1 {
        q + 4 + 2 * u16_at(d, q + 2)
    } else if format == 2 {
        q + 6 + 2 * u16_at(d, q + 4)
    } else {
        q + 4 + 2 * u16_at(d, q) + 4 * u16_at(d, q + 2)
    }
}

/// Reads a coverage table at `offset` from `base`, and comes back.
fn parse_coverage_at(cursor: &mut Cursor, base: usize, offset: u16) -> (r: Result<Coverage, Error>)
    requires
        old(cursor).pos <= old(cursor).data@.len(),
    ensures
        final(cursor).data@ == old(cursor).data@,
        match r {
            Ok(c) => table_at_error::<Coverage>(old(cursor).data@, base as int, offset as int, 0) is None
                && coverage_matches(old(cursor).data@, base + offset, c)
                && final(cursor).pos == old(cursor).pos,
            Err(e) => table_at_error::<Coverage>(old(cursor).data@, base as int, offset as int, 0) == Some(e),
        },
{
    let saved = cursor.position();
    cursor.seek_rel(base, offset as usize)?;
    let coverage = Coverage::parse(cursor)?;
    cursor.seek(saved)?;
    Ok(coverage)
}

impl ContextualSubstitution {
    /// Reads a contextual substitution at the cursor; its offsets count from `base`.
    pub fn parse(cursor: &mut Cursor, base: usize) -> (r: Result<Self, Error>)
        ensures
            final(cursor).data@ == old(cursor).data@,
            match r {
                Ok(c) => contextual_error(old(cursor).data@, old(cursor).pos as int, base as int) is None
                    && contextual_matches(old(cursor).data@, old(cursor).pos as int, base as int, c)
                    && final(cursor).pos == contextual_body_end(old(cursor).data@, old(cursor).pos + 2, base as int,
                        u16_at(old(cursor).data@, old(cursor).pos as int)),
                Err(e) => contextual_error(old(cursor).data@, old(cursor).pos as int, base as int) == Some(e),
            },
    {
        let format = cursor.read_u16()?;
        if format == 1 {
            Self::parse_format1(cursor, base)
        } else if format == 2 {
            Self::parse_format2(cursor, base)
        } else if format == 3 {
            Self::parse_format3(cursor, base)
        } else {
            Err(Error::AnyMessage("Unrecognized Contextual substitution"))
        }
    }

    fn parse_format1(cursor: &mut Cursor, base: usize) -> (r: Result<Self, Error>)
        ensures
            final(cursor).data@ == old(cursor).data@,
            match r {
                Ok(c) => contextual1_error(old(cursor).data@, old(cursor).pos as int, base as int) is None
                    && c is Format1 && contextual_body_matches(old(cursor).data@, old(cursor).pos as int, base as int, c)
                    && final(cursor).pos == contextual_body_end(old(cursor).data@, old(cursor).pos as int, base as int, 1u16),
                Err(e) => contextual1_error(old(cursor).data@, old(cursor).pos as int, base as int) == Some(e),
            },
    {
        cursor.require(4)?;
        let coverage_offset = cursor.read_u16()?;
        let coverage = parse_coverage_at(cursor, base, coverage_offset)?;
        let subrule_sets = parse_counted_tables_back(cursor, base, base)?;
        Ok(Self::Format1 { coverage, subrule_sets })
    }

    fn parse_format2(cursor: &mut Cursor, base: usize) -> (r: Result<Self, Error>)
        ensures
            final(cursor).data@ == old(cursor).data@,
            match r {
                Ok(c) => contextual2_error(old(cursor).data@, old(cursor).pos as int, base as int) is None
                    && c is Format2 && contextual_body_matches(old(cursor).data@, old(cursor).pos as int, base as int, c)
                    && final(cursor).pos == contextual_body_end(old(cursor).data@, old(cursor).pos as int, base as int, 2u16),
                Err(e) => contextual2_error(old(cursor).data@, old(cursor).pos as int, base as int) == Some(e),
            },
    {
        cursor.require(6)?;
        let coverage_offset = cursor.read_u16()?;
        let class_def_offset = cursor.read_u16()?;
        let coverage = parse_coverage_at(cursor, base, coverage_offset)?;
        let saved = cursor.position();
        cursor.seek_rel(base, class_def_offset as usize)?;
        let class_def: Vec<u16> = Vec::new();
        cursor.seek(saved)?;
        let subclass_sets = parse_counted_tables_back(cursor, base, base)?;
        Ok(Self::Format2 { coverage, class_def, subclass_sets })
    }

    fn parse_format3(cursor: &mut Cursor, base: usize) -> (r: Result<Self, Error>)
        ensures
            final(cursor).data@ == old(cursor).data@,
            match r {
                Ok(c) => contextual3_error(old(cursor).data@, old(cursor).pos as int, base as int) is None
                    && c is Format3 && contextual_body_matches(old(cursor).data@, old(cursor).pos as int, base as int, c)
                    && final(cursor).pos == contextual_body_end(old(cursor).data@, old(cursor).pos as int, base as int, 3u16),
                Err(e) => contextual3_error(old(cursor).data@, old(cursor).pos as int, base as int) == Some(e),
            },
    {
        cursor.require(4)?;
        let glyph_count = cursor.read_u16()?;
        let lookup_count = cursor.read_u16()?;
        let coverage_offsets = cursor.read_u16_array(glyph_count as usize)?;
        let lookup_records = parse_lookup_records(cursor, lookup_count)?;
        let coverages = parse_tables_back(cursor, base, &coverage_offsets, 0)?;
        Ok(Self::Format3 { glyph_count, lookup_count, coverages, lookup_records })
    }
}

/// Whether a count and that many offsets fit at `q`.
pub open spec fn counted_fits(d: Seq<u8>, q: int) -> bool {
    fits(d, q, 2) && fits(d, q + 2, 2 * u16_at(d, q))
}

/// The offsets of the counted list at `q`.
pub open spec fn counted_offsets(d: Seq<u8>, q: int) -> Seq<u16> {
    u16_seq(d, q + 2, u16_at(d, q) as int)
}

/// Where the counted list at `q` ends.
pub open spec fn counted_end(d: Seq<u8>, q: int) -> int {
    q + 2 + 2 * u16_at(d, q)
}

/// Reads a count and that many offsets.
fn parse_counted_offsets(cursor: &mut Cursor) -> (r: Result<(u16, Vec<u16>), Error>)
    ensures
        final(cursor).data@ == old(cursor).data@,
        r is Ok <==> counted_fits(old(cursor).data@, old(cursor).pos as int),
        r matches Ok((n, v)) ==> n == u16_at(old(cursor).data@, old(cursor).pos as int)
            && v@ == counted_offsets(old(cursor).data@, old(cursor).pos as int)
            && final(cursor).pos == counted_end(old(cursor).data@, old(cursor).pos as int),
        r matches Err(e) ==> e == eof(),
{
    let count = cursor.read_u16()?;
    let offsets = cursor.read_u16_array(count as usize)?;
    Ok((count, offsets))
}

/// Applies lookups where a context, with what comes before and after it, matches: by
/// glyphs (format 1), by classes (format 2) or by coverage tables (format 3).
#[derive(Debug, Clone)]
pub enum ChainedContextualSubstitution {
    Format1 { coverage: Coverage, chain_subrule_sets: Vec<ChainSubruleSet> },
    Format2 {
        coverage: Coverage,
        backtrack_class: ClassDefinition,
        input_class: ClassDefinition,
        lookahead_class: ClassDefinition,
        chain_subclass_sets: Vec<ChainSubclassSet>,
    },
    Format3 {
        backtrack_glyph_count: u16,
        input_glyph_count: u16,
        lookahead_glyph_count: u16,
        backtrack_coverages: Vec<Coverage>,
        input_coverages: Vec<Coverage>,
        lookahead_coverages: Vec<Coverage>,
        seq_lookup_records: Vec<LookupRecord>,
    },
}

/// The error, if any, of reading the body of a chained substitution of format 1 at `q`,
/// just after its format.
pub open spec fn chained1_error(d: Seq<u8>, q: int, base: int) -> Option<Error> {
    if !fits(d, q, 4) {
        Some(eof())
    } else if table_at_error::<Coverage>(d, base, u16_at(d, q) as int, 0) is Some {
        table_at_error::<Coverage>(d, base, u16_at(d, q) as int, 0)
    } else {
        counted_tables_error::<ChainSubruleSet>(d, q + 2, base, base)
    }
}

/// The error, if any, of reading the body of a chained substitution of format 2 at `q`:
/// four offsets, the counted rule set offsets, then the tables in that order.
pub open spec fn chained2_error(d: Seq<u8>, q: int, base: int) -> Option<Error> {
    if !fits(d, q, 8) || !counted_fits(d, q + 8) {
        Some(eof())
    } else if table_at_error::<Coverage>(d, base, u16_at(d, q) as int, 0) is Some {
        table_at_error::<Coverage>(d, base, u16_at(d, q) as int, 0)
    } else if table_at_error::<ClassDefinition>(d, base, u16_at(d, q + 2) as int, 0) is Some {
        table_at_error::<ClassDefinition>(d, base, u16_at(d, q + 2) as int, 0)
    } else if table_at_error::<ClassDefinition>(d, base, u16_at(d, q + 4) as int, 0) is Some {
        table_at_error::<ClassDefinition>(d, base, u16_at(d, q + 4) as int, 0)
    } else if table_at_error::<ClassDefinition>(d, base, u16_at(d, q + 6) as int, 0) is Some {
        table_at_error::<ClassDefinition>(d, base, u16_at(d, q + 6) as int, 0)
    } else {
        tables_error::<ChainSubclassSet>(d, base, counted_offsets(d, q + 8), base)
    }
}

/// The error, if any, of reading the body of a chained substitution of format 3 at `q`:
/// counted backtrack, input and lookahead coverage offsets, counted lookup records, then
/// the coverage tables in that order.
pub open spec fn chained3_error(d: Seq<u8>, q: int, base: int) -> Option<Error> {
    let r1 = counted_end(d, q);
    let r2 = counted_end(d, r1);
    let r3 = counted_end(d, r2);
    if !counted_fits(d, q) || !counted_fits(d, r1) || !counted_fits(d, r2) || !fits(d, r3, 2)
        || !fits(d, r3 + 2, 4 * u16_at(d, r3)) {
        Some(eof())
    } else if tables_error::<Coverage>(d, base, counted_offsets(d, q), 0) is Some {
        tables_error::<Coverage>(d, base, counted_offsets(d, q), 0)
    } else if tables_error::<Coverage>(d, base, counted_offsets(d, r1), 0) is Some {
        tables_error::<Coverage>(d, base, counted_offsets(d, r1), 0)
    } else {
        tables_error::<Coverage>(d, base, counted_offsets(d, r2), 0)
    }
}

/// The error, if any, of reading a chained substitution at `p` whose offsets count from `base`.
pub open spec fn chained_error(d: Seq<u8>, p: int, base: int) -> Option<Error> {
    if !fits(d, p, 2) {
        Some(eof())
    } else if u16_at(d, p) == 1 {
        chained1_error(d, p + 2, base)
    } else if u16_at(d, p) == 2 {
        chained2_error(d, p + 2, base)
    } else if u16_at(d, p) == 3 {
        chained3_error(d, p + 2, base)
    } else {
        Some(Error::AnyMessage("Unrecognized chained contextual substitution"))
    }
}

/// Whether `c` is the body at `q` of a chained substitution of its format.
pub open spec fn chained_body_matches(d: Seq<u8>, q: int, base: int, c: ChainedContextualSubstitution) -> bool {
    match c {
        ChainedContextualSubstitution::Format1 { coverage, chain_subrule_sets } =>
            coverage_matches(d, base + u16_at(d, q), coverage)
            && counted_tables_match::<ChainSubruleSet>(d, q + 2, base, base, chain_subrule_sets@),
        ChainedContextualSubstitution::Format2 { coverage, backtrack_class, input_class, lookahead_class, chain_subclass_sets } =>
            coverage_matches(d, base + u16_at(d, q), coverage)
            && class_def_matches(d, base + u16_at(d, q + 2), backtrack_class)
            && class_def_matches(d, base + u16_at(d, q + 4), input_class)
            && class_def_matches(d, base + u16_at(d, q + 6), lookahead_class)
            && counted_tables_match::<ChainSubclassSet>(d, q + 8, base, base, chain_subclass_sets@),
        ChainedContextualSubstitution::Format3 {
            backtrack_glyph_count, input_glyph_count, lookahead_glyph_count,
            backtrack_coverages, input_coverages, lookahead_coverages, seq_lookup_records,
        } => {
            let r1 = counted_end(d, q);
            let r2 = counted_end(d, r1);
            let r3 = counted_end(d, r2);
            &&& backtrack_glyph_count == u16_at(d, q)
            &&& input_glyph_count == u16_at(d, r1)
            &&& lookahead_glyph_count == u16_at(d, r2)
            &&& tables_match::<Coverage>(d, base, counted_offsets(d, q), 0, backtrack_coverages@)
            &&& tables_match::<Coverage>(d, base, counted_offsets(d, r1), 0, input_coverages@)
            &&& tables_match::<Coverage>(d, base, counted_offsets(d, r2), 0, lookahead_coverages@)
            &&& seq_lookup_records@ == lookup_records_at(d, r3 + 2, u16_at(d, r3) as int)
        },
    }
}

/// Whether `c` is the chained substitution at `p` whose offsets count from `base`.
pub open spec fn chained_matches(d: Seq<u8>, p: int, base: int, c: ChainedContextualSubstitution) -> bool {
    &&& c is Format1 ==> u16_at(d, p) == 1
    &&& c is Format2 ==> u16_at(d, p) == 2
    &&& c is Format3 ==> u16_at(d, p) == 3
    &&& chained_body_matches(d, p + 2, base, c)
}

/// Where the reading of the body at `q` of a chained substitution of format `format`
/// leaves the cursor: after its rule set offsets (format 1), at the end of the last rule
/// set read (format 2, which does not come back), or after its lookup records (format 3).
pub open spec fn chained_body_end(d: Seq<u8>, q: int, base: int, format: u16) -> int {
    if format == 1 {
        q + 4 + 2 * u16_at(d, q + 2)
    } else if format == 2 {
        tables_end::<ChainSubclassSet>(d, base, counted_offsets(d, q + 8), base,
            class_def_end(d, base + u16_at(d, q + 6)))
    } else {
        let r1 = counted_end(d, q);
        let r2 = counted_end(d, r1);
        let r3 = counted_end(d, r2);
        r3 + 2 + 4 * u16_at(d, r3)
    }
}

/// Reads a class definition table at `offset` from `base`.
fn parse_class_def_at(cursor: &mut Cursor, base: usize, offset: u16) -> (r: Result<ClassDefinition, Error>)
    ensures
        final(cursor).data@ == old(cursor).data@,
        match r {
            Ok(c) => table_at_error::<ClassDefinition>(old(cursor).data@, base as int, offset as int, 0) is None
                && class_def_matches(old(cursor).data@, base + offset, c)
                && final(cursor).pos == class_def_end(old(cursor).data@, base + offset),
            Err(e) => table_at_error::<ClassDefinition>(old(cursor).data@, base as int, offset as int, 0) == Some(e),
        },
{
    cursor.seek_rel(base, offset as usize)?;
    ClassDefinition::parse(cursor)
}

impl ChainedContextualSubstitution {
    /// Reads a chained substitution at the cursor; its offsets count from `base`.
    pub fn parse(cursor: &mut Cursor, base: usize) -> (r: Result<Self, Error>)
        ensures
            final(cursor).data@ == old(cursor).data@,
            match r {
                Ok(c) => chained_error(old(cursor).data@, old(cursor).pos as int, base as int) is None
                    && chained_matches(old(cursor).data@, old(cursor).pos as int, base as int, c)
                    && final(cursor).pos == chained_body_end(old(cursor).data@, old(cursor).pos + 2, base as int,
                        u16_at(old(cursor).data@, old(cursor).pos as int)),
                Err(e) => chained_error(old(cursor).data@, old(cursor).pos as int, base as int) == Some(e),
            },
    {
        let format = cursor.read_u16()?;
        if format == 1 {
            Self::parse_format1(cursor, base)
        } else if format == 2 {
            Self::parse_format2(cursor, base)
        } else if format == 3 {
            Self::parse_format3(cursor, base)
        } else {
            Err(Error::AnyMessage("Unrecognized chained contextual substitution"))
        }
    }

    fn parse_format1(cursor: &mut Cursor, base: usize) -> (r: Result<Self, Error>)
        ensures
            final(cursor).data@ == old(cursor).data@,
            match r {
                Ok(c) => chained1_error(old(cursor).data@, old(cursor).pos as int, base as int) is None
                    && c is Format1 && chained_body_matches(old(cursor).data@, old(cursor).pos as int, base as int, c)
                    && final(cursor).pos == chained_body_end(old(cursor).data@, old(cursor).pos as int, base as int, 1u16),
                Err(e) => chained1_error(old(cursor).data@, old(cursor).pos as int, base as int) == Some(e),
            },
    {
        cursor.require(4)?;
        let coverage_offset = cursor.read_u16()?;
        let coverage = parse_coverage_at(cursor, base, coverage_offset)?;
        let chain_subrule_sets = parse_counted_tables_back(cursor, base, base)?;
        Ok(Self::Format1 { coverage, chain_subrule_sets })
    }

    fn parse_format2(cursor: &mut Cursor, base: usize) -> (r: Result<Self, Error>)
        ensures
            final(cursor).data@ == old(cursor).data@,
            match r {
                Ok(c) => chained2_error(old(cursor).data@, old(cursor).pos as int, base as int) is None
                    && c is Format2 && chained_body_matches(old(cursor).data@, old(cursor).pos as int, base as int, c)
                    && final(cursor).pos == chained_body_end(old(cursor).data@, old(cursor).pos as int, base as int, 2u16),
                Err(e) => chained2_error(old(cursor).data@, old(cursor).pos as int, base as int) == Some(e),
            },
    {
        cursor.require(8)?;
        let coverage_offset = cursor.read_u16()?;
        let backtrack_offset = cursor.read_u16()?;
        let input_offset = cursor.read_u16()?;
        let lookahead_offset = cursor.read_u16()?;
        let (_count, rule_set_offsets) = parse_counted_offsets(cursor)?;
        let coverage = parse_coverage_at(cursor, base, coverage_offset)?;
        let backtrack_class = parse_class_def_at(cursor, base, backtrack_offset)?;
        let input_class = parse_class_def_at(cursor, base, input_offset)?;
        let lookahead_class = parse_class_def_at(cursor, base, lookahead_offset)?;
        let chain_subclass_sets = parse_tables(cursor, base, &rule_set_offsets, base)?;
        Ok(Self::Format2 { coverage, backtrack_class, input_class, lookahead_class, chain_subclass_sets })
    }

    fn parse_format3(cursor: &mut Cursor, base: usize) -> (r: Result<Self, Error>)
        ensures
            final(cursor).data@ == old(cursor).data@,
            match r {
                Ok(c) => chained3_error(old(cursor).data@, old(cursor).pos as int, base as int) is None
                    && c is Format3 && chained_body_matches(old(cursor).data@, old(cursor).pos as int, base as int, c)
                    && final(cursor).pos == chained_body_end(old(cursor).data@, old(cursor).pos as int, base as int, 3u16),
                Err(e) => chained3_error(old(cursor).data@, old(cursor).pos as int, base as int) == Some(e),
            },
    {
        let (backtrack_glyph_count, backtrack_offsets) = parse_counted_offsets(cursor)?;
        let (input_glyph_count, input_offsets) = parse_counted_offsets(cursor)?;
        let (lookahead_glyph_count, lookahead_offsets) = parse_counted_offsets(cursor)?;
        let lookup_record_count = cursor.read_u16()?;
        let seq_lookup_records = parse_lookup_records(cursor, lookup_record_count)?;
        let backtrack_coverages = parse_tables_back(cursor, base, &backtrack_offsets, 0)?;
        let input_coverages = parse_tables_back(cursor, base, &input_offsets, 0)?;
        let lookahead_coverages = parse_tables_back(cursor, base, &lookahead_offsets, 0)?;
        Ok(Self::Format3 {
            backtrack_glyph_count,
            input_glyph_count,
            lookahead_glyph_count,
            backtrack_coverages,
            input_coverages,
            lookahead_coverages,
            seq_lookup_records,
        })
    }
}

/// Replaces single glyphs, read from the end of the text backwards, where the glyphs
/// before and after them match.
#[derive(Debug, Clone)]
pub struct ReverseSubstitution {
    pub format: u16,
    pub coverage: Coverage,
    pub backtrack_glyph_count: u16,
    pub backtrack_coverages: Vec<Coverage>,
    pub lookahead_glyph_count: u16,
    pub lookahead_coverages: Vec<Coverage>,
    pub substitute_count: u16,
    pub substitute_glyph_ids: Vec<u16>,
}

/// The error, if any, of reading a reverse substitution at `p` whose offsets count from `base`.
pub open spec fn reverse_error(d: Seq<u8>, p: int, base: int) -> Option<Error> {
    let q = p + 4;
    let r1 = counted_end(d, q);
    let r2 = counted_end(d, r1);
    if !fits(d, p, 2) {
        Some(eof())
    } else if u16_at(d, p) != 1 {
        Some(Error::AnyMessage("Unrecognized reverse substitution"))
    } else if !fits(d, p + 2, 2) {
        Some(eof())
    } else if table_at_error::<Coverage>(d, base, u16_at(d, p + 2) as int, 0) is Some {
        table_at_error::<Coverage>(d, base, u16_at(d, p + 2) as int, 0)
    } else if !counted_fits(d, q) || !counted_fits(d, r1) || glyph_list_error(d, r2) is Some {
        Some(eof())
    } else if tables_error::<Coverage>(d, base, counted_offsets(d, q), 0) is Some {
        tables_error::<Coverage>(d, base, counted_offsets(d, q), 0)
    } else {
        tables_error::<Coverage>(d, base, counted_offsets(d, r1), 0)
    }
}

/// Where the reading of the reverse substitution at `p` leaves the cursor: after its
/// substitutes, as it comes back after each coverage table it reads.
pub open spec fn reverse_end(d: Seq<u8>, p: int) -> int {
    let q = p + 4;
    let r1 = counted_end(d, q);
    let r2 = counted_end(d, r1);
    r2 + 2 + 2 * u16_at(d, r2)
}

/// Whether `s` is the reverse substitution at `p` whose offsets count from `base`.
pub open spec fn reverse_matches(d: Seq<u8>, p: int, base: int, s: ReverseSubstitution) -> bool {
    let q = p + 4;
    let r1 = counted_end(d, q);
    let r2 = counted_end(d, r1);
    &&& s.format == 1
    &&& coverage_matches(d, base + u16_at(d, p + 2), s.coverage)
    &&& s.backtrack_glyph_count == u16_at(d, q)
    &&& tables_match::<Coverage>(d, base, counted_offsets(d, q), 0, s.backtrack_coverages@)
    &&& s.lookahead_glyph_count == u16_at(d, r1)
    &&& tables_match::<Coverage>(d, base, counted_offsets(d, r1), 0, s.lookahead_coverages@)
    &&& s.substitute_count == u16_at(d, r2)
    &&& s.substitute_glyph_ids@ == glyph_list_at(d, r2)
}

impl ReverseSubstitution {
    /// Reads a reverse substitution at the cursor; its offsets count from `base`.
    pub fn parse(cursor: &mut Cursor, base: usize) -> (r: Result<Self, Error>)
        ensures
            final(cursor).data@ == old(cursor).data@,
            match r {
                Ok(s) => reverse_error(old(cursor).data@, old(cursor).pos as int, base as int) is None
                    && reverse_matches(old(cursor).data@, old(cursor).pos as int, base as int, s)
                    && final(cursor).pos == reverse_end(old(cursor).data@, old(cursor).pos as int),
                Err(e) => reverse_error(old(cursor).data@, old(cursor).pos as int, base as int) == Some(e),
            },
    {
        let format = cursor.read_u16()?;
        if format != 1 {
            return Err(Error::AnyMessage("Unrecognized reverse substitution"));
        }
        let coverage_offset = cursor.read_u16()?;
        let coverage = parse_coverage_at(cursor, base, coverage_offset)?;
        let (backtrack_glyph_count, backtrack_offsets) = parse_counted_offsets(cursor)?;
        let (lookahead_glyph_count, lookahead_offsets) = parse_counted_offsets(cursor)?;
        let substitute_count = cursor.read_u16()?;
        let substitute_glyph_ids = cursor.read_u16_array(substitute_count as usize)?;
        let backtrack_coverages = parse_tables_back(cursor, base, &backtrack_offsets, 0)?;
        let lookahead_coverages = parse_tables_back(cursor, base, &lookahead_offsets, 0)?;
        Ok(Self {
            format,
            coverage,
            backtrack_glyph_count,
            backtrack_coverages,
            lookahead_glyph_count,
            lookahead_coverages,
            substitute_count,
            substitute_glyph_ids,
        })
    }
}

/// A substitution subtable of any lookup type.
#[derive(Debug)]
pub enum Substitution {
    Single(SingleSubstitution),
    Multiple(MultipleSubstitution),
    Alternate(AlternateSubstitution),
    Ligature(LigatureSubstitution),
    Contextual(ContextualSubstitution),
    ChainedContextual(ChainedContextualSubstitution),
    Extension(ExtensionSubstitution),
    Reverse(ReverseSubstitution),
}

/// A subtable of another lookup type, reached through a 32-bit offset.
#[derive(Debug)]
pub struct ExtensionSubstitution {
    pub extension_lookup_type: u16,
    pub extension_substitution: Box<Substitution>,
}

/// The error, if any, of reading at `p` a subtable of lookup type `t`, other than an
/// extension; its offsets count from `p`.
pub open spec fn subtable_error(d: Seq<u8>, p: int, t: u16) -> Option<Error> {
    if t == 1 {
        single_error(d, p, p)
    } else if t == 2 {
        multiple_error(d, p, p)
    } else if t == 3 {
        alternate_error(d, p, p)
    } else if t == 4 {
        ligature_subst_error(d, p)
    } else if t == 5 {
        contextual_error(d, p, p)
    } else if t == 6 {
        chained_error(d, p, p)
    } else if t == 8 {
        reverse_error(d, p, p)
    } else {
        Some(Error::AnyMessage("Unrecognized lookup  type"))
    }
}

/// Whether `s` is the subtable of lookup type `t` at `p`, other than an extension.
pub open spec fn subtable_matches(d: Seq<u8>, p: int, t: u16, s: Substitution) -> bool {
    match s {
        Substitution::Single(x) => t == 1 && single_matches(d, p, p, x),
        Substitution::Multiple(x) => t == 2 && multiple_matches(d, p, p, x),
        Substitution::Alternate(x) => t == 3 && alternate_matches(d, p, p, x),
        Substitution::Ligature(x) => t == 4 && ligature_subst_matches(d, p, x),
        Substitution::Contextual(x) => t == 5 && contextual_matches(d, p, p, x),
        Substitution::ChainedContextual(x) => t == 6 && chained_matches(d, p, p, x),
        Substitution::Reverse(x) => t == 8 && reverse_matches(d, p, p, x),
        Substitution::Extension(_) => false,
    }
}

/// The error, if any, of reading an extension subtable at `p`: its lookup type and its
/// 32-bit offset from `p`, then the subtable there. An extension cannot point to another
/// extension.
pub open spec fn extension_error(d: Seq<u8>, p: int) -> Option<Error> {
    if !fits(d, p, 6) {
        Some(eof())
    } else if p + u32_at(d, p + 2) > d.len() {
        Some(out_of_bounds())
    } else {
        subtable_error(d, p + u32_at(d, p + 2), u16_at(d, p))
    }
}

/// Whether `e` is the extension subtable at `p`.
pub open spec fn extension_matches(d: Seq<u8>, p: int, e: ExtensionSubstitution) -> bool {
    &&& e.extension_lookup_type == u16_at(d, p)
    &&& subtable_matches(d, p + u32_at(d, p + 2), u16_at(d, p), *e.extension_substitution)
}

/// Where reading a subtable of lookup type `t` at `p`, other than an extension, leaves
/// the cursor.
pub open spec fn subtable_end(d: Seq<u8>, p: int, t: u16) -> int {
    if t == 1 {
        single_end(d, p)
    } else if t == 2 {
        counted_tables_end::<Sequence>(d, p + 4, p, p)
    } else if t == 3 {
        p + 6 + 2 * u16_at(d, p + 4)
    } else if t == 4 {
        counted_tables_end::<LigatureSet>(d, p + 4, p, p)
    } else if t == 5 {
        contextual_body_end(d, p + 2, p, u16_at(d, p))
    } else if t == 6 {
        chained_body_end(d, p + 2, p, u16_at(d, p))
    } else {
        reverse_end(d, p)
    }
}

/// Where reading a subtable of lookup type `t` at `p` leaves the cursor: an extension
/// leaves it after its own fields.
pub open spec fn substitution_end(d: Seq<u8>, p: int, t: u16) -> int {
    if t == 7 { p + 6 } else { subtable_end(d, p, t) }
}

/// The error, if any, of reading a subtable of lookup type `t` at `p`.
#[verifier::opaque]
pub open spec fn substitution_error(d: Seq<u8>, p: int, t: u16) -> Option<Error> {
    if t == 7 { extension_error(d, p) } else { subtable_error(d, p, t) }
}

/// Whether `s` is the subtable of lookup type `t` at `p`.
#[verifier::opaque]
pub open spec fn substitution_matches(d: Seq<u8>, p: int, t: u16, s: Substitution) -> bool {
    if t == 7 {
        s matches Substitution::Extension(e) && extension_matches(d, p, e)
    } else {
        subtable_matches(d, p, t, s)
    }
}

impl Substitution {
    /// Reads a subtable of `lookup_type` at the cursor; its offsets count from its start.
    pub fn parse(cursor: &mut Cursor, lookup_type: u16) -> (r: Result<Self, Error>)
        ensures
            final(cursor).data@ == old(cursor).data@,
            match r {
                Ok(s) => substitution_error(old(cursor).data@, old(cursor).pos as int, lookup_type) is None
                    && substitution_matches(old(cursor).data@, old(cursor).pos as int, lookup_type, s)
                    && final(cursor).pos == substitution_end(old(cursor).data@, old(cursor).pos as int, lookup_type),
                Err(e) => substitution_error(old(cursor).data@, old(cursor).pos as int, lookup_type) == Some(e),
            },
            !(1 <= lookup_type <= 8) ==> final(cursor).pos == old(cursor).pos,
    {
        proof {
            reveal(substitution_error);
            reveal(substitution_matches);
        }
        if lookup_type == 7 {
            Ok(Self::Extension(ExtensionSubstitution::parse(cursor)?))
        } else {
            Self::parse_subtable(cursor, lookup_type)
        }
    }

    /// Reads a subtable of `lookup_type`, which is not the extension type.
    fn parse_subtable(cursor: &mut Cursor, lookup_type: u16) -> (r: Result<Self, Error>)
        ensures
            final(cursor).data@ == old(cursor).data@,
            match r {
                Ok(s) => subtable_error(old(cursor).data@, old(cursor).pos as int, lookup_type) is None
                    && subtable_matches(old(cursor).data@, old(cursor).pos as int, lookup_type, s)
                    && final(cursor).pos == subtable_end(old(cursor).data@, old(cursor).pos as int, lookup_type),
                Err(e) => subtable_error(old(cursor).data@, old(cursor).pos as int, lookup_type) == Some(e),
            },
            !(1 <= lookup_type <= 6 || lookup_type == 8) ==> final(cursor).pos == old(cursor).pos,
    {
        let base = cursor.position();
        if lookup_type == 1 {
            Ok(Self::Single(SingleSubstitution::parse(cursor, base)?))
        } else if lookup_type == 2 {
            Ok(Self::Multiple(MultipleSubstitution::parse(cursor, base)?))
        } else if lookup_type == 3 {
            Ok(Self::Alternate(AlternateSubstitution::parse(cursor, base)?))
        } else if lookup_type == 4 {
            Ok(Self::Ligature(LigatureSubstitution::parse(cursor)?))
        } else if lookup_type == 5 {
            Ok(Self::Contextual(ContextualSubstitution::parse(cursor, base)?))
        } else if lookup_type == 6 {
            Ok(Self::ChainedContextual(ChainedContextualSubstitution::parse(cursor, base)?))
        } else if lookup_type == 8 {
            Ok(Self::Reverse(ReverseSubstitution::parse(cursor, base)?))
        } else {
            Err(Error::AnyMessage("Unrecognized lookup  type"))
        }
    }
}

impl ExtensionSubstitution {
    /// Reads an extension subtable at the cursor and the subtable it points to; the
    /// cursor is left after the extension's own fields.
    pub fn parse(cursor: &mut Cursor) -> (r: Result<Self, Error>)
        ensures
            final(cursor).data@ == old(cursor).data@,
            match r {
                Ok(e) => extension_error(old(cursor).data@, old(cursor).pos as int) is None
                    && extension_matches(old(cursor).data@, old(cursor).pos as int, e)
                    && final(cursor).pos == old(cursor).pos + 6,
                Err(e) => extension_error(old(cursor).data@, old(cursor).pos as int) == Some(e),
            },
    {
        let base = cursor.position();
        cursor.require(6)?;
        let extension_lookup_type = cursor.read_u16()?;
        let extension_offset = cursor.read_u32()?;
        let saved = cursor.position();
        cursor.seek_rel(base, extension_offset as usize)?;
        let substitution = Substitution::parse_subtable(cursor, extension_lookup_type)?;
        cursor.seek(saved)?;
        Ok(Self { extension_lookup_type, extension_substitution: Box::new(substitution) })
    }
}

} // verus!
