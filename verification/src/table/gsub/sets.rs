use vstd::prelude::*;
use crate::cursor::{Cursor, fits, u16_at, u16_seq};
use crate::error::{Error, eof};
use crate::table::common::offset_table::{OffsetTable, parse_counted_tables, counted_tables_error, counted_tables_match, counted_tables_end};
use crate::table::common::sequence::{SequenceLookup, sequence_lookup_at};
use crate::table::gsub::sub::{chain_q1, chain_q2, chain_q3, chain_rule_end, chain_rule_error, minus_one, parse_chain_head};

verus! {

/// `n` consecutive sequence lookup records starting at `p`.
pub open spec fn sequence_lookups_at(d: Seq<u8>, p: int, n: int) -> Seq<SequenceLookup> {
    Seq::new(n as nat, |i: int| sequence_lookup_at(d, p + 4 * i))
}

/// Reads `n` consecutive sequence lookup records.
fn parse_sequence_lookups(cursor: &mut Cursor, n: u16) -> (r: Result<Vec<SequenceLookup>, Error>)
    ensures
        final(cursor).data@ == old(cursor).data@,
        r is Ok <==> fits(old(cursor).data@, old(cursor).pos as int, 4 * n),
        r matches Ok(v) ==> v@ == sequence_lookups_at(old(cursor).data@, old(cursor).pos as int, n as int)
            && final(cursor).pos == old(cursor).pos + 4 * n,
        r matches Err(e) ==> e == eof(),
{
    let ghost d = cursor.data@;
    let ghost p = cursor.pos as int;
    cursor.require(4 * n as usize)?;
    let mut out: Vec<SequenceLookup> = Vec::new();
    let mut i: u16 = 0;
    while i < n
        invariant
            i <= n,
            cursor.data@ == d,
            d == old(cursor).data@,
            p == old(cursor).pos,
            cursor.pos == p + 4 * i,
            fits(d, p, 4 * n),
            out@ == sequence_lookups_at(d, p, i as int),
        decreases n - i,
    {
        out.push(SequenceLookup::parse(cursor)?);
        i = i + 1;
        assert(out@ =~= sequence_lookups_at(d, p, i as int));
    }
    Ok(out)
}

/// A chained rule of a class sequence context: backtrack, input after the first and
/// lookahead classes, and the lookups to apply.
#[derive(Debug, Clone)]
pub struct ChainedClassSeqRule {
    pub backtrack_sequences: Vec<u16>,
    pub input_sequences: Vec<u16>,
    pub lookahead_sequences: Vec<u16>,
    pub seq_lookup_records: Vec<SequenceLookup>,
}

impl OffsetTable for ChainedClassSeqRule {
    open spec fn table_end(d: Seq<u8>, p: int, base: int) -> int {
        chain_rule_end(d, p)
    }

    open spec fn table_error(d: Seq<u8>, p: int, base: int) -> Option<Error> {
        chain_rule_error(d, p)
    }

    open spec fn table_matches(d: Seq<u8>, p: int, base: int, v: Self) -> bool {
        let q1 = chain_q1(d, p);
        let q2 = chain_q2(d, p);
        let q3 = chain_q3(d, p);
        &&& v.backtrack_sequences@ == u16_seq(d, p + 2, u16_at(d, p) as int)
        &&& v.input_sequences@ == u16_seq(d, q1 + 2, minus_one(u16_at(d, q1)))
        &&& v.lookahead_sequences@ == u16_seq(d, q2 + 2, u16_at(d, q2) as int)
        &&& v.seq_lookup_records@ == sequence_lookups_at(d, q3 + 2, u16_at(d, q3) as int)
    }

    fn parse_table(cursor: &mut Cursor, base: usize) -> (r: Result<Self, Error>) {
        ChainedClassSeqRule::parse(cursor, base)
    }
}

impl ChainedClassSeqRule {
    /// Reads the rule at the cursor; it holds no offsets, so `_base` is not used.
    pub fn parse(cursor: &mut Cursor, _base: usize) -> (r: Result<Self, Error>)
        ensures
            final(cursor).data@ == old(cursor).data@,
            match r {
                Ok(s) => Self::table_error(old(cursor).data@, old(cursor).pos as int, 0) is None
                    && Self::table_matches(old(cursor).data@, old(cursor).pos as int, 0, s)
                    && final(cursor).pos == Self::table_end(old(cursor).data@, old(cursor).pos as int, 0),
                Err(e) => Self::table_error(old(cursor).data@, old(cursor).pos as int, 0) == Some(e),
            },
    {
        let h = parse_chain_head(cursor)?;
        let seq_lookup_records = parse_sequence_lookups(cursor, h.record_count)?;
        Ok(Self {
            backtrack_sequences: h.backtrack,
            input_sequences: h.input,
            lookahead_sequences: h.lookahead,
            seq_lookup_records,
        })
    }
}

/// The chained class rules that start with one class; their offsets count from the
/// start of the set.
#[derive(Debug, Clone)]
pub struct ChainedClassSeqRuleSet {
    pub chained_class_seq_rules: Vec<ChainedClassSeqRule>,
}

impl ChainedClassSeqRuleSet {
    pub fn parse(cursor: &mut Cursor, base: usize) -> (r: Result<Self, Error>)
        ensures
            final(cursor).data@ == old(cursor).data@,
            match r {
                Ok(s) => counted_tables_error::<ChainedClassSeqRule>(old(cursor).data@, old(cursor).pos as int,
                        old(cursor).pos as int, base as int) is None
                    && counted_tables_match::<ChainedClassSeqRule>(old(cursor).data@, old(cursor).pos as int,
                        old(cursor).pos as int, base as int, s.chained_class_seq_rules@)
                    && final(cursor).pos == counted_tables_end::<ChainedClassSeqRule>(old(cursor).data@,
                        old(cursor).pos as int, old(cursor).pos as int, base as int),
                Err(e) => counted_tables_error::<ChainedClassSeqRule>(old(cursor).data@, old(cursor).pos as int,
                    old(cursor).pos as int, base as int) == Some(e),
            },
    {
        let start = cursor.position();
        Ok(Self { chained_class_seq_rules: parse_counted_tables(cursor, start, base)? })
    }
}

/// The class rules of a sequence context that start with one class.
pub struct ClassSequenceRuleSet {
    pub class_sequence_rules: Vec<ClassSequenceRule>,
}

/// A class rule of a sequence context.
pub struct ClassSequenceRule {
    pub glyph_count: u16,
    pub seq_lookup_count: u16,
    pub input_sequence: Vec<u16>,
    pub seq_lookup_records: Vec<SequenceLookup>,
}

} // verus!
