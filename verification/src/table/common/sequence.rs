use vstd::prelude::*;
use crate::cursor::{Cursor, fits, u16_at, u16_seq};
use crate::error::{Error, eof};

verus! {

/// A sequence lookup record: apply a lookup at a position of the input sequence.
#[derive(Debug, Clone, Copy)]
pub struct SequenceLookup {
    pub sequence_index: u16,
    pub lookup_list_index: u16,
}

/// The four-byte sequence lookup record at `p`.
pub open spec fn sequence_lookup_at(d: Seq<u8>, p: int) -> SequenceLookup {
    SequenceLookup { sequence_index: u16_at(d, p), lookup_list_index: u16_at(d, p + 2) }
}

/// A sequence lookup record: the sequence index first, then the lookup list index.
pub proof fn lemma_sequence_lookup_layout(d: Seq<u8>, p: int)
    ensures
        sequence_lookup_at(d, p).sequence_index == u16_at(d, p),
        sequence_lookup_at(d, p).lookup_list_index == u16_at(d, p + 2),
{
}

impl SequenceLookup {
    pub fn parse(cursor: &mut Cursor) -> (r: Result<Self, Error>)
        ensures
            final(cursor).data@ == old(cursor).data@,
            r is Ok <==> fits(old(cursor).data@, old(cursor).pos as int, 4),
            r matches Ok(v) ==> v == sequence_lookup_at(old(cursor).data@, old(cursor).pos as int)
                && final(cursor).pos == old(cursor).pos + 4,
            r matches Err(e) ==> e == eof(),
    {
        cursor.require(4)?;
        Ok(Self { sequence_index: cursor.read_u16()?, lookup_list_index: cursor.read_u16()? })
    }
}

/// The head of a sequence context table: by glyphs (format 1) or by classes (format 2).
#[derive(Debug, Clone)]
pub enum SequenceContext {
    Format1 { coverage_offset: u16, seq_rule_set_count: u16, seq_rule_set_offsets: Vec<u16> },
    Format2 { coverage_offset: u16, class_def_offset: u16, class_seq_rule_count: u16, class_seq_rule_offsets: Vec<u16> },
}

/// The error, if any, of reading a sequence context table at `p`: the format and the
/// coverage offset come first.
pub open spec fn sequence_context_error(d: Seq<u8>, p: int) -> Option<Error> {
    if !fits(d, p, 4) {
        Some(eof())
    } else if u16_at(d, p) == 1 {
        if !fits(d, p + 4, 2) || !fits(d, p + 6, 2 * u16_at(d, p + 4)) { Some(eof()) } else { None }
    } else if u16_at(d, p) == 2 {
        if !fits(d, p + 4, 4) || !fits(d, p + 8, 2 * u16_at(d, p + 6)) { Some(eof()) } else { None }
    } else {
        Some(Error::Unknown)
    }
}

/// Whether `c` is the sequence context table at `p`.
pub open spec fn sequence_context_matches(d: Seq<u8>, p: int, c: SequenceContext) -> bool {
    match c {
        SequenceContext::Format1 { coverage_offset, seq_rule_set_count, seq_rule_set_offsets } => u16_at(d, p) == 1
            && coverage_offset == u16_at(d, p + 2) && seq_rule_set_count == u16_at(d, p + 4)
            && seq_rule_set_offsets@ == u16_seq(d, p + 6, seq_rule_set_count as int),
        SequenceContext::Format2 { coverage_offset, class_def_offset, class_seq_rule_count, class_seq_rule_offsets } =>
            u16_at(d, p) == 2 && coverage_offset == u16_at(d, p + 2) && class_def_offset == u16_at(d, p + 4)
            && class_seq_rule_count == u16_at(d, p + 6)
            && class_seq_rule_offsets@ == u16_seq(d, p + 8, class_seq_rule_count as int),
    }
}

/// Where the sequence context table at `p` ends: after its offsets.
pub open spec fn sequence_context_end(d: Seq<u8>, p: int) -> int {
    if u16_at(d, p) == 1 { p + 6 + 2 * u16_at(d, p + 4) } else { p + 8 + 2 * u16_at(d, p + 6) }
}

impl SequenceContext {
    pub fn parse(cursor: &mut Cursor) -> (r: Result<Self, Error>)
        ensures
            final(cursor).data@ == old(cursor).data@,
            match r {
                Ok(c) => sequence_context_error(old(cursor).data@, old(cursor).pos as int) is None
                    && sequence_context_matches(old(cursor).data@, old(cursor).pos as int, c)
                    && final(cursor).pos == sequence_context_end(old(cursor).data@, old(cursor).pos as int),
                Err(e) => sequence_context_error(old(cursor).data@, old(cursor).pos as int) == Some(e),
            },
    {
        cursor.require(4)?;
        let format = cursor.read_u16()?;
        let coverage_offset = cursor.read_u16()?;
        if format == 1 {
            let seq_rule_set_count = cursor.read_u16()?;
            let seq_rule_set_offsets = cursor.read_u16_array(seq_rule_set_count as usize)?;
            Ok(Self::Format1 { coverage_offset, seq_rule_set_count, seq_rule_set_offsets })
        } else if format == 2 {
            cursor.require(4)?;
            let class_def_offset = cursor.read_u16()?;
            let class_seq_rule_count = cursor.read_u16()?;
            let class_seq_rule_offsets = cursor.read_u16_array(class_seq_rule_count as usize)?;
            Ok(Self::Format2 { coverage_offset, class_def_offset, class_seq_rule_count, class_seq_rule_offsets })
        } else {
            Err(Error::Unknown)
        }
    }
}

/// The offsets of the rules of a sequence rule set.
#[derive(Debug, Clone)]
pub struct SequenceRuleSet {
    pub seq_rule_count: u16,
    pub seq_rule_offsets: Vec<u16>,
}

impl SequenceRuleSet {
    pub fn parse(cursor: &mut Cursor) -> (r: Result<Self, Error>)
        ensures
            final(cursor).data@ == old(cursor).data@,
            r is Ok <==> fits(old(cursor).data@, old(cursor).pos as int, 2)
                && fits(old(cursor).data@, old(cursor).pos + 2, 2 * u16_at(old(cursor).data@, old(cursor).pos as int)),
            r matches Ok(s) ==> s.seq_rule_count == u16_at(old(cursor).data@, old(cursor).pos as int)
                && s.seq_rule_offsets@ == u16_seq(old(cursor).data@, old(cursor).pos + 2, s.seq_rule_count as int)
                && final(cursor).pos == old(cursor).pos + 2 + 2 * s.seq_rule_count,
            r matches Err(e) ==> e == eof(),
    {
        let seq_rule_count = cursor.read_u16()?;
        let seq_rule_offsets = cursor.read_u16_array(seq_rule_count as usize)?;
        Ok(Self { seq_rule_count, seq_rule_offsets })
    }
}

} // verus!
