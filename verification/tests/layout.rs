use std::collections::HashMap;
use ttfkit::cursor::Cursor;
use ttfkit::error::{Error, ReadError};
use ttfkit::table::common::class_def::ClassDefinition;
use ttfkit::table::common::coverage::Coverage;
use ttfkit::table::common::lang_sys::LangSys;
use ttfkit::table::common::script::{Script, ScriptList};
use ttfkit::table::gsub::sets::ChainedClassSeqRuleSet;
use ttfkit::table::gsub::sub::{
    AlternateSubstitution, ChainedContextualSubstitution, ContextualSubstitution, ExtensionSubstitution, Ligature,
    LigatureSubstitution, MultipleSubstitution, ReverseSubstitution, SingleSubstitution, SubclassSet, Substitution,
    SubruleSet,
};
use ttfkit::table::gsub::Gsub;
use ttfkit::table::{TableDirectory, TableRecord, GSUB};
use ttfkit::tags::Tag;

fn words(ws: &[u16]) -> Vec<u8> {
    let mut out = Vec::new();
    for w in ws {
        out.push((w >> 8) as u8);
        out.push((w & 0xff) as u8);
    }
    out
}

fn tag_words(t: &[u8; 4]) -> [u16; 2] {
    [((t[0] as u16) << 8) | t[1] as u16, ((t[2] as u16) << 8) | t[3] as u16]
}

/// A GSUB table at the start of the data: script DFLT whose default language system uses
/// feature 0, `liga`, whose lookup 0 holds one single substitution (format 1) of glyph 5
/// by delta 10.
fn small_gsub() -> Vec<u8> {
    let dflt = tag_words(b"DFLT");
    let liga = tag_words(b"liga");
    let mut w: Vec<u16> = Vec::new();
    w.extend_from_slice(&[1, 0, 10, 30, 44]); // header
    w.extend_from_slice(&[1, dflt[0], dflt[1], 8]); // script list at 10
    w.extend_from_slice(&[4, 0]); // script at 18
    w.extend_from_slice(&[0, 0xffff, 1, 0]); // default language system at 22
    w.extend_from_slice(&[1, liga[0], liga[1], 8]); // feature list at 30
    w.extend_from_slice(&[0, 1, 0]); // feature at 38
    w.extend_from_slice(&[1, 4]); // lookup list at 44
    w.extend_from_slice(&[1, 0, 1, 8]); // lookup at 48
    w.extend_from_slice(&[1, 6, 10]); // single substitution at 56
    w.extend_from_slice(&[1, 1, 5]); // coverage at 62
    words(&w)
}

fn directory(len: usize) -> TableDirectory {
    let mut t: TableDirectory = HashMap::new();
    t.insert(GSUB, TableRecord { checksum: 0, table_offset: 0, length: len });
    t
}

#[test]
fn gsub_gives_the_substitutions_of_a_feature() {
    let data = small_gsub();
    let tables = directory(data.len());
    let mut gsub = Gsub::parse(&data, &tables).unwrap();
    assert!(gsub.loaded_subsitutions.is_empty());
    assert_eq!(gsub.feature_list.features.len(), 1);
    assert_eq!(gsub.lookup_list.lookups.len(), 1);
    assert!(gsub.feature_variation_list.is_none());
    let subs = gsub.get_substitution(Tag::from_bytes(*b"DFLT"), None, Tag::from_bytes(*b"liga")).unwrap();
    assert_eq!(subs.len(), 1);
    match &subs[0] {
        Substitution::Single(SingleSubstitution::Format1 { coverage, delta_glyph_id }) => {
            assert_eq!(*delta_glyph_id, 10);
            assert_eq!(coverage.coverage_index(5), Some(0));
        },
        _ => panic!("expected a single substitution"),
    }
    // The script table is read once; asking again gives the same.
    let again = gsub.get_substitution(Tag::from_bytes(*b"DFLT"), None, Tag::from_bytes(*b"liga")).unwrap();
    assert_eq!(again.len(), 1);
    assert!(gsub.script_list.get_parsed(&Tag::from_bytes(*b"DFLT")).is_some());
}

#[test]
fn gsub_reports_what_it_cannot_find() {
    let data = small_gsub();
    let tables = directory(data.len());
    let mut gsub = Gsub::parse(&data, &tables).unwrap();
    let r = gsub.get_substitution(Tag::from_bytes(*b"DFLT"), None, Tag::from_bytes(*b"kern"));
    assert!(matches!(r, Err(Error::AnyMessage("Failed to get the requested feature."))));
    let r = gsub.get_substitution(Tag::from_bytes(*b"DFLT"), Some(Tag::from_bytes(*b"ENG ")), Tag::from_bytes(*b"liga"));
    assert!(matches!(r, Err(Error::InvalidTag(0x454E4720))));
    let r = gsub.get_substitution(Tag::from_bytes(*b"latn"), None, Tag::from_bytes(*b"liga"));
    assert!(matches!(r, Err(Error::AnyMessage("Record does not exist in the script_records"))));
}

#[test]
fn gsub_needs_its_table() {
    let data = small_gsub();
    let tables: TableDirectory = HashMap::new();
    assert!(matches!(Gsub::parse(&data, &tables), Err(Error::MissingTable("GSUB"))));
    let short = &data[..8];
    let tables = directory(short.len());
    assert!(matches!(Gsub::parse(short, &tables), Err(Error::ReadError(ReadError::UnexpectedEof))));
}

#[test]
fn script_list_reads_scripts_on_demand() {
    let data = small_gsub();
    let mut cursor = Cursor::set(&data, 10);
    let mut list = ScriptList::parse(&mut cursor).unwrap();
    let dflt = Tag::from_bytes(*b"DFLT");
    assert!(list.get_parsed(&dflt).is_none());
    let mut cursor = Cursor::set(&data, 0);
    let script = list.get_or_parse(&mut cursor, &dflt).unwrap();
    let default = script.default_lang_sys.as_ref().unwrap();
    assert_eq!(default.feature_indices, vec![0]);
    assert_eq!(default.required_feature_index, 0xffff);
    assert!(script.lang_sys.is_empty());
    assert!(list.get_parsed(&dflt).is_some());
}

#[test]
fn script_list_parses_every_script() {
    let data = small_gsub();
    let mut cursor = Cursor::set(&data, 10);
    let mut list = ScriptList::parse(&mut cursor).unwrap();
    list.parse_all(&mut cursor).unwrap();
    let script = list.get_parsed(&Tag::from_bytes(*b"DFLT")).unwrap();
    assert_eq!(script.default_lang_sys.as_ref().unwrap().feature_indices, vec![0]);
    assert!(list.get_parsed(&Tag::from_bytes(*b"latn")).is_none());
    // The record is gone once read.
    let r = list.get_or_parse(&mut cursor, &Tag::from_bytes(*b"DFLT"));
    assert!(r.is_ok());
}

#[test]
fn script_with_language_systems() {
    // Script at 0: no default, two language systems; each record is read where the
    // language system before it left the cursor.
    let eng = tag_words(b"ENG ");
    let w: Vec<u16> = vec![0, 1, eng[0], eng[1], 10, 0, 0xffff, 1, 3];
    let data = words(&w);
    let mut cursor = Cursor::set(&data, 0);
    let script = Script::parse(&mut cursor).unwrap();
    assert!(script.default_lang_sys.is_none());
    let ls: &LangSys = script.lang_sys.get(&0x454E4720).unwrap();
    assert_eq!(ls.feature_indices, vec![3]);
}

#[test]
fn coverage_formats() {
    let data = words(&[1, 3, 5, 7, 9]);
    let c = Coverage::parse(&mut Cursor::set(&data, 0)).unwrap();
    assert_eq!(c.coverage_index(7), Some(1));
    assert_eq!(c.coverage_index(8), None);
    let data = words(&[2, 1, 10, 20, 100]);
    let c = Coverage::parse(&mut Cursor::set(&data, 0)).unwrap();
    assert_eq!(c.coverage_index(15), Some(105));
    assert_eq!(c.coverage_index(21), None);
    let data = words(&[3, 0]);
    assert!(matches!(Coverage::parse(&mut Cursor::set(&data, 0)), Err(Error::Unknown)));
    let data = words(&[1, 4, 5]);
    assert!(matches!(Coverage::parse(&mut Cursor::set(&data, 0)), Err(Error::ReadError(ReadError::UnexpectedEof))));
}

#[test]
fn class_definitions() {
    let data = words(&[1, 10, 2, 4, 5]);
    match ClassDefinition::parse(&mut Cursor::set(&data, 0)).unwrap() {
        ClassDefinition::Format1 { start_glyph_id, glyph_count, class_values } => {
            assert_eq!((start_glyph_id, glyph_count), (10, 2));
            assert_eq!(class_values, vec![4, 5]);
        },
        _ => panic!("expected format 1"),
    }
    let data = words(&[2, 1, 3, 8, 2]);
    match ClassDefinition::parse(&mut Cursor::set(&data, 0)).unwrap() {
        ClassDefinition::Format2 { class_range_count, class_range_records } => {
            assert_eq!(class_range_count, 1);
            assert_eq!(class_range_records[0].class, 2);
        },
        _ => panic!("expected format 2"),
    }
}

#[test]
fn multiple_and_alternate_substitutions() {
    // format, coverage offset, count, sequence offset; sequence; coverage.
    let data = words(&[1, 14, 1, 8, 2, 40, 41, 1, 1, 9]);
    let m = MultipleSubstitution::parse(&mut Cursor::set(&data, 0), 0).unwrap();
    assert_eq!(m.sequences.len(), 1);
    assert_eq!(m.sequences[0].substitute_glyph_ids, vec![40, 41]);
    assert_eq!(m.coverage.coverage_index(9), Some(0));
    let a = AlternateSubstitution::parse(&mut Cursor::set(&data, 0), 0).unwrap();
    assert_eq!(a.alternate_sets[0].alternate_glyph_ids, vec![40, 41]);
    let bad = words(&[1, 12, 1, 60]);
    assert!(matches!(MultipleSubstitution::parse(&mut Cursor::set(&bad, 0), 0), Err(Error::ReadError(ReadError::OutOfBounds))));
}

#[test]
fn ligatures() {
    // format, coverage offset, set count, set offset; set: count, ligature offset;
    // ligature: glyph, component count, component; coverage.
    let data = words(&[1, 18, 1, 8, 1, 12, 99, 2, 7, 1, 1, 6]);
    let l = LigatureSubstitution::parse(&mut Cursor::set(&data, 0)).unwrap();
    assert_eq!(l.ligature_sets.len(), 1);
    let lig = &l.ligature_sets[0].ligatures[0];
    assert_eq!(lig.ligature_glyph, 99);
    assert_eq!(lig.component_glyph_ids, vec![7]);
    let zero = words(&[99, 0]);
    assert!(matches!(Ligature::parse(&mut Cursor::set(&zero, 0)), Err(Error::AnyMessage("Unrecognized ligature"))));
}

#[test]
fn contextual_format3_and_unknown_formats() {
    // format 3, glyph count 1, lookup count 1, coverage offset, lookup record; coverage.
    let data = words(&[3, 1, 1, 12, 0, 2, 1, 1, 4]);
    match ContextualSubstitution::parse(&mut Cursor::set(&data, 0), 0).unwrap() {
        ContextualSubstitution::Format3 { glyph_count, lookup_count, coverages, lookup_records } => {
            assert_eq!((glyph_count, lookup_count), (1, 1));
            assert_eq!(coverages[0].coverage_index(4), Some(0));
            assert_eq!(lookup_records[0].lookup_list_index, 2);
        },
        _ => panic!("expected format 3"),
    }
    let data = words(&[9]);
    assert!(matches!(ContextualSubstitution::parse(&mut Cursor::set(&data, 0), 0),
        Err(Error::AnyMessage("Unrecognized Contextual substitution"))));
    assert!(matches!(ChainedContextualSubstitution::parse(&mut Cursor::set(&data, 0), 0),
        Err(Error::AnyMessage("Unrecognized chained contextual substitution"))));
    assert!(matches!(ReverseSubstitution::parse(&mut Cursor::set(&data, 0), 0),
        Err(Error::AnyMessage("Unrecognized reverse substitution"))));
    assert!(matches!(Substitution::parse(&mut Cursor::set(&data, 0), 9),
        Err(Error::AnyMessage("Unrecognized lookup  type"))));
}

#[test]
fn chained_format3() {
    // format 3; one backtrack coverage, one input coverage, no lookahead, one record;
    // then the coverage at 18.
    let data = words(&[3, 1, 18, 1, 18, 0, 1, 0, 5, 1, 1, 8]);
    match ChainedContextualSubstitution::parse(&mut Cursor::set(&data, 0), 0).unwrap() {
        ChainedContextualSubstitution::Format3 {
            backtrack_glyph_count, input_glyph_count, lookahead_glyph_count, input_coverages, seq_lookup_records, ..
        } => {
            assert_eq!((backtrack_glyph_count, input_glyph_count, lookahead_glyph_count), (1, 1, 0));
            assert_eq!(input_coverages[0].coverage_index(8), Some(0));
            assert_eq!(seq_lookup_records[0].lookup_list_index, 5);
        },
        _ => panic!("expected format 3"),
    }
}

#[test]
fn reverse_substitution() {
    // format 1, coverage offset 14, no backtrack, no lookahead, one substitute; coverage.
    let data = words(&[1, 14, 0, 0, 1, 77, 0, 1, 1, 3]);
    let r = ReverseSubstitution::parse(&mut Cursor::set(&data, 0), 0).unwrap();
    assert_eq!(r.substitute_glyph_ids, vec![77]);
    assert_eq!(r.coverage.coverage_index(3), Some(0));
}

#[test]
fn extension_reads_the_subtable_it_points_to() {
    // extension of type 1 at 0 with offset 8; single substitution at 8 (format 1, delta 3);
    // coverage at 14.
    let data = words(&[1, 0, 8, 0, 1, 6, 3, 1, 1, 2]);
    let e = ExtensionSubstitution::parse(&mut Cursor::set(&data, 0)).unwrap();
    assert_eq!(e.extension_lookup_type, 1);
    assert!(matches!(*e.extension_substitution, Substitution::Single(SingleSubstitution::Format1 { delta_glyph_id: 3, .. })));
    let s = Substitution::parse(&mut Cursor::set(&data, 0), 7).unwrap();
    assert!(matches!(s, Substitution::Extension(_)));
    let nested = words(&[7, 0, 0, 0]);
    assert!(matches!(ExtensionSubstitution::parse(&mut Cursor::set(&nested, 0)),
        Err(Error::AnyMessage("Unrecognized lookup  type"))));
}

#[test]
fn chained_class_rule_set_counts_from_its_start() {
    // set at 0: one rule at offset 4; rule: no backtrack, input count 2 (one class after
    // the first), no lookahead, one sequence lookup record.
    let data = words(&[1, 4, 0, 2, 6, 0, 1, 0, 3]);
    let s = ChainedClassSeqRuleSet::parse(&mut Cursor::set(&data, 0), 0).unwrap();
    let rule = &s.chained_class_seq_rules[0];
    assert_eq!(rule.input_sequences, vec![6]);
    assert_eq!(rule.seq_lookup_records[0].lookup_list_index, 3);
}

#[test]
fn subtables_leave_the_cursor_where_their_reading_ends() {
    let data = words(&[1, 14, 1, 8, 2, 40, 41, 1, 1, 9]);
    let mut c = Cursor::set(&data, 0);
    MultipleSubstitution::parse(&mut c, 0).unwrap();
    assert_eq!(c.position(), 14);
    let mut c = Cursor::set(&data, 0);
    AlternateSubstitution::parse(&mut c, 0).unwrap();
    assert_eq!(c.position(), 8);
    let data = words(&[1, 18, 1, 8, 1, 12, 99, 2, 7, 1, 1, 6]);
    let mut c = Cursor::set(&data, 0);
    LigatureSubstitution::parse(&mut c).unwrap();
    assert_eq!(c.position(), 18);
    let data = words(&[1, 14, 0, 0, 1, 77, 0, 1, 1, 3]);
    let mut c = Cursor::set(&data, 0);
    ReverseSubstitution::parse(&mut c, 0).unwrap();
    assert_eq!(c.position(), 12);
    let data = words(&[3, 1, 18, 1, 18, 0, 1, 0, 5, 1, 1, 8]);
    let mut c = Cursor::set(&data, 0);
    ChainedContextualSubstitution::parse(&mut c, 0).unwrap();
    assert_eq!(c.position(), 18);
    // A rule set with one rule at offset 4: count 1 and one offset, then the rule.
    let data = words(&[1, 4, 1, 0]);
    let mut c = Cursor::set(&data, 0);
    let set = SubruleSet::parse(&mut c, 0).unwrap();
    assert_eq!(set.subrules.len(), 1);
    assert_eq!(c.position(), 4);
    let mut c = Cursor::set(&data, 0);
    SubclassSet::parse(&mut c, 0).unwrap();
    assert_eq!(c.position(), 4);
}

#[test]
fn unknown_lookup_type_leaves_the_cursor() {
    let data = [0u8, 1, 0, 4, 0, 10, 0, 1, 0, 1, 0, 5];
    let mut cursor = Cursor::set(&data, 2);
    assert!(matches!(Substitution::parse(&mut cursor, 9), Err(Error::AnyMessage("Unrecognized lookup  type"))));
    assert_eq!(cursor.position(), 2);
    assert!(matches!(Substitution::parse(&mut cursor, 0), Err(Error::AnyMessage("Unrecognized lookup  type"))));
    assert_eq!(cursor.position(), 2);
}
