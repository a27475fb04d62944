use vstd::prelude::*;
use std::collections::HashMap;
use crate::cursor::{Cursor, fits, u16_at, u32_at};
use crate::error::{Error, ReadError, eof, out_of_bounds};
use crate::spec_util::{first_err, lemma_first_err_skip, lemma_first_err_none};
use crate::table::common::lang_sys::{LangSys, LangSysRecord, lang_sys_end, lang_sys_error, lang_sys_matches,
    lang_sys_record_error};
use crate::tags::{Tag, be_bytes, tag_value};
use vstd::std_specs::iter::IteratorSpec;

verus! {

broadcast use vstd::std_specs::hash::group_hash_axioms;

/// A script record: the script's tag and the offset of its table from the script list.
#[derive(Debug, Clone, Copy)]
pub struct ScriptRecords {
    pub script_tag: [u8; 4],
    pub script_offset: u16,
}

/// The six-byte script record at `p`.
pub open spec fn script_record_at(d: Seq<u8>, p: int) -> ScriptRecords {
    ScriptRecords { script_tag: be_bytes(u32_at(d, p)), script_offset: u16_at(d, p + 4) }
}

/// A script record: the four tag bytes first, then the script table offset.
pub proof fn lemma_script_record_layout(d: Seq<u8>, p: int)
    ensures
        script_record_at(d, p).script_tag == be_bytes(u32_at(d, p)),
        script_record_at(d, p).script_offset == u16_at(d, p + 4),
{
}

impl ScriptRecords {
    pub fn parse(cursor: &mut Cursor) -> (r: Result<Self, Error>)
        ensures
            final(cursor).data@ == old(cursor).data@,
            r is Ok <==> fits(old(cursor).data@, old(cursor).pos as int, 6),
            r matches Ok(v) ==> v == script_record_at(old(cursor).data@, old(cursor).pos as int)
                && final(cursor).pos == old(cursor).pos + 6,
            r matches Err(e) ==> e == eof(),
    {
        cursor.require(6)?;
        let script_tag = Tag::from_u32(cursor.read_u32()?).as_bytes();
        let script_offset = cursor.read_u16()?;
        Ok(Self { script_tag, script_offset })
    }
}

/// A script table: its default language system and its other language systems, keyed
/// by their tags read as big-endian `u32` values.
#[derive(Debug)]
pub struct Script {
    pub default_lang_sys: Option<LangSys>,
    pub lang_sys: HashMap<u32, LangSys>,
}

/// Where language system record `j` of a script table at `p` is read: the first right
/// after the two counts, each next one where reading the language system of the one
/// before left the cursor.
pub open spec fn script_record_pos(d: Seq<u8>, p: int, j: nat) -> int
    decreases j,
{
    if j == 0 {
        p + 4
    } else {
        lang_sys_end(d, p + u16_at(d, script_record_pos(d, p, (j - 1) as nat) + 4))
    }
}

/// Where reading the script table at `p` leaves the cursor: at the end of its default
/// language system when it has one, else after its last language system record.
pub open spec fn script_end(d: Seq<u8>, p: int) -> int {
    if u16_at(d, p) == 0 {
        script_record_pos(d, p, u16_at(d, p + 2) as nat)
    } else {
        lang_sys_end(d, p + u16_at(d, p))
    }
}

/// The error, if any, of reading language system record `j` of a script table at `p`.
pub open spec fn script_record_error(d: Seq<u8>, p: int, j: int) -> Option<Error> {
    lang_sys_record_error(d, script_record_pos(d, p, j as nat), p)
}

/// The errors of the language system records, by index.
pub open spec fn script_record_errors(d: Seq<u8>, p: int) -> spec_fn(int) -> Option<Error> {
    |j: int| script_record_error(d, p, j)
}

/// The error, if any, of reading a script table at `p`.
pub open spec fn script_error(d: Seq<u8>, p: int) -> Option<Error> {
    if !fits(d, p, 4) {
        Some(eof())
    } else if first_err(script_record_errors(d, p), 0, u16_at(d, p + 2) as int) is Some {
        first_err(script_record_errors(d, p), 0, u16_at(d, p + 2) as int)
    } else if u16_at(d, p) == 0 {
        None
    } else if p + u16_at(d, p) > d.len() {
        Some(out_of_bounds())
    } else {
        lang_sys_error(d, p + u16_at(d, p))
    }
}

/// The tag of language system record `j` of a script table at `p`.
pub open spec fn script_record_tag(d: Seq<u8>, p: int, j: int) -> u32 {
    tag_value(be_bytes(u32_at(d, script_record_pos(d, p, j as nat))))
}

/// Where the language system of record `j` of a script table at `p` stands.
pub open spec fn script_lang_sys_pos(d: Seq<u8>, p: int, j: int) -> int {
    p + u16_at(d, script_record_pos(d, p, j as nat) + 4)
}

/// The last of the first `n` records with tag `k`, or -1 when there is none.
pub open spec fn last_record(d: Seq<u8>, p: int, n: int, k: u32) -> int
    decreases n,
{
    if n <= 0 {
        -1
    } else if script_record_tag(d, p, n - 1) == k {
        n - 1
    } else {
        last_record(d, p, n - 1, k)
    }
}

/// Whether `m` maps the tags of the first `n` language system records of a script table
/// at `p` to their language systems, a later record of a tag replacing an earlier one.
pub open spec fn lang_sys_map_matches(d: Seq<u8>, p: int, n: int, m: Map<u32, LangSys>) -> bool {
    &&& forall|k: u32| #![trigger m.contains_key(k)] m.contains_key(k) <==> last_record(d, p, n, k) >= 0
    &&& forall|k: u32| #[trigger] m.contains_key(k)
        ==> lang_sys_matches(d, script_lang_sys_pos(d, p, last_record(d, p, n, k)), m[k])
}

/// Whether `s` is the script table at `p`.
pub open spec fn script_matches(d: Seq<u8>, p: int, s: Script) -> bool {
    &&& lang_sys_map_matches(d, p, u16_at(d, p + 2) as int, s.lang_sys@)
    &&& s.default_lang_sys is None <==> u16_at(d, p) == 0
    &&& s.default_lang_sys matches Some(l) ==> lang_sys_matches(d, p + u16_at(d, p), l)
}

/// The error, if any, of moving to `base + off` and reading a script table there.
pub open spec fn script_at_error(d: Seq<u8>, base: int, off: int) -> Option<Error> {
    if base + off > d.len() { Some(out_of_bounds()) } else { script_error(d, base + off) }
}

impl Script {
    /// Reads a script table at the cursor. Each language system record is read where the
    /// reading of the language system before it left the cursor.
    pub fn parse(cursor: &mut Cursor) -> (r: Result<Self, Error>)
        ensures
            final(cursor).data@ == old(cursor).data@,
            match r {
                Ok(s) => script_error(old(cursor).data@, old(cursor).pos as int) is None
                    && script_matches(old(cursor).data@, old(cursor).pos as int, s)
                    && final(cursor).pos == script_end(old(cursor).data@, old(cursor).pos as int),
                Err(e) => script_error(old(cursor).data@, old(cursor).pos as int) == Some(e),
            },
    {
        let ghost d = cursor.data@;
        let base = cursor.position();
        let ghost p = base as int;
        let ghost f = script_record_errors(d, p);
        cursor.require(4)?;
        let default_lang_sys_offset = cursor.read_u16()?;
        let lang_sys_count = cursor.read_u16()?;
        let mut lang_sys: HashMap<u32, LangSys> = HashMap::new();
        let mut j: u16 = 0;
        while j < lang_sys_count
            invariant
                j <= lang_sys_count,
                lang_sys_count == u16_at(d, p + 2),
                default_lang_sys_offset == u16_at(d, p),
                fits(d, p, 4),
                cursor.data@ == d,
                d == old(cursor).data@,
                p == old(cursor).pos,
                p == base,
                f == script_record_errors(d, p),
                cursor.pos == script_record_pos(d, p, j as nat),
                forall|i: int| 0 <= i < j ==> #[trigger] f(i) is None,
                lang_sys_map_matches(d, p, j as int, lang_sys@),
            decreases lang_sys_count - j,
        {
            proof {
                lemma_first_err_skip(f, 0, j as int, lang_sys_count as int);
            }
            let record = match LangSysRecord::parse(cursor, base) {
                Ok(v) => v,
                Err(e) => {
                    assert(f(j as int) == Some(e));
                    return Err(e);
                },
            };
            let tag = Tag::from_bytes(record.lang_sys_tag).to_u32();
            let ghost old_map = lang_sys@;
            lang_sys.insert(tag, record.lang_sys);
            proof {
                let jj = j as int;
                assert(tag == script_record_tag(d, p, jj));
                assert forall|k: u32| #![trigger lang_sys@.contains_key(k)]
                    lang_sys@.contains_key(k) <==> last_record(d, p, jj + 1, k) >= 0 by {
                    if k != tag {
                        assert(last_record(d, p, jj + 1, k) == last_record(d, p, jj, k));
                        assert(old_map.contains_key(k) <==> last_record(d, p, jj, k) >= 0);
                    }
                }
                assert forall|k: u32| #[trigger] lang_sys@.contains_key(k)
                    implies lang_sys_matches(d, script_lang_sys_pos(d, p, last_record(d, p, jj + 1, k)), lang_sys@[k]) by {
                    if k != tag {
                        assert(last_record(d, p, jj + 1, k) == last_record(d, p, jj, k));
                        assert(old_map.contains_key(k));
                    }
                }
            }
            assert(f(j as int) is None);
            j = j + 1;
        }
        proof {
            lemma_first_err_none(f, 0, lang_sys_count as int);
        }
        let default_lang_sys = if default_lang_sys_offset == 0 {
            None
        } else {
            cursor.seek_rel(base, default_lang_sys_offset as usize)?;
            Some(LangSys::parse(cursor)?)
        };
        Ok(Self { default_lang_sys, lang_sys })
    }
}

/// The script records of the first `n` records of a script list at `p`, keyed by tag; a
/// later record of a tag replaces an earlier one.
pub open spec fn script_list_records(d: Seq<u8>, p: int, n: int) -> Map<u32, ScriptRecords>
    decreases n,
{
    if n <= 0 {
        Map::empty()
    } else {
        script_list_records(d, p, n - 1).insert(
            tag_value(be_bytes(u32_at(d, p + 2 + 6 * (n - 1)))),
            script_record_at(d, p + 2 + 6 * (n - 1)),
        )
    }
}

/// Whether getting the script table of `k` from `old`, over the data `d`, may give `r`
/// and leave `new`: a table read before is given as it stands; otherwise the record of
/// `k` is taken out, whatever comes of it, and its table is read.
#[verifier::opaque]
pub open spec fn script_fetch(old: ScriptList, new: ScriptList, d: Seq<u8>, k: u32, r: Result<Script, Error>) -> bool {
    &&& new.spec_base() == old.spec_base()
    &&& if old.spec_parsed().contains_key(k) {
        &&& r == Ok::<Script, Error>(old.spec_parsed()[k])
        &&& new.spec_parsed() == old.spec_parsed()
        &&& new.spec_records() == old.spec_records()
    } else if !old.spec_records().contains_key(k) {
        &&& r == Err::<Script, Error>(Error::AnyMessage("Record does not exist in the script_records"))
        &&& new.spec_parsed() == old.spec_parsed()
        &&& new.spec_records() == old.spec_records()
    } else {
        let off = old.spec_records()[k].script_offset as int;
        &&& new.spec_records() == old.spec_records().remove(k)
        &&& match r {
            Ok(s) => script_at_error(d, old.spec_base(), off) is None
                && script_matches(d, old.spec_base() + off, s)
                && new.spec_parsed() == old.spec_parsed().insert(k, s),
            Err(e) => script_at_error(d, old.spec_base(), off) == Some(e)
                && new.spec_parsed() == old.spec_parsed(),
        }
    }
}

/// Once a script table has been fetched, fetching it again gives the same table and
/// changes nothing.
pub proof fn lemma_fetch_twice(l0: ScriptList, l1: ScriptList, l2: ScriptList, d: Seq<u8>, k: u32, s: Script,
    r: Result<Script, Error>)
    requires
        script_fetch(l0, l1, d, k, Ok(s)),
        script_fetch(l1, l2, d, k, r),
    ensures
        r == Ok::<Script, Error>(s),
        l2.spec_parsed() == l1.spec_parsed(),
        l2.spec_records() == l1.spec_records(),
{
    reveal(script_fetch);
}

/// The scripts of a layout table: the records read from the script list, and the script
/// tables read so far, which leave the records as they are read.
pub struct ScriptList {
    script_records: HashMap<u32, ScriptRecords>,
    parsed_scripts: HashMap<u32, Script>,
    base: usize,
}

impl ScriptList {
    /// The records whose script tables are not read yet, by tag.
    pub closed spec fn spec_records(&self) -> Map<u32, ScriptRecords> {
        self.script_records@
    }

    /// The script tables read so far, by tag.
    pub closed spec fn spec_parsed(&self) -> Map<u32, Script> {
        self.parsed_scripts@
    }

    /// Where the script list starts; the script offsets count from here.
    pub closed spec fn spec_base(&self) -> int {
        self.base as int
    }

    /// Reads the records of a script list at the cursor; no script table is read yet.
    pub fn parse(cursor: &mut Cursor) -> (r: Result<Self, Error>)
        ensures
            final(cursor).data@ == old(cursor).data@,
            r is Ok <==> fits(old(cursor).data@, old(cursor).pos as int, 2)
                && fits(old(cursor).data@, old(cursor).pos + 2, 6 * u16_at(old(cursor).data@, old(cursor).pos as int)),
            r matches Ok(l) ==> l.spec_records() == script_list_records(old(cursor).data@, old(cursor).pos as int,
                    u16_at(old(cursor).data@, old(cursor).pos as int) as int)
                && l.spec_parsed() == Map::<u32, Script>::empty()
                && l.spec_base() == old(cursor).pos
                && final(cursor).pos == old(cursor).pos + 2 + 6 * u16_at(old(cursor).data@, old(cursor).pos as int),
            r matches Err(e) ==> e == eof(),
    {
        let ghost d = cursor.data@;
        let base = cursor.position();
        let ghost p = base as int;
        let script_count = cursor.read_u16()?;
        cursor.require(6 * script_count as usize)?;
        let mut script_records: HashMap<u32, ScriptRecords> = HashMap::new();
        let mut j: u16 = 0;
        while j < script_count
            invariant
                j <= script_count,
                script_count == u16_at(d, p),
                fits(d, p + 2, 6 * script_count),
                cursor.data@ == d,
                d == old(cursor).data@,
                p == old(cursor).pos,
                p == base,
                cursor.pos == p + 2 + 6 * j,
                script_records@ == script_list_records(d, p, j as int),
            decreases script_count - j,
        {
            let record = ScriptRecords::parse(cursor)?;
            let tag = Tag::from_bytes(record.script_tag).to_u32();
            script_records.insert(tag, record);
            j = j + 1;
        }
        Ok(Self { script_records, parsed_scripts: HashMap::new(), base })
    }

    /// Whether `new` is `old` with the script table of every record left read from `d`:
    /// its tables are those of `old` and those of the records, each record's the one at
    /// its offset from the base, and those read before kept.
    pub open spec fn scripts_read(old: ScriptList, new: ScriptList, d: Seq<u8>) -> bool {
        &&& forall|k: u32| #[trigger] new.spec_parsed().contains_key(k)
            <==> old.spec_parsed().contains_key(k) || old.spec_records().contains_key(k)
        &&& forall|k: u32| #[trigger] old.spec_records().contains_key(k)
            ==> script_matches(d, old.spec_base() + old.spec_records()[k].script_offset, new.spec_parsed()[k])
        &&& forall|k: u32| old.spec_parsed().contains_key(k) && !old.spec_records().contains_key(k)
            ==> #[trigger] new.spec_parsed()[k] == old.spec_parsed()[k]
    }

    /// Reading every script of a list in which none was read yet gives exactly one table
    /// for each record, the one at the record's offset from the base, and none for any
    /// other tag.
    pub proof fn lemma_parse_all_fresh(old: ScriptList, new: ScriptList, d: Seq<u8>, k: u32)
        requires
            old.spec_parsed() == Map::<u32, Script>::empty(),
            Self::scripts_read(old, new, d),
        ensures
            new.spec_parsed().contains_key(k) <==> old.spec_records().contains_key(k),
            old.spec_records().contains_key(k) ==> script_matches(d,
                old.spec_base() + old.spec_records()[k].script_offset, new.spec_parsed()[k]),
    {
        assert(new.spec_parsed().contains_key(k) <==> old.spec_parsed().contains_key(k) || old.spec_records().contains_key(k));
    }

    /// Reads every script table whose record is left, in no particular order. The records
    /// are all taken out first; the first failure ends the reading.
    pub fn parse_all(&mut self, cursor: &mut Cursor) -> (r: Result<(), Error>)
        ensures
            final(cursor).data@ == old(cursor).data@,
            final(self).spec_records() == Map::<u32, ScriptRecords>::empty(),
            final(self).spec_base() == old(self).spec_base(),
            r is Ok <==> forall|k: u32| #[trigger] old(self).spec_records().contains_key(k)
                ==> script_at_error(old(cursor).data@, old(self).spec_base(),
                    old(self).spec_records()[k].script_offset as int) is None,
            r is Ok ==> Self::scripts_read(*old(self), *final(self), old(cursor).data@),
    {
        let ghost d = cursor.data@;
        let ghost m = self.script_records@;
        let ghost old_parsed = self.parsed_scripts@;
        let ghost s = vstd::std_specs::hash::spec_hash_map_iter(&self.script_records).remaining();
        let mut records: Vec<(u32, ScriptRecords)> = Vec::new();
        for kv in it: self.script_records.iter()
            invariant
                it.seq() == s,
                records@.len() == it.index(),
                forall|i: int| 0 <= i < it.index() ==> #[trigger] records@[i] == (*s[i].0, *s[i].1),
            ensures
                records@.len() == s.len(),
                forall|i: int| 0 <= i < s.len() ==> #[trigger] records@[i] == (*s[i].0, *s[i].1),
        {
            let (k, v) = kv;
            records.push((*k, *v));
        }
        proof {
            assert forall|i: int| 0 <= i < records@.len() implies
                m.contains_key(#[trigger] records@[i].0) && m[records@[i].0] == records@[i].1 by {
                assert(records@[i] == (*s[i].0, *s[i].1));
            }
            assert forall|k: u32| #[trigger] m.contains_key(k) implies
                exists|i: int| 0 <= i < records@.len() && records@[i].0 == k by {
                assert(s.contains((&k, &m[k])));
                let i = choose|i: int| 0 <= i < s.len() && s[i] == (&k, &m[k]);
                assert(records@[i] == (*s[i].0, *s[i].1));
            }
        }
        self.script_records.clear();
        let base = self.base;
        let mut i: usize = 0;
        while i < records.len()
            invariant
                i <= records.len(),
                cursor.data@ == d,
                d == old(cursor).data@,
                self.base == base,
                base == old(self).spec_base(),
                m == old(self).spec_records(),
                old_parsed == old(self).spec_parsed(),
                self.script_records@ == Map::<u32, ScriptRecords>::empty(),
                forall|j: int| 0 <= j < records@.len() ==> m.contains_key(#[trigger] records@[j].0)
                    && m[records@[j].0] == records@[j].1,
                forall|k: u32| #[trigger] m.contains_key(k) ==> exists|j: int| 0 <= j < records@.len() && records@[j].0 == k,
                forall|j: int| 0 <= j < i ==> script_at_error(d, base as int, (#[trigger] records@[j]).1.script_offset as int) is None,
                forall|k: u32| #[trigger] self.parsed_scripts@.contains_key(k)
                    <==> old_parsed.contains_key(k) || exists|j: int| 0 <= j < i && records@[j].0 == k,
                forall|j: int| 0 <= j < i ==> script_matches(d, base + m[(#[trigger] records@[j]).0].script_offset,
                    self.parsed_scripts@[records@[j].0]),
                forall|k: u32| old_parsed.contains_key(k) && !m.contains_key(k)
                    ==> #[trigger] self.parsed_scripts@[k] == old_parsed[k],
            decreases records.len() - i,
        {
            let (tag, record) = records[i];
            if cursor.seek_rel(base, record.script_offset as usize).is_err() {
                assert(m.contains_key(records@[i as int].0));
                return Err(Error::ReadError(ReadError::OutOfBounds));
            }
            let script = Script::parse(cursor)?;
            let ghost before = self.parsed_scripts@;
            self.parsed_scripts.insert(tag, script);
            proof {
                assert forall|k: u32| #[trigger] self.parsed_scripts@.contains_key(k)
                    <==> old_parsed.contains_key(k) || exists|j: int| 0 <= j < i + 1 && records@[j].0 == k by {
                    if k == tag {
                        assert(records@[i as int].0 == k);
                    }
                }
                assert forall|j: int| 0 <= j < i + 1 implies script_matches(d, base + m[(#[trigger] records@[j]).0].script_offset,
                    self.parsed_scripts@[records@[j].0]) by {
                    if records@[j].0 == tag {
                        assert(m[records@[j].0] == record);
                    }
                }
            }
            i = i + 1;
        }
        proof {
            assert forall|k: u32| #[trigger] m.contains_key(k) implies script_at_error(d, base as int,
                m[k].script_offset as int) is None by {
                let j = choose|j: int| 0 <= j < records@.len() && records@[j].0 == k;
                assert(script_at_error(d, base as int, records@[j].1.script_offset as int) is None);
            }
            assert forall|k: u32| #[trigger] m.contains_key(k) implies script_matches(d, base + m[k].script_offset,
                self.parsed_scripts@[k]) by {
                let j = choose|j: int| 0 <= j < records@.len() && records@[j].0 == k;
                assert(script_matches(d, base + m[records@[j].0].script_offset, self.parsed_scripts@[records@[j].0]));
            }
        }
        Ok(())
    }

    /// The script table of `tag`, read now if it was not read before. A record that is
    /// taken out to be read does not come back, even when the reading fails.
    pub fn get_or_parse(&mut self, cursor: &mut Cursor, tag: &Tag) -> (r: Result<&Script, Error>)
        ensures
            final(cursor).data@ == old(cursor).data@,
            script_fetch(*old(self), *final(self), old(cursor).data@, tag.spec_value(), match r {
                Ok(s) => Ok::<Script, Error>(*s),
                Err(e) => Err::<Script, Error>(e),
            }),
            old(self).spec_parsed().contains_key(tag.spec_value()) ==> final(cursor).pos == old(cursor).pos,
            !old(self).spec_parsed().contains_key(tag.spec_value()) && r is Ok ==> final(cursor).pos == script_end(
                old(cursor).data@,
                old(self).spec_base() + old(self).spec_records()[tag.spec_value()].script_offset,
            ),
    {
        proof {
            reveal(script_fetch);
        }
        let key = tag.to_u32();
        if self.parsed_scripts.contains_key(&key) {
            return match self.parsed_scripts.get(&key) {
                Some(s) => Ok(s),
                None => Err(Error::Unknown),
            };
        }
        let record = match self.script_records.remove(&key) {
            Some(v) => v,
            None => {
                assert(self.script_records@ =~= old(self).script_records@);
                return Err(Error::AnyMessage("Record does not exist in the script_records"));
            },
        };
        cursor.seek_rel(self.base, record.script_offset as usize)?;
        let script = Script::parse(cursor)?;
        self.parsed_scripts.insert(key, script);
        match self.parsed_scripts.get(&key) {
            Some(s) => Ok(s),
            None => Err(Error::Unknown),
        }
    }

    /// The script table of `tag`, if it was read.
    pub fn get_parsed(&self, tag: &Tag) -> (r: Option<&Script>)
        ensures
            match r {
                Some(s) => self.spec_parsed().contains_key(tag.spec_value()) && *s == self.spec_parsed()[tag.spec_value()],
                None => !self.spec_parsed().contains_key(tag.spec_value()),
            },
    {
        self.parsed_scripts.get(&tag.to_u32())
    }
}

} // verus!
