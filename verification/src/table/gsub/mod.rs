pub mod sets;
pub mod sub;

use vstd::prelude::*;
use std::collections::HashMap;
use crate::cursor::{Cursor, fits, u16_at};
use crate::error::{Error, ReadError, eof, out_of_bounds};
use crate::spec_util::{first_err, lemma_first_err_skip, lemma_first_err_none};
use crate::table::{find_table, TableDirectory, TableRecord, GSUB};
use crate::table::common::features::{Feature, FeatureList, feature_list_error, feature_list_matches};
use crate::table::common::lang_sys::LangSys;
use crate::table::common::lookup::{Lookup, LookupList, lookup_list_error, lookup_list_matches};
use crate::table::common::script::{Script, ScriptList, script_list_records, script_fetch};
use crate::table::common::variation::FeatureVariations;
use crate::table::gsub::sub::{Substitution, substitution_end, substitution_error, substitution_matches};
use crate::tags::Tag;

verus! {

/// The glyph substitution table: its scripts, features and lookups, over the font data
/// that its subtables are read from.
pub struct Gsub<'a> {
    /// The font data; the offsets of the lookups count from its start.
    pub segment: &'a [u8],
    pub lookup_list: LookupList,
    pub script_list: ScriptList,
    pub feature_list: FeatureList,
    pub feature_variation_list: Option<FeatureVariations>,
    /// Substitutions kept by the tag they were asked for, read as a big-endian `u32`;
    /// reading the table leaves it empty.
    pub loaded_subsitutions: HashMap<u32, Substitution>,
}

/// The error, if any, of reading a GSUB table at `t`: its header, then the script list,
/// the feature list and the lookup list at their offsets from `t`, then, in version 1.1,
/// the feature variations at their offset read from the start of the data.
pub open spec fn gsub_error(d: Seq<u8>, t: int) -> Option<Error> {
    let sl = t + u16_at(d, t + 4);
    let fl = t + u16_at(d, t + 6);
    let ll = t + u16_at(d, t + 8);
    let fv = u16_at(d, t + 10) as int;
    if !fits(d, t, 10) || (u16_at(d, t + 2) == 1 && !fits(d, t + 10, 2)) {
        Some(eof())
    } else if sl > d.len() {
        Some(out_of_bounds())
    } else if !fits(d, sl, 2) || !fits(d, sl + 2, 6 * u16_at(d, sl)) {
        Some(eof())
    } else if fl > d.len() {
        Some(out_of_bounds())
    } else if feature_list_error(d, fl) is Some {
        feature_list_error(d, fl)
    } else if ll > d.len() {
        Some(out_of_bounds())
    } else if lookup_list_error(d, ll) is Some {
        lookup_list_error(d, ll)
    } else if u16_at(d, t + 2) == 1 && fv > d.len() {
        Some(out_of_bounds())
    } else if u16_at(d, t + 2) == 1 && !fits(d, fv, 4) {
        Some(eof())
    } else {
        None
    }
}

/// What parsing the GSUB table of a font gives, if it fails.
pub open spec fn gsub_result_error(d: Seq<u8>, dir: Map<u32, TableRecord>) -> Option<Error> {
    if !dir.contains_key(GSUB) {
        Some(Error::MissingTable("GSUB"))
    } else {
        gsub_error(d, dir[GSUB].table_offset as int)
    }
}

/// The GSUB header at `t`: the script list is found at the offset at byte 4, the feature
/// list at the offset at byte 6 and the lookup list at the offset at byte 8, each counted
/// from `t`; version 1.1 (minor version 1 at byte 2) has feature variations at byte 10.
pub proof fn lemma_gsub_header(g: Gsub, d: Seq<u8>, t: int)
    requires
        g.spec_matches(d, t),
    ensures
        g.script_list.spec_base() == t + u16_at(d, t + 4),
        g.script_list.spec_records() == script_list_records(d, t + u16_at(d, t + 4), u16_at(d, t + u16_at(d, t + 4)) as int),
        feature_list_matches(d, t + u16_at(d, t + 6), g.feature_list),
        lookup_list_matches(d, t + u16_at(d, t + 8), g.lookup_list),
        g.feature_variation_list is Some <==> u16_at(d, t + 2) == 1,
{
}

impl<'a> Gsub<'a> {
    /// The font data.
    pub open spec fn spec_segment(&self) -> Seq<u8> {
        self.segment@
    }

    /// Whether this is the GSUB table at `t`, with no script table read yet.
    pub open spec fn spec_matches(&self, d: Seq<u8>, t: int) -> bool {
        let sl = t + u16_at(d, t + 4);
        let fv = u16_at(d, t + 10) as int;
        &&& self.spec_segment() == d
        &&& self.script_list.spec_records() == script_list_records(d, sl, u16_at(d, sl) as int)
        &&& self.script_list.spec_parsed() == Map::<u32, Script>::empty()
        &&& self.script_list.spec_base() == sl
        &&& feature_list_matches(d, t + u16_at(d, t + 6), self.feature_list)
        &&& lookup_list_matches(d, t + u16_at(d, t + 8), self.lookup_list)
        &&& if u16_at(d, t + 2) == 1 {
            self.feature_variation_list matches Some(v) && v.major == u16_at(d, fv) && v.minor == u16_at(d, fv + 2)
        } else {
            self.feature_variation_list is None
        }
    }

    /// Reads the GSUB table of the font in `data`.
    pub fn parse(data: &'a [u8], tables: &TableDirectory) -> (r: Result<Self, Error>)
        ensures
            match r {
                Ok(g) => gsub_result_error(data@, tables@) is None
                    && g.spec_matches(data@, tables@[GSUB].table_offset as int)
                    && g.loaded_subsitutions@ == Map::<u32, Substitution>::empty(),
                Err(e) => gsub_result_error(data@, tables@) == Some(e),
            },
    {
        let rec = find_table(tables, GSUB, "GSUB")?;
        let base = rec.table_offset;
        let mut cursor = Cursor::set(data, base);
        cursor.require(10)?;
        let _major = cursor.read_u16()?;
        let minor = cursor.read_u16()?;
        let script_list_offset = cursor.read_u16()?;
        let feature_list_offset = cursor.read_u16()?;
        let lookup_list_offset = cursor.read_u16()?;
        let feature_variation_offset = if minor == 1 {
            Some(cursor.read_u16()?)
        } else {
            None
        };
        cursor.seek_rel(base, script_list_offset as usize)?;
        let script_list = ScriptList::parse(&mut cursor)?;
        cursor.seek_rel(base, feature_list_offset as usize)?;
        let feature_list = FeatureList::parse(&mut cursor)?;
        cursor.seek_rel(base, lookup_list_offset as usize)?;
        let lookup_list = LookupList::parse(&mut cursor)?;
        let feature_variation_list = match feature_variation_offset {
            Some(offset) => {
                cursor.seek(offset as usize)?;
                Some(FeatureVariations::parse(&mut cursor)?)
            },
            None => None,
        };
        Ok(Self { segment: data, lookup_list, script_list, feature_list, feature_variation_list, loaded_subsitutions: HashMap::new() })
    }
}

/// The language system of `s` for `lang`, or for its default language system when
/// `lang` is `None`.
pub open spec fn select_lang_sys(s: Script, lang: Option<Tag>) -> Result<LangSys, Error> {
    match lang {
        Some(t) => if s.lang_sys@.contains_key(t.spec_value()) {
            Ok(s.lang_sys@[t.spec_value()])
        } else {
            Err(Error::InvalidTag(t.spec_value()))
        },
        None => match s.default_lang_sys {
            Some(l) => Ok(l),
            None => Err(Error::InvalidFormat("This failed")),
        },
    }
}

/// The first feature, taking the indices from `i` on in order, whose tag is `tag`; an
/// index past the end of the features is an error once it is reached.
pub open spec fn feature_search(features: Seq<Feature>, indices: Seq<u16>, tag: u32, i: int) -> Result<Option<u16>, Error>
    decreases indices.len() - i,
{
    if i >= indices.len() || i < 0 {
        Ok(None)
    } else if indices[i] >= features.len() {
        Err(Error::InvalidFormat("feature index"))
    } else if features[indices[i] as int].tag.spec_value() == tag {
        Ok(Some(indices[i]))
    } else {
        feature_search(features, indices, tag, i + 1)
    }
}

/// Finds, among the features at `indices`, the first whose tag is `tag`.
pub fn find_feature(features: &[Feature], indices: &[u16], tag: &Tag) -> (r: Result<Option<usize>, Error>)
    ensures
        r matches Ok(Some(i)) ==> i < features@.len(),
        match feature_search(features@, indices@, tag.spec_value(), 0) {
            Ok(Some(i)) => r == Ok::<Option<usize>, Error>(Some(i as usize)),
            Ok(None) => r == Ok::<Option<usize>, Error>(None),
            Err(e) => r == Err::<Option<usize>, Error>(e),
        },
{
    let mut i: usize = 0;
    while i < indices.len()
        invariant
            i <= indices.len(),
            feature_search(features@, indices@, tag.spec_value(), 0) == feature_search(features@, indices@, tag.spec_value(), i as int),
        decreases indices.len() - i,
    {
        let index = indices[i] as usize;
        if index >= features.len() {
            return Err(Error::InvalidFormat("feature index"));
        }
        if features[index].tag.same(tag) {
            return Ok(Some(index));
        }
        i = i + 1;
    }
    Ok(None)
}

/// The subtables that the lookup at index `i` asks to read: each as its position and its
/// lookup type, or `None` when the index is past the end of the lookups.
pub open spec fn lookup_jobs(lookups: Seq<Lookup>, i: u16) -> Seq<Option<(int, u16)>> {
    if i >= lookups.len() {
        seq![None]
    } else {
        let l = lookups[i as int];
        Seq::new(l.sub_table_offsets@.len(), |j: int| Some((l.offset + l.sub_table_offsets@[j], l.lookup_type)))
    }
}

/// The subtables that the lookups at `indices` ask to read, in order.
pub open spec fn all_jobs(lookups: Seq<Lookup>, indices: Seq<u16>) -> Seq<Option<(int, u16)>>
    decreases indices.len(),
{
    if indices.len() == 0 {
        Seq::empty()
    } else {
        all_jobs(lookups, indices.drop_last()) + lookup_jobs(lookups, indices.last())
    }
}

/// The error, if any, of reading one subtable.
pub open spec fn job_error(d: Seq<u8>, job: Option<(int, u16)>) -> Option<Error> {
    match job {
        None => Some(Error::InvalidFormat("lookup index")),
        Some((pos, t)) => if pos > d.len() { Some(out_of_bounds()) } else { substitution_error(d, pos, t) },
    }
}

/// The errors of the subtables, by index.
pub open spec fn job_errors(d: Seq<u8>, jobs: Seq<Option<(int, u16)>>) -> spec_fn(int) -> Option<Error> {
    |k: int| job_error(d, jobs[k])
}

/// Whether `s` is the subtable that `job` asks to read.
pub open spec fn job_done(d: Seq<u8>, job: Option<(int, u16)>, s: Substitution) -> bool {
    job matches Some((pos, t)) && substitution_matches(d, pos, t, s)
}

/// Whether `out` holds the subtables, in order.
pub open spec fn jobs_match(d: Seq<u8>, jobs: Seq<Option<(int, u16)>>, out: Seq<Substitution>) -> bool {
    &&& out.len() == jobs.len()
    &&& forall|k: int| 0 <= k < out.len() ==> job_done(d, jobs[k], #[trigger] out[k])
}

/// Where reading the subtables `jobs` leaves a cursor that was at `start`: where
/// reading the last one leaves it, or where it was when there is none.
pub open spec fn jobs_end(d: Seq<u8>, jobs: Seq<Option<(int, u16)>>, start: int) -> int {
    if jobs.len() == 0 {
        start
    } else {
        match jobs.last() {
            Some((pos, t)) => substitution_end(d, pos, t),
            None => start,
        }
    }
}

/// The subtables of the lookups at `a + b` are those of `a`, then those of `b`.
pub proof fn lemma_all_jobs_append(lookups: Seq<Lookup>, a: Seq<u16>, b: Seq<u16>)
    ensures
        all_jobs(lookups, a + b) == all_jobs(lookups, a) + all_jobs(lookups, b),
    decreases b.len(),
{
    if b.len() == 0 {
        assert(a + b =~= a);
        assert(all_jobs(lookups, a) + all_jobs(lookups, b) =~= all_jobs(lookups, a));
    } else {
        assert((a + b).drop_last() =~= a + b.drop_last());
        lemma_all_jobs_append(lookups, a, b.drop_last());
        assert(all_jobs(lookups, a + b) =~= all_jobs(lookups, a) + all_jobs(lookups, b));
    }
}

/// Reads, in order, every subtable of the lookups at `indices`; the first failure ends
/// the reading.
pub fn collect_substitutions(cursor: &mut Cursor, lookups: &[Lookup], indices: &[u16]) -> (r: Result<Vec<Substitution>, Error>)
    ensures
        final(cursor).data@ == old(cursor).data@,
        match r {
            Ok(v) => first_err(job_errors(old(cursor).data@, all_jobs(lookups@, indices@)), 0,
                    all_jobs(lookups@, indices@).len() as int) is None
                && jobs_match(old(cursor).data@, all_jobs(lookups@, indices@), v@)
                && final(cursor).pos == jobs_end(old(cursor).data@, all_jobs(lookups@, indices@), old(cursor).pos as int),
            Err(e) => first_err(job_errors(old(cursor).data@, all_jobs(lookups@, indices@)), 0,
                all_jobs(lookups@, indices@).len() as int) == Some(e),
        },
{
    let ghost d = cursor.data@;
    let ghost jobs = all_jobs(lookups@, indices@);
    let ghost f = job_errors(d, jobs);
    let mut out: Vec<Substitution> = Vec::new();
    let mut i: usize = 0;
    proof {
        assert(indices@.take(0) =~= Seq::<u16>::empty());
        assert(indices@.skip(0) =~= indices@);
        assert(all_jobs(lookups@, Seq::<u16>::empty()) =~= Seq::empty());
        assert(all_jobs(lookups@, indices@.take(0)) + jobs =~= jobs);
    }
    while i < indices.len()
        invariant
            i <= indices.len(),
            cursor.data@ == d,
            d == old(cursor).data@,
            jobs == all_jobs(lookups@, indices@),
            f == job_errors(d, jobs),
            jobs == all_jobs(lookups@, indices@.take(i as int)) + all_jobs(lookups@, indices@.skip(i as int)),
            out@.len() == all_jobs(lookups@, indices@.take(i as int)).len(),
            forall|k: int| 0 <= k < out@.len() ==> #[trigger] f(k) is None,
            forall|k: int| 0 <= k < out@.len() ==> job_done(d, jobs[k], #[trigger] out@[k]),
            out@.len() == 0 ==> cursor.pos == old(cursor).pos,
            out@.len() > 0 ==> (jobs[out@.len() - 1] matches Some((pos, t)) && cursor.pos == substitution_end(d, pos, t)),
        decreases indices.len() - i,
    {
        proof {
            assert(indices@.take(i as int + 1).drop_last() =~= indices@.take(i as int));
            assert(indices@.take(i as int + 1) =~= indices@.take(i as int) + seq![indices@[i as int]]);
            assert(indices@.skip(i as int) =~= seq![indices@[i as int]] + indices@.skip(i as int + 1));
            lemma_all_jobs_append(lookups@, seq![indices@[i as int]], indices@.skip(i as int + 1));
            assert(seq![indices@[i as int]].drop_last() =~= Seq::<u16>::empty());
            assert(all_jobs(lookups@, Seq::<u16>::empty()) =~= Seq::empty());
            assert(seq![indices@[i as int]].last() == indices@[i as int]);
            assert(all_jobs(lookups@, seq![indices@[i as int]]) =~= lookup_jobs(lookups@, indices@[i as int]));
            assert(all_jobs(lookups@, indices@.take(i as int + 1)) == all_jobs(lookups@, indices@.take(i as int))
                + lookup_jobs(lookups@, indices@[i as int]));
            lemma_first_err_skip(f, 0, out@.len() as int, jobs.len() as int);
        }
        let ghost done = all_jobs(lookups@, indices@.take(i as int));
        let ghost mine = lookup_jobs(lookups@, indices@[i as int]);
        let index = indices[i] as usize;
        if index >= lookups.len() {
            assert(jobs[out@.len() as int] == mine[0]);
            assert(f(out@.len() as int) == Some(Error::InvalidFormat("lookup index")));
            return Err(Error::InvalidFormat("lookup index"));
        }
        let lookup = &lookups[index];
        let mut j: usize = 0;
        while j < lookup.sub_table_offsets.len()
            invariant
                j <= lookup.sub_table_offsets@.len(),
                index < lookups@.len(),
                *lookup == lookups@[index as int],
                index == indices@[i as int],
                i < indices.len(),
                cursor.data@ == d,
                d == old(cursor).data@,
                f == job_errors(d, jobs),
                mine == lookup_jobs(lookups@, indices@[i as int]),
                jobs == all_jobs(lookups@, indices@),
                done == all_jobs(lookups@, indices@.take(i as int)),
                jobs == done + mine + all_jobs(lookups@, indices@.skip(i as int + 1)),
                mine.len() == lookup.sub_table_offsets@.len(),
                out@.len() == done.len() + j,
                forall|k: int| 0 <= k < out@.len() ==> #[trigger] f(k) is None,
                forall|k: int| 0 <= k < out@.len() ==> job_done(d, jobs[k], #[trigger] out@[k]),
                out@.len() == 0 ==> cursor.pos == old(cursor).pos,
                out@.len() > 0 ==> (jobs[out@.len() - 1] matches Some((pos, t)) && cursor.pos == substitution_end(d, pos, t)),
            decreases lookup.sub_table_offsets@.len() - j,
        {
            let ghost g = out@.len() as int;
            proof {
                lemma_first_err_skip(f, 0, g, jobs.len() as int);
                assert(jobs[g] == mine[j as int]);
            }
            if cursor.seek_rel(lookup.offset, lookup.sub_table_offsets[j] as usize).is_err() {
                assert(f(g) == Some(out_of_bounds()));
                return Err(Error::ReadError(ReadError::OutOfBounds));
            }
            match Substitution::parse(cursor, lookup.lookup_type) {
                Ok(sub) => {
                    out.push(sub);
                },
                Err(e) => {
                    assert(f(g) == Some(e));
                    return Err(e);
                },
            }
            assert(f(g) is None);
            j = j + 1;
        }
        i = i + 1;
    }
    proof {
        assert(indices@.take(indices@.len() as int) =~= indices@);
        lemma_first_err_none(f, 0, jobs.len() as int);
    }
    Ok(out)
}

/// What asking for the substitutions of a feature gives once the script table is
/// fetched as `s`: the language system, then the feature, then every subtable of its
/// lookups.
pub open spec fn substitution_outcome(
    d: Seq<u8>,
    features: Seq<Feature>,
    lookups: Seq<Lookup>,
    s: Result<Script, Error>,
    lang: Option<Tag>,
    feature_tag: u32,
    r: Result<Vec<Substitution>, Error>,
) -> bool {
    match s {
        Err(e) => r == Err::<Vec<Substitution>, Error>(e),
        Ok(script) => match select_lang_sys(script, lang) {
            Err(e) => r == Err::<Vec<Substitution>, Error>(e),
            Ok(ls) => match feature_search(features, ls.feature_indices@, feature_tag, 0) {
                Err(e) => r == Err::<Vec<Substitution>, Error>(e),
                Ok(None) => r == Err::<Vec<Substitution>, Error>(Error::AnyMessage("Failed to get the requested feature.")),
                Ok(Some(i)) => {
                    let jobs = all_jobs(lookups, features[i as int].lookup_list_indices@);
                    let e = first_err(job_errors(d, jobs), 0, jobs.len() as int);
                    match r {
                        Ok(v) => e is None && jobs_match(d, jobs, v@),
                        Err(x) => e == Some(x),
                    }
                },
            },
        },
    }
}

/// The subtables of every lookup of the feature `feature_tag` in a language system of
/// `script`.
fn script_substitutions(
    cursor: &mut Cursor,
    script: &Script,
    features: &[Feature],
    lookups: &[Lookup],
    lang_tag: Option<Tag>,
    feature_tag: &Tag,
) -> (r: Result<Vec<Substitution>, Error>)
    ensures
        final(cursor).data@ == old(cursor).data@,
        substitution_outcome(old(cursor).data@, features@, lookups@, Ok(*script), lang_tag, feature_tag.spec_value(), r),
{
    let lang_sys: &LangSys = match lang_tag {
        Some(tag) => match script.lang_sys.get(&tag.to_u32()) {
            Some(l) => l,
            None => return Err(Error::InvalidTag(tag.to_u32())),
        },
        None => match &script.default_lang_sys {
            Some(l) => l,
            None => return Err(Error::InvalidFormat("This failed")),
        },
    };
    let found = find_feature(features, &lang_sys.feature_indices, feature_tag)?;
    match found {
        Some(index) => {
            collect_substitutions(cursor, lookups, &features[index].lookup_list_indices)
        },
        None => Err(Error::AnyMessage("Failed to get the requested feature.")),
    }
}

impl<'a> Gsub<'a> {
    /// The subtables of every lookup of the feature `feature_tag` in the language system
    /// `lang_tag` (or the default one) of the script `script_tag`. The script table is read
    /// if it was not read before.
    pub fn get_substitution(&mut self, script_tag: Tag, lang_tag: Option<Tag>, feature_tag: Tag) -> (r: Result<Vec<Substitution>, Error>)
        ensures
            final(self).segment@ == old(self).segment@,
            final(self).feature_list == old(self).feature_list,
            final(self).lookup_list == old(self).lookup_list,
            final(self).feature_variation_list == old(self).feature_variation_list,
            final(self).loaded_subsitutions@ == old(self).loaded_subsitutions@,
            exists|s: Result<Script, Error>| #[trigger] script_fetch(old(self).script_list, final(self).script_list,
                old(self).segment@, script_tag.spec_value(), s)
                && substitution_outcome(old(self).segment@, old(self).feature_list.features@,
                    old(self).lookup_list.lookups@, s, lang_tag, feature_tag.spec_value(), r),
    {
        let mut cursor = Cursor::set(self.segment, 0);
        match self.script_list.get_or_parse(&mut cursor, &script_tag) {
            Err(e) => {
                assert(script_fetch(old(self).script_list, self.script_list, old(self).segment@,
                    script_tag.spec_value(), Err::<Script, Error>(e)));
                Err(e)
            },
            Ok(script) => {
                let ghost fetched = *script;
                let r = script_substitutions(&mut cursor, script, &self.feature_list.features,
                    &self.lookup_list.lookups, lang_tag, &feature_tag);
                assert(script_fetch(old(self).script_list, self.script_list, old(self).segment@,
                    script_tag.spec_value(), Ok::<Script, Error>(fetched)));
                r
            },
        }
    }
}

} // verus!
