use vstd::prelude::*;
use crate::cursor::{Cursor, fits, u16_at, u16_seq, u32_at};
use crate::error::{Error, ReadError, eof, out_of_bounds};
use crate::spec_util::{first_err, lemma_first_err_skip, lemma_first_err_none};
use crate::tags::Tag;

verus! {

/// A feature: its tag and the lookups it uses.
#[derive(Debug, Clone)]
pub struct Feature {
    /// `Some(0)` when the feature has parameters, which are not read.
    pub feature_params: Option<i32>,
    pub lookup_list_indices: Vec<u16>,
    pub tag: Tag,
}

/// The features of a layout table.
#[derive(Debug, Clone)]
pub struct FeatureList {
    pub features: Vec<Feature>,
}

/// Where the feature table of record `j` of a feature list at `p` starts.
pub open spec fn feature_start(d: Seq<u8>, p: int, j: int) -> int {
    p + u16_at(d, p + 2 + 6 * j + 4)
}

/// The error, if any, of reading record `j` of a feature list at `p` and the feature
/// table it points to.
pub open spec fn feature_error(d: Seq<u8>, p: int, j: int) -> Option<Error> {
    let r = p + 2 + 6 * j;
    let fs = feature_start(d, p, j);
    if !fits(d, r, 6) {
        Some(eof())
    } else if fs > d.len() {
        Some(out_of_bounds())
    } else if !fits(d, fs, 4) {
        Some(eof())
    } else if !fits(d, fs + 4, 2 * u16_at(d, fs + 2)) {
        Some(eof())
    } else if u16_at(d, fs) != 0 && fs + u16_at(d, fs) > d.len() {
        Some(out_of_bounds())
    } else {
        None
    }
}

/// The errors of the feature records, by index.
pub open spec fn feature_errors(d: Seq<u8>, p: int) -> spec_fn(int) -> Option<Error> {
    |j: int| feature_error(d, p, j)
}

/// The error, if any, of reading a feature list at `p`.
pub open spec fn feature_list_error(d: Seq<u8>, p: int) -> Option<Error> {
    if !fits(d, p, 2) {
        Some(eof())
    } else {
        first_err(feature_errors(d, p), 0, u16_at(d, p) as int)
    }
}

/// Whether `f` is feature `j` of a feature list at `p`.
pub open spec fn feature_matches(d: Seq<u8>, p: int, j: int, f: Feature) -> bool {
    let fs = feature_start(d, p, j);
    &&& f.tag.spec_value() == u32_at(d, p + 2 + 6 * j)
    &&& f.lookup_list_indices@ == u16_seq(d, fs + 4, u16_at(d, fs + 2) as int)
    &&& f.feature_params == (if u16_at(d, fs) == 0 { None } else { Some(0i32) })
}

/// Whether `l` is the feature list at `p`.
pub open spec fn feature_list_matches(d: Seq<u8>, p: int, l: FeatureList) -> bool {
    &&& l.features@.len() == u16_at(d, p)
    &&& forall|j: int| 0 <= j < l.features@.len() ==> feature_matches(d, p, j, #[trigger] l.features@[j])
}

/// Feature `j` of a feature list at `p`: its record is the six bytes from `p + 2 + 6j`, a
/// tag and then the offset of its feature table from `p`; that table holds the parameters
/// offset, the lookup count and then one lookup index per word.
pub proof fn lemma_feature_layout(d: Seq<u8>, p: int, j: int, f: Feature)
    requires
        feature_matches(d, p, j, f),
    ensures
        ({
            let fs = p + u16_at(d, p + 6 + 6 * j);
            &&& f.tag.spec_value() == u32_at(d, p + 2 + 6 * j)
            &&& f.lookup_list_indices@.len() == u16_at(d, fs + 2)
            &&& forall|k: int| #![trigger f.lookup_list_indices@[k]] 0 <= k < f.lookup_list_indices@.len()
                ==> f.lookup_list_indices@[k] == u16_at(d, fs + 4 + 2 * k)
            &&& f.feature_params is Some <==> u16_at(d, fs) != 0
        }),
{
}

impl FeatureList {
    /// Reads a feature list at the cursor; the cursor is left after the records.
    pub fn parse(cursor: &mut Cursor) -> (r: Result<Self, Error>)
        ensures
            final(cursor).data@ == old(cursor).data@,
            match r {
                Ok(l) => feature_list_error(old(cursor).data@, old(cursor).pos as int) is None
                    && feature_list_matches(old(cursor).data@, old(cursor).pos as int, l)
                    && final(cursor).pos == old(cursor).pos + 2 + 6 * u16_at(old(cursor).data@, old(cursor).pos as int),
                Err(e) => feature_list_error(old(cursor).data@, old(cursor).pos as int) == Some(e),
            },
    {
        let ghost d = cursor.data@;
        let base = cursor.position();
        let ghost p = base as int;
        let ghost f = feature_errors(d, p);
        let feature_count = cursor.read_u16()?;
        let mut features: Vec<Feature> = Vec::with_capacity(feature_count as usize);
        let mut j: u16 = 0;
        while j < feature_count
            invariant
                j <= feature_count,
                feature_count == u16_at(d, p),
                fits(d, p, 2),
                cursor.data@ == d,
                d == old(cursor).data@,
                p == old(cursor).pos,
                p == base,
                f == feature_errors(d, p),
                cursor.pos == p + 2 + 6 * j,
                forall|k: int| 0 <= k < j ==> #[trigger] f(k) is None,
                features@.len() == j,
                forall|k: int| 0 <= k < j ==> feature_matches(d, p, k, #[trigger] features@[k]),
            decreases feature_count - j,
        {
            proof {
                lemma_first_err_skip(f, 0, j as int, feature_count as int);
            }
            if cursor.require(6).is_err() {
                assert(f(j as int) == Some(eof()));
                return Err(Error::ReadError(ReadError::UnexpectedEof));
            }
            let tag = Tag::from_u32(cursor.read_u32()?);
            let feature_offset = cursor.read_u16()?;
            let saved = cursor.position();
            if cursor.seek_rel(base, feature_offset as usize).is_err() {
                assert(f(j as int) == Some(out_of_bounds()));
                return Err(Error::ReadError(ReadError::OutOfBounds));
            }
            let feature_start = cursor.position();
            if cursor.require(4).is_err() {
                assert(f(j as int) == Some(eof()));
                return Err(Error::ReadError(ReadError::UnexpectedEof));
            }
            let feature_params_offset = cursor.read_u16()?;
            let lookup_index_count = cursor.read_u16()?;
            let lookup_list_indices = match cursor.read_u16_array(lookup_index_count as usize) {
                Ok(v) => v,
                Err(e) => {
                    assert(f(j as int) == Some(eof()));
                    return Err(e);
                },
            };
            let feature_params = if feature_params_offset == 0 {
                None
            } else {
                if cursor.seek_rel(feature_start, feature_params_offset as usize).is_err() {
                    assert(f(j as int) == Some(out_of_bounds()));
                    return Err(Error::ReadError(ReadError::OutOfBounds));
                }
                Some(0)
            };
            features.push(Feature { tag, feature_params, lookup_list_indices });
            cursor.seek(saved)?;
            assert(f(j as int) is None);
            j = j + 1;
        }
        proof {
            lemma_first_err_none(f, 0, feature_count as int);
        }
        Ok(Self { features })
    }
}

} // verus!
