use vstd::prelude::*;
use crate::cursor::{Cursor, fits, u16_at, u16_seq, u32_at};
use crate::error::{Error, eof, out_of_bounds};
use crate::tags::{Tag, be_bytes};

verus! {

/// A language system: the features it uses.
#[derive(Debug, Clone)]
pub struct LangSys {
    pub lookup_order_offset: u16,
    pub required_feature_index: u16,
    pub feature_indices: Vec<u16>,
}

/// The error, if any, of reading a language system table at `p`.
pub open spec fn lang_sys_error(d: Seq<u8>, p: int) -> Option<Error> {
    if !fits(d, p, 6) {
        Some(eof())
    } else if !fits(d, p + 6, 2 * u16_at(d, p + 4)) {
        Some(eof())
    } else {
        None
    }
}

/// Where a language system table at `p` ends.
pub open spec fn lang_sys_end(d: Seq<u8>, p: int) -> int {
    p + 6 + 2 * u16_at(d, p + 4)
}

/// Whether `l` is the language system table at `p`.
pub open spec fn lang_sys_matches(d: Seq<u8>, p: int, l: LangSys) -> bool {
    &&& l.lookup_order_offset == u16_at(d, p)
    &&& l.required_feature_index == u16_at(d, p + 2)
    &&& l.feature_indices@ == u16_seq(d, p + 6, u16_at(d, p + 4) as int)
}

/// A language system read from `p`: the lookup order offset at byte 0, the required
/// feature index at 2, the feature count at 4 and then one feature index per word.
pub proof fn lemma_lang_sys_layout(d: Seq<u8>, p: int, l: LangSys)
    requires
        lang_sys_matches(d, p, l),
    ensures
        l.lookup_order_offset == u16_at(d, p),
        l.required_feature_index == u16_at(d, p + 2),
        l.feature_indices@.len() == u16_at(d, p + 4),
        forall|k: int| #![trigger l.feature_indices@[k]] 0 <= k < l.feature_indices@.len()
            ==> l.feature_indices@[k] == u16_at(d, p + 6 + 2 * k),
{
}

impl LangSys {
    pub fn parse(cursor: &mut Cursor) -> (r: Result<Self, Error>)
        ensures
            final(cursor).data@ == old(cursor).data@,
            match r {
                Ok(l) => lang_sys_error(old(cursor).data@, old(cursor).pos as int) is None
                    && lang_sys_matches(old(cursor).data@, old(cursor).pos as int, l)
                    && final(cursor).pos == lang_sys_end(old(cursor).data@, old(cursor).pos as int),
                Err(e) => lang_sys_error(old(cursor).data@, old(cursor).pos as int) == Some(e),
            },
    {
        cursor.require(6)?;
        let lookup_order_offset = cursor.read_u16()?;
        let required_feature_index = cursor.read_u16()?;
        let feature_index_count = cursor.read_u16()?;
        let feature_indices = cursor.read_u16_array(feature_index_count as usize)?;
        Ok(Self { lookup_order_offset, required_feature_index, feature_indices })
    }
}

/// A language system with its tag.
#[derive(Debug, Clone)]
pub struct LangSysRecord {
    pub lang_sys_tag: [u8; 4],
    pub lang_sys: LangSys,
}

/// The error, if any, of reading a language system record at `p` of the script table
/// at `base`: a tag, an offset from `base`, and the language system table there.
pub open spec fn lang_sys_record_error(d: Seq<u8>, p: int, base: int) -> Option<Error> {
    if !fits(d, p, 6) {
        Some(eof())
    } else if base + u16_at(d, p + 4) > d.len() {
        Some(out_of_bounds())
    } else {
        lang_sys_error(d, base + u16_at(d, p + 4))
    }
}

/// Whether `l` is the language system record at `p` of the script table at `base`.
pub open spec fn lang_sys_record_matches(d: Seq<u8>, p: int, base: int, l: LangSysRecord) -> bool {
    l.lang_sys_tag == be_bytes(u32_at(d, p)) && lang_sys_matches(d, base + u16_at(d, p + 4), l.lang_sys)
}

impl LangSysRecord {
    /// Reads the record and the language system it points to; `base` is the offset of
    /// the script table. The cursor is left after the language system table.
    pub fn parse(cursor: &mut Cursor, base: usize) -> (r: Result<Self, Error>)
        ensures
            final(cursor).data@ == old(cursor).data@,
            match r {
                Ok(l) => lang_sys_record_error(old(cursor).data@, old(cursor).pos as int, base as int) is None
                    && lang_sys_record_matches(old(cursor).data@, old(cursor).pos as int, base as int, l)
                    && final(cursor).pos == lang_sys_end(old(cursor).data@,
                        base + u16_at(old(cursor).data@, old(cursor).pos + 4)),
                Err(e) => lang_sys_record_error(old(cursor).data@, old(cursor).pos as int, base as int) == Some(e),
            },
    {
        cursor.require(6)?;
        let lang_sys_tag = Tag::from_u32(cursor.read_u32()?).as_bytes();
        let lang_sys_offset = cursor.read_u16()?;
        cursor.seek_rel(base, lang_sys_offset as usize)?;
        let lang_sys = LangSys::parse(cursor)?;
        Ok(Self { lang_sys_tag, lang_sys })
    }
}

} // verus!
