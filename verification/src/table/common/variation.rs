use vstd::prelude::*;
use crate::cursor::{Cursor, fits, u16_at};
use crate::error::{Error, eof};

verus! {

/// The version of a feature variations table.
#[derive(Debug, Clone, Copy)]
pub struct FeatureVariations {
    pub major: u16,
    pub minor: u16,
}

impl FeatureVariations {
    /// Reads the version of a feature variations table; its records are not read.
    pub fn parse(cursor: &mut Cursor) -> (r: Result<Self, Error>)
        ensures
            final(cursor).data@ == old(cursor).data@,
            r is Ok <==> fits(old(cursor).data@, old(cursor).pos as int, 4),
            r matches Ok(v) ==> v.major == u16_at(old(cursor).data@, old(cursor).pos as int)
                && v.minor == u16_at(old(cursor).data@, old(cursor).pos + 2)
                && final(cursor).pos == old(cursor).pos + 4,
            r matches Err(e) ==> e == eof(),
    {
        cursor.require(4)?;
        let major = cursor.read_u16()?;
        let minor = cursor.read_u16()?;
        Ok(Self { major, minor })
    }
}

} // verus!
