use vstd::prelude::*;
use crate::error::Error;

pub mod atlas;
pub mod cursor;
pub mod error;
pub mod math;
pub mod shaper;
pub mod spec_util;
pub mod table;
pub mod tags;

verus! {

/// A table that is read from the font data it borrows.
pub trait Table<'a>: Sized {
    fn parse(data: &'a [u8]) -> Result<Self, Error>;
}

} // verus!
