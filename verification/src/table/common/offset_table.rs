use vstd::prelude::*;
use crate::cursor::{Cursor, fits, u16_at, u16_seq};
use crate::error::{Error, ReadError, eof, out_of_bounds};
use crate::spec_util::{first_err, lemma_first_err_skip, lemma_first_err_none};

verus! {

/// A table that is reached through an offset and read where it stands. `base` is the
/// position that the offsets inside the table count from, for tables that hold any.
pub trait OffsetTable: Sized {
    /// The error, if any, of reading the table at `p`.
    spec fn table_error(d: Seq<u8>, p: int, base: int) -> Option<Error>;

    /// Whether `v` is the table at `p`.
    spec fn table_matches(d: Seq<u8>, p: int, base: int, v: Self) -> bool;

    /// Where the reading of the table at `p` leaves the cursor.
    spec fn table_end(d: Seq<u8>, p: int, base: int) -> int;

    /// Reads the table at the cursor.
    fn parse_table(cursor: &mut Cursor, base: usize) -> (r: Result<Self, Error>)
        ensures
            final(cursor).data@ == old(cursor).data@,
            match r {
                Ok(v) => Self::table_error(old(cursor).data@, old(cursor).pos as int, base as int) is None
                    && Self::table_matches(old(cursor).data@, old(cursor).pos as int, base as int, v)
                    && final(cursor).pos == Self::table_end(old(cursor).data@, old(cursor).pos as int, base as int),
                Err(e) => Self::table_error(old(cursor).data@, old(cursor).pos as int, base as int) == Some(e),
            };
}

/// The error, if any, of moving to `from + off` and reading a table there.
pub open spec fn table_at_error<T: OffsetTable>(d: Seq<u8>, from: int, off: int, base: int) -> Option<Error> {
    if from + off > d.len() {
        Some(out_of_bounds())
    } else {
        T::table_error(d, from + off, base)
    }
}

/// The errors of the tables at `offs` from `from`, by index.
pub open spec fn tables_errors<T: OffsetTable>(d: Seq<u8>, from: int, offs: Seq<u16>, base: int) -> spec_fn(int) -> Option<Error> {
    |k: int| table_at_error::<T>(d, from, offs[k] as int, base)
}

/// The first error of reading the tables at `offs` from `from`, in order.
pub open spec fn tables_error<T: OffsetTable>(d: Seq<u8>, from: int, offs: Seq<u16>, base: int) -> Option<Error> {
    first_err(tables_errors::<T>(d, from, offs, base), 0, offs.len() as int)
}

/// Whether `v` holds the tables at `offs` from `from`, in order.
pub open spec fn tables_match<T: OffsetTable>(d: Seq<u8>, from: int, offs: Seq<u16>, base: int, v: Seq<T>) -> bool {
    &&& v.len() == offs.len()
    &&& forall|k: int| 0 <= k < v.len() ==> T::table_matches(d, from + offs[k], base, #[trigger] v[k])
}

/// Where reading the tables at `offs` from `from` leaves a cursor that was at `start`:
/// at the end of the last table, or where it was when there is none.
pub open spec fn tables_end<T: OffsetTable>(d: Seq<u8>, from: int, offs: Seq<u16>, base: int, start: int) -> int {
    if offs.len() == 0 {
        start
    } else {
        T::table_end(d, from + offs.last(), base)
    }
}

/// Reads, in order, the tables at `offsets` counted from `from`; the first failure ends
/// the reading.
pub fn parse_tables<T: OffsetTable>(cursor: &mut Cursor, from: usize, offsets: &[u16], base: usize) -> (r: Result<Vec<T>, Error>)
    ensures
        final(cursor).data@ == old(cursor).data@,
        match r {
            Ok(v) => tables_error::<T>(old(cursor).data@, from as int, offsets@, base as int) is None
                && tables_match(old(cursor).data@, from as int, offsets@, base as int, v@)
                && final(cursor).pos == tables_end::<T>(old(cursor).data@, from as int, offsets@, base as int,
                    old(cursor).pos as int),
            Err(e) => tables_error::<T>(old(cursor).data@, from as int, offsets@, base as int) == Some(e),
        },
{
    let ghost d = cursor.data@;
    let ghost f = tables_errors::<T>(d, from as int, offsets@, base as int);
    let mut out: Vec<T> = Vec::new();
    let mut k: usize = 0;
    while k < offsets.len()
        invariant
            k <= offsets.len(),
            cursor.data@ == d,
            d == old(cursor).data@,
            f == tables_errors::<T>(d, from as int, offsets@, base as int),
            forall|i: int| 0 <= i < k ==> #[trigger] f(i) is None,
            out@.len() == k,
            forall|i: int| 0 <= i < k ==> T::table_matches(d, from + offsets@[i], base as int, #[trigger] out@[i]),
            k == 0 ==> cursor.pos == old(cursor).pos,
            k > 0 ==> cursor.pos == T::table_end(d, from + offsets@[k - 1], base as int),
        decreases offsets.len() - k,
    {
        proof {
            lemma_first_err_skip(f, 0, k as int, offsets@.len() as int);
        }
        if cursor.seek_rel(from, offsets[k] as usize).is_err() {
            assert(f(k as int) == Some(out_of_bounds()));
            return Err(Error::ReadError(ReadError::OutOfBounds));
        }
        match T::parse_table(cursor, base) {
            Ok(v) => {
                out.push(v);
            },
            Err(e) => {
                assert(f(k as int) == Some(e));
                return Err(e);
            },
        }
        assert(f(k as int) is None);
        k = k + 1;
    }
    proof {
        lemma_first_err_none(f, 0, offsets@.len() as int);
    }
    Ok(out)
}

/// The error, if any, of reading at `p` a count, that many offsets, and the tables at
/// those offsets counted from `from`.
pub open spec fn counted_tables_error<T: OffsetTable>(d: Seq<u8>, p: int, from: int, base: int) -> Option<Error> {
    if !fits(d, p, 2) || !fits(d, p + 2, 2 * u16_at(d, p)) {
        Some(eof())
    } else {
        tables_error::<T>(d, from, u16_seq(d, p + 2, u16_at(d, p) as int), base)
    }
}

/// Whether `v` holds the tables whose count and offsets stand at `p`.
pub open spec fn counted_tables_match<T: OffsetTable>(d: Seq<u8>, p: int, from: int, base: int, v: Seq<T>) -> bool {
    tables_match(d, from, u16_seq(d, p + 2, u16_at(d, p) as int), base, v)
}

/// Where reading a count at `p`, its offsets and the tables at them leaves the cursor.
pub open spec fn counted_tables_end<T: OffsetTable>(d: Seq<u8>, p: int, from: int, base: int) -> int {
    tables_end::<T>(d, from, u16_seq(d, p + 2, u16_at(d, p) as int), base, p + 2 + 2 * u16_at(d, p))
}

/// Reads a count, that many offsets, and the tables at those offsets counted from `from`.
pub fn parse_counted_tables<T: OffsetTable>(cursor: &mut Cursor, from: usize, base: usize) -> (r: Result<Vec<T>, Error>)
    ensures
        final(cursor).data@ == old(cursor).data@,
        match r {
            Ok(v) => counted_tables_error::<T>(old(cursor).data@, old(cursor).pos as int, from as int, base as int) is None
                && counted_tables_match(old(cursor).data@, old(cursor).pos as int, from as int, base as int, v@)
                && final(cursor).pos == counted_tables_end::<T>(old(cursor).data@, old(cursor).pos as int, from as int,
                    base as int),
            Err(e) => counted_tables_error::<T>(old(cursor).data@, old(cursor).pos as int, from as int, base as int) == Some(e),
        },
{
    let count = cursor.read_u16()?;
    let offsets = cursor.read_u16_array(count as usize)?;
    parse_tables(cursor, from, &offsets, base)
}

/// Reads, in order, the tables at `offsets` counted from `from`, coming back after each
/// to where the cursor stood; the first failure ends the reading.
pub fn parse_tables_back<T: OffsetTable>(cursor: &mut Cursor, from: usize, offsets: &[u16], base: usize) -> (r: Result<Vec<T>, Error>)
    requires
        old(cursor).pos <= old(cursor).data@.len(),
    ensures
        final(cursor).data@ == old(cursor).data@,
        match r {
            Ok(v) => tables_error::<T>(old(cursor).data@, from as int, offsets@, base as int) is None
                && tables_match(old(cursor).data@, from as int, offsets@, base as int, v@)
                && final(cursor).pos == old(cursor).pos,
            Err(e) => tables_error::<T>(old(cursor).data@, from as int, offsets@, base as int) == Some(e),
        },
{
    let saved = cursor.position();
    let tables = parse_tables(cursor, from, offsets, base)?;
    cursor.seek(saved)?;
    Ok(tables)
}

/// Reads a count, that many offsets, and the tables at those offsets counted from
/// `from`, coming back after each table; the cursor is left after the offsets.
pub fn parse_counted_tables_back<T: OffsetTable>(cursor: &mut Cursor, from: usize, base: usize) -> (r: Result<Vec<T>, Error>)
    ensures
        final(cursor).data@ == old(cursor).data@,
        match r {
            Ok(v) => counted_tables_error::<T>(old(cursor).data@, old(cursor).pos as int, from as int, base as int) is None
                && counted_tables_match(old(cursor).data@, old(cursor).pos as int, from as int, base as int, v@)
                && final(cursor).pos == old(cursor).pos + 2 + 2 * u16_at(old(cursor).data@, old(cursor).pos as int),
            Err(e) => counted_tables_error::<T>(old(cursor).data@, old(cursor).pos as int, from as int, base as int) == Some(e),
        },
{
    let count = cursor.read_u16()?;
    let offsets = cursor.read_u16_array(count as usize)?;
    parse_tables_back(cursor, from, &offsets, base)
}

} // verus!
