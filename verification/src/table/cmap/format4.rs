use vstd::prelude::*;
use crate::cursor::{Cursor, fits, u16_at, i16_at, u16_seq, i16_seq};
use crate::error::{Error, ReadError, eof};
use crate::table::cmap::{CMapGroup, covers, first_group, lookup_spec};

verus! {

/// The arrays of a format 4 subtable.
pub struct Format4Arrays {
    pub ends: Seq<u16>,
    pub starts: Seq<u16>,
    pub deltas: Seq<i16>,
    pub ranges: Seq<u16>,
    pub glyph_ids: Seq<u16>,
}

/// The number of segments of a format 4 subtable at `p`.
pub open spec fn f4_seg_count(d: Seq<u8>, p: int) -> int {
    u16_at(d, p + 6) as int / 2
}

/// The number of entries of the glyph id array of a format 4 subtable at `p`.
pub open spec fn f4_glyph_count(d: Seq<u8>, p: int) -> int {
    (u16_at(d, p + 2) as int - (16 + 8 * f4_seg_count(d, p))) / 2
}

/// The arrays of a format 4 subtable at `p`: end codes, a pad word, start codes,
/// deltas, range offsets, then the glyph id array up to the subtable's length.
pub open spec fn f4_arrays(d: Seq<u8>, p: int) -> Format4Arrays {
    let s = f4_seg_count(d, p);
    Format4Arrays {
        ends: u16_seq(d, p + 14, s),
        starts: u16_seq(d, p + 16 + 2 * s, s),
        deltas: i16_seq(d, p + 16 + 4 * s, s),
        ranges: u16_seq(d, p + 16 + 6 * s, s),
        glyph_ids: u16_seq(d, p + 16 + 8 * s, f4_glyph_count(d, p)),
    }
}

/// The error, if any, of reading a format 4 subtable at `p`.
pub open spec fn f4_error(d: Seq<u8>, p: int) -> Option<Error> {
    if !fits(d, p, 14) {
        Some(eof())
    } else if !fits(d, p, 16 + 8 * f4_seg_count(d, p)) {
        Some(eof())
    } else if (u16_at(d, p + 2) as int) < 16 + 8 * f4_seg_count(d, p) {
        Some(Error::InvalidFormat("cmap format 4 length"))
    } else if !fits(d, p + 16 + 8 * f4_seg_count(d, p), 2 * f4_glyph_count(d, p)) {
        Some(eof())
    } else {
        None
    }
}

/// The glyph that segment `i` maps character `c` to, 0 for none: the character plus the
/// segment's delta when its range offset is 0, else the glyph id array entry that the
/// range offset selects plus the delta, if that entry exists and is not 0; all modulo
/// 65536.
pub open spec fn seg_glyph(t: Format4Arrays, i: int, c: int) -> int {
    let delta = t.deltas[i] as int;
    if t.ranges[i] == 0 {
        (c + delta) % 65536
    } else {
        let idx = t.ranges[i] as int / 2 + (c - t.starts[i] as int) + i - t.ends.len();
        if idx < 0 || idx >= t.glyph_ids.len() {
            0
        } else if t.glyph_ids[idx] == 0 {
            0
        } else {
            (t.glyph_ids[idx] as int + delta) % 65536
        }
    }
}

/// The last character of the run that starts at `c0` with glyph `g0` in segment `i`,
/// searching on from `c`: a run goes on while each next character maps to the next
/// glyph.
pub open spec fn run_end(t: Format4Arrays, i: int, c0: int, g0: int, c: int) -> int
    decreases t.ends[i] + 1 - c,
{
    if c > t.ends[i] {
        c - 1
    } else if seg_glyph(t, i, c) == g0 + (c - c0) {
        run_end(t, i, c0, g0, c + 1)
    } else {
        c - 1
    }
}

/// The maximal runs of segment `i` from character `c` on, skipping unmapped characters.
pub open spec fn seg_runs(t: Format4Arrays, i: int, c: int) -> Seq<CMapGroup>
    decreases t.ends[i] + 1 - c,
{
    if c > t.ends[i] {
        Seq::empty()
    } else if seg_glyph(t, i, c) == 0 {
        seg_runs(t, i, c + 1)
    } else {
        let g = seg_glyph(t, i, c);
        let e = run_end(t, i, c, g, c + 1);
        proof {
            lemma_run_end_le(t, i, c, g, c + 1);
        }
        if e >= c {
            seq![CMapGroup { start_char: c as u32, end_char: e as u32, start_glyph: g as u32 }]
                + seg_runs(t, i, e + 1)
        } else {
            Seq::empty()
        }
    }
}

/// The runs of segment `i`; the closing segment `0xFFFF..0xFFFF` has none.
pub open spec fn seg_groups(t: Format4Arrays, i: int) -> Seq<CMapGroup> {
    if t.starts[i] == 0xFFFF && t.ends[i] == 0xFFFF {
        Seq::empty()
    } else {
        seg_runs(t, i, t.starts[i] as int)
    }
}

/// The runs of the first `n` segments, in order.
pub open spec fn groups_upto(t: Format4Arrays, n: int) -> Seq<CMapGroup>
    decreases n,
{
    if n <= 0 {
        Seq::empty()
    } else {
        groups_upto(t, n - 1) + seg_groups(t, n - 1)
    }
}

/// The groups of a format 4 subtable at `p`.
pub open spec fn f4_groups(d: Seq<u8>, p: int) -> Seq<CMapGroup> {
    groups_upto(f4_arrays(d, p), f4_seg_count(d, p))
}

pub proof fn lemma_run_end_ge(t: Format4Arrays, i: int, c0: int, g0: int, c: int)
    ensures
        run_end(t, i, c0, g0, c) >= c - 1,
    decreases t.ends[i] + 1 - c,
{
    if c <= t.ends[i] && seg_glyph(t, i, c) == g0 + (c - c0) {
        lemma_run_end_ge(t, i, c0, g0, c + 1);
    }
}

pub proof fn lemma_run_end_le(t: Format4Arrays, i: int, c0: int, g0: int, c: int)
    requires
        c <= t.ends[i] + 1,
    ensures
        run_end(t, i, c0, g0, c) <= t.ends[i],
    decreases t.ends[i] + 1 - c,
{
    if c <= t.ends[i] && seg_glyph(t, i, c) == g0 + (c - c0) {
        lemma_run_end_le(t, i, c0, g0, c + 1);
    }
}

/// `v` modulo 65536, for a `v` that lies within one period of the range.
fn wrap_glyph(v: i32) -> (g: u32)
    requires
        -65536 <= v < 2 * 65536,
    ensures
        g == v as int % 65536,
{
    if v < 0 {
        assert((v + 65536) as int % 65536 == v as int % 65536) by (nonlinear_arith)
            requires -65536 <= v < 0;
        (v + 65536) as u32
    } else if v >= 65536 {
        assert((v - 65536) as int % 65536 == v as int % 65536) by (nonlinear_arith)
            requires 65536 <= v < 2 * 65536;
        (v - 65536) as u32
    } else {
        v as u32
    }
}

/// The glyph of character `c` in segment `i`, computed from the arrays.
fn glyph_for(
    starts: &Vec<u16>,
    deltas: &Vec<i16>,
    ranges: &Vec<u16>,
    glyph_ids: &Vec<u16>,
    seg_count: usize,
    i: usize,
    c: u32,
    Ghost(t): Ghost<Format4Arrays>,
) -> (g: u32)
    requires
        t.starts == starts@,
        t.deltas == deltas@,
        t.ranges == ranges@,
        t.glyph_ids == glyph_ids@,
        t.ends.len() == seg_count,
        seg_count <= 0x8000,
        starts.len() == seg_count,
        deltas.len() == seg_count,
        ranges.len() == seg_count,
        i < seg_count,
        starts[i as int] <= c <= 0x10000,
    ensures
        g == seg_glyph(t, i as int, c as int),
        g < 65536,
{
    let delta = deltas[i] as i32;
    let range_offset = ranges[i];
    if range_offset == 0 {
        let g = wrap_glyph(c as i32 + delta);
        assert(g == seg_glyph(t, i as int, c as int));
        g
    } else {
        let idx: i64 = (range_offset / 2) as i64 + (c as i64 - starts[i] as i64) + i as i64 - seg_count as i64;
        assert(idx == t.ranges[i as int] as int / 2 + (c - t.starts[i as int] as int) + i - t.ends.len());
        if idx < 0 || idx as u64 >= glyph_ids.len() as u64 {
            0
        } else {
            let raw = glyph_ids[idx as usize];
            if raw == 0 {
                0
            } else {
                wrap_glyph(raw as i32 + delta)
            }
        }
    }
}

/// Reads a format 4 (segment mapping to delta values) character map subtable at the
/// cursor and returns its mapping as maximal runs of consecutive characters that map to
/// consecutive glyphs, segment by segment.
pub fn parse_format4(cursor: &mut Cursor) -> (r: Result<Vec<CMapGroup>, Error>)
    ensures
        final(cursor).data@ == old(cursor).data@,
        match r {
            Ok(v) => f4_error(old(cursor).data@, old(cursor).pos as int) is None
                && v@ == f4_groups(old(cursor).data@, old(cursor).pos as int)
                && final(cursor).pos == old(cursor).pos + 16 + 8 * f4_seg_count(old(cursor).data@, old(cursor).pos as int)
                    + 2 * f4_glyph_count(old(cursor).data@, old(cursor).pos as int),
            Err(e) => f4_error(old(cursor).data@, old(cursor).pos as int) == Some(e),
        },
{
    let ghost d = cursor.data@;
    let ghost p = cursor.pos as int;
    cursor.require(14)?;
    let _format = cursor.read_u16()?;
    let length = cursor.read_u16()?;
    let _language = cursor.read_u16()?;
    let seg_count2 = cursor.read_u16()?;
    let _search_range = cursor.read_u16()?;
    let _entry_selector = cursor.read_u16()?;
    let _range_shift = cursor.read_u16()?;
    let seg_count = seg_count2 as usize / 2;
    let bytes_read = 16 + seg_count * 8;
    if cursor.size() < bytes_read - 14 || cursor.position() > cursor.size() - (bytes_read - 14) {
        return Err(Error::ReadError(ReadError::UnexpectedEof));
    }
    let end_codes = cursor.read_u16_array(seg_count)?;
    let _reserved_pad = cursor.read_u16()?;
    let start_codes = cursor.read_u16_array(seg_count)?;
    let id_deltas = cursor.read_i16_array(seg_count)?;
    let id_range_offset = cursor.read_u16_array(seg_count)?;
    if (length as usize) < bytes_read {
        return Err(Error::InvalidFormat("cmap format 4 length"));
    }
    let remaining = length as usize - bytes_read;
    let glyph_id_array = cursor.read_u16_array(remaining / 2)?;
    let ghost t = f4_arrays(d, p);
    assert(t.ends == end_codes@);
    assert(t.starts == start_codes@);
    assert(t.deltas == id_deltas@);
    assert(t.ranges == id_range_offset@);
    assert(t.glyph_ids == glyph_id_array@);
    let mut groups: Vec<CMapGroup> = Vec::new();
    let mut i: usize = 0;
    while i < seg_count
        invariant
            i <= seg_count,
            t.ends == end_codes@,
            t.starts == start_codes@,
            t.deltas == id_deltas@,
            t.ranges == id_range_offset@,
            t.glyph_ids == glyph_id_array@,
            end_codes.len() == seg_count,
            start_codes.len() == seg_count,
            id_deltas.len() == seg_count,
            id_range_offset.len() == seg_count,
            seg_count <= 0x8000,
            groups@ == groups_upto(t, i as int),
        decreases seg_count - i,
    {
        let start = start_codes[i];
        let end = end_codes[i];
        if start == 0xFFFF && end == 0xFFFF {
            i = i + 1;
            assert(groups@ =~= groups_upto(t, i as int));
            continue;
        }
        let ghost before = groups@;
        let mut c: u32 = start as u32;
        while c <= end as u32
            invariant
                i < seg_count,
                start == t.starts[i as int],
                end == t.ends[i as int],
                start <= c <= end as u32 + 1 || (c == start && start > end),
                t.ends == end_codes@,
                t.starts == start_codes@,
                t.deltas == id_deltas@,
                t.ranges == id_range_offset@,
                t.glyph_ids == glyph_id_array@,
                end_codes.len() == seg_count,
                start_codes.len() == seg_count,
                id_deltas.len() == seg_count,
                id_range_offset.len() == seg_count,
                seg_count <= 0x8000,
                groups@ + seg_runs(t, i as int, c as int) == before + seg_runs(t, i as int, start as int),
            decreases end as u32 + 1 - c,
        {
            assert(seg_count <= 0x8000);
            let glyph = glyph_for(&start_codes, &id_deltas, &id_range_offset, &glyph_id_array, seg_count, i, c, Ghost(t));
            if glyph == 0 {
                c = c + 1;
                continue;
            }
            let run_start_c = c;
            let run_start_g = glyph;
            c = c + 1;
            while c <= end as u32
                invariant
                    i < seg_count,
                    start == t.starts[i as int],
                    end == t.ends[i as int],
                    start <= run_start_c < c <= end as u32 + 1,
                    run_start_g < 65536,
                    t.ends == end_codes@,
                    t.starts == start_codes@,
                    t.deltas == id_deltas@,
                    t.ranges == id_range_offset@,
                    t.glyph_ids == glyph_id_array@,
                    end_codes.len() == seg_count,
                    start_codes.len() == seg_count,
                    id_deltas.len() == seg_count,
                    id_range_offset.len() == seg_count,
                    seg_count <= 0x8000,
                    run_end(t, i as int, run_start_c as int, run_start_g as int, run_start_c + 1)
                        == run_end(t, i as int, run_start_c as int, run_start_g as int, c as int),
                ensures
                    run_end(t, i as int, run_start_c as int, run_start_g as int, run_start_c + 1) == c - 1,
                    run_start_c < c <= end as u32 + 1,
                decreases end as u32 + 1 - c,
            {
                let next = glyph_for(&start_codes, &id_deltas, &id_range_offset, &glyph_id_array, seg_count, i, c, Ghost(t));
                if next != run_start_g + (c - run_start_c) {
                    break;
                }
                c = c + 1;
            }
            proof {
                lemma_run_end_ge(t, i as int, run_start_c as int, run_start_g as int, run_start_c + 1);
            }
            let ghost g0 = groups@;
            groups.push(CMapGroup { start_char: run_start_c, end_char: c - 1, start_glyph: run_start_g });
            assert(seg_runs(t, i as int, run_start_c as int) =~= seq![groups@.last()] + seg_runs(t, i as int, c as int));
            assert(groups@ =~= g0 + seq![groups@.last()]);
            assert(g0 + seg_runs(t, i as int, run_start_c as int) =~= groups@ + seg_runs(t, i as int, c as int));
        }
        assert(seg_runs(t, i as int, c as int) =~= Seq::<CMapGroup>::empty());
        assert(groups@ =~= before + seg_groups(t, i as int));
        i = i + 1;
    }
    Ok(groups)
}

/// The glyph segment `i` gives to character `c`, if its range holds `c` with a glyph other
/// than 0; the closing segment `0xFFFF..0xFFFF` gives none.
pub open spec fn seg_lookup(t: Format4Arrays, i: int, c: u32) -> Option<u32> {
    if t.starts[i] == 0xFFFF && t.ends[i] == 0xFFFF {
        None
    } else if t.starts[i] <= c <= t.ends[i] && seg_glyph(t, i, c as int) != 0 {
        Some(seg_glyph(t, i, c as int) as u32)
    } else {
        None
    }
}

/// The glyph the first of the first `n` segments that gives `c` one gives it.
pub open spec fn f4_lookup(t: Format4Arrays, n: int, c: u32) -> Option<u32>
    decreases n,
{
    if n <= 0 {
        None
    } else {
        match f4_lookup(t, n - 1, c) {
            Some(g) => Some(g),
            None => seg_lookup(t, n - 1, c),
        }
    }
}

/// Within the run that starts at `c0` with glyph `g0`, each character maps to the glyph
/// as far past `g0` as it is past `c0`.
pub proof fn lemma_run_values(t: Format4Arrays, i: int, c0: int, g0: int, c: int, x: int)
    requires
        c <= x <= run_end(t, i, c0, g0, c),
    ensures
        seg_glyph(t, i, x) == g0 + (x - c0),
    decreases t.ends[i] + 1 - c,
{
    if x > c {
        lemma_run_values(t, i, c0, g0, c + 1, x);
    }
}

/// The first group of `a + b` from `i` on that covers `c` is the first one of `a`, else the
/// first one of `b` moved past `a`.
pub proof fn lemma_first_group_concat(a: Seq<CMapGroup>, b: Seq<CMapGroup>, c: u32, i: int)
    requires
        0 <= i <= a.len(),
    ensures
        first_group(a + b, c, i) == match first_group(a, c, i) {
            Some(k) => Some(k),
            None => match first_group(b, c, 0) {
                Some(k) => Some(k + a.len()),
                None => None::<int>,
            },
        },
    decreases a.len() + b.len() - i,
{
    if i < a.len() {
        assert((a + b)[i] == a[i]);
        lemma_first_group_concat(a, b, c, i + 1);
    } else {
        lemma_first_group_shift(a, b, c, 0);
    }
}

/// Past `a`, the groups of `a + b` are those of `b`.
pub proof fn lemma_first_group_shift(a: Seq<CMapGroup>, b: Seq<CMapGroup>, c: u32, j: int)
    requires
        0 <= j <= b.len(),
    ensures
        first_group(a + b, c, a.len() + j) == match first_group(b, c, j) {
            Some(k) => Some(k + a.len()),
            None => None::<int>,
        },
    decreases b.len() - j,
{
    if j < b.len() {
        assert((a + b)[a.len() + j] == b[j]);
        lemma_first_group_shift(a, b, c, j + 1);
    }
}

/// Looking `c` up in `a + b` finds it in `a` when `a` has it, else in `b`.
pub proof fn lemma_lookup_concat(a: Seq<CMapGroup>, b: Seq<CMapGroup>, c: u32)
    ensures
        lookup_spec(a + b, c) == match lookup_spec(a, c) {
            Some(g) => Some(g),
            None => lookup_spec(b, c),
        },
{
    lemma_first_group_concat(a, b, c, 0);
    if let Some(k) = first_group(a, c, 0) {
        crate::table::cmap::lemma_first_group_range(a, c, 0);
        assert((a + b)[k] == a[k]);
    } else if let Some(k) = first_group(b, c, 0) {
        crate::table::cmap::lemma_first_group_range(b, c, 0);
        assert((a + b)[k + a.len()] == b[k]);
    }
}

/// Looking `c` up in the runs of segment `i` from `c0` on gives the glyph the segment maps
/// it to, when `c` lies from `c0` to the segment's end and that glyph is not 0.
pub proof fn lemma_seg_runs_lookup(t: Format4Arrays, i: int, c0: int, c: u32)
    requires
        0 <= c0,
        t.ends[i] <= 0xFFFF,
    ensures
        lookup_spec(seg_runs(t, i, c0), c) == if c0 <= c <= t.ends[i] && seg_glyph(t, i, c as int) != 0 {
            Some(seg_glyph(t, i, c as int) as u32)
        } else {
            None
        },
    decreases t.ends[i] + 1 - c0,
{
    if c0 > t.ends[i] {
        assert(seg_runs(t, i, c0) =~= Seq::<CMapGroup>::empty());
    } else if seg_glyph(t, i, c0) == 0 {
        lemma_seg_runs_lookup(t, i, c0 + 1, c);
    } else {
        let g = seg_glyph(t, i, c0);
        let e = run_end(t, i, c0, g, c0 + 1);
        lemma_run_end_ge(t, i, c0, g, c0 + 1);
        lemma_run_end_le(t, i, c0, g, c0 + 1);
        let head = seq![CMapGroup { start_char: c0 as u32, end_char: e as u32, start_glyph: g as u32 }];
        assert(seg_runs(t, i, c0) == head + seg_runs(t, i, e + 1));
        lemma_lookup_concat(head, seg_runs(t, i, e + 1), c);
        lemma_seg_runs_lookup(t, i, e + 1, c);
        assert(first_group(head, c, 1) == None::<int>);
        if c0 <= c <= e {
            assert(covers(head[0], c));
            if c > c0 {
                lemma_run_values(t, i, c0, g, c0 + 1, c as int);
            }
            assert(seg_glyph(t, i, c as int) == g + (c - c0));
        } else {
            assert(!covers(head[0], c));
        }
    }
}

/// Reading a format 4 subtable and looking a character up gives the glyph of the first
/// segment whose range holds the character with a glyph other than 0, and nothing when no
/// segment does.
pub proof fn lemma_format4_lookup(d: Seq<u8>, p: int, c: u32)
    ensures
        lookup_spec(f4_groups(d, p), c) == f4_lookup(f4_arrays(d, p), f4_seg_count(d, p), c),
{
    lemma_groups_lookup(f4_arrays(d, p), f4_seg_count(d, p), c);
}

/// Looking `c` up in the runs of the first `n` segments gives what the first of them that
/// maps `c` maps it to.
pub proof fn lemma_groups_lookup(t: Format4Arrays, n: int, c: u32)
    ensures
        lookup_spec(groups_upto(t, n), c) == f4_lookup(t, n, c),
    decreases n,
{
    if n <= 0 {
        assert(groups_upto(t, n) =~= Seq::<CMapGroup>::empty());
    } else {
        lemma_groups_lookup(t, n - 1, c);
        lemma_lookup_concat(groups_upto(t, n - 1), seg_groups(t, n - 1), c);
        if t.starts[n - 1] == 0xFFFF && t.ends[n - 1] == 0xFFFF {
            assert(seg_groups(t, n - 1) =~= Seq::<CMapGroup>::empty());
        } else {
            lemma_seg_runs_lookup(t, n - 1, t.starts[n - 1] as int, c);
        }
    }
}

/// Whether the first `n` segments hold increasing, non-overlapping ranges of characters.
pub open spec fn segments_sorted(t: Format4Arrays, n: int) -> bool {
    forall|i: int, j: int| 0 <= i < j < n ==> #[trigger] t.ends[i] < #[trigger] t.starts[j]
}

/// Whether the range of segment `i` holds character `c`.
pub open spec fn seg_holds(t: Format4Arrays, i: int, c: u32) -> bool {
    t.starts[i] <= c <= t.ends[i]
}

/// Over sorted, non-overlapping segments, the first `m` segments give `c` what the one
/// among them whose range holds it gives, and nothing when none does.
pub proof fn lemma_sorted_lookup(t: Format4Arrays, n: int, m: int, c: u32)
    requires
        segments_sorted(t, n),
        m <= n,
    ensures
        forall|i: int| 0 <= i < m && #[trigger] seg_holds(t, i, c) ==> f4_lookup(t, m, c) == seg_lookup(t, i, c),
        (forall|i: int| 0 <= i < m ==> !#[trigger] seg_holds(t, i, c)) ==> f4_lookup(t, m, c) is None,
    decreases m,
{
    if m > 0 {
        lemma_sorted_lookup(t, n, m - 1, c);
        assert forall|i: int| 0 <= i < m && #[trigger] seg_holds(t, i, c) implies f4_lookup(t, m, c) == seg_lookup(t, i, c) by {
            if i < m - 1 {
                assert(t.ends[i] < t.starts[m - 1]);
                assert(!seg_holds(t, m - 1, c));
            } else {
                assert forall|j: int| 0 <= j < m - 1 implies !#[trigger] seg_holds(t, j, c) by {
                    assert(t.ends[j] < t.starts[i]);
                }
            }
        }
        if forall|i: int| 0 <= i < m ==> !#[trigger] seg_holds(t, i, c) {
            assert(!seg_holds(t, m - 1, c));
        }
    }
}

/// When a format 4 subtable's segments are sorted and do not overlap, looking a character
/// up in what was read gives the glyph of the segment whose range holds it, nothing when
/// that glyph is 0, and nothing when no segment holds it.
pub proof fn lemma_format4_sorted_lookup(d: Seq<u8>, p: int, c: u32)
    requires
        segments_sorted(f4_arrays(d, p), f4_seg_count(d, p)),
    ensures
        forall|i: int| 0 <= i < f4_seg_count(d, p) && #[trigger] seg_holds(f4_arrays(d, p), i, c)
            ==> lookup_spec(f4_groups(d, p), c) == seg_lookup(f4_arrays(d, p), i, c),
        (forall|i: int| 0 <= i < f4_seg_count(d, p) ==> !#[trigger] seg_holds(f4_arrays(d, p), i, c))
            ==> lookup_spec(f4_groups(d, p), c) is None,
{
    lemma_format4_lookup(d, p, c);
    lemma_sorted_lookup(f4_arrays(d, p), f4_seg_count(d, p), f4_seg_count(d, p), c);
}

/// The glyph a format 4 subtable at `p` that reads without error gives character `c` in
/// segment `i`, read from the bytes as the format lays them out: with a range offset of 0, the character plus the
/// segment's delta; else the glyph id array word found as many bytes past the segment's
/// own range offset entry as that offset says (rounded down to a whole word), plus two
/// bytes per character past the segment's start, then plus the delta; none (0) when that
/// word is 0 or lies outside the glyph id array; all modulo 65536.
pub proof fn lemma_segment_glyph_bytes(d: Seq<u8>, p: int, i: int, c: int)
    requires
        f4_error(d, p) is None,
        0 <= i < f4_seg_count(d, p),
    ensures
        ({
            let s = f4_seg_count(d, p);
            let entry = p + 16 + 6 * s + 2 * i;
            let r = u16_at(d, entry) as int;
            let start = u16_at(d, p + 16 + 2 * s + 2 * i) as int;
            let delta = i16_at(d, p + 16 + 4 * s + 2 * i) as int;
            let addr = entry + 2 * (r / 2) + 2 * (c - start);
            let array = p + 16 + 8 * s;
            seg_glyph(f4_arrays(d, p), i, c) == if r == 0 {
                (c + delta) % 65536
            } else if addr < array || addr >= array + 2 * f4_glyph_count(d, p) || u16_at(d, addr) == 0 {
                0
            } else {
                (u16_at(d, addr) + delta) % 65536
            }
        }),
{
    let s = f4_seg_count(d, p);
    let t = f4_arrays(d, p);
    let entry = p + 16 + 6 * s + 2 * i;
    let r = u16_at(d, entry) as int;
    let start = u16_at(d, p + 16 + 2 * s + 2 * i) as int;
    let array = p + 16 + 8 * s;
    assert(t.ranges[i] == r);
    assert(t.starts[i] == start);
    assert(t.deltas[i] == i16_at(d, p + 16 + 4 * s + 2 * i));
    assert(t.ends.len() == s);
    let idx = r / 2 + (c - start) + i - s;
    assert(entry + 2 * (r / 2) + 2 * (c - start) == array + 2 * idx);
    if 0 <= idx < t.glyph_ids.len() {
        assert(t.glyph_ids[idx] == u16_at(d, array + 2 * idx));
    }
}

/// When the segments are sorted and apart, looking up a character that segment `i` holds,
/// in what was read without error from a format 4 subtable, gives the glyph that the bytes of segment
/// `i` give it, and nothing when that glyph is 0 (the closing `0xFFFF..0xFFFF` segment
/// gives nothing).
pub proof fn lemma_format4_lookup_bytes(d: Seq<u8>, p: int, i: int, c: u32)
    requires
        f4_error(d, p) is None,
        segments_sorted(f4_arrays(d, p), f4_seg_count(d, p)),
        0 <= i < f4_seg_count(d, p),
        seg_holds(f4_arrays(d, p), i, c),
        !(f4_arrays(d, p).starts[i] == 0xFFFF && f4_arrays(d, p).ends[i] == 0xFFFF),
    ensures
        ({
            let s = f4_seg_count(d, p);
            let entry = p + 16 + 6 * s + 2 * i;
            let r = u16_at(d, entry) as int;
            let start = u16_at(d, p + 16 + 2 * s + 2 * i) as int;
            let delta = i16_at(d, p + 16 + 4 * s + 2 * i) as int;
            let addr = entry + 2 * (r / 2) + 2 * (c - start);
            let array = p + 16 + 8 * s;
            let g = if r == 0 {
                (c + delta) % 65536
            } else if addr < array || addr >= array + 2 * f4_glyph_count(d, p) || u16_at(d, addr) == 0 {
                0
            } else {
                (u16_at(d, addr) + delta) % 65536
            };
            lookup_spec(f4_groups(d, p), c) == if g == 0 { None } else { Some(g as u32) }
        }),
{
    lemma_format4_sorted_lookup(d, p, c);
    lemma_segment_glyph_bytes(d, p, i, c as int);
}

} // verus!
