use vstd::prelude::*;
use crate::table::cmap::{CMapGroup, covers, first_group, lemma_first_group_range, lookup_spec};

verus! {

/// A glyph of shaped text and the index of the character it came from.
#[derive(Clone, Copy, Debug)]
pub struct GlyphInfo {
    pub glyph_id: u16,
    pub cluster: u32,
}

/// The code points of the characters of `text`, in order.
pub fn decode_utf8(text: &str) -> (r: Vec<u32>)
    ensures
        r@ == text@.map_values(|c: char| c as u32),
{
    let mut out: Vec<u32> = Vec::new();
    for c in it: text.chars()
        invariant
            it.seq() == text@,
            out@ == it.seq().take(it.index() as int).map_values(|c: char| c as u32),
    {
        out.push(c as u32);
        assert(out@ =~= it.seq().take(it.index() as int + 1).map_values(|c: char| c as u32));
    }
    assert(text@.take(text@.len() as int) =~= text@);
    out
}

/// The glyph that the character map gives to `c`: the first group that covers it
/// maps it to its start glyph plus the distance from its start character; a
/// character that no group covers, or whose glyph does not fit a glyph id, gets
/// glyph 0 (the missing-glyph box).
pub open spec fn glyph_index_spec(groups: Seq<CMapGroup>, c: u32) -> u16 {
    match first_group(groups, c, 0) {
        Some(k) => {
            let g = groups[k].start_glyph + (c - groups[k].start_char);
            if g <= 0xFFFF { g as u16 } else { 0 }
        },
        None => 0,
    }
}

/// A shaped character gets the glyph that the character map gives it, when that
/// glyph fits a glyph id, and glyph 0 when the map gives it none (for the maps that
/// `lookup` reads, whose glyph for `c` fits 32 bits).
pub proof fn lemma_glyph_index_lookup(groups: Seq<CMapGroup>, c: u32)
    requires
        first_group(groups, c, 0) matches Some(k) ==> groups[k].start_glyph + (c - groups[k].start_char)
            <= u32::MAX,
    ensures
        forall|g: u32| lookup_spec(groups, c) == Some(g) && g <= 0xFFFF ==> glyph_index_spec(groups, c) == g,
        lookup_spec(groups, c) is None ==> glyph_index_spec(groups, c) == 0,
{
    lemma_first_group_range(groups, c, 0);
}

/// The glyph id of character `c` in the character map `groups`.
pub fn glyph_index(groups: &[CMapGroup], c: u32) -> (g: u16)
    ensures
        g == glyph_index_spec(groups@, c),
{
    proof {
        lemma_first_group_range(groups@, c, 0);
    }
    let mut i: usize = 0;
    while i < groups.len()
        invariant
            i <= groups.len(),
            first_group(groups@, c, 0) == first_group(groups@, c, i as int),
        decreases groups.len() - i,
    {
        let grp = &groups[i];
        if grp.start_char <= c && c <= grp.end_char {
            let glyph: u64 = grp.start_glyph as u64 + (c - grp.start_char) as u64;
            if glyph <= 0xFFFF {
                return glyph as u16;
            }
            return 0;
        }
        i = i + 1;
    }
    0
}

/// Turns text into glyphs with the character map of a font.
pub struct Shaper<'a> {
    pub cmap: &'a [CMapGroup],
}

impl<'a> Shaper<'a> {
    pub fn new(cmap: &'a [CMapGroup]) -> (s: Self)
        ensures
            s.cmap@ == cmap@,
    {
        Shaper { cmap }
    }

    /// Shapes `text`: its characters in order, each mapped to its glyph by the
    /// character map, with the index of the character as cluster.
    pub fn shape(&self, text: &str) -> (infos: Vec<GlyphInfo>)
        ensures
            infos@.len() == text@.len(),
            forall|i: int|
                0 <= i < text@.len() ==> (#[trigger] infos@[i]).glyph_id == glyph_index_spec(
                    self.cmap@,
                    text@[i] as u32,
                ) && infos@[i].cluster == i as u32,
    {
        let cps = decode_utf8(text);
        self.map_to_glyphs(cps.as_slice())
    }

    /// The glyph infos of code points `cps`: each code point in order, mapped to its
    /// glyph by the character map, with its own index as cluster.
    pub fn map_to_glyphs(&self, cps: &[u32]) -> (infos: Vec<GlyphInfo>)
        ensures
            infos@.len() == cps@.len(),
            forall|i: int|
                0 <= i < cps@.len() ==> (#[trigger] infos@[i]).glyph_id == glyph_index_spec(self.cmap@, cps@[i])
                    && infos@[i].cluster == i as u32,
    {
        let mut infos: Vec<GlyphInfo> = Vec::new();
        let mut i: usize = 0;
        while i < cps.len()
            invariant
                i <= cps.len(),
                infos@.len() == i,
                forall|j: int|
                    0 <= j < i ==> (#[trigger] infos@[j]).glyph_id == glyph_index_spec(self.cmap@, cps@[j])
                        && infos@[j].cluster == j as u32,
            decreases cps.len() - i,
        {
            let gid = glyph_index(self.cmap, cps[i]);
            infos.push(GlyphInfo { glyph_id: gid, cluster: i as u32 });
            i = i + 1;
        }
        infos
    }
}

} // verus!
