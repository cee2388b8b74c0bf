use vstd::prelude::*;
use crate::geom::{Point, fits_i32};

verus! {

/// The Harfbuzz code of a script.
pub type HbScript = u32;

#[derive(Debug, Copy, Clone, PartialEq, Eq, Structural)]
pub enum Family {
    SansSerif,
    Serif,
    Monospace,
    Keyboard,
    Display,
}

/// A glyph placed by the shaper.
#[derive(Debug, Copy, Clone)]
pub struct GlyphPlan {
    pub codepoint: u32,
    pub cluster: usize,
    pub offset: Point,
    pub advance: Point,
}

/// A line of shaped text: its width, the script of some glyphs (by glyph index) and the
/// glyphs. No glyph index has two scripts.
#[derive(Debug, Clone)]
pub struct RenderPlan {
    pub width: u32,
    scripts: Vec<(usize, HbScript)>,
    glyphs: Vec<GlyphPlan>,
}

/// The keys of a list of pairs.
pub open spec fn keys(s: Seq<(usize, HbScript)>) -> Seq<usize> {
    s.map_values(|p: (usize, HbScript)| p.0)
}

/// Adds a pair, replacing the one with the same key if there is one.
pub open spec fn insert_pair(s: Seq<(usize, HbScript)>, p: (usize, HbScript)) -> Seq<(usize, HbScript)> {
    if keys(s).contains(p.0) {
        s.update(keys(s).index_of(p.0), p)
    } else {
        s.push(p)
    }
}

/// Adds the pairs of `t`, their keys shifted by `shift`, one after the other.
pub open spec fn insert_shifted(s: Seq<(usize, HbScript)>, t: Seq<(usize, HbScript)>, shift: int) -> Seq<(usize, HbScript)>
    decreases t.len(),
{
    if t.len() == 0 {
        s
    } else {
        insert_pair(
            insert_shifted(s, t.drop_last(), shift),
            ((t.last().0 + shift) as usize, t.last().1),
        )
    }
}

/// The sum of the first `n` horizontal advances.
pub open spec fn advance_sum(g: Seq<GlyphPlan>, n: int) -> int
    decreases n,
{
    if n <= 0 || g.len() == 0 {
        0
    } else if n > g.len() {
        advance_sum(g, g.len() as int)
    } else {
        advance_sum(g, n - 1) + g[n - 1].advance.x
    }
}

/// Where a position `advance` falls among the glyphs: the first glyph whose end passes it,
/// or the one after when the position is nearer to its end than to its start.
pub open spec fn index_from(g: Seq<GlyphPlan>, advance: int, index: int) -> int
    decreases g.len() - index,
{
    if index < 0 || index >= g.len() {
        index
    } else {
        let sum = advance_sum(g, index + 1);
        let gad = g[index].advance.x;
        if sum > advance {
            if sum - advance < advance - sum + gad {
                index + 1
            } else {
                index
            }
        } else {
            index_from(g, advance, index + 1)
        }
    }
}

/// The machine computations of `index_from` do not overflow.
pub open spec fn index_from_fits(g: Seq<GlyphPlan>, advance: int, index: int) -> bool
    decreases g.len() - index,
{
    if index < 0 || index >= g.len() {
        true
    } else {
        let sum = advance_sum(g, index + 1);
        let gad = g[index].advance.x;
        &&& fits_i32(sum)
        &&& if sum > advance {
            fits_i32(sum - advance) && fits_i32(advance - sum) && fits_i32(advance - sum + gad)
        } else {
            index_from_fits(g, advance, index + 1)
        }
    }
}

impl RenderPlan {
    pub closed spec fn width_of(self) -> u32 {
        self.width
    }

    pub closed spec fn glyphs(self) -> Seq<GlyphPlan> {
        self.glyphs@
    }

    pub closed spec fn scripts(self) -> Seq<(usize, HbScript)> {
        self.scripts@
    }

    pub closed spec fn well_formed(self) -> bool {
        keys(self.scripts@).no_duplicates()
    }

    /// An empty plan.
    pub fn new() -> (p: RenderPlan)
        ensures
            p.width_of() == 0,
            p.glyphs() == Seq::<GlyphPlan>::empty(),
            p.scripts() == Seq::<(usize, HbScript)>::empty(),
            p.well_formed(),
    {
        let p = RenderPlan { width: 0, scripts: Vec::new(), glyphs: Vec::new() };
        assert(keys(p.scripts@) =~= Seq::<usize>::empty());
        p
    }

    /// A plan made of the given glyphs, width and scripts.
    pub fn from_parts(width: u32, scripts: Vec<(usize, HbScript)>, glyphs: Vec<GlyphPlan>) -> (p: Option<RenderPlan>)
        ensures
            match p {
                Some(p) => keys(scripts@).no_duplicates() && p.width_of() == width && p.glyphs() == glyphs@
                    && p.scripts() == scripts@ && p.well_formed(),
                None => !keys(scripts@).no_duplicates(),
            },
    {
        let mut i: usize = 0;
        while i < scripts.len()
            invariant
                0 <= i <= scripts@.len(),
                keys(scripts@).take(i as int).no_duplicates(),
                forall|a: int, b: int| 0 <= a < b < i ==> scripts@[a].0 != scripts@[b].0,
            decreases scripts@.len() - i,
        {
            let mut j: usize = 0;
            while j < i
                invariant
                    0 <= j <= i < scripts@.len(),
                    forall|b: int| 0 <= b < j ==> scripts@[b].0 != scripts@[i as int].0,
                decreases i - j,
            {
                if scripts[j].0 == scripts[i].0 {
                    assert(keys(scripts@)[j as int] == keys(scripts@)[i as int]);
                    return None;
                }
                j += 1;
            }
            i += 1;
        }
        assert(keys(scripts@).no_duplicates());
        Some(RenderPlan { width, scripts, glyphs })
    }

    /// Adds `letter_spacing` to the advance of every glyph but the last one.
    pub fn space_out(&mut self, letter_spacing: u32)
        requires
            old(self).glyphs().len() > 0 && letter_spacing != 0 ==> {
                &&& old(self).width_of() + (old(self).glyphs().len() - 1) * letter_spacing <= u32::MAX
                &&& forall|i: int|
                    0 <= i < old(self).glyphs().len() - 1 ==> fits_i32(
                        #[trigger] old(self).glyphs()[i].advance.x + (letter_spacing as i32),
                    )
            },
        ensures
            final(self).scripts() == old(self).scripts(),
            final(self).well_formed() == old(self).well_formed(),
            final(self).glyphs().len() == old(self).glyphs().len(),
            letter_spacing == 0 || old(self).glyphs().len() == 0 ==> *final(self) == *old(self),
            letter_spacing != 0 && old(self).glyphs().len() > 0 ==> {
                &&& final(self).width_of() == old(self).width_of() + (old(self).glyphs().len() - 1)
                    * letter_spacing
                &&& forall|i: int|
                    0 <= i < old(self).glyphs().len() ==> {
                        let g = #[trigger] final(self).glyphs()[i];
                        let h = old(self).glyphs()[i];
                        &&& g.codepoint == h.codepoint
                        &&& g.cluster == h.cluster
                        &&& g.offset == h.offset
                        &&& g.advance.y == h.advance.y
                        &&& g.advance.x == if i < old(self).glyphs().len() - 1 {
                            h.advance.x + (letter_spacing as i32)
                        } else {
                            h.advance.x as int
                        }
                    }
            },
    {
        if letter_spacing == 0 {
            return;
        }
        let n = self.glyphs.len();
        if n == 0 {
            return;
        }
        assert(n - 1 <= (n - 1) * letter_spacing) by (nonlinear_arith)
            requires
                letter_spacing >= 1,
                n >= 1,
        ;
        let len = (n - 1) as u32;
        let spacing = letter_spacing as i32;
        let ghost orig = self.glyphs@;
        let mut i: usize = 0;
        while i < n - 1
            invariant
                0 <= i <= n - 1,
                n == orig.len(),
                orig == old(self).glyphs@,
                self.scripts == old(self).scripts,
                self.width == old(self).width,
                self.width + (n - 1) * letter_spacing <= u32::MAX,
                len == n - 1,
                self.glyphs@.len() == n,
                spacing == letter_spacing as i32,
                forall|k: int| 0 <= k < n - 1 ==> fits_i32(#[trigger] orig[k].advance.x + spacing),
                forall|k: int|
                    0 <= k < n ==> {
                        let g = #[trigger] self.glyphs@[k];
                        let h = orig[k];
                        &&& g.codepoint == h.codepoint
                        &&& g.cluster == h.cluster
                        &&& g.offset == h.offset
                        &&& g.advance.y == h.advance.y
                        &&& g.advance.x == if k < i {
                            h.advance.x + spacing
                        } else {
                            h.advance.x as int
                        }
                    },
            decreases n - 1 - i,
        {
            let mut g = self.glyphs[i];
            assert(fits_i32(orig[i as int].advance.x + spacing));
            g.advance.x = g.advance.x + spacing;
            self.glyphs.set(i, g);
            i += 1;
        }
        self.width = self.width + len * letter_spacing;
    }

    /// Splits the plan at glyph `index`: the plan keeps the glyphs before it and the width
    /// `width`; the plan returned gets the rest, with the scripts of its glyphs re-indexed.
    pub fn split_off(&mut self, index: usize, width: u32) -> (next: RenderPlan)
        requires
            index <= old(self).glyphs().len(),
            width <= old(self).width_of(),
        ensures
            final(self).width_of() == width,
            next.width_of() == old(self).width_of() - width,
            final(self).glyphs() == old(self).glyphs().take(index as int),
            next.glyphs() == old(self).glyphs().skip(index as int),
            final(self).scripts() == old(self).scripts().filter(
                |p: (usize, HbScript)| !(index <= p.0 < old(self).glyphs().len()),
            ),
            next.scripts() == old(self).scripts().filter(
                |p: (usize, HbScript)| index <= p.0 < old(self).glyphs().len(),
            ).map_values(|p: (usize, HbScript)| ((p.0 - index) as usize, p.1)),
    {
        let len = self.glyphs.len();
        let ghost orig = self.scripts@;
        let ghost in_range = |p: (usize, HbScript)| index <= p.0 < len;
        let ghost out_range = |p: (usize, HbScript)| !(index <= p.0 < len);
        let ghost shift = |p: (usize, HbScript)| ((p.0 - index) as usize, p.1);
        let mut kept: Vec<(usize, HbScript)> = Vec::new();
        let mut next_scripts: Vec<(usize, HbScript)> = Vec::new();
        let mut i: usize = 0;
        while i < self.scripts.len()
            invariant
                0 <= i <= orig.len(),
                self.scripts@ == orig,
                len == old(self).glyphs().len(),
                in_range == (|p: (usize, HbScript)| index <= p.0 < len),
                out_range == (|p: (usize, HbScript)| !(index <= p.0 < len)),
                shift == (|p: (usize, HbScript)| ((p.0 - index) as usize, p.1)),
                kept@ == orig.take(i as int).filter(out_range),
                next_scripts@ == orig.take(i as int).filter(in_range).map_values(shift),
            decreases orig.len() - i,
        {
            let p = self.scripts[i];
            proof {
                assert(orig.take(i + 1) =~= orig.take(i as int).push(p));
                orig.take(i as int).lemma_filter_push(p, in_range);
                orig.take(i as int).lemma_filter_push(p, out_range);
            }
            if index <= p.0 && p.0 < len {
                assert(in_range(p) && !out_range(p));
                assert(orig.take(i + 1).filter(in_range) == orig.take(i as int).filter(in_range).push(p));
                assert(orig.take(i + 1).filter(out_range) == orig.take(i as int).filter(out_range));
                next_scripts.push((p.0 - index, p.1));
                assert(next_scripts@ =~= orig.take(i + 1).filter(in_range).map_values(shift));
            } else {
                assert(!in_range(p) && out_range(p));
                assert(orig.take(i + 1).filter(out_range) == orig.take(i as int).filter(out_range).push(p));
                kept.push(p);
            }
            i += 1;
        }
        assert(orig.take(orig.len() as int) =~= orig);
        self.scripts = kept;
        let next_glyphs = self.glyphs.split_off(index);
        let next_width = self.width - width;
        self.width = width;
        RenderPlan { width: next_width, scripts: next_scripts, glyphs: next_glyphs }
    }

    /// The glyph under the position `advance`, counted in glyphs from the start.
    pub fn index_from_advance(&self, advance: i32) -> (index: usize)
        requires
            index_from_fits(self.glyphs(), advance as int, 0),
        ensures
            index == index_from(self.glyphs(), advance as int, 0),
    {
        let ghost g = self.glyphs@;
        let mut sum: i32 = 0;
        let mut index: usize = 0;
        while index < self.glyphs.len()
            invariant
                g == self.glyphs@,
                0 <= index <= g.len(),
                sum == advance_sum(g, index as int),
                index_from(g, advance as int, index as int) == index_from(g, advance as int, 0),
                index_from_fits(g, advance as int, index as int),
            decreases g.len() - index,
        {
            let gad = self.glyph_advance(index);
            sum = sum + gad;
            if sum > advance {
                if sum - advance < advance - sum + gad {
                    index += 1;
                }
                return index;
            }
            index += 1;
        }
        index
    }

    /// Appends the glyphs and scripts of `other` (its glyphs leave it), re-indexing the
    /// scripts.
    pub fn append(&mut self, other: &mut Self)
        requires
            old(self).well_formed(),
            old(self).width_of() + old(other).width_of() <= u32::MAX,
            forall|i: int|
                0 <= i < old(other).scripts().len() ==> old(self).glyphs().len()
                    + #[trigger] old(other).scripts()[i].0 <= usize::MAX,
        ensures
            final(self).well_formed(),
            final(self).width_of() == old(self).width_of() + old(other).width_of(),
            final(self).glyphs() == old(self).glyphs() + old(other).glyphs(),
            final(self).scripts() == insert_shifted(
                old(self).scripts(),
                old(other).scripts(),
                old(self).glyphs().len() as int,
            ),
            final(other).glyphs() == Seq::<GlyphPlan>::empty(),
            final(other).scripts() == old(other).scripts(),
            final(other).width_of() == old(other).width_of(),
    {
        let next_index = self.glyphs.len();
        let ghost base = self.scripts@;
        let ghost t = other.scripts@;
        assert forall|k: int| 0 <= k < t.len() implies next_index + #[trigger] t[k].0 <= usize::MAX by {
            assert(old(self).glyphs().len() + old(other).scripts()[k].0 <= usize::MAX);
        }
        let mut i: usize = 0;
        while i < other.scripts.len()
            invariant
                0 <= i <= t.len(),
                other.scripts@ == t,
                self.glyphs == old(self).glyphs,
                self.width == old(self).width,
                other.glyphs == old(other).glyphs,
                other.width == old(other).width,
                self.width + other.width <= u32::MAX,
                keys(self.scripts@).no_duplicates(),
                self.scripts@ == insert_shifted(base, t.take(i as int), next_index as int),
                forall|k: int| 0 <= k < t.len() ==> next_index + #[trigger] t[k].0 <= usize::MAX,
            decreases t.len() - i,
        {
            let (k, v) = other.scripts[i];
            assert(next_index + t[i as int].0 <= usize::MAX);
            let key = next_index + k;
            let ghost before = self.scripts@;
            insert_script(&mut self.scripts, key, v);
            assert(t.take(i + 1).drop_last() =~= t.take(i as int));
            i += 1;
        }
        assert(t.take(t.len() as int) =~= t);
        self.glyphs.append(&mut other.glyphs);
        self.width = self.width + other.width;
    }

    /// The position at the end of the first `index` glyphs.
    pub fn total_advance(&self, index: usize) -> (s: i32)
        requires
            forall|n: int| 0 <= n <= index ==> fits_i32(#[trigger] advance_sum(self.glyphs(), n)),
        ensures
            s == advance_sum(self.glyphs(), index as int),
    {
        let ghost g = self.glyphs@;
        assert forall|n: int| 0 <= n <= index implies fits_i32(#[trigger] advance_sum(g, n)) by {
            assert(fits_i32(advance_sum(self.glyphs(), n)));
        }
        let mut s: i32 = 0;
        let mut i: usize = 0;
        while i < index && i < self.glyphs.len()
            invariant
                g == self.glyphs@,
                0 <= i <= index,
                i <= g.len(),
                s == advance_sum(g, i as int),
                forall|n: int| 0 <= n <= index ==> fits_i32(#[trigger] advance_sum(g, n)),
            decreases g.len() - i,
        {
            assert(fits_i32(advance_sum(g, i + 1)));
            s = s + self.glyphs[i].advance.x;
            i += 1;
        }
        proof {
            if i < index {
                lemma_advance_sum_past_end(g, index as int);
            }
        }
        s
    }

    /// The horizontal advance of a glyph.
    pub fn glyph_advance(&self, index: usize) -> (a: i32)
        requires
            index < self.glyphs().len(),
        ensures
            a == self.glyphs()[index as int].advance.x,
    {
        self.glyphs[index].advance.x
    }
}

proof fn lemma_advance_sum_past_end(g: Seq<GlyphPlan>, n: int)
    requires
        n >= g.len(),
    ensures
        advance_sum(g, n) == advance_sum(g, g.len() as int),
{
}

/// Sets the script of glyph `key`.
fn insert_script(scripts: &mut Vec<(usize, HbScript)>, key: usize, v: HbScript)
    requires
        keys(old(scripts)@).no_duplicates(),
    ensures
        keys(final(scripts)@).no_duplicates(),
        final(scripts)@ == insert_pair(old(scripts)@, (key, v)),
{
    let ghost ks = keys(scripts@);
    let mut j: usize = 0;
    while j < scripts.len()
        invariant
            0 <= j <= scripts@.len(),
            ks == keys(scripts@),
            ks == keys(old(scripts)@),
            ks.no_duplicates(),
            scripts@ == old(scripts)@,
            forall|b: int| 0 <= b < j ==> ks[b] != key,
        decreases scripts@.len() - j,
    {
        if scripts[j].0 == key {
            proof {
                assert(ks[j as int] == key);
                assert(ks.contains(key));
                let k = ks.index_of(key);
                assert(ks[k] == key);
                assert(0 <= k < ks.len() && ks[k] == key);
                assert(k == j);
            }
            scripts.set(j, (key, v));
            proof {
                assert(keys(scripts@) =~= ks);
            }
            return;
        }
        j += 1;
    }
    proof {
        assert(!ks.contains(key));
    }
    scripts.push((key, v));
    proof {
        assert(keys(scripts@) =~= ks.push(key));
    }
}

/// An OpenType tag made of four bytes.
pub fn tag(c1: u8, c2: u8, c3: u8, c4: u8) -> (t: u32)
    ensures
        t == c1 * 0x1000000 + c2 * 0x10000 + c3 * 0x100 + c4,
{
    let t = ((c1 as u32) << 24) | ((c2 as u32) << 16) | ((c3 as u32) << 8) | c4 as u32;
    assert(((c1 as u32) << 24) | ((c2 as u32) << 16) | ((c3 as u32) << 8) | c4 as u32 == c1 as u32
        * 0x1000000 + c2 as u32 * 0x10000 + c3 as u32 * 0x100 + c4 as u32) by (bit_vector);
    t
}

/// The symbol sets that have fonts of their own, by which code points fall into them.
#[derive(Debug, Copy, Clone, PartialEq, Eq, Structural)]
pub enum SymbolScript {
    Maths,
    Music,
    MiscOne,
    MiscTwo,
    Emoji,
    Unknown,
}

/// The code points of mathematical notation.
pub open spec fn in_maths(c: u32) -> bool {
    (0x2032 <= c <= 0x2037) || c == 0x2057 || (0x20D0 <= c <= 0x20DC) || c == 0x20E1 ||
    (0x20E5 <= c <= 0x20EF) || c == 0x2102 || (0x210A <= c <= 0x210E) ||
    (0x2110 <= c <= 0x2112) || c == 0x2115 || (0x2119 <= c <= 0x211D) || c == 0x2124 ||
    c == 0x2128 || c == 0x212C || c == 0x212D || (0x212F <= c <= 0x2131) ||
    (0x2133 <= c <= 0x2138) || (0x213C <= c <= 0x2140) || (0x2145 <= c <= 0x2149) ||
    (0x2190 <= c <= 0x21AE) || (0x21B0 <= c <= 0x21E5) || c == 0x21F1 || c == 0x21F2 ||
    (0x21F4 <= c <= 0x22FF) || (0x2308 <= c <= 0x230B) || c == 0x2310 || c == 0x2319 ||
    (0x231C <= c <= 0x2321) || (0x2336 <= c <= 0x237A) || c == 0x237C || c == 0x2395 ||
    (0x239B <= c <= 0x23B6) || c == 0x23D0 || (0x23DC <= c <= 0x23E1) || c == 0x2474 ||
    c == 0x2475 || c == 0x25AF || c == 0x25B3 || c == 0x25B7 || c == 0x25BD || c == 0x25C1 ||
    c == 0x25CA || c == 0x25CC || c == 0x25FB || (0x266D <= c <= 0x266F) ||
    (0x27C0 <= c <= 0x27FF) || (0x2900 <= c <= 0x2AFF) || (0x2B0E <= c <= 0x2B11) ||
    (0x2B30 <= c <= 0x2B4C) || c == 0x2BFE || c == 0xFF5B || c == 0xFF5D ||
    (0x1D400 <= c <= 0x1D454) || (0x1D456 <= c <= 0x1D49C) || c == 0x1D49E || c == 0x1D49F ||
    c == 0x1D4A2 || c == 0x1D4A5 || c == 0x1D4A6 || (0x1D4A9 <= c <= 0x1D4AC) ||
    (0x1D4AE <= c <= 0x1D4B9) || c == 0x1D4BB || (0x1D4BD <= c <= 0x1D4C3) ||
    (0x1D4C5 <= c <= 0x1D505) || (0x1D507 <= c <= 0x1D50A) || (0x1D50D <= c <= 0x1D514) ||
    (0x1D516 <= c <= 0x1D51C) || (0x1D51E <= c <= 0x1D539) || (0x1D53B <= c <= 0x1D53E) ||
    (0x1D540 <= c <= 0x1D544) || c == 0x1D546 || (0x1D54A <= c <= 0x1D550) ||
    (0x1D552 <= c <= 0x1D6A5) || (0x1D6A8 <= c <= 0x1D7CB) || (0x1D7CE <= c <= 0x1D7FF) ||
    (0x1EE00 <= c <= 0x1EE03) || (0x1EE05 <= c <= 0x1EE1F) || c == 0x1EE21 || c == 0x1EE22 ||
    c == 0x1EE24 || c == 0x1EE27 || (0x1EE29 <= c <= 0x1EE32) || (0x1EE34 <= c <= 0x1EE37) ||
    c == 0x1EE39 || c == 0x1EE3B || c == 0x1EE42 || c == 0x1EE47 || c == 0x1EE49 ||
    c == 0x1EE4B || (0x1EE4D <= c <= 0x1EE4F) || c == 0x1EE51 || c == 0x1EE52 ||
    c == 0x1EE54 || c == 0x1EE57 || c == 0x1EE59 || c == 0x1EE5B || c == 0x1EE5D ||
    c == 0x1EE5F || c == 0x1EE61 || c == 0x1EE62 || c == 0x1EE64 ||
    (0x1EE67 <= c <= 0x1EE6A) || (0x1EE6C <= c <= 0x1EE72) || (0x1EE74 <= c <= 0x1EE77) ||
    (0x1EE79 <= c <= 0x1EE7C) || c == 0x1EE7E || (0x1EE80 <= c <= 0x1EE89) ||
    (0x1EE8B <= c <= 0x1EE9B) || (0x1EEA1 <= c <= 0x1EEA3) || (0x1EEA5 <= c <= 0x1EEA9) ||
    (0x1EEAB <= c <= 0x1EEBB) || c == 0x1EEF0 || c == 0x1EEF1
}

/// The code points of musical notation.
pub open spec fn in_music(c: u32) -> bool {
    (0x1D000 <= c <= 0x1D0F5) || (0x1D100 <= c <= 0x1D126) || (0x1D129 <= c <= 0x1D1E8) ||
    (0x1D200 <= c <= 0x1D245)
}

/// The code points of the first set of miscellaneous symbols.
pub open spec fn in_misc_one(c: u32) -> bool {
    (0x20DD <= c <= 0x20E0) || (0x20E2 <= c <= 0x20E4) || (0x2160 <= c <= 0x2183) ||
    (0x2185 <= c <= 0x2188) || c == 0x218A || c == 0x218B || (0x2300 <= c <= 0x230F) ||
    (0x2311 <= c <= 0x2315) || c == 0x2317 || c == 0x2322 || c == 0x2323 || c == 0x2329 ||
    c == 0x232A || (0x232C <= c <= 0x2335) || (0x2380 <= c <= 0x2394) ||
    (0x2396 <= c <= 0x239A) || (0x23BE <= c <= 0x23CD) || (0x23D0 <= c <= 0x23DB) ||
    (0x23E2 <= c <= 0x23E8) || (0x2460 <= c <= 0x24FF) || (0x260A <= c <= 0x260D) ||
    c == 0x2613 || (0x2624 <= c <= 0x262F) || (0x2638 <= c <= 0x263B) ||
    (0x263D <= c <= 0x2653) || (0x2669 <= c <= 0x267E) || (0x2690 <= c <= 0x269D) ||
    (0x26A2 <= c <= 0x26A9) || (0x26AD <= c <= 0x26BC) || c == 0x26CE ||
    (0x26E2 <= c <= 0x26FF) || (0x271D <= c <= 0x2721) || (0x2776 <= c <= 0x2793) ||
    (0x1F100 <= c <= 0x1F10C) || (0x1F110 <= c <= 0x1F12E) || (0x1F130 <= c <= 0x1F16B) ||
    (0x1F170 <= c <= 0x1F190) || (0x1F19B <= c <= 0x1F1AC) || (0x1F546 <= c <= 0x1F549) ||
    c == 0x1F54F || c == 0x1F610 || (0x1F700 <= c <= 0x1F773)
}

/// The code points of the second set of miscellaneous symbols.
pub open spec fn in_misc_two(c: u32) -> bool {
    c == 0x2022 || c == 0x21AF || (0x21E6 <= c <= 0x21F0) || c == 0x21F3 || c == 0x2316 ||
    c == 0x2318 || c == 0x231A || c == 0x231B || (0x2324 <= c <= 0x2328) || c == 0x232B ||
    c == 0x237B || (0x237D <= c <= 0x237F) || c == 0x23CE || c == 0x23CF || c == 0x23E9 ||
    c == 0x23EA || (0x23ED <= c <= 0x23EF) || (0x23F1 <= c <= 0x23FE) ||
    (0x2400 <= c <= 0x2426) || (0x2440 <= c <= 0x244A) || (0x25A0 <= c <= 0x2609) ||
    (0x260E <= c <= 0x2612) || (0x2614 <= c <= 0x2623) || (0x2630 <= c <= 0x2637) ||
    c == 0x263C || (0x2654 <= c <= 0x2668) || (0x267F <= c <= 0x268F) ||
    (0x269E <= c <= 0x26A1) || (0x26AA <= c <= 0x26AC) || (0x26BD <= c <= 0x26CD) ||
    (0x26CF <= c <= 0x26E1) || (0x2700 <= c <= 0x2704) || (0x2706 <= c <= 0x2709) ||
    (0x270B <= c <= 0x271C) || (0x2722 <= c <= 0x2727) || (0x2729 <= c <= 0x274B) ||
    c == 0x274D || (0x274F <= c <= 0x2753) || (0x2756 <= c <= 0x2775) || c == 0x2794 ||
    (0x2798 <= c <= 0x27AF) || (0x27B1 <= c <= 0x27BE) || (0x2800 <= c <= 0x28FF) ||
    (0x2B00 <= c <= 0x2B0D) || (0x2B12 <= c <= 0x2B2F) || (0x2B4D <= c <= 0x2B73) ||
    (0x2B76 <= c <= 0x2B95) || (0x2B98 <= c <= 0x2BB9) || (0x2BBD <= c <= 0x2BC8) ||
    (0x2BCA <= c <= 0x2BD1) || (0x2BEC <= c <= 0x2BEF) || (0x4DC0 <= c <= 0x4DFF) ||
    (0xFFF9 <= c <= 0xFFFB) || (0x10140 <= c <= 0x1018E) || (0x10190 <= c <= 0x1019B) ||
    c == 0x101A0 || (0x101D0 <= c <= 0x101FD) || (0x102E0 <= c <= 0x102FB) ||
    (0x10E60 <= c <= 0x10E7E) || (0x1D300 <= c <= 0x1D356) || (0x1D360 <= c <= 0x1D371) ||
    (0x1F000 <= c <= 0x1F02B) || (0x1F030 <= c <= 0x1F093) || (0x1F0A0 <= c <= 0x1F0AE) ||
    (0x1F0B1 <= c <= 0x1F0BF) || (0x1F0C1 <= c <= 0x1F0CF) || (0x1F0D1 <= c <= 0x1F0F5) ||
    (0x1F30D <= c <= 0x1F30F) || c == 0x1F315 || c == 0x1F31C || (0x1F321 <= c <= 0x1F32C) ||
    c == 0x1F336 || c == 0x1F378 || c == 0x1F37D || (0x1F393 <= c <= 0x1F39F) ||
    c == 0x1F3A7 || (0x1F3AC <= c <= 0x1F3AE) || c == 0x1F3C2 || c == 0x1F3C4 ||
    c == 0x1F3C6 || (0x1F3CA <= c <= 0x1F3CE) || (0x1F3D4 <= c <= 0x1F3E0) || c == 0x1F3ED ||
    (0x1F3F1 <= c <= 0x1F3F3) || (0x1F3F5 <= c <= 0x1F3F7) || c == 0x1F408 || c == 0x1F415 ||
    c == 0x1F41F || c == 0x1F426 || c == 0x1F43F || c == 0x1F441 || c == 0x1F442 ||
    (0x1F446 <= c <= 0x1F449) || (0x1F44C <= c <= 0x1F44E) || c == 0x1F453 || c == 0x1F46A ||
    c == 0x1F47D || c == 0x1F4A3 || c == 0x1F4B0 || c == 0x1F4B3 || c == 0x1F4B9 ||
    c == 0x1F4BB || c == 0x1F4BF || (0x1F4C8 <= c <= 0x1F4CB) || c == 0x1F4DA ||
    c == 0x1F4DF || (0x1F4E4 <= c <= 0x1F4E6) || (0x1F4EA <= c <= 0x1F4ED) || c == 0x1F4F7 ||
    (0x1F4F9 <= c <= 0x1F4FB) || c == 0x1F4FD || c == 0x1F4FE || c == 0x1F503 ||
    (0x1F507 <= c <= 0x1F50A) || c == 0x1F50D || c == 0x1F512 || c == 0x1F513 ||
    (0x1F53E <= c <= 0x1F545) || c == 0x1F54A || (0x1F550 <= c <= 0x1F579) ||
    (0x1F57B <= c <= 0x1F594) || (0x1F597 <= c <= 0x1F5A3) || (0x1F5A5 <= c <= 0x1F5FA) ||
    (0x1F650 <= c <= 0x1F67F) || c == 0x1F687 || c == 0x1F68D || c == 0x1F691 ||
    c == 0x1F694 || c == 0x1F698 || c == 0x1F6AD || c == 0x1F6B2 || c == 0x1F6B9 ||
    c == 0x1F6BA || c == 0x1F6BC || (0x1F6C6 <= c <= 0x1F6CB) || (0x1F6CD <= c <= 0x1F6CF) ||
    (0x1F6E0 <= c <= 0x1F6EA) || (0x1F6F0 <= c <= 0x1F6F3) || (0x1F780 <= c <= 0x1F7D4) ||
    (0x1F800 <= c <= 0x1F80B) || (0x1F810 <= c <= 0x1F847) || (0x1F850 <= c <= 0x1F859) ||
    (0x1F860 <= c <= 0x1F887) || (0x1F890 <= c <= 0x1F8AD) || c == 0x1F93B || c == 0x1F946
}

/// The code points of emoji.
pub open spec fn in_emoji(c: u32) -> bool {
    c == 0x2049 || c == 0x2122 || c == 0x2139 || (0x23EA <= c <= 0x23EC) || c == 0x23F0 ||
    c == 0x2705 || (0x2708 <= c <= 0x270C) || c == 0x2728 || c == 0x274C || c == 0x274E ||
    (0x2753 <= c <= 0x2755) || (0x2795 <= c <= 0x2797) || c == 0x27B0 || c == 0x27BF ||
    c == 0x3030 || c == 0x303D || c == 0x3297 || c == 0x3299 || c == 0xFEFF ||
    (0x1F191 <= c <= 0x1F19A) || (0x1F1E6 <= c <= 0x1F1FF) || c == 0x1F201 || c == 0x1F202 ||
    c == 0x1F21A || c == 0x1F22F || (0x1F232 <= c <= 0x1F23A) || c == 0x1F250 ||
    c == 0x1F251 || (0x1F300 <= c <= 0x1F320) || (0x1F330 <= c <= 0x1F335) ||
    (0x1F337 <= c <= 0x1F37C) || (0x1F380 <= c <= 0x1F393) || (0x1F3A0 <= c <= 0x1F3C4) ||
    (0x1F3C6 <= c <= 0x1F3CA) || (0x1F3E0 <= c <= 0x1F3F0) || (0x1F400 <= c <= 0x1F429) ||
    (0x1F42B <= c <= 0x1F43E) || c == 0x1F440 || (0x1F442 <= c <= 0x1F4F7) ||
    (0x1F4F9 <= c <= 0x1F4FC) || (0x1F500 <= c <= 0x1F53D) || (0x1F5FB <= c <= 0x1F640) ||
    (0x1F645 <= c <= 0x1F64F) || (0x1F680 <= c <= 0x1F697) || (0x1F699 <= c <= 0x1F6C5) ||
    (0xFE4E5 <= c <= 0xFE4EE) || c == 0xFE82C || (0xFE82E <= c <= 0xFE837)
}

/// The symbol set of a code point: the first set, in the order of the declaration, that
/// holds it.
pub open spec fn symbol_script(c: u32) -> SymbolScript {
    if in_maths(c) {
        SymbolScript::Maths
    } else if in_music(c) {
        SymbolScript::Music
    } else if in_misc_one(c) {
        SymbolScript::MiscOne
    } else if in_misc_two(c) {
        SymbolScript::MiscTwo
    } else if in_emoji(c) {
        SymbolScript::Emoji
    } else {
        SymbolScript::Unknown
    }
}

/// The symbol set of a code point.
pub fn script_from_code(code: u32) -> (s: SymbolScript)
    ensures
        s == symbol_script(code),
{
    match code {
        0x2032 ..= 0x2037 | 0x2057 | 0x20D0 ..= 0x20DC | 0x20E1 | 0x20E5 ..= 0x20EF |
        0x2102 | 0x210A ..= 0x210E | 0x2110 ..= 0x2112 | 0x2115 | 0x2119 ..= 0x211D |
        0x2124 | 0x2128 | 0x212C | 0x212D | 0x212F ..= 0x2131 | 0x2133 ..= 0x2138 |
        0x213C ..= 0x2140 | 0x2145 ..= 0x2149 | 0x2190 ..= 0x21AE | 0x21B0 ..= 0x21E5 |
        0x21F1 | 0x21F2 | 0x21F4 ..= 0x22FF | 0x2308 ..= 0x230B | 0x2310 | 0x2319 |
        0x231C ..= 0x2321 | 0x2336 ..= 0x237A | 0x237C | 0x2395 | 0x239B ..= 0x23B6 |
        0x23D0 | 0x23DC ..= 0x23E1 | 0x2474 | 0x2475 | 0x25AF | 0x25B3 | 0x25B7 |
        0x25BD | 0x25C1 | 0x25CA | 0x25CC | 0x25FB | 0x266D ..= 0x266F |
        0x27C0 ..= 0x27FF | 0x2900 ..= 0x2AFF | 0x2B0E ..= 0x2B11 | 0x2B30 ..= 0x2B4C |
        0x2BFE | 0xFF5B | 0xFF5D | 0x1D400 ..= 0x1D454 | 0x1D456 ..= 0x1D49C | 0x1D49E |
        0x1D49F | 0x1D4A2 | 0x1D4A5 | 0x1D4A6 | 0x1D4A9 ..= 0x1D4AC |
        0x1D4AE ..= 0x1D4B9 | 0x1D4BB | 0x1D4BD ..= 0x1D4C3 | 0x1D4C5 ..= 0x1D505 |
        0x1D507 ..= 0x1D50A | 0x1D50D ..= 0x1D514 | 0x1D516 ..= 0x1D51C |
        0x1D51E ..= 0x1D539 | 0x1D53B ..= 0x1D53E | 0x1D540 ..= 0x1D544 | 0x1D546 |
        0x1D54A ..= 0x1D550 | 0x1D552 ..= 0x1D6A5 | 0x1D6A8 ..= 0x1D7CB |
        0x1D7CE ..= 0x1D7FF | 0x1EE00 ..= 0x1EE03 | 0x1EE05 ..= 0x1EE1F | 0x1EE21 |
        0x1EE22 | 0x1EE24 | 0x1EE27 | 0x1EE29 ..= 0x1EE32 | 0x1EE34 ..= 0x1EE37 |
        0x1EE39 | 0x1EE3B | 0x1EE42 | 0x1EE47 | 0x1EE49 | 0x1EE4B |
        0x1EE4D ..= 0x1EE4F | 0x1EE51 | 0x1EE52 | 0x1EE54 | 0x1EE57 | 0x1EE59 |
        0x1EE5B | 0x1EE5D | 0x1EE5F | 0x1EE61 | 0x1EE62 | 0x1EE64 |
        0x1EE67 ..= 0x1EE6A | 0x1EE6C ..= 0x1EE72 | 0x1EE74 ..= 0x1EE77 |
        0x1EE79 ..= 0x1EE7C | 0x1EE7E | 0x1EE80 ..= 0x1EE89 | 0x1EE8B ..= 0x1EE9B |
        0x1EEA1 ..= 0x1EEA3 | 0x1EEA5 ..= 0x1EEA9 | 0x1EEAB ..= 0x1EEBB | 0x1EEF0 | 0x1EEF1 => SymbolScript::Maths,
        0x1D000 ..= 0x1D0F5 | 0x1D100 ..= 0x1D126 | 0x1D129 ..= 0x1D1E8 |
        0x1D200 ..= 0x1D245 => SymbolScript::Music,
        0x20DD ..= 0x20E0 | 0x20E2 ..= 0x20E4 | 0x2160 ..= 0x2183 | 0x2185 ..= 0x2188 |
        0x218A | 0x218B | 0x2300 ..= 0x230F | 0x2311 ..= 0x2315 | 0x2317 | 0x2322 |
        0x2323 | 0x2329 | 0x232A | 0x232C ..= 0x2335 | 0x2380 ..= 0x2394 |
        0x2396 ..= 0x239A | 0x23BE ..= 0x23CD | 0x23D0 ..= 0x23DB | 0x23E2 ..= 0x23E8 |
        0x2460 ..= 0x24FF | 0x260A ..= 0x260D | 0x2613 | 0x2624 ..= 0x262F |
        0x2638 ..= 0x263B | 0x263D ..= 0x2653 | 0x2669 ..= 0x267E | 0x2690 ..= 0x269D |
        0x26A2 ..= 0x26A9 | 0x26AD ..= 0x26BC | 0x26CE | 0x26E2 ..= 0x26FF |
        0x271D ..= 0x2721 | 0x2776 ..= 0x2793 | 0x1F100 ..= 0x1F10C | 0x1F110 ..= 0x1F12E |
        0x1F130 ..= 0x1F16B | 0x1F170 ..= 0x1F190 | 0x1F19B ..= 0x1F1AC |
        0x1F546 ..= 0x1F549 | 0x1F54F | 0x1F610 | 0x1F700 ..= 0x1F773 => SymbolScript::MiscOne,
        0x2022 | 0x21AF | 0x21E6 ..= 0x21F0 | 0x21F3 | 0x2316 | 0x2318 | 0x231A |
        0x231B | 0x2324 ..= 0x2328 | 0x232B | 0x237B | 0x237D ..= 0x237F | 0x23CE |
        0x23CF | 0x23E9 | 0x23EA | 0x23ED ..= 0x23EF | 0x23F1 ..= 0x23FE |
        0x2400 ..= 0x2426 | 0x2440 ..= 0x244A | 0x25A0 ..= 0x2609 | 0x260E ..= 0x2612 |
        0x2614 ..= 0x2623 | 0x2630 ..= 0x2637 | 0x263C | 0x2654 ..= 0x2668 |
        0x267F ..= 0x268F | 0x269E ..= 0x26A1 | 0x26AA ..= 0x26AC | 0x26BD ..= 0x26CD |
        0x26CF ..= 0x26E1 | 0x2700 ..= 0x2704 | 0x2706 ..= 0x2709 | 0x270B ..= 0x271C |
        0x2722 ..= 0x2727 | 0x2729 ..= 0x274B | 0x274D | 0x274F ..= 0x2753 |
        0x2756 ..= 0x2775 | 0x2794 | 0x2798 ..= 0x27AF | 0x27B1 ..= 0x27BE |
        0x2800 ..= 0x28FF | 0x2B00 ..= 0x2B0D | 0x2B12 ..= 0x2B2F | 0x2B4D ..= 0x2B73 |
        0x2B76 ..= 0x2B95 | 0x2B98 ..= 0x2BB9 | 0x2BBD ..= 0x2BC8 | 0x2BCA ..= 0x2BD1 |
        0x2BEC ..= 0x2BEF | 0x4DC0 ..= 0x4DFF | 0xFFF9 ..= 0xFFFB | 0x10140 ..= 0x1018E |
        0x10190 ..= 0x1019B | 0x101A0 | 0x101D0 ..= 0x101FD | 0x102E0 ..= 0x102FB |
        0x10E60 ..= 0x10E7E | 0x1D300 ..= 0x1D356 | 0x1D360 ..= 0x1D371 |
        0x1F000 ..= 0x1F02B | 0x1F030 ..= 0x1F093 | 0x1F0A0 ..= 0x1F0AE |
        0x1F0B1 ..= 0x1F0BF | 0x1F0C1 ..= 0x1F0CF | 0x1F0D1 ..= 0x1F0F5 |
        0x1F30D ..= 0x1F30F | 0x1F315 | 0x1F31C | 0x1F321 ..= 0x1F32C | 0x1F336 |
        0x1F378 | 0x1F37D | 0x1F393 ..= 0x1F39F | 0x1F3A7 | 0x1F3AC ..= 0x1F3AE |
        0x1F3C2 | 0x1F3C4 | 0x1F3C6 | 0x1F3CA ..= 0x1F3CE | 0x1F3D4 ..= 0x1F3E0 |
        0x1F3ED | 0x1F3F1 ..= 0x1F3F3 | 0x1F3F5 ..= 0x1F3F7 | 0x1F408 | 0x1F415 |
        0x1F41F | 0x1F426 | 0x1F43F | 0x1F441 | 0x1F442 | 0x1F446 ..= 0x1F449 |
        0x1F44C ..= 0x1F44E | 0x1F453 | 0x1F46A | 0x1F47D | 0x1F4A3 | 0x1F4B0 |
        0x1F4B3 | 0x1F4B9 | 0x1F4BB | 0x1F4BF | 0x1F4C8 ..= 0x1F4CB | 0x1F4DA |
        0x1F4DF | 0x1F4E4 ..= 0x1F4E6 | 0x1F4EA ..= 0x1F4ED | 0x1F4F7 |
        0x1F4F9 ..= 0x1F4FB | 0x1F4FD | 0x1F4FE | 0x1F503 | 0x1F507 ..= 0x1F50A |
        0x1F50D | 0x1F512 | 0x1F513 | 0x1F53E ..= 0x1F545 | 0x1F54A |
        0x1F550 ..= 0x1F579 | 0x1F57B ..= 0x1F594 | 0x1F597 ..= 0x1F5A3 |
        0x1F5A5 ..= 0x1F5FA | 0x1F650 ..= 0x1F67F | 0x1F687 | 0x1F68D | 0x1F691 |
        0x1F694 | 0x1F698 | 0x1F6AD | 0x1F6B2 | 0x1F6B9 | 0x1F6BA | 0x1F6BC |
        0x1F6C6 ..= 0x1F6CB | 0x1F6CD ..= 0x1F6CF | 0x1F6E0 ..= 0x1F6EA |
        0x1F6F0 ..= 0x1F6F3 | 0x1F780 ..= 0x1F7D4 | 0x1F800 ..= 0x1F80B |
        0x1F810 ..= 0x1F847 | 0x1F850 ..= 0x1F859 | 0x1F860 ..= 0x1F887 |
        0x1F890 ..= 0x1F8AD | 0x1F93B | 0x1F946 => SymbolScript::MiscTwo,
        0x2049 | 0x2122 | 0x2139 | 0x23EA ..= 0x23EC | 0x23F0 | 0x2705 |
        0x2708 ..= 0x270C | 0x2728 | 0x274C | 0x274E | 0x2753 ..= 0x2755 |
        0x2795 ..= 0x2797 | 0x27B0 | 0x27BF | 0x3030 | 0x303D | 0x3297 | 0x3299 |
        0xFEFF | 0x1F191 ..= 0x1F19A | 0x1F1E6 ..= 0x1F1FF | 0x1F201 | 0x1F202 |
        0x1F21A | 0x1F22F | 0x1F232 ..= 0x1F23A | 0x1F250 | 0x1F251 |
        0x1F300 ..= 0x1F320 | 0x1F330 ..= 0x1F335 | 0x1F337 ..= 0x1F37C |
        0x1F380 ..= 0x1F393 | 0x1F3A0 ..= 0x1F3C4 | 0x1F3C6 ..= 0x1F3CA |
        0x1F3E0 ..= 0x1F3F0 | 0x1F400 ..= 0x1F429 | 0x1F42B ..= 0x1F43E | 0x1F440 |
        0x1F442 ..= 0x1F4F7 | 0x1F4F9 ..= 0x1F4FC | 0x1F500 ..= 0x1F53D |
        0x1F5FB ..= 0x1F640 | 0x1F645 ..= 0x1F64F | 0x1F680 ..= 0x1F697 |
        0x1F699 ..= 0x1F6C5 | 0xFE4E5 ..= 0xFE4EE | 0xFE82C | 0xFE82E ..= 0xFE837 => SymbolScript::Emoji,
        _ => SymbolScript::Unknown,
    }
}

/// An error reported by the FreeType library.
#[derive(Debug, Copy, Clone, PartialEq, Eq, Structural)]
pub enum FreetypeError {
    UnknownError(i32),
    CannotOpenResource,
    UnknownFileFormat,
    InvalidFileFormat,
    InvalidVersion,
    LowerModuleVersion,
    InvalidArgument,
    UnimplementedFeature,
    InvalidTable,
    InvalidOffset,
    ArrayTooLarge,
    MissingModule,
    MissingProperty,
    InvalidGlyphIndex,
    InvalidCharacterCode,
    InvalidGlyphFormat,
    CannotRenderGlyph,
    InvalidOutline,
    InvalidComposite,
    TooManyHints,
    InvalidPixelSize,
    InvalidHandle,
    InvalidLibraryHandle,
    InvalidDriverHandle,
    InvalidFaceHandle,
    InvalidSizeHandle,
    InvalidSlotHandle,
    InvalidCharMapHandle,
    InvalidCacheHandle,
    InvalidStreamHandle,
    TooManyDrivers,
    TooManyExtensions,
    OutOfMemory,
    UnlistedObject,
    CannotOpenStream,
    InvalidStreamSeek,
    InvalidStreamSkip,
    InvalidStreamRead,
    InvalidStreamOperation,
    InvalidFrameOperation,
    NestedFrameAccess,
    InvalidFrameRead,
    RasterUninitialized,
    RasterCorrupted,
    RasterOverflow,
    RasterNegativeHeight,
    TooManyCaches,
    InvalidOpcode,
    TooFewArguments,
    StackOverflow,
    CodeOverflow,
    BadArgument,
    DivideByZero,
    InvalidReference,
    DebugOpCode,
    ENDFInExecStream,
    NestedDEFS,
    InvalidCodeRange,
    ExecutionTooLong,
    TooManyFunctionDefs,
    TooManyInstructionDefs,
    TableMissing,
    HorizHeaderMissing,
    LocationsMissing,
    NameTableMissing,
    CMapTableMissing,
    HmtxTableMissing,
    PostTableMissing,
    InvalidHorizMetrics,
    InvalidCharMapFormat,
    InvalidPPem,
    InvalidVertMetrics,
    CouldNotFindContext,
    InvalidPostTableFormat,
    InvalidPostTable,
    DEFInGlyfBytecode,
    MissingBitmap,
    SyntaxError,
    StackUnderflow,
    Ignore,
    NoUnicodeGlyphName,
    GlyphTooBig,
    MissingStartfontField,
    MissingFontField,
    MissingSizeField,
    MissingFontboundingboxField,
    MissingCharsField,
    MissingStartcharField,
    MissingEncodingField,
    MissingBbxField,
    BbxTooBig,
    CorruptedFontHeader,
    CorruptedFontGlyphs,
}

/// The FreeType code of an error.
pub open spec fn freetype_code(e: FreetypeError) -> i32 {
    match e {
        FreetypeError::UnknownError(c) => c,
        FreetypeError::CannotOpenResource => 0x01,
        FreetypeError::UnknownFileFormat => 0x02,
        FreetypeError::InvalidFileFormat => 0x03,
        FreetypeError::InvalidVersion => 0x04,
        FreetypeError::LowerModuleVersion => 0x05,
        FreetypeError::InvalidArgument => 0x06,
        FreetypeError::UnimplementedFeature => 0x07,
        FreetypeError::InvalidTable => 0x08,
        FreetypeError::InvalidOffset => 0x09,
        FreetypeError::ArrayTooLarge => 0x0A,
        FreetypeError::MissingModule => 0x0B,
        FreetypeError::MissingProperty => 0x0C,
        FreetypeError::InvalidGlyphIndex => 0x10,
        FreetypeError::InvalidCharacterCode => 0x11,
        FreetypeError::InvalidGlyphFormat => 0x12,
        FreetypeError::CannotRenderGlyph => 0x13,
        FreetypeError::InvalidOutline => 0x14,
        FreetypeError::InvalidComposite => 0x15,
        FreetypeError::TooManyHints => 0x16,
        FreetypeError::InvalidPixelSize => 0x17,
        FreetypeError::InvalidHandle => 0x20,
        FreetypeError::InvalidLibraryHandle => 0x21,
        FreetypeError::InvalidDriverHandle => 0x22,
        FreetypeError::InvalidFaceHandle => 0x23,
        FreetypeError::InvalidSizeHandle => 0x24,
        FreetypeError::InvalidSlotHandle => 0x25,
        FreetypeError::InvalidCharMapHandle => 0x26,
        FreetypeError::InvalidCacheHandle => 0x27,
        FreetypeError::InvalidStreamHandle => 0x28,
        FreetypeError::TooManyDrivers => 0x30,
        FreetypeError::TooManyExtensions => 0x31,
        FreetypeError::OutOfMemory => 0x40,
        FreetypeError::UnlistedObject => 0x41,
        FreetypeError::CannotOpenStream => 0x51,
        FreetypeError::InvalidStreamSeek => 0x52,
        FreetypeError::InvalidStreamSkip => 0x53,
        FreetypeError::InvalidStreamRead => 0x54,
        FreetypeError::InvalidStreamOperation => 0x55,
        FreetypeError::InvalidFrameOperation => 0x56,
        FreetypeError::NestedFrameAccess => 0x57,
        FreetypeError::InvalidFrameRead => 0x58,
        FreetypeError::RasterUninitialized => 0x60,
        FreetypeError::RasterCorrupted => 0x61,
        FreetypeError::RasterOverflow => 0x62,
        FreetypeError::RasterNegativeHeight => 0x63,
        FreetypeError::TooManyCaches => 0x70,
        FreetypeError::InvalidOpcode => 0x80,
        FreetypeError::TooFewArguments => 0x81,
        FreetypeError::StackOverflow => 0x82,
        FreetypeError::CodeOverflow => 0x83,
        FreetypeError::BadArgument => 0x84,
        FreetypeError::DivideByZero => 0x85,
        FreetypeError::InvalidReference => 0x86,
        FreetypeError::DebugOpCode => 0x87,
        FreetypeError::ENDFInExecStream => 0x88,
        FreetypeError::NestedDEFS => 0x89,
        FreetypeError::InvalidCodeRange => 0x8A,
        FreetypeError::ExecutionTooLong => 0x8B,
        FreetypeError::TooManyFunctionDefs => 0x8C,
        FreetypeError::TooManyInstructionDefs => 0x8D,
        FreetypeError::TableMissing => 0x8E,
        FreetypeError::HorizHeaderMissing => 0x8F,
        FreetypeError::LocationsMissing => 0x90,
        FreetypeError::NameTableMissing => 0x91,
        FreetypeError::CMapTableMissing => 0x92,
        FreetypeError::HmtxTableMissing => 0x93,
        FreetypeError::PostTableMissing => 0x94,
        FreetypeError::InvalidHorizMetrics => 0x95,
        FreetypeError::InvalidCharMapFormat => 0x96,
        FreetypeError::InvalidPPem => 0x97,
        FreetypeError::InvalidVertMetrics => 0x98,
        FreetypeError::CouldNotFindContext => 0x99,
        FreetypeError::InvalidPostTableFormat => 0x9A,
        FreetypeError::InvalidPostTable => 0x9B,
        FreetypeError::DEFInGlyfBytecode => 0x9C,
        FreetypeError::MissingBitmap => 0x9D,
        FreetypeError::SyntaxError => 0xA0,
        FreetypeError::StackUnderflow => 0xA1,
        FreetypeError::Ignore => 0xA2,
        FreetypeError::NoUnicodeGlyphName => 0xA3,
        FreetypeError::GlyphTooBig => 0xA4,
        FreetypeError::MissingStartfontField => 0xB0,
        FreetypeError::MissingFontField => 0xB1,
        FreetypeError::MissingSizeField => 0xB2,
        FreetypeError::MissingFontboundingboxField => 0xB3,
        FreetypeError::MissingCharsField => 0xB4,
        FreetypeError::MissingStartcharField => 0xB5,
        FreetypeError::MissingEncodingField => 0xB6,
        FreetypeError::MissingBbxField => 0xB7,
        FreetypeError::BbxTooBig => 0xB8,
        FreetypeError::CorruptedFontHeader => 0xB9,
        FreetypeError::CorruptedFontGlyphs => 0xBA,
    }
}

impl FreetypeError {
    /// The error that a FreeType code stands for: the error with that code, or
    /// `UnknownError` with the code when no error has it.
    pub fn from_code(code: i32) -> (e: FreetypeError)
        ensures
            freetype_code(e) == code,
            e is UnknownError <==> forall|f: FreetypeError|
                !(f is UnknownError) ==> #[trigger] freetype_code(f) != code,
    {
        let e = match code {
            0x01 => FreetypeError::CannotOpenResource,
            0x02 => FreetypeError::UnknownFileFormat,
            0x03 => FreetypeError::InvalidFileFormat,
            0x04 => FreetypeError::InvalidVersion,
            0x05 => FreetypeError::LowerModuleVersion,
            0x06 => FreetypeError::InvalidArgument,
            0x07 => FreetypeError::UnimplementedFeature,
            0x08 => FreetypeError::InvalidTable,
            0x09 => FreetypeError::InvalidOffset,
            0x0A => FreetypeError::ArrayTooLarge,
            0x0B => FreetypeError::MissingModule,
            0x0C => FreetypeError::MissingProperty,
            0x10 => FreetypeError::InvalidGlyphIndex,
            0x11 => FreetypeError::InvalidCharacterCode,
            0x12 => FreetypeError::InvalidGlyphFormat,
            0x13 => FreetypeError::CannotRenderGlyph,
            0x14 => FreetypeError::InvalidOutline,
            0x15 => FreetypeError::InvalidComposite,
            0x16 => FreetypeError::TooManyHints,
            0x17 => FreetypeError::InvalidPixelSize,
            0x20 => FreetypeError::InvalidHandle,
            0x21 => FreetypeError::InvalidLibraryHandle,
            0x22 => FreetypeError::InvalidDriverHandle,
            0x23 => FreetypeError::InvalidFaceHandle,
            0x24 => FreetypeError::InvalidSizeHandle,
            0x25 => FreetypeError::InvalidSlotHandle,
            0x26 => FreetypeError::InvalidCharMapHandle,
            0x27 => FreetypeError::InvalidCacheHandle,
            0x28 => FreetypeError::InvalidStreamHandle,
            0x30 => FreetypeError::TooManyDrivers,
            0x31 => FreetypeError::TooManyExtensions,
            0x40 => FreetypeError::OutOfMemory,
            0x41 => FreetypeError::UnlistedObject,
            0x51 => FreetypeError::CannotOpenStream,
            0x52 => FreetypeError::InvalidStreamSeek,
            0x53 => FreetypeError::InvalidStreamSkip,
            0x54 => FreetypeError::InvalidStreamRead,
            0x55 => FreetypeError::InvalidStreamOperation,
            0x56 => FreetypeError::InvalidFrameOperation,
            0x57 => FreetypeError::NestedFrameAccess,
            0x58 => FreetypeError::InvalidFrameRead,
            0x60 => FreetypeError::RasterUninitialized,
            0x61 => FreetypeError::RasterCorrupted,
            0x62 => FreetypeError::RasterOverflow,
            0x63 => FreetypeError::RasterNegativeHeight,
            0x70 => FreetypeError::TooManyCaches,
            0x80 => FreetypeError::InvalidOpcode,
            0x81 => FreetypeError::TooFewArguments,
            0x82 => FreetypeError::StackOverflow,
            0x83 => FreetypeError::CodeOverflow,
            0x84 => FreetypeError::BadArgument,
            0x85 => FreetypeError::DivideByZero,
            0x86 => FreetypeError::InvalidReference,
            0x87 => FreetypeError::DebugOpCode,
            0x88 => FreetypeError::ENDFInExecStream,
            0x89 => FreetypeError::NestedDEFS,
            0x8A => FreetypeError::InvalidCodeRange,
            0x8B => FreetypeError::ExecutionTooLong,
            0x8C => FreetypeError::TooManyFunctionDefs,
            0x8D => FreetypeError::TooManyInstructionDefs,
            0x8E => FreetypeError::TableMissing,
            0x8F => FreetypeError::HorizHeaderMissing,
            0x90 => FreetypeError::LocationsMissing,
            0x91 => FreetypeError::NameTableMissing,
            0x92 => FreetypeError::CMapTableMissing,
            0x93 => FreetypeError::HmtxTableMissing,
            0x94 => FreetypeError::PostTableMissing,
            0x95 => FreetypeError::InvalidHorizMetrics,
            0x96 => FreetypeError::InvalidCharMapFormat,
            0x97 => FreetypeError::InvalidPPem,
            0x98 => FreetypeError::InvalidVertMetrics,
            0x99 => FreetypeError::CouldNotFindContext,
            0x9A => FreetypeError::InvalidPostTableFormat,
            0x9B => FreetypeError::InvalidPostTable,
            0x9C => FreetypeError::DEFInGlyfBytecode,
            0x9D => FreetypeError::MissingBitmap,
            0xA0 => FreetypeError::SyntaxError,
            0xA1 => FreetypeError::StackUnderflow,
            0xA2 => FreetypeError::Ignore,
            0xA3 => FreetypeError::NoUnicodeGlyphName,
            0xA4 => FreetypeError::GlyphTooBig,
            0xB0 => FreetypeError::MissingStartfontField,
            0xB1 => FreetypeError::MissingFontField,
            0xB2 => FreetypeError::MissingSizeField,
            0xB3 => FreetypeError::MissingFontboundingboxField,
            0xB4 => FreetypeError::MissingCharsField,
            0xB5 => FreetypeError::MissingStartcharField,
            0xB6 => FreetypeError::MissingEncodingField,
            0xB7 => FreetypeError::MissingBbxField,
            0xB8 => FreetypeError::BbxTooBig,
            0xB9 => FreetypeError::CorruptedFontHeader,
            0xBA => FreetypeError::CorruptedFontGlyphs,
            _ => FreetypeError::UnknownError(code),
        };
        proof {
            if !(e is UnknownError) {
                assert(freetype_code(e) == code);
            }
        }
        e
    }
}

/// Popping glyphs from the end of `g`, the width `w` losing the advance of each, until it is
/// at most `max`: how many glyphs remain, and the width then.
pub open spec fn pop_until_fits(g: Seq<GlyphPlan>, w: int, max: int) -> (int, int)
    decreases g.len(),
{
    if g.len() == 0 {
        (0, w)
    } else {
        let w2 = w - g.last().advance.x;
        if w2 <= max {
            (g.len() - 1, w2)
        } else {
            pop_until_fits(g.drop_last(), w2, max)
        }
    }
}

/// The advances popped by `pop_until_fits` are no negative and no larger than the width left.
pub open spec fn pop_fits(g: Seq<GlyphPlan>, w: int, max: int) -> bool
    decreases g.len(),
{
    if g.len() == 0 {
        true
    } else {
        let a = g.last().advance.x;
        0 <= a <= w && (w - a > max ==> pop_fits(g.drop_last(), w - a, max))
    }
}

/// The scripts of the glyphs before `n`.
pub open spec fn before(n: int) -> spec_fn((usize, HbScript)) -> bool {
    |p: (usize, HbScript)| p.0 < n
}

proof fn lemma_pop_until_fits_bound(g: Seq<GlyphPlan>, w: int, max: int)
    ensures
        0 <= pop_until_fits(g, w, max).0 <= g.len(),
    decreases g.len(),
{
    if g.len() > 0 {
        lemma_pop_until_fits_bound(g.drop_last(), w - g.last().advance.x, max);
    }
}

/// Keeping some pairs keeps the keys distinct.
proof fn lemma_filter_keys(s: Seq<(usize, HbScript)>, p: spec_fn((usize, HbScript)) -> bool)
    requires
        keys(s).no_duplicates(),
    ensures
        keys(s.filter(p)).no_duplicates(),
        forall|k: usize| keys(s.filter(p)).contains(k) ==> keys(s).contains(k),
    decreases s.len(),
{
    broadcast use vstd::seq_lib::group_filter_ensures;

    if s.len() > 0 {
        let d = s.drop_last();
        assert(keys(d) =~= keys(s).drop_last());
        lemma_filter_keys(d, p);
        assert(s =~= d.push(s.last()));
        d.lemma_filter_push(s.last(), p);
        assert forall|k: usize| keys(s.filter(p)).contains(k) implies keys(s).contains(k) by {
            let j = choose|j: int| 0 <= j < keys(s.filter(p)).len() && keys(s.filter(p))[j] == k;
            if p(s.last()) && j == keys(s.filter(p)).len() - 1 {
                assert(keys(s)[s.len() - 1] == k);
            } else {
                assert(keys(d.filter(p))[j] == k);
                assert(keys(d).contains(k));
                let i = choose|i: int| 0 <= i < keys(d).len() && keys(d)[i] == k;
                assert(keys(s)[i] == k);
            }
        }
        if p(s.last()) {
            let f = d.filter(p);
            assert(keys(s.filter(p)) =~= keys(f).push(s.last().0));
            assert(!keys(f).contains(s.last().0)) by {
                if keys(f).contains(s.last().0) {
                    assert(keys(d).contains(s.last().0));
                    let i = choose|i: int| 0 <= i < keys(d).len() && keys(d)[i] == s.last().0;
                    assert(keys(s)[i] == keys(s)[s.len() - 1]);
                }
            }
            assert forall|a: int, b: int|
                0 <= a < b < keys(s.filter(p)).len() implies keys(s.filter(p))[a] != keys(
                s.filter(p),
            )[b] by {
                if b == keys(s.filter(p)).len() - 1 {
                    assert(keys(f)[a] == keys(s.filter(p))[a]);
                } else {
                    assert(keys(f)[a] == keys(s.filter(p))[a]);
                    assert(keys(f)[b] == keys(s.filter(p))[b]);
                }
            }
        }
    } else {
        assert(s.filter(p) =~= s) by {
            reveal(Seq::filter);
        }
    }
}

/// What cropping shaped text needs of a font: the plan of its ellipsis, the heights of its
/// lower and upper case x, and the glyph of its space.
pub struct Font {
    pub ellipsis: RenderPlan,
    pub x_heights: (u32, u32),
    pub space_codepoint: u32,
}

/// The glyphs `i..` of `g` popped, after `g[i]`, while the width stays above `max`: the index
/// reached and the width then.
pub open spec fn shrink(g: Seq<GlyphPlan>, w: int, max: int, i: int) -> (int, int)
    decreases i,
{
    if i > 0 && w > max {
        shrink(g, w - g[i - 1].advance.x, max, i - 1)
    } else {
        (i, w)
    }
}

/// The advances that `shrink` takes are no negative and no larger than the width left.
pub open spec fn shrink_fits(g: Seq<GlyphPlan>, w: int, max: int, i: int) -> bool
    decreases i,
{
    if i > 0 && w > max {
        0 <= g[i - 1].advance.x <= w && shrink_fits(g, w - g[i - 1].advance.x, max, i - 1)
    } else {
        true
    }
}

/// Going back from glyph `i` to the nearest space, the width losing each advance: the index
/// reached (0 when there is none) and the width then.
pub open spec fn back_to_space(g: Seq<GlyphPlan>, w: int, space: u32, i: int) -> (int, int)
    decreases i,
{
    if i > 0 && g[i].codepoint != space {
        back_to_space(g, w - g[i - 1].advance.x, space, i - 1)
    } else {
        (i, w)
    }
}

/// The advances that `back_to_space` takes are no negative and no larger than the width left.
pub open spec fn back_fits(g: Seq<GlyphPlan>, w: int, space: u32, i: int) -> bool
    decreases i,
{
    if i > 0 && g[i].codepoint != space {
        0 <= g[i - 1].advance.x <= w && back_fits(g, w - g[i - 1].advance.x, space, i - 1)
    } else {
        true
    }
}

/// Where to cut a line of width `w` to fit `max`: drop glyphs from the end until it fits (or
/// one glyph is left), then go back to the space before, if there is one after the first glyph.
pub open spec fn cut(g: Seq<GlyphPlan>, w: int, max: int, space: u32) -> (int, int) {
    let n = g.len() - 1;
    let (j, wj) = shrink(g, w - g[n].advance.x, max, n);
    let (i, wi) = back_to_space(g, wj, space, j);
    if i == 0 {
        (j, wj)
    } else {
        (i, wi)
    }
}

/// The subtractions of `cut` stay within `u32`.
pub open spec fn cut_fits(g: Seq<GlyphPlan>, w: int, max: int, space: u32) -> bool {
    let n = g.len() - 1;
    &&& g.len() > 0
    &&& 0 <= g[n].advance.x <= w
    &&& shrink_fits(g, w - g[n].advance.x, max, n)
    &&& back_fits(g, shrink(g, w - g[n].advance.x, max, n).1, space, shrink(g, w - g[n].advance.x, max, n).0)
}

proof fn lemma_shrink_bound(g: Seq<GlyphPlan>, w: int, max: int, i: int)
    requires
        0 <= i,
        shrink_fits(g, w, max, i),
        w >= 0,
    ensures
        0 <= shrink(g, w, max, i).0 <= i,
        shrink(g, w, max, i).1 >= 0,
    decreases i,
{
    if i > 0 && w > max {
        lemma_shrink_bound(g, w - g[i - 1].advance.x, max, i - 1);
    }
}

proof fn lemma_back_bound(g: Seq<GlyphPlan>, w: int, space: u32, i: int)
    requires
        0 <= i,
        back_fits(g, w, space, i),
        w >= 0,
    ensures
        0 <= back_to_space(g, w, space, i).0 <= i,
        back_to_space(g, w, space, i).1 >= 0,
    decreases i,
{
    if i > 0 && g[i].codepoint != space {
        lemma_back_bound(g, w - g[i - 1].advance.x, space, i - 1);
    }
}

/// The advance of glyph `i` as the unsigned amount that widths add up.
pub open spec fn adv(g: Seq<GlyphPlan>, i: int) -> int {
    (g[i].advance.x as u32) as int
}

/// Grows the window of glyphs `lower + 1 .. upper`, of width `width`, one glyph at a time:
/// on the right when it is the right's turn or nothing is left on the left, on the left when
/// it is the left's turn or nothing is left on the right. Stops before the first glyph that
/// would make the width exceed `max`: the window's ends and width then.
pub open spec fn around(g: Seq<GlyphPlan>, max: int, upper: int, lower: int, width: int, right: bool) -> (int, int, int)
    decreases g.len() - upper + lower + 1,
{
    if upper < 0 || upper > g.len() || lower < -1 || lower >= g.len() {
        (upper, lower, width)
    } else if upper < g.len() && (right || lower < 0) {
        let w = width + adv(g, upper);
        if w > max {
            (upper, lower, width)
        } else {
            around(g, max, upper + 1, lower, w, !right)
        }
    } else if lower >= 0 && (!right || upper == g.len()) {
        let w = width + adv(g, lower);
        if w > max {
            (upper, lower, width)
        } else {
            around(g, max, upper, lower - 1, w, !right)
        }
    } else {
        (upper, lower, width)
    }
}

/// The sums of `around` stay within `u32`, and some glyph stops the growth (else it would go
/// on without end once every glyph is in).
pub open spec fn around_fits(g: Seq<GlyphPlan>, max: int, upper: int, lower: int, width: int, right: bool) -> bool
    decreases g.len() - upper + lower + 1,
{
    if upper < 0 || upper > g.len() || lower < -1 || lower >= g.len() {
        true
    } else if upper < g.len() && (right || lower < 0) {
        let w = width + adv(g, upper);
        w <= u32::MAX && (w <= max ==> around_fits(g, max, upper + 1, lower, w, !right))
    } else if lower >= 0 && (!right || upper == g.len()) {
        let w = width + adv(g, lower);
        w <= u32::MAX && (w <= max ==> around_fits(g, max, upper, lower - 1, w, !right))
    } else {
        false
    }
}

/// Takes glyphs off the right end `upper` of a window of width `width`, while it is wider than
/// `max` and the end stays after `floor`: the end and the width reached.
pub open spec fn trim_right(g: Seq<GlyphPlan>, width: int, max: int, upper: int, floor: int) -> (int, int)
    decreases upper - floor,
{
    if width > max && upper > floor {
        trim_right(g, width - adv(g, upper), max, upper - 1, floor)
    } else {
        (upper, width)
    }
}

/// The subtractions of `trim_right` stay within `u32`.
pub open spec fn trim_right_fits(g: Seq<GlyphPlan>, width: int, max: int, upper: int, floor: int) -> bool
    decreases upper - floor,
{
    if width > max && upper > floor {
        adv(g, upper) <= width && trim_right_fits(g, width - adv(g, upper), max, upper - 1, floor)
    } else {
        true
    }
}

/// Takes glyphs off the left end `lower` of a window of width `width`, while it is wider than
/// `max` and the end stays before `ceil`: the end and the width reached.
pub open spec fn trim_left(g: Seq<GlyphPlan>, width: int, max: int, lower: int, ceil: int) -> (int, int)
    decreases ceil - lower,
{
    if width > max && lower < ceil {
        trim_left(g, width - adv(g, lower), max, lower + 1, ceil)
    } else {
        (lower, width)
    }
}

/// The subtractions of `trim_left` stay within `u32`.
pub open spec fn trim_left_fits(g: Seq<GlyphPlan>, width: int, max: int, lower: int, ceil: int) -> bool
    decreases ceil - lower,
{
    if width > max && lower < ceil {
        adv(g, lower) <= width && trim_left_fits(g, width - adv(g, lower), max, lower + 1, ceil)
    } else {
        true
    }
}

/// Cropping the glyphs `g` to `max` around glyph `index`, with an ellipsis of glyphs `eg`
/// and width `ew` on each side where glyphs go: the glyphs and width that remain, the first
/// glyph kept on the left (negative when none goes on the left) and the last one on the right.
pub open spec fn crop_window(g: Seq<GlyphPlan>, eg: Seq<GlyphPlan>, ew: int, index: int, max: int) -> (Seq<GlyphPlan>, int, int, int) {
    let (u, l, w) = around(g, max, index, index - 1, 0, true);
    let floor = if l > 0 {
        l
    } else {
        0
    };
    let (u1, w1) = if u < g.len() {
        trim_right(g, w + ew, max, u - 1, floor)
    } else {
        (u, w)
    };
    let g1 = if u < g.len() {
        g.take(u1 + 1) + eg
    } else {
        g
    };
    let (l2, w2) = if l >= 0 {
        trim_left(g, w1 + ew, max, l + 1, u1)
    } else {
        (l, w1)
    };
    let g2 = if l >= 0 {
        eg + g1.skip(l2)
    } else {
        g1
    };
    (g2, w2, l2, u1)
}

/// The arithmetic of `crop_window` stays within `u32` and the glyph indices within their range.
pub open spec fn crop_fits(g: Seq<GlyphPlan>, ew: int, index: int, max: int) -> bool {
    let (u, l, w) = around(g, max, index, index - 1, 0, true);
    let floor = if l > 0 {
        l
    } else {
        0
    };
    let (u1, w1) = if u < g.len() {
        trim_right(g, w + ew, max, u - 1, floor)
    } else {
        (u, w)
    };
    &&& around_fits(g, max, index, index - 1, 0, true)
    &&& u < g.len() ==> 1 <= u && w + ew <= u32::MAX && trim_right_fits(g, w + ew, max, u - 1, floor)
    &&& l >= 0 ==> w1 + ew <= u32::MAX && trim_left_fits(g, w1 + ew, max, l + 1, u1)
}

/// The scripts of the glyphs `lo..=hi`.
pub open spec fn within(lo: int, hi: int) -> spec_fn((usize, HbScript)) -> bool {
    |p: (usize, HbScript)| lo <= p.0 <= hi
}

/// The pairs with their keys lowered by `by`.
pub open spec fn lowered(s: Seq<(usize, HbScript)>, by: int) -> Seq<(usize, HbScript)> {
    s.map_values(|p: (usize, HbScript)| ((p.0 - by) as usize, p.1))
}

/// The scripts that remain when the glyphs `lo..=hi` remain after the ellipsis glyph on the
/// left (when `lo` is positive), their indices moved to where the glyphs go.
pub open spec fn cropped_scripts(s: Seq<(usize, HbScript)>, lo: int, hi: int) -> Seq<(usize, HbScript)> {
    let kept = s.filter(within(if lo > 0 { lo } else { 0 }, hi));
    if lo > 0 {
        lowered(kept, lo - 1)
    } else {
        kept
    }
}

/// Lowering keys that are all above `by` keeps them distinct.
proof fn lemma_lowered_keys(s: Seq<(usize, HbScript)>, by: int)
    requires
        keys(s).no_duplicates(),
        forall|i: int| 0 <= i < s.len() ==> #[trigger] s[i].0 > by,
        by >= 0,
    ensures
        keys(lowered(s, by)).no_duplicates(),
{
    let k = keys(lowered(s, by));
    assert forall|a: int, b: int| 0 <= a < k.len() && 0 <= b < k.len() && a != b implies k[a] != k[b] by {
        assert(keys(s)[a] != keys(s)[b]);
        assert(s[a].0 > by && s[b].0 > by);
    }
}

impl Font {
    /// A font with the given ellipsis, x heights and space glyph.
    pub fn new(ellipsis: RenderPlan, x_heights: (u32, u32), space_codepoint: u32) -> (f: Font)
        ensures
            f.ellipsis == ellipsis,
            f.x_heights == x_heights,
            f.space_codepoint == space_codepoint,
    {
        Font { ellipsis, x_heights, space_codepoint }
    }

    /// Crops the end of a line to `max_width`, putting an ellipsis in place of the glyphs that
    /// go.
    pub fn crop_right(&self, render_plan: &mut RenderPlan, max_width: u32)
        requires
            old(render_plan).width_of() > max_width ==> {
                &&& old(render_plan).width_of() + self.ellipsis.width_of() <= u32::MAX
                &&& pop_fits(
                    old(render_plan).glyphs(),
                    old(render_plan).width_of() + self.ellipsis.width_of(),
                    max_width as int,
                )
            },
        ensures
            old(render_plan).width_of() <= max_width ==> *final(render_plan) == *old(render_plan),
            old(render_plan).width_of() > max_width ==> {
                let (n, w) = pop_until_fits(
                    old(render_plan).glyphs(),
                    old(render_plan).width_of() + self.ellipsis.width_of(),
                    max_width as int,
                );
                &&& final(render_plan).glyphs() == old(render_plan).glyphs().take(n)
                    + self.ellipsis.glyphs()
                &&& final(render_plan).width_of() == w
                &&& final(render_plan).scripts() == old(render_plan).scripts().filter(before(n))
            },
            old(render_plan).well_formed() ==> final(render_plan).well_formed(),
    {
        if render_plan.width <= max_width {
            return;
        }
        let ghost g0 = render_plan.glyphs@;
        let ghost w0 = render_plan.width + self.ellipsis.width;
        render_plan.width = render_plan.width + self.ellipsis.width;
        loop
            invariant_except_break
                pop_until_fits(g0, w0, max_width as int) == pop_until_fits(
                    render_plan.glyphs@,
                    render_plan.width as int,
                    max_width as int,
                ),
                pop_fits(render_plan.glyphs@, render_plan.width as int, max_width as int),
                render_plan.width > max_width,
            invariant
                render_plan.glyphs@ == g0.take(render_plan.glyphs@.len() as int),
                render_plan.glyphs@.len() <= g0.len(),
                render_plan.scripts == old(render_plan).scripts,
            ensures
                pop_until_fits(g0, w0, max_width as int) == (
                    render_plan.glyphs@.len() as int,
                    render_plan.width as int,
                ),
            decreases render_plan.glyphs@.len(),
        {
            match render_plan.glyphs.pop() {
                Some(gp) => {
                    let ghost before_pop = render_plan.glyphs@.push(gp);
                    assert(before_pop.drop_last() =~= render_plan.glyphs@);
                    render_plan.width = render_plan.width - gp.advance.x as u32;
                    assert(render_plan.glyphs@ =~= g0.take(render_plan.glyphs@.len() as int));
                    if render_plan.width <= max_width {
                        break;
                    }
                },
                None => {
                    break;
                },
            }
        }
        proof {
            lemma_pop_until_fits_bound(g0, w0, max_width as int);
        }
        let len = render_plan.glyphs.len();
        let ghost sc = render_plan.scripts@;
        let ghost gl = render_plan.glyphs@;
        let ghost wd = render_plan.width;
        let mut kept: Vec<(usize, HbScript)> = Vec::new();
        let mut k: usize = 0;
        while k < render_plan.scripts.len()
            invariant
                0 <= k <= sc.len(),
                render_plan.scripts@ == sc,
                render_plan.glyphs@ == gl,
                render_plan.width == wd,
                kept@ == sc.take(k as int).filter(before(len as int)),
            decreases sc.len() - k,
        {
            let p = render_plan.scripts[k];
            proof {
                assert(sc.take(k + 1) =~= sc.take(k as int).push(p));
                sc.take(k as int).lemma_filter_push(p, before(len as int));
            }
            if p.0 < len {
                kept.push(p);
            }
            k += 1;
        }
        assert(sc.take(sc.len() as int) =~= sc);
        proof {
            if keys(sc).no_duplicates() {
                lemma_filter_keys(sc, before(len as int));
            }
        }
        render_plan.scripts = kept;
        let ghost kept_glyphs = render_plan.glyphs@;
        let ghost ks = render_plan.scripts@;
        let mut k: usize = 0;
        while k < self.ellipsis.glyphs.len()
            invariant
                0 <= k <= self.ellipsis.glyphs@.len(),
                render_plan.scripts@ == ks,
                render_plan.width == wd,
                render_plan.glyphs@ == kept_glyphs + self.ellipsis.glyphs@.take(k as int),
            decreases self.ellipsis.glyphs@.len() - k,
        {
            render_plan.glyphs.push(self.ellipsis.glyphs[k]);
            assert(self.ellipsis.glyphs@.take(k + 1) =~= self.ellipsis.glyphs@.take(k as int).push(
                self.ellipsis.glyphs@[k as int],
            ));
            k += 1;
        }
        assert(self.ellipsis.glyphs@.take(self.ellipsis.glyphs@.len() as int) =~= self.ellipsis.glyphs@);
    }

    /// The window that grows around glyph `index` while its width stays within `max_width`:
    /// its right end, the glyph before its left end (-1 if none) and its width.
    fn grow_window(glyphs: &Vec<GlyphPlan>, index: usize, max_width: u32) -> (r: (usize, i32, u32))
        requires
            index <= glyphs@.len() <= i32::MAX,
            around_fits(glyphs@, max_width as int, index as int, index - 1, 0, true),
        ensures
            (r.0 as int, r.1 as int, r.2 as int) == around(glyphs@, max_width as int, index as int, index - 1, 0, true),
            -1 <= r.1 < r.0 <= glyphs@.len(),
            r.2 <= max_width,
    {
        let ghost g = glyphs@;
        let ghost m = max_width as int;
        let len = glyphs.len();
        let mut width: u32 = 0;
        let mut right = true;
        let mut upper: usize = index;
        let mut lower: i32 = index as i32 - 1;
        loop
            invariant_except_break
                around(g, m, upper as int, lower as int, width as int, right) == around(g, m, index as int, index - 1, 0, true),
                around_fits(g, m, upper as int, lower as int, width as int, right),
            invariant
                g == glyphs@,
                m == max_width as int,
                len == g.len(),
                len <= i32::MAX,
                -1 <= lower < upper <= len,
                width <= max_width,
            ensures
                around(g, m, index as int, index - 1, 0, true) == (upper as int, lower as int, width as int),
            decreases len - upper + lower + 1,
        {
            if upper < len && (right || lower < 0) {
                let next_width = width + glyphs[upper].advance.x as u32;
                if next_width > max_width {
                    break;
                }
                width = next_width;
                upper += 1;
            } else if lower >= 0 && (!right || upper == len) {
                let next_width = width + glyphs[lower as usize].advance.x as u32;
                if next_width > max_width {
                    break;
                }
                width = next_width;
                lower -= 1;
            }
            right = !right;
        }
        (upper, lower, width)
    }

    /// Crops a line to `max_width` around glyph `index`, putting an ellipsis in place of the
    /// glyphs that go on either side: returns the index of the first glyph kept when glyphs go
    /// on the left, else 0.
    pub fn crop_around(&self, render_plan: &mut RenderPlan, index: usize, max_width: u32) -> (r: usize)
        requires
            old(render_plan).width_of() > max_width ==> {
                &&& index <= old(render_plan).glyphs().len() <= i32::MAX
                &&& crop_fits(
                    old(render_plan).glyphs(),
                    self.ellipsis.width_of() as int,
                    index as int,
                    max_width as int,
                )
            },
        ensures
            old(render_plan).width_of() <= max_width ==> r == 0 && *final(render_plan) == *old(render_plan),
            old(render_plan).width_of() > max_width ==> {
                let (glyphs, width, lo, hi) = crop_window(
                    old(render_plan).glyphs(),
                    self.ellipsis.glyphs(),
                    self.ellipsis.width_of() as int,
                    index as int,
                    max_width as int,
                );
                &&& final(render_plan).glyphs() == glyphs
                &&& final(render_plan).width_of() == width
                &&& final(render_plan).scripts() == cropped_scripts(old(render_plan).scripts(), lo, hi)
                &&& r == if lo < 0 {
                    0
                } else {
                    lo
                }
            },
            old(render_plan).well_formed() ==> final(render_plan).well_formed(),
    {
        if render_plan.width <= max_width {
            return 0;
        }
        let ghost g = render_plan.glyphs@;
        let ghost eg = self.ellipsis.glyphs@;
        let ghost ew = self.ellipsis.width as int;
        let ghost m = max_width as int;
        let ghost sc0 = render_plan.scripts@;
        let len = render_plan.glyphs.len();
        let (mut upper, mut lower, mut width) = Self::grow_window(&render_plan.glyphs, index, max_width);
        let ghost u0 = upper as int;
        let ghost l0 = lower as int;
        let ghost w0 = width as int;
        let floor: usize = if lower > 0 {
            lower as usize
        } else {
            0
        };
        if upper < len {
            width = width + self.ellipsis.width;
            upper = upper - 1;
            let ghost wr = width as int;
            let ghost ur = upper as int;
            while width > max_width && upper > floor
                invariant
                    g == render_plan.glyphs@,
                    m == max_width as int,
                    floor <= upper < len == g.len(),
                    trim_right(g, wr, m, ur, floor as int) == trim_right(g, width as int, m, upper as int, floor as int),
                    trim_right_fits(g, width as int, m, upper as int, floor as int),
                decreases upper - floor,
            {
                width = width - render_plan.glyphs[upper].advance.x as u32;
                upper = upper - 1;
            }
            assert(trim_right(g, wr, m, ur, floor as int) == (upper as int, width as int));
            render_plan.glyphs.truncate(upper + 1);
            let ghost kept = render_plan.glyphs@;
            let mut k: usize = 0;
            while k < self.ellipsis.glyphs.len()
                invariant
                    0 <= k <= eg.len(),
                    eg == self.ellipsis.glyphs@,
                    render_plan.glyphs@ == kept + eg.take(k as int),
                    render_plan.scripts@ == sc0,
                decreases eg.len() - k,
            {
                render_plan.glyphs.push(self.ellipsis.glyphs[k]);
                assert(eg.take(k + 1) =~= eg.take(k as int).push(eg[k as int]));
                k += 1;
            }
            assert(eg.take(eg.len() as int) =~= eg);
            assert(render_plan.glyphs@ =~= g.take(upper + 1) + eg);
        }
        let ghost u1 = upper as int;
        let ghost w1 = width as int;
        let ghost g1 = render_plan.glyphs@;
        if lower >= 0 {
            width = width + self.ellipsis.width;
            lower = lower + 1;
            let ghost wl = width as int;
            let ghost ll = lower as int;
            while width > max_width && (lower as usize) < upper
                invariant
                    g1 == render_plan.glyphs@,
                    m == max_width as int,
                    0 <= lower <= upper + 1,
                    upper < g1.len() || upper == g1.len() == g.len(),
                    lower <= upper || upper < g1.len(),
                    upper <= len <= i32::MAX,
                    len == g.len(),
                    forall|i: int| 0 <= i < upper ==> g1[i] == g[i],
                    trim_left(g, wl, m, ll, upper as int) == trim_left(g, width as int, m, lower as int, upper as int),
                    trim_left_fits(g, width as int, m, lower as int, upper as int),
                decreases upper - lower,
            {
                width = width - render_plan.glyphs[lower as usize].advance.x as u32;
                lower = lower + 1;
            }
            assert(trim_left(g, wl, m, ll, upper as int) == (lower as int, width as int));
            let start = lower as usize;
            let mut glyphs: Vec<GlyphPlan> = Vec::new();
            let mut k: usize = 0;
            while k < self.ellipsis.glyphs.len()
                invariant
                    0 <= k <= eg.len(),
                    eg == self.ellipsis.glyphs@,
                    glyphs@ == eg.take(k as int),
                decreases eg.len() - k,
            {
                glyphs.push(self.ellipsis.glyphs[k]);
                assert(eg.take(k + 1) =~= eg.take(k as int).push(eg[k as int]));
                k += 1;
            }
            let mut k: usize = start;
            while k < render_plan.glyphs.len()
                invariant
                    start <= k <= g1.len(),
                    g1 == render_plan.glyphs@,
                    glyphs@ == eg + g1.subrange(start as int, k as int),
                decreases g1.len() - k,
            {
                glyphs.push(render_plan.glyphs[k]);
                assert(g1.subrange(start as int, k + 1) =~= g1.subrange(start as int, k as int).push(g1[k as int]));
                k += 1;
            }
            assert(glyphs@ =~= eg + g1.skip(start as int));
            render_plan.glyphs = glyphs;
        }
        let ghost sc = render_plan.scripts@;
        let lo: usize = if lower > 0 {
            lower as usize
        } else {
            0
        };
        let mut kept: Vec<(usize, HbScript)> = Vec::new();
        let mut k: usize = 0;
        while k < render_plan.scripts.len()
            invariant
                0 <= k <= sc.len(),
                sc == render_plan.scripts@,
                kept@ == sc.take(k as int).filter(within(lo as int, upper as int)),
            decreases sc.len() - k,
        {
            let p = render_plan.scripts[k];
            proof {
                assert(sc.take(k + 1) =~= sc.take(k as int).push(p));
                sc.take(k as int).lemma_filter_push(p, within(lo as int, upper as int));
            }
            if p.0 >= lo && p.0 <= upper {
                kept.push(p);
            }
            k += 1;
        }
        assert(sc.take(sc.len() as int) =~= sc);
        if lower > 0 {
            let ghost ks = kept@;
            assert forall|i: int| 0 <= i < ks.len() implies #[trigger] ks[i].0 >= lower by {
                broadcast use vstd::seq_lib::group_filter_ensures;
                assert(ks.contains(ks[i]));
            }
            let by = lower as usize;
            let mut moved: Vec<(usize, HbScript)> = Vec::new();
            let mut k: usize = 0;
            while k < kept.len()
                invariant
                    0 <= k <= ks.len(),
                    ks == kept@,
                    by >= 1,
                    forall|i: int| 0 <= i < ks.len() ==> #[trigger] ks[i].0 >= by,
                    moved@ == lowered(ks.take(k as int), by - 1),
                decreases ks.len() - k,
            {
                let p = kept[k];
                moved.push((p.0 - by + 1, p.1));
                assert(lowered(ks.take(k + 1), by - 1) =~= lowered(ks.take(k as int), by - 1).push(((p.0 - (by - 1)) as usize, p.1)));
                k += 1;
            }
            assert(ks.take(ks.len() as int) =~= ks);
            proof {
                if keys(sc).no_duplicates() {
                    lemma_filter_keys(sc, within(lo as int, upper as int));
                    lemma_lowered_keys(ks, by - 1);
                }
            }
            render_plan.scripts = moved;
        } else {
            proof {
                if keys(sc).no_duplicates() {
                    lemma_filter_keys(sc, within(lo as int, upper as int));
                }
            }
            render_plan.scripts = kept;
        }
        render_plan.width = width;
        if lower < 0 {
            0
        } else {
            lower as usize
        }
    }

    /// Where to cut a line to fit `max_width`: the number of glyphs kept and their width.
    pub fn cut_point(&self, render_plan: &RenderPlan, max_width: u32) -> (r: (usize, u32))
        requires
            cut_fits(render_plan.glyphs(), render_plan.width_of() as int, max_width as int, self.space_codepoint),
        ensures
            (r.0 as int, r.1 as int) == cut(
                render_plan.glyphs(),
                render_plan.width_of() as int,
                max_width as int,
                self.space_codepoint,
            ),
    {
        let ghost g = render_plan.glyphs@;
        let glyphs = &render_plan.glyphs;
        let mut width = render_plan.width;
        let mut i = glyphs.len() - 1;
        width = width - glyphs[i].advance.x as u32;
        let ghost n = i as int;
        let ghost w1 = width as int;
        while i > 0 && width > max_width
            invariant
                g == glyphs@,
                0 <= i <= n < g.len(),
                shrink(g, w1, max_width as int, n) == shrink(g, width as int, max_width as int, i as int),
                shrink_fits(g, width as int, max_width as int, i as int),
            decreases i,
        {
            i -= 1;
            width = width - glyphs[i].advance.x as u32;
        }
        let j = i;
        let last_width = width;
        while i > 0 && glyphs[i].codepoint != self.space_codepoint
            invariant
                g == glyphs@,
                0 <= i <= j < g.len(),
                back_to_space(g, last_width as int, self.space_codepoint, j as int) == back_to_space(
                    g,
                    width as int,
                    self.space_codepoint,
                    i as int,
                ),
                back_fits(g, width as int, self.space_codepoint, i as int),
            decreases i,
        {
            i -= 1;
            width = width - glyphs[i].advance.x as u32;
        }
        if i == 0 {
            i = j;
            width = last_width;
        }
        (i, width)
    }
}

} // verus!

verus! {

/// The scripts of a plan as a map from glyph index to script (a later pair wins).
pub open spec fn script_map(s: Seq<(usize, HbScript)>) -> Map<usize, HbScript>
    decreases s.len(),
{
    if s.len() == 0 {
        Map::empty()
    } else {
        script_map(s.drop_last()).insert(s.last().0, s.last().1)
    }
}

/// With keys that occur once, the map holds exactly the pairs.
proof fn lemma_script_map(s: Seq<(usize, HbScript)>)
    requires
        keys(s).no_duplicates(),
    ensures
        forall|k: usize| #[trigger] script_map(s).contains_key(k) <==> keys(s).contains(k),
        forall|j: int| 0 <= j < s.len() ==> script_map(s)[#[trigger] s[j].0] == s[j].1,
    decreases s.len(),
{
    if s.len() > 0 {
        let r = s.drop_last();
        assert(keys(r) =~= keys(s).drop_last());
        assert(keys(r).no_duplicates()) by {
            assert forall|a: int, b: int| 0 <= a < keys(r).len() && 0 <= b < keys(r).len() && a != b
                implies keys(r)[a] != keys(r)[b] by {
                assert(keys(r)[a] == keys(s)[a] && keys(r)[b] == keys(s)[b]);
            }
        }
        lemma_script_map(r);
        assert forall|k: usize| #[trigger] script_map(s).contains_key(k) <==> keys(s).contains(k) by {
            if keys(s).contains(k) {
                let j = keys(s).index_of(k);
                if j < r.len() {
                    assert(keys(r)[j] == k);
                }
            }
            if script_map(r).contains_key(k) {
                let j = keys(r).index_of(k);
                assert(keys(s)[j] == k);
            }
            if k == s.last().0 {
                assert(keys(s)[s.len() - 1] == k);
            }
        }
        assert forall|j: int| 0 <= j < s.len() implies script_map(s)[#[trigger] s[j].0] == s[j].1 by {
            if j < s.len() - 1 {
                assert(keys(s)[j] != keys(s)[s.len() - 1]);
                assert(r[j] == s[j]);
            }
        }
    }
}


/// Every key of the map is the key of a pair.
proof fn lemma_script_map_dom(s: Seq<(usize, HbScript)>, k: usize)
    requires
        script_map(s).contains_key(k),
    ensures
        exists|j: int| 0 <= j < s.len() && (#[trigger] s[j]).0 == k,
    decreases s.len(),
{
    let r = s.drop_last();
    if k != s.last().0 {
        lemma_script_map_dom(r, k);
        let j = choose|j: int| 0 <= j < r.len() && (#[trigger] r[j]).0 == k;
        assert(s[j] == r[j]);
    } else {
        assert(s[s.len() - 1].0 == k);
    }
}

/// The map of two lists one after the other: the second one's pairs win.
proof fn lemma_script_map_concat(a: Seq<(usize, HbScript)>, b: Seq<(usize, HbScript)>)
    ensures
        script_map(a + b) == script_map(a).union_prefer_right(script_map(b)),
    decreases b.len(),
{
    if b.len() == 0 {
        assert(a + b =~= a);
        assert(script_map(a).union_prefer_right(script_map(b)) =~= script_map(a));
    } else {
        assert((a + b).drop_last() =~= a + b.drop_last());
        assert((a + b).last() == b.last());
        lemma_script_map_concat(a, b.drop_last());
        assert(script_map(a + b) =~= script_map(a).union_prefer_right(script_map(b)));
    }
}

/// Splitting the pairs by whether their key lies in `[i, len)` keeps the map: those outside,
/// then those inside.
proof fn lemma_script_map_partition(s: Seq<(usize, HbScript)>, i: int, len: int)
    ensures
        script_map(s) == script_map(s.filter(|p: (usize, HbScript)| !(i <= p.0 < len))).union_prefer_right(
            script_map(s.filter(|p: (usize, HbScript)| i <= p.0 < len)),
        ),
    decreases s.len(),
{
    let inside = |p: (usize, HbScript)| i <= p.0 < len;
    let outside = |p: (usize, HbScript)| !(i <= p.0 < len);
    reveal(Seq::filter);
    if s.len() == 0 {
        assert(s.filter(outside) =~= Seq::<(usize, HbScript)>::empty());
        assert(s.filter(inside) =~= Seq::<(usize, HbScript)>::empty());
        assert(script_map(s) =~= Map::<usize, HbScript>::empty().union_prefer_right(Map::empty()));
    } else {
        let r = s.drop_last();
        let l = s.last();
        lemma_script_map_partition(r, i, len);
        let m_out = script_map(r.filter(outside));
        let m_in = script_map(r.filter(inside));
        if inside(l) {
            assert(s.filter(inside) == r.filter(inside).push(l));
            assert(s.filter(outside) == r.filter(outside));
            assert(script_map(r.filter(inside).push(l)) == m_in.insert(l.0, l.1)) by {
                assert(r.filter(inside).push(l).drop_last() =~= r.filter(inside));
            }
            assert(script_map(s) =~= m_out.union_prefer_right(m_in.insert(l.0, l.1)));
        } else {
            assert(s.filter(inside) == r.filter(inside));
            assert(s.filter(outside) == r.filter(outside).push(l));
            assert(script_map(r.filter(outside).push(l)) == m_out.insert(l.0, l.1)) by {
                assert(r.filter(outside).push(l).drop_last() =~= r.filter(outside));
            }
            assert(!m_in.contains_key(l.0)) by {
                if m_in.contains_key(l.0) {
                    lemma_script_map_dom(r.filter(inside), l.0);
                    let j = choose|j: int| 0 <= j < r.filter(inside).len() && (#[trigger] r.filter(inside)[j]).0 == l.0;
                    r.lemma_filter_pred(inside, j);
                }
            }
            assert(script_map(s) =~= m_out.insert(l.0, l.1).union_prefer_right(m_in));
        }
    }
}


/// Filtering keeps keys that occur once occurring once.
proof fn lemma_keys_filter_unique(s: Seq<(usize, HbScript)>, f: spec_fn((usize, HbScript)) -> bool)
    requires
        keys(s).no_duplicates(),
    ensures
        keys(s.filter(f)).no_duplicates(),
    decreases s.len(),
{
    reveal(Seq::filter);
    if s.len() > 0 {
        let r = s.drop_last();
        let l = s.last();
        assert(keys(r) =~= keys(s).drop_last());
        assert forall|a: int, b: int| 0 <= a < keys(r).len() && 0 <= b < keys(r).len() && a != b
            implies keys(r)[a] != keys(r)[b] by {
            assert(keys(r)[a] == keys(s)[a] && keys(r)[b] == keys(s)[b]);
        }
        lemma_keys_filter_unique(r, f);
        if f(l) {
            let fr = r.filter(f);
            assert(s.filter(f) == fr.push(l));
            assert forall|j: int| 0 <= j < fr.len() implies fr[j].0 != l.0 by {
                r.lemma_filter_contains_rev(f, fr[j]);
                assert(fr.contains(fr[j]));
                let m = choose|m: int| 0 <= m < r.len() && r[m] == fr[j];
                assert(keys(s)[m] == fr[j].0 && keys(s)[s.len() - 1] == l.0);
            }
            let ks = keys(fr.push(l));
            assert forall|a: int, b: int| 0 <= a < ks.len() && 0 <= b < ks.len() && a != b implies ks[a] != ks[b] by {
                if a < fr.len() && b < fr.len() {
                    assert(ks[a] == keys(fr)[a] && ks[b] == keys(fr)[b]);
                } else if a < fr.len() {
                    assert(ks[a] == fr[a].0);
                } else if b < fr.len() {
                    assert(ks[b] == fr[b].0);
                }
            }
        } else {
            assert(s.filter(f) == r.filter(f));
        }
    }
}

/// The pairs of `t` with their keys moved on by `shift`.
pub open spec fn shifted_pairs(t: Seq<(usize, HbScript)>, shift: int) -> Seq<(usize, HbScript)> {
    t.map_values(|p: (usize, HbScript)| ((p.0 + shift) as usize, p.1))
}

/// When the shifted keys are new and occur once, adding them appends them.
proof fn lemma_insert_shifted_appends(a: Seq<(usize, HbScript)>, t: Seq<(usize, HbScript)>, shift: int)
    requires
        keys(a + shifted_pairs(t, shift)).no_duplicates(),
    ensures
        insert_shifted(a, t, shift) == a + shifted_pairs(t, shift),
    decreases t.len(),
{
    if t.len() > 0 {
        let t1 = t.drop_last();
        let whole = a + shifted_pairs(t, shift);
        let front = a + shifted_pairs(t1, shift);
        assert(front =~= whole.drop_last());
        assert(keys(front) =~= keys(whole).drop_last());
        assert forall|x: int, y: int| 0 <= x < keys(front).len() && 0 <= y < keys(front).len() && x != y
            implies keys(front)[x] != keys(front)[y] by {
            assert(keys(front)[x] == keys(whole)[x] && keys(front)[y] == keys(whole)[y]);
        }
        lemma_insert_shifted_appends(a, t1, shift);
        let l = ((t.last().0 + shift) as usize, t.last().1);
        assert(whole.last() == l);
        assert(!keys(front).contains(l.0)) by {
            if keys(front).contains(l.0) {
                let j = keys(front).index_of(l.0);
                assert(keys(whole)[j] == l.0 && keys(whole)[whole.len() - 1] == l.0);
            }
        }
        assert(front.push(l) =~= whole);
    } else {
        assert(a + shifted_pairs(t, shift) =~= a);
    }
}

/// Splitting a plan at glyph `index` (keeping width `w`) and appending the part split off
/// back gives the plan again: the same glyphs, the same width and the same scripts by glyph.
/// This holds of a plan whose script keys occur once and fall on its glyphs.
pub proof fn lemma_split_append_restores(
    glyphs: Seq<GlyphPlan>,
    scripts: Seq<(usize, HbScript)>,
    width: int,
    index: int,
    w: int,
)
    requires
        keys(scripts).no_duplicates(),
        forall|j: int| 0 <= j < scripts.len() ==> (#[trigger] scripts[j]).0 < glyphs.len(),
        0 <= index <= glyphs.len(),
        0 <= w <= width,
    ensures
        glyphs.take(index) + glyphs.skip(index) == glyphs,
        w + (width - w) == width,
        script_map(
            insert_shifted(
                scripts.filter(|p: (usize, HbScript)| !(index <= p.0 < glyphs.len())),
                scripts.filter(|p: (usize, HbScript)| index <= p.0 < glyphs.len()).map_values(
                    |p: (usize, HbScript)| ((p.0 - index) as usize, p.1),
                ),
                glyphs.take(index).len() as int,
            ),
        ) == script_map(scripts),
{
    let len = glyphs.len() as int;
    let inside = |p: (usize, HbScript)| index <= p.0 < len;
    let outside = |p: (usize, HbScript)| !(index <= p.0 < len);
    let back = |p: (usize, HbScript)| ((p.0 - index) as usize, p.1);
    let kept = scripts.filter(outside);
    let moved_in = scripts.filter(inside);
    let moved = moved_in.map_values(back);
    assert(glyphs.take(index) + glyphs.skip(index) =~= glyphs);
    assert(glyphs.take(index).len() == index);
    // Shifting the moved pairs back gives the pairs inside the range.
    assert forall|j: int| 0 <= j < moved_in.len() implies index <= (#[trigger] moved_in[j]).0 by {
        scripts.lemma_filter_pred(inside, j);
    }
    assert(shifted_pairs(moved, index) =~= moved_in);
    // The keys of the whole occur once: each part's do, and the parts' keys are apart.
    lemma_keys_filter_unique(scripts, outside);
    lemma_keys_filter_unique(scripts, inside);
    let whole = kept + moved_in;
    assert forall|x: int, y: int| 0 <= x < keys(whole).len() && 0 <= y < keys(whole).len() && x != y
        implies keys(whole)[x] != keys(whole)[y] by {
        if x < kept.len() && y < kept.len() {
            assert(keys(whole)[x] == keys(kept)[x] && keys(whole)[y] == keys(kept)[y]);
        } else if x >= kept.len() && y >= kept.len() {
            assert(keys(whole)[x] == keys(moved_in)[x - kept.len()] && keys(whole)[y] == keys(moved_in)[y - kept.len()]);
        } else {
            let (o, n) = if x < kept.len() { (x, y - kept.len()) } else { (y, x - kept.len()) };
            scripts.lemma_filter_pred(outside, o);
            scripts.lemma_filter_pred(inside, n);
            assert(keys(whole)[x] == whole[x].0 && keys(whole)[y] == whole[y].0);
        }
    }
    lemma_insert_shifted_appends(kept, moved, index);
    lemma_script_map_concat(kept, moved_in);
    lemma_script_map_partition(scripts, index, len);
}

} // verus!
