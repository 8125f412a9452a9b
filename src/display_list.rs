//! The display list in logical units: what each text fragment draws, and where.
//!
//! Scaling to device pixels and handing items to the rendering backend happen outside the
//! library, once per item, so that no layout arithmetic sees the scale factor.
use app_units::Au;
use vstd::prelude::*;

use crate::fragment::{BoxFragment, Fragment, TextFragment};
use crate::geometry::{point_sum, rect_translated, Point, Rect};
use crate::inline::{advance_sum, FaceInfo, GlyphInfo};
use crate::units::{au_add, au_clamp};

verus! {

/// A glyph to draw, and the point of its origin on the baseline.
#[derive(Clone, Copy, Debug, PartialEq, Eq)]
pub struct GlyphPlacement {
    pub index: u32,
    pub point: Point<Au>,
}

/// A run of glyphs to draw in one face at one size, clipped to `bounds`.
#[derive(Debug)]
pub struct TextItem {
    pub bounds: Rect<Au>,
    pub face_info: FaceInfo,
    pub font_size: Au,
    pub glyphs: Vec<GlyphPlacement>,
}

/// The baseline of `bounds`: its bottom edge.
pub open spec fn baseline(bounds: Rect<Au>) -> int {
    au_clamp(bounds.origin.b.0 + bounds.size.height.0)
}

/// Where glyph `k` of `glyphs` is drawn: the pen, advanced by the glyphs before it,
/// on the baseline of `bounds`, moved by the glyph's offset.
pub open spec fn placement_of(glyphs: Seq<GlyphInfo>, k: int, bounds: Rect<Au>) -> GlyphPlacement {
    GlyphPlacement {
        index: glyphs[k].glyph_id,
        point: point_sum(
            Point { i: Au(advance_sum(glyphs.take(k)) as i32), b: Au(baseline(bounds) as i32) },
            glyphs[k].offset,
        ),
    }
}

pub open spec fn placements_of(glyphs: Seq<GlyphInfo>, bounds: Rect<Au>) -> Seq<GlyphPlacement> {
    Seq::new(glyphs.len(), |k: int| placement_of(glyphs, k, bounds))
}

/// `item` draws `t` placed in `containing_block`.
pub open spec fn item_for(item: TextItem, t: TextFragment, containing_block: Rect<Au>) -> bool {
    let bounds = rect_translated(t.rect, containing_block.origin);
    &&& item.bounds == bounds
    &&& item.face_info@ == t.face_info@
    &&& item.font_size == t.font_size
    &&& item.glyphs@ == placements_of(t.glyphs@, bounds)
}

proof fn lemma_advance_sum_in_range(gs: Seq<GlyphInfo>)
    ensures
        -0x3fff_ffff <= advance_sum(gs) <= 0x3fff_ffff,
    decreases gs.len(),
{
    if gs.len() > 0 {
        lemma_advance_sum_in_range(gs.drop_last());
    }
}

impl TextFragment {
    /// The item that draws this fragment placed in `containing_block`.
    pub fn build_display_list(&self, containing_block: Rect<Au>) -> (r: TextItem)
        ensures
            item_for(r, *self, containing_block),
    {
        let bounds = self.rect.translate(containing_block.origin);
        let base = au_add(bounds.origin.b, bounds.size.height);
        let mut glyphs: Vec<GlyphPlacement> = Vec::new();
        let mut cur_i = Au(0);
        let mut k: usize = 0;
        while k < self.glyphs.len()
            invariant
                k <= self.glyphs@.len(),
                base.0 == baseline(bounds),
                cur_i.0 == advance_sum(self.glyphs@.take(k as int)),
                glyphs@ == placements_of(self.glyphs@.take(k as int), bounds),
            decreases self.glyphs@.len() - k,
        {
            let glyph = self.glyphs[k];
            let point = Point::new(cur_i, base).add(glyph.offset);
            glyphs.push(GlyphPlacement { index: glyph.glyph_id, point });
            cur_i = au_add(cur_i, glyph.advance);
            proof {
                let gs = self.glyphs@;
                lemma_advance_sum_in_range(gs.take(k as int));
                assert(gs.take(k + 1).drop_last() =~= gs.take(k as int));
                assert forall|j: int| 0 <= j < k + 1 implies #[trigger] placements_of(gs.take(k + 1), bounds)[j]
                    == glyphs@[j] by {
                    assert(gs.take(k + 1).take(j) =~= gs.take(j));
                    if j < k {
                        assert(gs.take(k as int).take(j) =~= gs.take(j));
                    }
                }
                assert(glyphs@ =~= placements_of(gs.take(k + 1), bounds));
            }
            k = k + 1;
        }
        assert(self.glyphs@.take(k as int) =~= self.glyphs@);
        TextItem { bounds, face_info: self.face_info.clone(), font_size: self.font_size, glyphs }
    }
}

/// The space in which the children of `b` are placed, when `b` is placed in `containing_block`.
pub open spec fn child_block(b: BoxFragment, containing_block: Rect<Au>) -> Rect<Au> {
    Rect { origin: point_sum(containing_block.origin, b.rect.origin), size: b.rect.size }
}

/// The text fragments under `f`, in tree order, each with the space it is placed in.
pub open spec fn fragment_texts(f: Fragment, containing_block: Rect<Au>) -> Seq<(TextFragment, Rect<Au>)>
    decreases f, 1nat,
{
    match f {
        Fragment::Text(t) => seq![(t, containing_block)],
        Fragment::Box(b) => box_texts(b, containing_block),
    }
}

/// The text fragments under the children of `b`, in tree order.
pub open spec fn box_texts(b: BoxFragment, containing_block: Rect<Au>) -> Seq<(TextFragment, Rect<Au>)>
    decreases b, 0nat,
{
    children_texts(b.children@, b.children@.len() as int, child_block(b, containing_block))
}

/// The text fragments under the first `n` of `cs`, in tree order.
pub open spec fn children_texts(cs: Seq<Fragment>, n: int, containing_block: Rect<Au>) -> Seq<(TextFragment, Rect<Au>)>
    decreases cs, n,
{
    if n <= 0 || n > cs.len() {
        seq![]
    } else {
        children_texts(cs, n - 1, containing_block) + fragment_texts(cs[n - 1], containing_block)
    }
}

/// `items` draw `texts`, one item each, in order.
pub open spec fn items_drawn(items: Seq<TextItem>, texts: Seq<(TextFragment, Rect<Au>)>) -> bool {
    &&& items.len() == texts.len()
    &&& forall|k: int| 0 <= k < texts.len() ==> #[trigger] item_for(items[k], texts[k].0, texts[k].1)
}

impl BoxFragment {
    /// Appends to `items` one item for each text fragment under this box, in tree order,
    /// each placed in the space of its parent box; this box is placed in `containing_block`.
    pub fn build_display_list(&self, containing_block: Rect<Au>, items: &mut Vec<TextItem>)
        ensures
            final(items)@.len() == old(items)@.len() + box_texts(*self, containing_block).len(),
            final(items)@.take(old(items)@.len() as int) == old(items)@,
            items_drawn(final(items)@.skip(old(items)@.len() as int), box_texts(*self, containing_block)),
        decreases self,
    {
        let inner = Rect { origin: containing_block.origin.add(self.rect.origin), size: self.rect.size };
        let ghost base = old(items)@;
        let ghost cs = self.children@;
        let mut k: usize = 0;
        assert(items@.skip(base.len() as int) =~= seq![]);
        assert(items@.take(base.len() as int) =~= base);
        while k < self.children.len()
            invariant
                cs == self.children@,
                inner == child_block(*self, containing_block),
                k <= cs.len(),
                items@.len() == base.len() + children_texts(cs, k as int, inner).len(),
                items@.take(base.len() as int) == base,
                items_drawn(items@.skip(base.len() as int), children_texts(cs, k as int, inner)),
            decreases cs.len() - k,
        {
            let ghost before = items@;
            match &self.children[k] {
                Fragment::Text(t) => {
                    items.push(t.build_display_list(inner));
                    proof {
                        assert(items@.take(before.len() as int) =~= before);
                        assert(fragment_texts(cs[k as int], inner) == seq![(*t, inner)]);
                        assert(items_drawn(items@.skip(before.len() as int), seq![(*t, inner)]));
                    }
                },
                Fragment::Box(b) => {
                    proof {
                        assert(decreases_to!(self => self.children));
                        assert(decreases_to!(self.children => self.children@));
                        assert(decreases_to!(self.children@ => self.children@[k as int]));
                    }
                    b.build_display_list(inner, items);
                },
            }
            proof {
                let done = children_texts(cs, k as int, inner);
                let added = fragment_texts(cs[k as int], inner);
                assert(children_texts(cs, k + 1, inner) == done + added);
                assert(items@.take(before.len() as int) == before);
                assert(items@.len() == before.len() + added.len());
                assert(items_drawn(items@.skip(before.len() as int), added));
                assert(items@.take(base.len() as int) =~= base) by {
                    assert(items@.take(before.len() as int).take(base.len() as int) =~= items@.take(base.len() as int));
                }
                let now = items@.skip(base.len() as int);
                assert(now.len() == done.len() + added.len());
                assert forall|j: int| 0 <= j < done.len() + added.len() implies #[trigger] item_for(
                    now[j],
                    (done + added)[j].0,
                    (done + added)[j].1,
                ) by {
                    if j < done.len() {
                        assert(now[j] == items@[base.len() + j]);
                        assert(items@[base.len() + j] == items@.take(before.len() as int)[base.len() + j]);
                        assert(now[j] == before.skip(base.len() as int)[j]);
                        assert(item_for(before.skip(base.len() as int)[j], done[j].0, done[j].1));
                    } else {
                        assert(now[j] == items@[base.len() + j]);
                        assert(now[j] == items@.skip(before.len() as int)[j - done.len()]);
                        assert(item_for(items@.skip(before.len() as int)[j - done.len()], added[j - done.len()].0, added[j - done.len()].1));
                    }
                }
            }
            k = k + 1;
        }
    }
}

} // verus!
