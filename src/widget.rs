//! Widgets and the layout pass that turns them into fragments.
use app_units::Au;
use vstd::prelude::*;

use crate::context::{FaceId, FontCache};
use crate::fragment::{BoxFragment, Fragment, TextFragment};
use crate::geometry::{Point, Rect, Sides, Size};
use crate::inline::{
    break_lines, glyphs_of, line_fragment, line_position, lines_laid_out, lines_of, parses_as_face, shaped_glyphs,
    units_per_em_of, FaceInfo, GlyphInfo, Script, ShapingError, TextRun,
};

verus! {

/// Something that takes part in layout.
pub trait Widget {
}

impl Widget for Text {
}

impl Widget for Block {
}

/// Slant of a font face.
#[derive(Clone, Copy, Debug, PartialEq, Eq)]
pub enum FontStyle {
    Normal,
    Italic,
    Oblique,
}

/// How a run of text is drawn. `font_size` and `line_height` are lengths; `line_height` is
/// the full block advance of a line. `font_weight` is on the 1..=1000 scale (400 is normal).
#[derive(Debug)]
pub struct TextStyle {
    pub color: u32,
    pub font_family: String,
    pub font_size: Au,
    pub font_weight: u16,
    pub font_style: FontStyle,
    pub line_height: Au,
}

impl Default for TextStyle {
    /// Black, no family, 16px text on 22px lines, normal weight and style.
    fn default() -> (r: Self)
        ensures
            r.color == 0,
            r.font_family@ == Seq::<char>::empty(),
            r.font_size.0 == 16 * 60,
            r.font_weight == 400,
            r.font_style == FontStyle::Normal,
            r.line_height.0 == 22 * 60,
    {
        TextStyle {
            color: 0,
            font_family: String::new(),
            font_size: Au(16 * 60),
            font_weight: 400,
            font_style: FontStyle::Normal,
            line_height: Au(22 * 60),
        }
    }
}

/// A text widget: a string and its style.
#[derive(Debug)]
pub struct Text {
    pub text: String,
    pub style: TextStyle,
}

/// The lines one inline layout has produced.
#[derive(Debug)]
pub struct Line {
    pub fragments: Vec<TextFragment>,
}

/// Where inline layout stands within a block: the block's size and the block position
/// at which the next line goes.
#[derive(Debug)]
pub struct InlineState {
    pub lines: Vec<Line>,
    pub inline_position: Au,
    pub block_position: Au,
    pub containing_block: Size<Au>,
}

/// Why a layout pass failed.
#[derive(Clone, Copy, Debug, PartialEq, Eq)]
pub enum LayoutError {
    /// A run's face has not been loaded into the font cache.
    FontNotLoaded,
    /// A run could not be shaped.
    Shaping(ShapingError),
}

/// The path of the face that every run is set in.
pub open spec fn run_face() -> FaceId {
    ("resources/FiraCode-Regular.otf"@, 0u32)
}

/// Whether text can be laid out with `fonts`: the run face is loaded and its bytes parse.
pub open spec fn face_ready(fonts: FontCache) -> bool {
    &&& fonts.font_of(run_face()) is Some
    &&& parses_as_face(fonts.font_of(run_face())->Some_0, run_face().1)
}

/// The glyphs of `t`, shaped with the bytes that `fonts` holds for its face.
pub open spec fn text_glyphs(t: Text, fonts: FontCache) -> Seq<GlyphInfo> {
    let bytes = fonts.font_of(run_face())->Some_0;
    glyphs_of(
        shaped_glyphs(bytes, run_face().1, t.text@, false),
        t.style.font_size,
        units_per_em_of(bytes, run_face().1),
    )
}

/// The lines of `t` in a containing block `width` wide.
pub open spec fn text_lines(t: Text, fonts: FontCache, width: int) -> Seq<Seq<GlyphInfo>> {
    lines_of(text_glyphs(t, fonts), width)
}

impl Text {
    /// The runs of this text: one run of the whole text, in the one configured face, at the
    /// style's font size, Latin, left to right.
    pub fn itemize(&self) -> (r: Vec<TextRun>)
        ensures
            r@.len() == 1,
            r@[0].text@ == self.text@,
            r@[0].face_info@ == run_face(),
            r@[0].font_size == self.style.font_size,
            r@[0].script == Script::Latin,
            !r@[0].rtl,
    {
        let mut runs: Vec<TextRun> = Vec::new();
        let run = TextRun {
            text: self.text.clone(),
            face_info: FaceInfo { path: "resources/FiraCode-Regular.otf".to_owned(), index: 0 },
            font_size: self.style.font_size,
            script: Script::Latin,
            rtl: false,
        };
        proof {
            reveal_strlit("resources/FiraCode-Regular.otf");
        }
        runs.push(run);
        runs
    }

    /// Lays this text out in lines that fit the containing block's width, the first at the
    /// state's block position, each next one a line height below; the state's block position
    /// moves past the last line.
    pub fn layout(&self, inline_state: &mut InlineState, fonts: &FontCache) -> (r: Result<Vec<TextFragment>, LayoutError>)
        requires
            fonts.wf(),
        ensures
            final(inline_state).containing_block == old(inline_state).containing_block,
            match r {
                Ok(frags) => {
                    let lines = text_lines(*self, *fonts, old(inline_state).containing_block.width.0 as int);
                    &&& face_ready(*fonts)
                    &&& lines_laid_out(
                        frags@,
                        lines,
                        old(inline_state).block_position.0 as int,
                        self.style.line_height,
                        run_face(),
                        self.style.font_size,
                    )
                    &&& final(inline_state).block_position.0 == line_position(
                        old(inline_state).block_position.0 as int,
                        self.style.line_height,
                        lines.len(),
                    )
                },
                Err(e) => {
                    &&& !face_ready(*fonts)
                    &&& (e == LayoutError::FontNotLoaded) == fonts.font_of(run_face()).is_none()
                    &&& (e == LayoutError::Shaping(ShapingError::InvalidFace)) == fonts.font_of(run_face()).is_some()
                },
            },
    {
        let runs = self.itemize();
        let run = &runs[0];
        let mut fragments: Vec<TextFragment> = Vec::new();
        let font = match fonts.get_font(&run.face_info) {
            Some(f) => f,
            None => return Err(LayoutError::FontNotLoaded),
        };
        let glyphs = match run.shape(font.as_slice()) {
            Ok(g) => g,
            Err(e) => return Err(LayoutError::Shaping(e)),
        };
        let next = break_lines(
            &glyphs,
            inline_state.containing_block.width,
            self.style.line_height,
            inline_state.block_position,
            &run.face_info,
            run.font_size,
            &mut fragments,
        );
        assert(fragments@.skip(0) =~= fragments@);
        inline_state.block_position = next;
        Ok(fragments)
    }
}

/// Where the lines of `texts` end when they stack from block position zero, each text's
/// lines below the last line of the one before.
pub open spec fn block_end(texts: Seq<Text>, fonts: FontCache, width: int) -> int
    decreases texts.len(),
{
    if texts.len() == 0 {
        0
    } else {
        let t = texts.last();
        line_position(
            block_end(texts.drop_last(), fonts, width),
            t.style.line_height,
            text_lines(t, fonts, width).len(),
        )
    }
}

/// The text fragments that `frags` holds from index `m` on.
pub open spec fn texts_from(frags: Seq<Fragment>, m: int) -> Seq<TextFragment> {
    Seq::new((frags.len() - m) as nat, |i: int| frags[m + i]->Text_0)
}

/// `frags` are the lines of `texts`, in order, stacked from block position zero.
pub open spec fn block_laid_out(frags: Seq<Fragment>, texts: Seq<Text>, fonts: FontCache, width: int) -> bool
    decreases texts.len(),
{
    if texts.len() == 0 {
        frags.len() == 0
    } else {
        let t = texts.last();
        let lines = text_lines(t, fonts, width);
        let m = frags.len() - lines.len();
        &&& lines.len() <= frags.len()
        &&& forall|i: int| m <= i < frags.len() ==> #[trigger] frags[i] is Text
        &&& lines_laid_out(
            texts_from(frags, m),
            lines,
            block_end(texts.drop_last(), fonts, width),
            t.style.line_height,
            run_face(),
            t.style.font_size,
        )
        &&& block_laid_out(frags.take(m), texts.drop_last(), fonts, width)
    }
}

/// Appends each of `frags`, in order, to `children` as a text fragment.
fn append_text_fragments(children: &mut Vec<Fragment>, frags: Vec<TextFragment>)
    ensures
        final(children)@.len() == old(children)@.len() + frags@.len(),
        final(children)@.take(old(children)@.len() as int) == old(children)@,
        forall|i: int| old(children)@.len() <= i < final(children)@.len() ==> #[trigger] final(children)@[i] is Text,
        texts_from(final(children)@, old(children)@.len() as int) == frags@,
{
    let ghost fs = frags@;
    let ghost base = old(children)@;
    let mut rest = frags;
    let ghost mut t: int = 0;
    while rest.len() > 0
        invariant
            0 <= t <= fs.len(),
            rest@ == fs.skip(t),
            children@.len() == base.len() + t,
            children@.take(base.len() as int) == base,
            forall|i: int| base.len() <= i < children@.len() ==> #[trigger] children@[i] is Text,
            texts_from(children@, base.len() as int) == fs.take(t),
        decreases rest@.len(),
    {
        assert(rest@.len() == fs.len() - t);
        let f = rest.remove(0);
        let ghost prev = children@;
        children.push(Fragment::Text(f));
        proof {
            t = t + 1;
            assert(rest@ =~= fs.skip(t));
            assert(children@.take(base.len() as int) =~= base) by {
                assert(prev.take(base.len() as int) == base);
            }
            assert forall|i: int| base.len() <= i < children@.len() implies #[trigger] children@[i] is Text by {
                if i < prev.len() {
                    assert(children@[i] == prev[i]);
                }
            }
            assert(texts_from(children@, base.len() as int) =~= fs.take(t)) by {
                assert forall|i: int| 0 <= i < t implies texts_from(children@, base.len() as int)[i] == fs.take(
                    t,
                )[i] by {
                    if i < t - 1 {
                        assert(children@[base.len() + i] == prev[base.len() + i]);
                        assert(texts_from(prev, base.len() as int)[i] == fs.take(t - 1)[i]);
                    }
                }
            }
        }
    }
    assert(fs.take(t) =~= fs);
}

/// A block of text widgets laid out one below the other.
#[derive(Debug)]
pub struct Block {
    children: Vec<Text>,
}

impl Block {
    /// The block's text widgets, in order.
    pub closed spec fn texts(&self) -> Seq<Text> {
        self.children@
    }

    /// The block's text widgets, in order.
    pub fn children(&self) -> (r: &Vec<Text>)
        ensures
            r@ == self.texts(),
    {
        &self.children
    }

    pub fn new(children: Vec<Text>) -> (r: Block)
        ensures
            r.texts() == children@,
    {
        Block { children }
    }

    /// Lays the block out against `containing_block`: a box of exactly that size at the
    /// origin, with no margin, whose children are the lines of each text in turn, each text's
    /// first line below the last line of the one before.
    pub fn layout(&self, fonts: &FontCache, containing_block: Size<Au>) -> (r: Result<BoxFragment, LayoutError>)
        requires
            fonts.wf(),
        ensures
            r is Ok <==> (self.texts().len() == 0 || face_ready(*fonts)),
            r matches Ok(b) ==> {
                &&& b.rect.origin.i.0 == 0 && b.rect.origin.b.0 == 0
                &&& b.rect.size == containing_block
                &&& b.margin.left.0 == 0 && b.margin.right.0 == 0 && b.margin.top.0 == 0 && b.margin.bottom.0 == 0
                &&& block_laid_out(b.children@, self.texts(), *fonts, containing_block.width.0 as int)
            },
            r matches Err(e) ==> {
                &&& (e == LayoutError::FontNotLoaded) == fonts.font_of(run_face()).is_none()
                &&& (e == LayoutError::Shaping(ShapingError::InvalidFace)) == fonts.font_of(run_face()).is_some()
            },
    {
        let ghost texts = self.texts();
        let ghost w = containing_block.width.0 as int;
        let mut inline_state = InlineState {
            lines: Vec::new(),
            inline_position: Au(0),
            block_position: Au(0),
            containing_block,
        };
        let mut children: Vec<Fragment> = Vec::new();
        let mut j: usize = 0;
        assert(texts.take(0) =~= seq![]);
        while j < self.children.len()
            invariant
                fonts.wf(),
                texts == self.children@,
                w == containing_block.width.0,
                j <= texts.len(),
                j > 0 ==> face_ready(*fonts),
                inline_state.containing_block == containing_block,
                inline_state.block_position.0 == block_end(texts.take(j as int), *fonts, w),
                block_laid_out(children@, texts.take(j as int), *fonts, w),
            decreases texts.len() - j,
        {
            let frags = match self.children[j].layout(&mut inline_state, fonts) {
                Ok(f) => f,
                Err(e) => return Err(e),
            };
            let ghost before = children@;
            let ghost fs = frags@;
            append_text_fragments(&mut children, frags);
            j = j + 1;
            proof {
                let tj = texts.take(j as int);
                assert(tj.drop_last() =~= texts.take(j - 1));
                assert(tj.last() == texts[j - 1]);
                assert(children@.len() - text_lines(tj.last(), *fonts, w).len() == before.len());
            }
        }
        assert(texts.take(j as int) =~= texts);
        Ok(BoxFragment {
            rect: Rect { origin: Point { i: Au(0), b: Au(0) }, size: containing_block },
            margin: Sides::zero(),
            children,
        })
    }
}

/// `a` and `b` are text fragments with the same rectangle, glyphs, face and size.
pub open spec fn same_text_fragment(a: Fragment, b: Fragment) -> bool {
    &&& a is Text
    &&& b is Text
    &&& a->Text_0.rect == b->Text_0.rect
    &&& a->Text_0.glyphs@ == b->Text_0.glyphs@
    &&& a->Text_0.face_info@ == b->Text_0.face_info@
    &&& a->Text_0.font_size == b->Text_0.font_size
}

/// Layout depends on the texts, the loaded faces and the width alone: two layouts of the same
/// texts with the same faces in the same width hold the same fragments in the same order.
pub proof fn lemma_layout_deterministic(
    f1: Seq<Fragment>,
    f2: Seq<Fragment>,
    texts: Seq<Text>,
    fonts: FontCache,
    width: int,
)
    requires
        block_laid_out(f1, texts, fonts, width),
        block_laid_out(f2, texts, fonts, width),
    ensures
        f1.len() == f2.len(),
        forall|i: int| 0 <= i < f1.len() ==> #[trigger] same_text_fragment(f1[i], f2[i]),
    decreases texts.len(),
{
    if texts.len() > 0 {
        let t = texts.last();
        let lines = text_lines(t, fonts, width);
        let m = f1.len() - lines.len();
        let start = block_end(texts.drop_last(), fonts, width);
        let m2 = f2.len() - lines.len();
        lemma_layout_deterministic(f1.take(m), f2.take(m2), texts.drop_last(), fonts, width);
        assert(m == m2);
        assert forall|i: int| 0 <= i < f1.len() implies #[trigger] same_text_fragment(f1[i], f2[i]) by {
            if i < m {
                assert(same_text_fragment(f1.take(m)[i], f2.take(m)[i]));
            } else {
                let k = i - m;
                let p = line_position(start, t.style.line_height, k as nat);
                assert(line_fragment(texts_from(f1, m)[k], lines[k], p, t.style.line_height, run_face(), t.style.font_size));
                assert(line_fragment(texts_from(f2, m)[k], lines[k], p, t.style.line_height, run_face(), t.style.font_size));
                assert(f1[i] is Text);
                assert(f2[i] is Text);
            }
        }
    }
}

/// Lays out the root block against the viewport.
pub fn layout_root(root: &Block, fonts: &FontCache, viewport_size: Size<Au>) -> (r: Result<BoxFragment, LayoutError>)
    requires
        fonts.wf(),
    ensures
        r is Ok <==> (root.texts().len() == 0 || face_ready(*fonts)),
        r matches Ok(b) ==> {
            &&& b.rect.origin.i.0 == 0 && b.rect.origin.b.0 == 0
            &&& b.rect.size == viewport_size
            &&& block_laid_out(b.children@, root.texts(), *fonts, viewport_size.width.0 as int)
        },
{
    root.layout(fonts, viewport_size)
}

} // verus!
