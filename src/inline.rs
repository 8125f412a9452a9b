//! Text runs, shaping through rustybuzz, and greedy line breaking.
use app_units::Au;
use vstd::prelude::*;

use crate::fragment::TextFragment;
use crate::geometry::{Point, Rect, Size};
use crate::units::{au_add, au_clamp, au_div, au_mul, div_toward_zero};

verus! {

/// A shaped glyph in logical pixels at the run's font size.
#[derive(Clone, Copy, Debug, PartialEq, Eq)]
pub struct GlyphInfo {
    pub glyph_id: u32,
    pub advance: Au,
    pub offset: Point<Au>,
}

/// A font face: the file that holds it and its index within that file.
#[derive(Debug)]
pub struct FaceInfo {
    pub path: String,
    pub index: u32,
}

impl View for FaceInfo {
    type V = (Seq<char>, u32);

    open spec fn view(&self) -> (Seq<char>, u32) {
        (self.path@, self.index)
    }
}

impl Clone for FaceInfo {
    fn clone(&self) -> (r: Self)
        ensures
            r@ == self@,
    {
        FaceInfo { path: self.path.clone(), index: self.index }
    }
}

impl PartialEq for FaceInfo {
    fn eq(&self, o: &FaceInfo) -> (r: bool) {
        self.index == o.index && self.path == o.path
    }
}

impl vstd::std_specs::cmp::PartialEqSpecImpl for FaceInfo {
    open spec fn obeys_eq_spec() -> bool {
        true
    }

    open spec fn eq_spec(&self, o: &FaceInfo) -> bool {
        self@ == o@
    }
}

impl Eq for FaceInfo {}

/// The writing system a run is shaped for.
#[derive(Clone, Copy, Debug, PartialEq, Eq)]
pub enum Script {
    Latin,
}

/// A slice of text shaped as one piece: one face, one size, one script, one direction.
#[derive(Debug)]
pub struct TextRun {
    pub text: String,
    pub face_info: FaceInfo,
    pub font_size: Au,
    pub script: Script,
    pub rtl: bool,
}

/// What the shaper reports of one glyph, in the face's design units:
/// glyph id, horizontal advance, horizontal offset, vertical offset.
pub type RawGlyph = (u32, i32, i32, i32);

/// Whether rustybuzz reads `data` as a font with a face at `index`.
pub uninterp spec fn parses_as_face(data: Seq<u8>, index: u32) -> bool;

/// The units per em of the face at `index` in `data`.
pub uninterp spec fn units_per_em_of(data: Seq<u8>, index: u32) -> int;

/// The glyphs rustybuzz produces for `text` in the face at `index` in `data`, in visual order.
pub uninterp spec fn shaped_glyphs(data: Seq<u8>, index: u32, text: Seq<char>, rtl: bool) -> Seq<RawGlyph>;

/// Relies on `rustybuzz::Face::from_slice` (which parses through `ttf_parser::Face::parse`) and
/// `Face::units_per_em`: a parsed face has a `head` table whose units per em lie in 16..=16384.
#[verifier::external_body]
fn face_units_per_em(data: &[u8], index: u32) -> (r: Option<i32>)
    ensures
        r.is_some() == parses_as_face(data@, index),
        r matches Some(u) ==> u == units_per_em_of(data@, index) && 16 <= u <= 16384,
{
    rustybuzz::Face::from_slice(data, index).map(|face| face.units_per_em())
}

/// Relies on `rustybuzz::shape` on the face at `index` in `data`, the buffer holding `text`
/// with its script set and its direction right to left for `rtl`, else left for the shaper
/// to guess (`Direction::Invalid` is a new buffer's direction). The result depends on these
/// arguments alone.
#[verifier::external_body]
fn shape_text(data: &[u8], index: u32, text: &str, script: Script, rtl: bool) -> (r: Vec<RawGlyph>)
    requires
        parses_as_face(data@, index),
    ensures
        r@ == shaped_glyphs(data@, index, text@, rtl),
{
    let face = rustybuzz::Face::from_slice(data, index).unwrap();
    let mut buffer = rustybuzz::UnicodeBuffer::new();
    buffer.push_str(text);
    buffer.set_script(match script { Script::Latin => rustybuzz::script::LATIN });
    buffer.set_direction(match rtl { true => rustybuzz::Direction::RightToLeft, false => rustybuzz::Direction::Invalid });
    let out = rustybuzz::shape(&face, &[], buffer);
    let pos = out.glyph_positions();
    out.glyph_infos().iter().zip(pos).map(|(g, p)| (g.glyph_id, p.x_advance, p.x_offset, p.y_offset)).collect()
}

/// A design-unit distance `d` in logical pixels: `font_size × d / upem`, with `Au`'s rounding.
pub open spec fn scaled(font_size: Au, d: int, upem: int) -> int {
    div_toward_zero(au_clamp(font_size.0 * d), upem)
}

/// The glyph that a shaper record stands for at `font_size`.
pub open spec fn glyph_of(raw: RawGlyph, font_size: Au, upem: int) -> GlyphInfo {
    GlyphInfo {
        glyph_id: raw.0,
        advance: Au(scaled(font_size, raw.1 as int, upem) as i32),
        offset: Point {
            i: Au(scaled(font_size, raw.2 as int, upem) as i32),
            b: Au(scaled(font_size, raw.3 as int, upem) as i32),
        },
    }
}

pub open spec fn glyphs_of(raw: Seq<RawGlyph>, font_size: Au, upem: int) -> Seq<GlyphInfo> {
    Seq::new(raw.len(), |k: int| glyph_of(raw[k], font_size, upem))
}

/// Converts shaper records from design units to logical pixels at `font_size`.
pub fn scale_glyphs(raw: &Vec<RawGlyph>, font_size: Au, upem: i32) -> (r: Vec<GlyphInfo>)
    requires
        upem > 0,
    ensures
        r@ == glyphs_of(raw@, font_size, upem as int),
{
    let mut out: Vec<GlyphInfo> = Vec::new();
    let mut k: usize = 0;
    while k < raw.len()
        invariant
            k <= raw@.len(),
            upem > 0,
            out@ == glyphs_of(raw@.take(k as int), font_size, upem as int),
        decreases raw@.len() - k,
    {
        let (id, adv, off_i, off_b) = raw[k];
        let g = GlyphInfo {
            glyph_id: id,
            advance: au_div(au_mul(font_size, adv), upem),
            offset: Point { i: au_div(au_mul(font_size, off_i), upem), b: au_div(au_mul(font_size, off_b), upem) },
        };
        out.push(g);
        k = k + 1;
        assert(out@ =~= glyphs_of(raw@.take(k as int), font_size, upem as int));
    }
    assert(raw@.take(k as int) =~= raw@);
    out
}

/// Why a run could not be shaped.
#[derive(Clone, Copy, Debug, PartialEq, Eq)]
pub enum ShapingError {
    /// The font bytes hold no face at the run's index.
    InvalidFace,
}

impl TextRun {
    /// Shapes this run with the bytes of its face; each glyph's advance and offsets are
    /// `font_size × design units / units per em`.
    pub fn shape(&self, font: &[u8]) -> (r: Result<Vec<GlyphInfo>, ShapingError>)
        ensures
            match r {
                Ok(gs) => parses_as_face(font@, self.face_info.index) && gs@ == glyphs_of(
                    shaped_glyphs(font@, self.face_info.index, self.text@, self.rtl),
                    self.font_size,
                    units_per_em_of(font@, self.face_info.index),
                ),
                Err(e) => !parses_as_face(font@, self.face_info.index) && e == ShapingError::InvalidFace,
            },
    {
        match face_units_per_em(font, self.face_info.index) {
            None => Err(ShapingError::InvalidFace),
            Some(upem) => {
                let raw = shape_text(font, self.face_info.index, self.text.as_str(), self.script, self.rtl);
                Ok(scale_glyphs(&raw, self.font_size, upem))
            },
        }
    }
}

/// The total advance of `gs`, added left to right as `Au` adds.
pub open spec fn advance_sum(gs: Seq<GlyphInfo>) -> int
    decreases gs.len(),
{
    if gs.len() == 0 {
        0
    } else {
        au_clamp(advance_sum(gs.drop_last()) + gs.last().advance.0)
    }
}

/// Scanning from glyph `k`, the index of the first glyph that would carry the line that
/// starts at `gs[0]` past `width`, or the length of `gs` when none does.
pub open spec fn line_end_from(gs: Seq<GlyphInfo>, width: int, k: int) -> int
    decreases gs.len() - k,
{
    if k >= gs.len() {
        gs.len() as int
    } else if au_clamp(advance_sum(gs.take(k)) + gs[k].advance.0) > width {
        k
    } else {
        line_end_from(gs, width, k + 1)
    }
}

/// How many glyphs the first line of `gs` takes: at least one, then each glyph that keeps
/// the line's advance within `width`.
pub open spec fn first_line_len(gs: Seq<GlyphInfo>, width: int) -> int {
    let e = line_end_from(gs, width, 1);
    if 1 <= e <= gs.len() {
        e
    } else {
        1
    }
}

/// `gs` broken greedily into lines of at most `width`, a glyph alone on its line excepted.
pub open spec fn lines_of(gs: Seq<GlyphInfo>, width: int) -> Seq<Seq<GlyphInfo>>
    decreases gs.len(),
{
    if gs.len() == 0 {
        seq![]
    } else {
        let n = first_line_len(gs, width);
        seq![gs.take(n)] + lines_of(gs.skip(n), width)
    }
}

/// The block position of line `k` when the first stands at `start` and each is `line_height` tall.
pub open spec fn line_position(start: int, line_height: Au, k: nat) -> int
    decreases k,
{
    if k == 0 {
        start
    } else {
        au_clamp(line_position(start, line_height, (k - 1) as nat) + line_height.0)
    }
}

/// `f` is the fragment for `line` at block position `b`.
pub open spec fn line_fragment(
    f: TextFragment,
    line: Seq<GlyphInfo>,
    b: int,
    line_height: Au,
    face: (Seq<char>, u32),
    font_size: Au,
) -> bool {
    &&& f.rect.origin.i.0 == 0
    &&& f.rect.origin.b.0 == b
    &&& f.rect.size.width.0 == advance_sum(line)
    &&& f.rect.size.height == line_height
    &&& f.glyphs@ == line
    &&& f.face_info@ == face
    &&& f.font_size == font_size
}

/// `frags` are the fragments for `lines`, the first at `start`, each line below the last.
pub open spec fn lines_laid_out(
    frags: Seq<TextFragment>,
    lines: Seq<Seq<GlyphInfo>>,
    start: int,
    line_height: Au,
    face: (Seq<char>, u32),
    font_size: Au,
) -> bool {
    &&& frags.len() == lines.len()
    &&& forall|k: int|
        0 <= k < lines.len() ==> #[trigger] line_fragment(
            frags[k],
            lines[k],
            line_position(start, line_height, k as nat),
            line_height,
            face,
            font_size,
        )
}

/// Breaks `glyphs` into lines no wider than `width`, appending one fragment per line to `out`:
/// the first at block position `start_b`, each next one `line_height` below. A glyph that does
/// not fit on an empty line takes a line of its own. Returns the block position after the last line.
pub fn break_lines(
    glyphs: &Vec<GlyphInfo>,
    width: Au,
    line_height: Au,
    start_b: Au,
    face_info: &FaceInfo,
    font_size: Au,
    out: &mut Vec<TextFragment>,
) -> (next_b: Au)
    ensures
        final(out)@.subrange(0, old(out)@.len() as int) == old(out)@,
        lines_laid_out(
            final(out)@.skip(old(out)@.len() as int),
            lines_of(glyphs@, width.0 as int),
            start_b.0 as int,
            line_height,
            face_info@,
            font_size,
        ),
        next_b.0 == line_position(start_b.0 as int, line_height, lines_of(glyphs@, width.0 as int).len()),
{
    let n = glyphs.len();
    let ghost w = width.0 as int;
    let ghost base = old(out)@.len() as int;
    let ghost mut done: Seq<Seq<GlyphInfo>> = seq![];
    let mut start: usize = 0;
    let mut cur_b = start_b;
    assert(glyphs@.skip(0) =~= glyphs@);
    while start < n
        invariant
            n == glyphs@.len(),
            start <= n,
            w == width.0,
            base == old(out)@.len(),
            lines_of(glyphs@, w) == done + lines_of(glyphs@.skip(start as int), w),
            out@.len() == base + done.len(),
            out@.subrange(0, base) == old(out)@,
            lines_laid_out(out@.skip(base), done, start_b.0 as int, line_height, face_info@, font_size),
            cur_b.0 == line_position(start_b.0 as int, line_height, done.len()),
        decreases n - start,
    {
        let ghost rest = glyphs@.skip(start as int);
        let first = glyphs[start];
        let mut len = au_add(Au(0), first.advance);
        let mut line: Vec<GlyphInfo> = Vec::new();
        line.push(first);
        let mut e: usize = start + 1;
        let mut fits = true;
        assert(rest.take(1).drop_last() =~= seq![]);
        assert(line@ =~= rest.take(1));
        assert(rest.take(1).last() == first);
        assert(advance_sum(rest.take(1).drop_last()) == 0);
        assert(len.0 == advance_sum(rest.take(1)));
        while e < n && fits
            invariant
                n == glyphs@.len(),
                rest == glyphs@.skip(start as int),
                start < e <= n,
                w == width.0,
                len.0 == advance_sum(rest.take(e - start)),
                line@ == rest.take(e - start),
                fits ==> line_end_from(rest, w, 1) == line_end_from(rest, w, e - start),
                !fits ==> line_end_from(rest, w, 1) == e - start,
            decreases (n - e) * 2 + if fits { 1int } else { 0int },
        {
            let g = glyphs[e];
            let next = au_add(len, g.advance);
            if next.0 > width.0 {
                fits = false;
            } else {
                len = next;
                line.push(g);
                e = e + 1;
                assert(rest.take(e - start).drop_last() =~= rest.take(e - start - 1));
                assert(line@ =~= rest.take(e - start));
            }
        }
        let ghost i = e - start;
        assert(first_line_len(rest, w) == i);
        assert(rest.skip(i) =~= glyphs@.skip(e as int));
        assert(lines_of(rest, w) == seq![rest.take(i)] + lines_of(rest.skip(i), w));
        let frag = TextFragment {
            rect: Rect {
                origin: Point { i: Au(0), b: cur_b },
                size: Size { width: len, height: line_height },
            },
            face_info: face_info.clone(),
            font_size,
            glyphs: line,
        };
        proof {
            assert(line_fragment(
                frag,
                rest.take(i),
                line_position(start_b.0 as int, line_height, done.len()),
                line_height,
                face_info@,
                font_size,
            ));
        }
        let ghost before = out@;
        out.push(frag);
        let ghost prev = done;
        proof {
            done = done.push(rest.take(i));
            assert(lines_of(glyphs@, w) == done + lines_of(glyphs@.skip(e as int), w)) by {
                assert(prev + (seq![rest.take(i)] + lines_of(rest.skip(i), w)) =~= done + lines_of(
                    glyphs@.skip(e as int),
                    w,
                ));
            }
            assert(out@.subrange(0, base) =~= old(out)@);
            assert forall|k: int| 0 <= k < done.len() implies #[trigger] line_fragment(
                out@.skip(base)[k],
                done[k],
                line_position(start_b.0 as int, line_height, k as nat),
                line_height,
                face_info@,
                font_size,
            ) by {
                if k < prev.len() {
                    assert(out@.skip(base)[k] == before.skip(base)[k]);
                }
            }
        }
        start = e;
        cur_b = au_add(cur_b, line_height);
    }
    assert(glyphs@.skip(start as int) =~= seq![]);
    assert(done + lines_of(seq![], w) =~= done);
    cur_b
}

/// Every fragment is exactly as wide as the sum of its glyphs' advances.
pub proof fn lemma_fragment_width_is_advance_sum(
    frags: Seq<TextFragment>,
    lines: Seq<Seq<GlyphInfo>>,
    start: int,
    line_height: Au,
    face: (Seq<char>, u32),
    font_size: Au,
)
    requires
        lines_laid_out(frags, lines, start, line_height, face, font_size),
    ensures
        forall|k: int| 0 <= k < frags.len() ==> #[trigger] frags[k].rect.size.width.0 == advance_sum(frags[k].glyphs@),
{
    assert forall|k: int| 0 <= k < frags.len() implies #[trigger] frags[k].rect.size.width.0 == advance_sum(
        frags[k].glyphs@,
    ) by {
        assert(line_fragment(
            frags[k],
            lines[k],
            line_position(start, line_height, k as nat),
            line_height,
            face,
            font_size,
        ));
    }
}

proof fn lemma_scan_fits(gs: Seq<GlyphInfo>, width: int, k: int)
    requires
        0 <= k,
    ensures
        k <= gs.len() ==> k <= line_end_from(gs, width, k) <= gs.len(),
        forall|j: int|
            k <= j < line_end_from(gs, width, k) ==> au_clamp(advance_sum(#[trigger] gs.take(j)) + gs[j].advance.0)
                <= width,
    decreases gs.len() - k,
{
    if k < gs.len() && au_clamp(advance_sum(gs.take(k)) + gs[k].advance.0) <= width {
        lemma_scan_fits(gs, width, k + 1);
    }
}

/// Every line but one that holds a single glyph fits the width it was broken for, and no
/// line is empty.
pub proof fn lemma_lines_fit(gs: Seq<GlyphInfo>, width: int)
    ensures
        forall|k: int|
            0 <= k < lines_of(gs, width).len() ==> #[trigger] lines_of(gs, width)[k].len() >= 1 && (
            lines_of(gs, width)[k].len() == 1 || advance_sum(lines_of(gs, width)[k]) <= width),
    decreases gs.len(),
{
    if gs.len() > 0 {
        let n = first_line_len(gs, width);
        let rest = gs.skip(n);
        lemma_lines_fit(rest, width);
        lemma_scan_fits(gs, width, 1);
        let first = gs.take(n);
        if n >= 2 {
            let j = n - 1;
            assert(au_clamp(advance_sum(gs.take(j)) + gs[j].advance.0) <= width);
            assert(first.drop_last() =~= gs.take(j));
        }
        let ls = lines_of(gs, width);
        assert(ls == seq![first] + lines_of(rest, width));
        assert forall|k: int| 0 <= k < ls.len() implies #[trigger] ls[k].len() >= 1 && (ls[k].len() == 1
            || advance_sum(ls[k]) <= width) by {
            if k > 0 {
                assert(ls[k] == lines_of(rest, width)[k - 1]);
            }
        }
    }
}

/// Every fragment of a broken run fits the width it was broken for, but one that holds a
/// single glyph wider than that.
pub proof fn lemma_fragments_fit(
    frags: Seq<TextFragment>,
    glyphs: Seq<GlyphInfo>,
    width: int,
    start: int,
    line_height: Au,
    face: (Seq<char>, u32),
    font_size: Au,
)
    requires
        lines_laid_out(frags, lines_of(glyphs, width), start, line_height, face, font_size),
    ensures
        forall|k: int|
            0 <= k < frags.len() ==> #[trigger] frags[k].glyphs@.len() == 1 || frags[k].rect.size.width.0 <= width,
{
    let lines = lines_of(glyphs, width);
    lemma_lines_fit(glyphs, width);
    assert forall|k: int| 0 <= k < frags.len() implies #[trigger] frags[k].glyphs@.len() == 1
        || frags[k].rect.size.width.0 <= width by {
        assert(line_fragment(frags[k], lines[k], line_position(start, line_height, k as nat), line_height, face, font_size));
        assert(lines[k].len() >= 1);
    }
}

proof fn lemma_line_position_linear(start: int, line_height: Au, k: nat)
    requires
        line_height.0 >= 0,
        -0x3fff_ffff <= start,
        start + k * line_height.0 <= 0x3fff_ffff,
    ensures
        line_position(start, line_height, k) == start + k * line_height.0,
    decreases k,
{
    if k > 0 {
        assert((k - 1) * line_height.0 <= k * line_height.0) by (nonlinear_arith)
            requires
                line_height.0 >= 0,
                k > 0,
        ;
        let m = (k - 1) as nat;
        assert(m * line_height.0 + line_height.0 == k * line_height.0) by (nonlinear_arith)
            requires
                m == k - 1,
        ;
        assert(0 <= m * line_height.0) by (nonlinear_arith)
            requires
                line_height.0 >= 0,
        ;
        lemma_line_position_linear(start, line_height, m);
        assert(line_position(start, line_height, k) == au_clamp(line_position(start, line_height, m) + line_height.0));
        assert(0 <= k * line_height.0) by (nonlinear_arith)
            requires
                line_height.0 >= 0,
        ;
    } else {
        assert(k * line_height.0 == 0) by (nonlinear_arith)
            requires
                k == 0,
        ;
    }
}

/// Successive lines stand exactly one line height apart, while their positions stay within
/// the range of `Au`.
pub proof fn lemma_line_stride(
    frags: Seq<TextFragment>,
    lines: Seq<Seq<GlyphInfo>>,
    start: int,
    line_height: Au,
    face: (Seq<char>, u32),
    font_size: Au,
)
    requires
        lines_laid_out(frags, lines, start, line_height, face, font_size),
        line_height.0 >= 0,
        -0x3fff_ffff <= start,
        start + frags.len() * line_height.0 <= 0x3fff_ffff,
    ensures
        forall|k: int|
            0 <= k < frags.len() - 1 ==> #[trigger] frags[k + 1].rect.origin.b.0 - frags[k].rect.origin.b.0
                == line_height.0,
{
    assert forall|k: int| 0 <= k < frags.len() - 1 implies #[trigger] frags[k + 1].rect.origin.b.0
        - frags[k].rect.origin.b.0 == line_height.0 by {
        assert(line_fragment(frags[k], lines[k], line_position(start, line_height, k as nat), line_height, face, font_size));
        assert(line_fragment(
            frags[k + 1],
            lines[k + 1],
            line_position(start, line_height, (k + 1) as nat),
            line_height,
            face,
            font_size,
        ));
        assert((k + 1) * line_height.0 <= frags.len() * line_height.0) by (nonlinear_arith)
            requires
                line_height.0 >= 0,
                k + 1 <= frags.len(),
        ;
        assert(k * line_height.0 <= (k + 1) * line_height.0) by (nonlinear_arith)
            requires
                line_height.0 >= 0,
                k >= 0,
        ;
        lemma_line_position_linear(start, line_height, k as nat);
        lemma_line_position_linear(start, line_height, (k + 1) as nat);
        assert((k + 1) * line_height.0 == k * line_height.0 + line_height.0) by (nonlinear_arith);
    }
}

} // verus!
