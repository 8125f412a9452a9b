//! The fragment tree that layout produces.
use app_units::Au;
use vstd::prelude::*;

use crate::geometry::{Rect, Sides};
use crate::inline::{FaceInfo, GlyphInfo};

verus! {

/// One line of one run: its rectangle, relative to the enclosing box, and its glyphs.
#[derive(Debug)]
pub struct TextFragment {
    pub rect: Rect<Au>,
    pub face_info: FaceInfo,
    pub font_size: Au,
    pub glyphs: Vec<GlyphInfo>,
}

/// A block box: its rectangle, relative to the enclosing box, and its children.
#[derive(Debug)]
pub struct BoxFragment {
    pub rect: Rect<Au>,
    pub margin: Sides<Au>,
    pub children: Vec<Fragment>,
}

/// A node of the fragment tree.
#[derive(Debug)]
pub enum Fragment {
    Text(TextFragment),
    Box(BoxFragment),
}

/// Content that a replaced element stands for.
#[derive(Clone, Copy, Debug, PartialEq, Eq)]
pub enum ReplacedContent {
    Canvas,
    Image,
    Svg,
    Video,
}

/// A fragment for replaced content, with its intrinsic size.
#[derive(Clone, Copy, Debug)]
pub struct ReplacedFragment {
    pub rect: Rect<Au>,
    pub content: ReplacedContent,
    pub intrisic_width: Au,
    pub intrisic_height: Au,
}

} // verus!
