//! The data model shared by the wrapper, the glyph cache, the renderer and
//! the scroll controller.

use vstd::prelude::*;

verus! {

/// Width of the target display surface in pixels.
pub const SCREEN_WIDTH: usize = 320;

/// Height of the target display surface in pixels.
pub const SCREEN_HEIGHT: usize = 240;

/// A custom font setup.
///
/// * `face` - a TTF font file as bytes, preferably monospaced.
/// * `font_size` - comparable to text size in most text editors.
/// * `char_width` - how many pixels a char may take up horizontally.
/// * `char_height` - how many pixels a char may take up vertically.
pub struct ViewerConfig {
    pub face: &'static [u8],
    pub font_size: isize,
    pub char_width: usize,
    pub char_height: usize,
    pub white_mode: bool,
}

/// Session-wide geometry, fixed once the font cell size is known.
pub struct ScreenInfo {
    pub char_width: usize,
    pub char_height: usize,
    pub max_cols: usize,
    pub max_lines: usize,
}

impl ScreenInfo {
    /// The geometry derived from a glyph cell size: as many whole columns and
    /// rows as fit on the fixed surface.
    pub open spec fn wf(self) -> bool {
        &&& self.char_width >= 1
        &&& self.char_height >= 1
        &&& self.max_cols == SCREEN_WIDTH as int / self.char_width as int
        &&& self.max_lines == SCREEN_HEIGHT as int / self.char_height as int
    }

    /// Rejects a zero cell dimension up front instead of failing later with a
    /// division inside the render loop.
    pub fn from_cell(char_width: usize, char_height: usize) -> (r: Option<ScreenInfo>)
        ensures
            match r {
                Some(info) => {
                    &&& char_width >= 1 && char_height >= 1
                    &&& info.char_width == char_width
                    &&& info.char_height == char_height
                    &&& info.wf()
                },
                None => char_width == 0 || char_height == 0,
            },
    {
        if char_width == 0 || char_height == 0 {
            None
        } else {
            Some(ScreenInfo {
                char_width,
                char_height,
                max_cols: SCREEN_WIDTH / char_width,
                max_lines: SCREEN_HEIGHT / char_height,
            })
        }
    }
}

/// One rasterized glyph: an 8-bit alpha bitmap in row-major order plus the
/// signed bearing of its top-left corner relative to the pen position, so a
/// glyph may begin left of or above its pen (italic overhang, tall accents).
#[derive(Clone)]
pub struct CharData {
    pub bm_buffer: Vec<u8>,
    pub bm_left: i32,
    pub bm_top: i32,
    pub bm_w: usize,
    pub bm_h: usize,
}

impl CharData {
    /// The buffer holds exactly one alpha byte per bitmap cell, and the cell
    /// count fits the platform's address space.
    pub open spec fn wf(self) -> bool {
        &&& self.bm_buffer.len() == self.bm_w * self.bm_h
        &&& self.bm_w * self.bm_h <= usize::MAX
    }

    /// The alpha value of the bitmap cell at column `x`, row `y`.
    pub open spec fn alpha_at(self, x: int, y: int) -> u8 {
        self.bm_buffer[y * self.bm_w + x]
    }
}

/// Which way the framebuffer content moves during an incremental scroll.
#[derive(Clone, Copy, PartialEq, Eq, Structural, Debug)]
pub enum Direction {
    Up,
    Down,
}

/// One wrapped line as the viewer shows it: at most `max_cols` grapheme
/// clusters, with a flag selecting the highlight tint.
pub struct DisplayLine {
    pub text: String,
    pub highlighted: bool,
}

impl View for DisplayLine {
    type V = (Seq<char>, bool);

    open spec fn view(&self) -> (Seq<char>, bool) {
        (self.text@, self.highlighted)
    }
}

} // verus!
