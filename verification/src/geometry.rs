//! The size that a session starts with on a given display.

use vstd::prelude::*;

verus! {

/// The size of a new terminal window: its cells in pixels and its screen in
/// cells.
#[derive(Clone, Copy, Debug, PartialEq, Eq, Structural)]
pub struct Geometry {
    pub block_width: u32,
    pub block_height: u32,
    pub columns: u32,
    pub lines: u32,
}

/// The smaller of two numbers.
pub open spec fn smaller(a: int, b: int) -> int {
    if a < b {
        a
    } else {
        b
    }
}

/// How many times larger than 8 by 16 pixels a cell is on a display
/// `display_height` pixels tall: one more for each 1600 pixels.
pub open spec fn scale_of(display_height: u32) -> int {
    display_height as int / 1600 + 1
}

/// How wide a new window is at most, in pixels: four fifths of the display,
/// and no more than 1024 pixels for each step of the scale.
pub open spec fn most_wide(display_width: u32, display_height: u32) -> int {
    smaller(1024 * scale_of(display_height), display_width as int * 4 / 5)
}

/// How tall a new window is at most, in pixels: four fifths of the display,
/// and no more than 768 pixels for each step of the scale.
pub open spec fn most_tall(display_height: u32) -> int {
    smaller(768 * scale_of(display_height), display_height as int * 4 / 5)
}

impl Geometry {
    /// The geometry for a display of `display_width` by `display_height`
    /// pixels: cells of 8 by 16 pixels times the scale, and as many of
    /// them as fit into the largest window.
    pub open spec fn of(display_width: u32, display_height: u32) -> Geometry {
        let scale = scale_of(display_height);
        Geometry {
            block_width: (8 * scale) as u32,
            block_height: (16 * scale) as u32,
            columns: (most_wide(display_width, display_height) / (8 * scale)) as u32,
            lines: (most_tall(display_height) / (16 * scale)) as u32,
        }
    }

    /// Chooses the geometry for a display of `display_width` by
    /// `display_height` pixels.
    pub fn new(display_width: u32, display_height: u32) -> (geometry: Geometry)
        ensures
            geometry == Geometry::of(display_width, display_height),
            geometry.block_width > 0,
            geometry.block_height > 0,
            geometry.columns * geometry.block_width <= most_wide(display_width, display_height)
                < (geometry.columns + 1) * geometry.block_width,
            geometry.lines * geometry.block_height <= most_tall(display_height) < (geometry.lines
                + 1) * geometry.block_height,
            most_wide(display_width, display_height) <= u32::MAX,
            most_tall(display_height) <= u32::MAX,
    {
        let scale: u64 = (display_height / 1600 + 1) as u64;
        let block_width: u64 = 8 * scale;
        let block_height: u64 = 16 * scale;
        let most_wide: u64 = display_width as u64 * 4 / 5;
        let most_tall: u64 = display_height as u64 * 4 / 5;
        let wide: u64 = if 1024 * scale < most_wide {
            1024 * scale
        } else {
            most_wide
        };
        let tall: u64 = if 768 * scale < most_tall {
            768 * scale
        } else {
            most_tall
        };
        let columns: u64 = wide / block_width;
        let lines: u64 = tall / block_height;
        assert(columns * block_width <= wide < (columns + 1) * block_width) by (nonlinear_arith)
            requires
                columns == wide / block_width,
                block_width > 0,
        ;
        assert(lines * block_height <= tall < (lines + 1) * block_height) by (nonlinear_arith)
            requires
                lines == tall / block_height,
                block_height > 0,
        ;
        assert(columns <= wide && lines <= tall) by (nonlinear_arith)
            requires
                columns * block_width <= wide,
                lines * block_height <= tall,
                block_width >= 1,
                block_height >= 1,
                columns >= 0,
                lines >= 0,
        ;
        Geometry {
            block_width: block_width as u32,
            block_height: block_height as u32,
            columns: columns as u32,
            lines: lines as u32,
        }
    }
}

} // verus!
