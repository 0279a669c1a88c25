//! What the engine does to the pixels of the rendering surface by itself:
//! the inverted rectangles that show the cursor and the selection, and the
//! block moves that scroll.

use vstd::prelude::*;
use crate::grid::{cell_index, lemma_cell_in_grid, lemma_index_in_grid};
use crate::region::{move_rows, moved, RowMove};

verus! {

/// The bits of a pixel that an inversion flips: its red, green and blue.
/// The opacity stays.
pub const INVERT_MASK: u32 = 0x00FF_FFFF;

/// The smaller of `limit` and `v`.
pub open spec fn at_most(limit: int, v: int) -> int {
    if v < limit {
        v
    } else {
        limit
    }
}

/// Whether pixel `i` of a surface `width` by `height` is one that inverting
/// the rectangle `w` by `h` at `(x, y)` flips: a pixel of the rectangle that
/// the surface has.
pub open spec fn inverts(
    width: int,
    height: int,
    x: int,
    y: int,
    w: int,
    h: int,
    i: int,
) -> bool {
    &&& width > 0
    &&& height > 0
    &&& at_most(width, x) <= i % width < at_most(width, x + w)
    &&& at_most(height, y) <= i / width < at_most(height, y + h)
}

/// The pixels after the rectangle was inverted.
pub open spec fn inverted(
    pixels: Seq<u32>,
    width: int,
    height: int,
    x: int,
    y: int,
    w: int,
    h: int,
) -> Seq<u32> {
    Seq::new(
        pixels.len(),
        |i: int|
            if inverts(width, height, x, y, w, h, i) {
                pixels[i] ^ INVERT_MASK
            } else {
                pixels[i]
            },
    )
}

/// The smaller of `limit` and `v + d`.
fn end_within(limit: usize, v: usize, d: usize) -> (end: usize)
    ensures
        end == at_most(limit as int, v + d),
{
    if v >= limit {
        limit
    } else if d >= limit - v {
        limit
    } else {
        v + d
    }
}

/// Inverts the colors of the rectangle `w` by `h` at `(x, y)` of a surface
/// of `width` by `height` pixels. Inverting a rectangle once more brings
/// the surface back.
pub fn invert(
    pixels: &mut [u32],
    width: usize,
    height: usize,
    x: usize,
    y: usize,
    w: usize,
    h: usize,
)
    requires
        old(pixels)@.len() == width * height,
    ensures
        final(pixels)@ == inverted(
            old(pixels)@,
            width as int,
            height as int,
            x as int,
            y as int,
            w as int,
            h as int,
        ),
{
    let ghost before = pixels@;
    let n = pixels.len();
    if width == 0 || height == 0 {
        assert(pixels@ =~= inverted(
            before,
            width as int,
            height as int,
            x as int,
            y as int,
            w as int,
            h as int,
        ));
        return ;
    }
    let start_x = end_within(width, x, 0);
    let end_x = end_within(width, x, w);
    let start_y = end_within(height, y, 0);
    let end_y = end_within(height, y, h);
    let mut row = start_y;
    while row < end_y
        invariant
            start_y <= row <= end_y <= height,
            start_x <= end_x <= width,
            n == before.len(),
            n == width * height,
            pixels@.len() == n,
            forall|i: int|
                0 <= i < n ==> #[trigger] pixels@[i] == if start_x <= i % (width as int) < end_x
                    && start_y <= i / (width as int) < row {
                    before[i] ^ INVERT_MASK
                } else {
                    before[i]
                },
        decreases end_y - row,
    {
        let mut col = start_x;
        while col < end_x
            invariant
                start_y <= row < end_y <= height,
                start_x <= col <= end_x <= width,
                n == before.len(),
                n == width * height,
                pixels@.len() == n,
                forall|i: int|
                    0 <= i < n ==> #[trigger] pixels@[i] == if start_x <= i % (width as int)
                        < end_x && (start_y <= i / (width as int) < row || (i / (width as int)
                        == row && i % (width as int) < col)) {
                        before[i] ^ INVERT_MASK
                    } else {
                        before[i]
                    },
            decreases end_x - col,
        {
            proof {
                lemma_cell_in_grid(width as int, height as int, col as int, row as int);
            }
            let ghost line = pixels@;
            let i = row * width + col;
            let pixel = pixels[i];
            pixels[i] = pixel ^ INVERT_MASK;
            assert(pixels@ == line.update(i as int, before[i as int] ^ INVERT_MASK));
            assert forall|j: int| 0 <= j < n implies #[trigger] pixels@[j] == if start_x <= j % (
            width as int) < end_x && (start_y <= j / (width as int) < row || (j / (width as int)
                == row && j % (width as int) < col + 1)) {
                before[j] ^ INVERT_MASK
            } else {
                before[j]
            } by {
                lemma_index_in_grid(width as int, height as int, j);
                assert(line[j] == if start_x <= j % (width as int) < end_x && (start_y <= j / (
                width as int) < row || (j / (width as int) == row && j % (width as int) < col)) {
                    before[j] ^ INVERT_MASK
                } else {
                    before[j]
                });
            }
            col += 1;
        }
        row += 1;
    }
    assert(pixels@ =~= inverted(
        before,
        width as int,
        height as int,
        x as int,
        y as int,
        w as int,
        h as int,
    ));
}

/// Inverting the same rectangle twice leaves every pixel as it was: the
/// overlay of cursor and selection is taken away by drawing it again.
pub proof fn lemma_invert_twice(
    pixels: Seq<u32>,
    width: int,
    height: int,
    x: int,
    y: int,
    w: int,
    h: int,
)
    ensures
        inverted(inverted(pixels, width, height, x, y, w, h), width, height, x, y, w, h)
            == pixels,
{
    let once = inverted(pixels, width, height, x, y, w, h);
    let twice = inverted(once, width, height, x, y, w, h);
    assert forall|i: int| 0 <= i < pixels.len() implies twice[i] == pixels[i] by {
        let p = pixels[i];
        assert((p ^ 0x00FF_FFFFu32) ^ 0x00FF_FFFFu32 == p) by (bit_vector);
    }
    assert(twice =~= pixels);
}

/// The move of a rectangle of cells, each `block_width` by `block_height`
/// pixels, on a surface `width` pixels wide: none where a pixel position is
/// more than `usize` holds, for then no line of it lies on any surface.
pub open spec fn pixel_move(
    width: usize,
    block_width: usize,
    block_height: usize,
    from_x: usize,
    from_y: usize,
    to_x: usize,
    to_y: usize,
    w: usize,
    h: usize,
) -> Option<RowMove> {
    if from_x * block_width <= usize::MAX && to_x * block_width <= usize::MAX && w * block_width
        <= usize::MAX {
        Some(
            RowMove {
                stride: width,
                sub: block_height,
                from_x: (from_x * block_width) as usize,
                from_y,
                to_x: (to_x * block_width) as usize,
                to_y,
                len: (w * block_width) as usize,
                rows: h,
            },
        )
    } else {
        None
    }
}

/// The pixels after the rectangle of cells was moved.
pub open spec fn region_moved<T>(
    pixels: Seq<T>,
    width: usize,
    block_width: usize,
    block_height: usize,
    from_x: usize,
    from_y: usize,
    to_x: usize,
    to_y: usize,
    w: usize,
    h: usize,
) -> Seq<T> {
    match pixel_move(width, block_width, block_height, from_x, from_y, to_x, to_y, w, h) {
        Some(m) => moved(pixels, m),
        None => pixels,
    }
}

/// Moves the pixels of a rectangle of `w` by `h` cells from the cell
/// `(from_x, from_y)` to the cell `(to_x, to_y)`, on a surface `width`
/// pixels wide.
pub fn move_region<T: Copy>(
    pixels: &mut [T],
    width: usize,
    block_width: usize,
    block_height: usize,
    from_x: usize,
    from_y: usize,
    to_x: usize,
    to_y: usize,
    w: usize,
    h: usize,
)
    ensures
        final(pixels)@ == region_moved(
            old(pixels)@,
            width,
            block_width,
            block_height,
            from_x,
            from_y,
            to_x,
            to_y,
            w,
            h,
        ),
{
    if let Some(source_x) = from_x.checked_mul(block_width) {
        if let Some(target_x) = to_x.checked_mul(block_width) {
            if let Some(len) = w.checked_mul(block_width) {
                let m = RowMove {
                    stride: width,
                    sub: block_height,
                    from_x: source_x,
                    from_y,
                    to_x: target_x,
                    to_y,
                    len,
                    rows: h,
                };
                move_rows(pixels, &m);
            }
        }
    }
}

} // verus!
