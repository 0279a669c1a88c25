//! The cell buffer of one screen: a row-major sequence of cells, and what the
//! display updates do to it.

use vstd::prelude::*;
use vstd::arithmetic::div_mod::{lemma_fundamental_div_mod, lemma_fundamental_div_mod_converse};
use crate::block::Block;
use crate::color::Argb;
use crate::region::line_start;

verus! {

/// `String::push`: the new string is the old one with `c` at its end.
pub assume_specification[ String::push ](s: &mut String, c: char)
    ensures
        final(s)@ == old(s)@.push(c),
;

/// The index of cell `(x, y)` in a grid `width` cells wide.
pub open spec fn cell_index(width: int, x: int, y: int) -> int {
    y * width + x
}

/// A buffer of `n` cells, all of them `block`.
pub fn filled(n: usize, block: Block) -> (cells: Vec<Block>)
    ensures
        cells@ == Seq::new(n as nat, |i: int| block),
{
    let cells = vec![block; n];
    assert(cells@ =~= Seq::new(n as nat, |i: int| block));
    cells
}

/// `cells` after the glyph `c` was put into cell `(x, y)` of a grid of
/// `width` by `height` cells: the cell shows `c` in `fg` and keeps its
/// background. A glyph for a cell that the grid does not have, to the right
/// of its last column or below its last row, is dropped.
pub open spec fn with_char(
    cells: Seq<Block>,
    width: int,
    height: int,
    x: int,
    y: int,
    c: char,
    fg: Argb,
    bold: bool,
) -> Seq<Block> {
    let i = cell_index(width, x, y);
    if 0 <= x < width && 0 <= y < height && i < cells.len() {
        cells.update(i, cells[i].painted(c, fg, bold))
    } else {
        cells
    }
}

/// Puts the glyph `c` into cell `(x, y)`, if the grid has such a cell.
pub fn put_char(
    cells: &mut Vec<Block>,
    width: usize,
    height: usize,
    x: usize,
    y: usize,
    c: char,
    fg: Argb,
    bold: bool,
)
    ensures
        final(cells)@ == with_char(
            old(cells)@,
            width as int,
            height as int,
            x as int,
            y as int,
            c,
            fg,
            bold,
        ),
{
    assert(((0 + y) * 1 + 0) * width + x == cell_index(width as int, x as int, y as int))
        by (nonlinear_arith);
    let ghost before = cells@;
    let n = cells.len();
    if x < width && y < height {
        if let Some(i) = line_start(0, y, 1, 0, width, x) {
            if i < n {
                let block = cells[i];
                cells[i] = Block { c, fg, bg: block.bg, bold };
            }
        }
    }
    assert(cells@ =~= with_char(
        before,
        width as int,
        height as int,
        x as int,
        y as int,
        c,
        fg,
        bold,
    ));
}

/// Whether item `i` lies in the span of `w` cells that starts at column `x`
/// of row `r`.
pub open spec fn in_span(width: int, x: int, w: int, r: int, i: int) -> bool {
    cell_index(width, x, r) <= i < cell_index(width, x, r) + w
}

/// Whether item `i` lies in one of the `h` spans of `w` cells that start at
/// column `x` of the rows from `y` on.
pub open spec fn rect_covers(width: int, x: int, y: int, w: int, h: int, i: int) -> bool {
    exists|r: int| y <= r < y + h && #[trigger] in_span(width, x, w, r, i)
}

/// `cells` after the `h` spans of `w` cells that start at column `x` of the
/// rows from `y` on were cleared to `bg`.
pub open spec fn spans_cleared(
    cells: Seq<Block>,
    width: int,
    x: int,
    y: int,
    w: int,
    h: int,
    bg: Argb,
) -> Seq<Block> {
    Seq::new(
        cells.len(),
        |i: int|
            if rect_covers(width, x, y, w, h, i) {
                cells[i].cleared(bg)
            } else {
                cells[i]
            },
    )
}

/// Clears the `h` spans of `w` cells that start at column `x` of the rows
/// from `y` on to the background `bg`.
fn clear_spans(
    cells: &mut Vec<Block>,
    width: usize,
    x: usize,
    y: usize,
    w: usize,
    h: usize,
    bg: Argb,
)
    ensures
        final(cells)@ == spans_cleared(
            old(cells)@,
            width as int,
            x as int,
            y as int,
            w as int,
            h as int,
            bg,
        ),
{
    let ghost before = cells@;
    let n = cells.len();
    let limit = if width == 0 && h > 1 {
        1
    } else {
        h
    };
    let mut k: usize = 0;
    let mut beyond = false;
    assert(cells@ =~= spans_cleared(before, width as int, x as int, y as int, w as int, 0, bg));
    while k < limit && !beyond
        invariant
            k <= limit <= h,
            n == before.len(),
            cells@ == spans_cleared(before, width as int, x as int, y as int, w as int, k as int, bg),
            beyond ==> width > 0 && cell_index(width as int, x as int, y + k) >= n,
        decreases limit - k + if beyond { 0int } else { 1int },
    {
        let ghost row_start = cells@;
        let ghost r = y + k;
        assert(((y + k) * 1 + 0) * width + x == cell_index(width as int, x as int, r))
            by (nonlinear_arith)
            requires
                r == y + k,
        ;
        let mut i: usize = n;
        let mut end: usize = n;
        let mut inside = false;
        if let Some(s) = line_start(y, k, 1, 0, width, x) {
            if s < n {
                inside = true;
                i = s;
                if w < n - s {
                    end = s + w;
                }
            }
        }
        if !inside && width > 0 {
            beyond = true;
            continue ;
        }
        let ghost first = i;
        while i < end
            invariant
                first <= i <= end <= n,
                n == row_start.len(),
                cells@.len() == n,
                forall|j: int|
                    0 <= j < n ==> cells@[j] == if first <= j < i {
                        row_start[j].cleared(bg)
                    } else {
                        row_start[j]
                    },
            decreases end - i,
        {
            let block = cells[i];
            cells[i] = Block { c: '\0', fg: block.fg, bg, bold: block.bold };
            i += 1;
        }
        proof {
            let next = spans_cleared(
                before,
                width as int,
                x as int,
                y as int,
                w as int,
                k + 1,
                bg,
            );
            assert forall|j: int| 0 <= j < n implies cells@[j] == next[j] by {
                let old_cover = rect_covers(width as int, x as int, y as int, w as int, k as int, j);
                let new_cover = rect_covers(
                    width as int,
                    x as int,
                    y as int,
                    w as int,
                    k + 1,
                    j,
                );
                let here = in_span(width as int, x as int, w as int, r, j);
                assert(here <==> first <= j < end);
                if old_cover {
                    let r0 = choose|r0: int|
                        y <= r0 < y + k && #[trigger] in_span(width as int, x as int, w as int, r0, j);
                    assert(y <= r0 < y + k + 1 && in_span(width as int, x as int, w as int, r0, j));
                }
                if here {
                    assert(y <= r < y + k + 1 && in_span(width as int, x as int, w as int, r, j));
                }
                if new_cover {
                    let r1 = choose|r1: int|
                        y <= r1 < y + k + 1 && #[trigger] in_span(
                            width as int,
                            x as int,
                            w as int,
                            r1,
                            j,
                        );
                    if r1 != r {
                        assert(y <= r1 < y + k && in_span(width as int, x as int, w as int, r1, j));
                    }
                }
                assert(new_cover <==> (old_cover || here));
            }
            assert(cells@ =~= next);
        }
        k += 1;
    }
    proof {
        let done = spans_cleared(before, width as int, x as int, y as int, w as int, k as int, bg);
        let all = spans_cleared(before, width as int, x as int, y as int, w as int, h as int, bg);
        assert forall|j: int| 0 <= j < n implies done[j] == all[j] by {
            lemma_rows_that_matter(width as int, x as int, y as int, w as int, k as int, h as int, n as int, j);
        }
        assert(done =~= all);
    }
}

/// Of the `h` rows of a rectangle the first `k` are all that cover item `j`
/// of a buffer of `n` items, where row `k` begins beyond the buffer already
/// or where, in a grid without columns, every row is the same span.
proof fn lemma_rows_that_matter(width: int, x: int, y: int, w: int, k: int, h: int, n: int, j: int)
    requires
        0 <= width,
        0 <= x,
        0 <= y,
        0 <= k <= h,
        0 <= j < n,
        k == h || (width > 0 && cell_index(width, x, y + k) >= n) || (width == 0 && k == 1),
    ensures
        rect_covers(width, x, y, w, k, j) == rect_covers(width, x, y, w, h, j),
{
    if rect_covers(width, x, y, w, k, j) {
        let r = choose|r: int| y <= r < y + k && #[trigger] in_span(width, x, w, r, j);
        assert(y <= r < y + h && in_span(width, x, w, r, j));
    }
    if rect_covers(width, x, y, w, h, j) {
        let r = choose|r: int| y <= r < y + h && #[trigger] in_span(width, x, w, r, j);
        if r >= y + k {
            if width > 0 {
                assert(r * width >= (y + k) * width) by (nonlinear_arith)
                    requires
                        r >= y + k,
                        width > 0,
                ;
                assert(false);
            } else {
                assert(r * width == 0 && y * width == 0) by (nonlinear_arith)
                    requires
                        width == 0,
                ;
                assert(y <= y < y + k && in_span(width, x, w, y, j));
            }
        }
    }
}

/// How much of an extent that starts at `start` lies before `limit`.
pub open spec fn clipped(limit: int, start: int, extent: int) -> int {
    if start >= limit {
        0
    } else if start + extent > limit {
        limit - start
    } else {
        extent
    }
}

/// How much of an extent that starts at `start` lies before `limit`.
pub fn clip(limit: usize, start: usize, extent: usize) -> (part: usize)
    ensures
        part == clipped(limit as int, start as int, extent as int),
{
    if start >= limit {
        0
    } else if extent > limit - start {
        limit - start
    } else {
        extent
    }
}

/// `cells` after the rectangle of `w` by `h` cells at `(x, y)` of a grid of
/// `width` by `height` cells was cleared to `bg`: each cell of the rectangle
/// that the grid has has lost its glyph and has the background `bg`. What of
/// the rectangle lies to the right of the last column or below the last row
/// is dropped.
pub open spec fn rect_cleared(
    cells: Seq<Block>,
    width: int,
    height: int,
    x: int,
    y: int,
    w: int,
    h: int,
    bg: Argb,
) -> Seq<Block> {
    spans_cleared(cells, width, x, y, clipped(width, x, w), clipped(height, y, h), bg)
}

/// Clears the rectangle of `w` by `h` cells at `(x, y)` to the background
/// `bg`, as far as the grid has its cells.
pub fn clear_rect(
    cells: &mut Vec<Block>,
    width: usize,
    height: usize,
    x: usize,
    y: usize,
    w: usize,
    h: usize,
    bg: Argb,
)
    ensures
        final(cells)@ == rect_cleared(
            old(cells)@,
            width as int,
            height as int,
            x as int,
            y as int,
            w as int,
            h as int,
            bg,
        ),
{
    let part_w = clip(width, x, w);
    let part_h = clip(height, y, h);
    clear_spans(cells, width, x, y, part_w, part_h, bg);
}

/// After a rectangle was cleared, a cell of the grid is cleared if it lies
/// in the rectangle, and is as it was if it does not.
pub proof fn lemma_rect_clears_its_cells(
    cells: Seq<Block>,
    width: int,
    height: int,
    x: int,
    y: int,
    w: int,
    h: int,
    bg: Argb,
    cx: int,
    cy: int,
)
    requires
        cells.len() == width * height,
        0 <= x,
        0 <= y,
        0 <= w,
        0 <= h,
        0 <= cx < width,
        0 <= cy < height,
    ensures
        0 <= cell_index(width, cx, cy) < cells.len(),
        rect_cleared(cells, width, height, x, y, w, h, bg)[cell_index(width, cx, cy)] == if x
            <= cx < x + w && y <= cy < y + h {
            cells[cell_index(width, cx, cy)].cleared(bg)
        } else {
            cells[cell_index(width, cx, cy)]
        },
{
    lemma_cell_in_grid(width, height, cx, cy);
    let i = cell_index(width, cx, cy);
    let part_w = clipped(width, x, w);
    let part_h = clipped(height, y, h);
    if x <= cx < x + w && y <= cy < y + h {
        assert(in_span(width, x, part_w, cy, i));
        assert(rect_covers(width, x, y, part_w, part_h, i));
    } else if rect_covers(width, x, y, part_w, part_h, i) {
        let r = choose|r: int| y <= r < y + part_h && #[trigger] in_span(width, x, part_w, r, i);
        assert(r * width == width * r) by (nonlinear_arith);
        lemma_fundamental_div_mod_converse(i, width, r, i - r * width);
        assert(false);
    }
}

/// `cells` with every glyph taken away and every background set to `bg`.
pub open spec fn wiped(cells: Seq<Block>, bg: Argb) -> Seq<Block> {
    Seq::new(cells.len(), |i: int| cells[i].cleared(bg))
}

/// Takes every glyph away and sets every background to `bg`.
pub fn wipe(cells: &mut Vec<Block>, bg: Argb)
    ensures
        final(cells)@ == wiped(old(cells)@, bg),
{
    let ghost before = cells@;
    let n = cells.len();
    let mut i: usize = 0;
    while i < n
        invariant
            i <= n,
            n == before.len(),
            cells@.len() == n,
            forall|j: int|
                0 <= j < n ==> cells@[j] == if j < i {
                    before[j].cleared(bg)
                } else {
                    before[j]
                },
        decreases n - i,
    {
        let block = cells[i];
        cells[i] = Block { c: '\0', fg: block.fg, bg, bold: block.bold };
        i += 1;
    }
    assert(cells@ =~= wiped(before, bg));
}

/// The cell at `(x, y)` of a grid `w` wide that takes the place of one
/// `old_w` by `old_h`: what the old grid showed there, or `fill` where the
/// old grid had no cell.
pub open spec fn resized_cell(
    old_cells: Seq<Block>,
    old_w: int,
    old_h: int,
    fill: Block,
    x: int,
    y: int,
) -> Block {
    if x < old_w && y < old_h {
        old_cells[cell_index(old_w, x, y)]
    } else {
        fill
    }
}

/// The grid of `w` by `h` cells that takes the place of one `old_w` by
/// `old_h`.
pub open spec fn resized(
    old_cells: Seq<Block>,
    old_w: int,
    old_h: int,
    w: int,
    h: int,
    fill: Block,
) -> Seq<Block> {
    Seq::new((w * h) as nat, |i: int| resized_cell(old_cells, old_w, old_h, fill, i % w, i / w))
}

/// A grid of `w` by `h` cells holds exactly `w * h` cells, and its cell
/// `(x, y)` shows what the old grid showed there wherever the old grid had
/// such a cell; every other cell is `fill`.
pub proof fn lemma_resized_keeps_overlap(
    old_cells: Seq<Block>,
    old_w: int,
    old_h: int,
    w: int,
    h: int,
    fill: Block,
)
    requires
        0 <= w,
        0 <= h,
    ensures
        resized(old_cells, old_w, old_h, w, h, fill).len() == w * h,
        forall|x: int, y: int|
            0 <= x < w && 0 <= y < h ==> 0 <= #[trigger] cell_index(w, x, y) < w * h && resized(
                old_cells,
                old_w,
                old_h,
                w,
                h,
                fill,
            )[cell_index(w, x, y)] == resized_cell(old_cells, old_w, old_h, fill, x, y),
{
    assert(w * h >= 0) by (nonlinear_arith)
        requires
            0 <= w,
            0 <= h,
    ;
    assert forall|x: int, y: int| 0 <= x < w && 0 <= y < h implies 0 <= #[trigger] cell_index(
        w,
        x,
        y,
    ) < w * h && resized(old_cells, old_w, old_h, w, h, fill)[cell_index(w, x, y)] == resized_cell(
        old_cells,
        old_w,
        old_h,
        fill,
        x,
        y,
    ) by {
        lemma_cell_in_grid(w, h, x, y);
    }
}

/// Cell `(x, y)` of a grid has an index of its own inside the grid.
pub proof fn lemma_cell_in_grid(w: int, h: int, x: int, y: int)
    requires
        0 <= x < w,
        0 <= y < h,
    ensures
        0 <= cell_index(w, x, y) < w * h,
        cell_index(w, x, y) % w == x,
        cell_index(w, x, y) / w == y,
{
    assert(y * w + x < w * h && 0 <= y * w) by (nonlinear_arith)
        requires
            0 <= x < w,
            0 <= y < h,
    {
        assert((y + 1) * w <= h * w);
    }
    assert(y * w == w * y) by (nonlinear_arith);
    lemma_fundamental_div_mod_converse(y * w + x, w, y, x);
}

/// Makes the grid of `w` by `h` cells that takes the place of `old_cells`.
pub fn reallocated(
    old_cells: &Vec<Block>,
    old_w: usize,
    old_h: usize,
    w: usize,
    h: usize,
    fill: Block,
) -> (cells: Vec<Block>)
    requires
        old_cells@.len() == old_w * old_h,
        w * h <= usize::MAX,
    ensures
        cells@ == resized(old_cells@, old_w as int, old_h as int, w as int, h as int, fill),
{
    assert(w * h >= 0) by (nonlinear_arith)
        requires
            0 <= w,
            0 <= h,
    ;
    let mut cells = filled(w * h, fill);
    let old_n = old_cells.len();
    let rows = if old_h < h {
        old_h
    } else {
        h
    };
    let cols = if old_w < w {
        old_w
    } else {
        w
    };
    let mut y: usize = 0;
    while y < rows
        invariant
            y <= rows,
            rows <= old_h,
            rows <= h,
            cols <= old_w,
            cols <= w,
            old_cells@.len() == old_w * old_h,
            old_n == old_cells@.len(),
            cells@.len() == w * h,
            w * h <= usize::MAX,
            forall|i: int|
                0 <= i < w * h ==> #[trigger] cells@[i] == if i % (w as int) < cols && i / (w as int)
                    < y {
                    old_cells@[cell_index(old_w as int, i % (w as int), i / (w as int))]
                } else {
                    fill
                },
        decreases rows - y,
    {
        let mut x: usize = 0;
        while x < cols
            invariant
                x <= cols,
                y < rows,
                rows <= old_h,
                rows <= h,
                cols <= old_w,
                cols <= w,
                old_cells@.len() == old_w * old_h,
                old_n == old_cells@.len(),
                cells@.len() == w * h,
                w * h <= usize::MAX,
                forall|i: int|
                    0 <= i < w * h ==> #[trigger] cells@[i] == if i % (w as int) < cols && (i / (
                    w as int) < y || (i / (w as int) == y && i % (w as int) < x)) {
                        old_cells@[cell_index(old_w as int, i % (w as int), i / (w as int))]
                    } else {
                        fill
                    },
            decreases cols - x,
        {
            proof {
                lemma_cell_in_grid(w as int, h as int, x as int, y as int);
                lemma_cell_in_grid(old_w as int, old_h as int, x as int, y as int);
            }
            let ghost row = cells@;
            let block = old_cells[y * old_w + x];
            cells[y * w + x] = block;
            assert(cells@ == row.update(cell_index(w as int, x as int, y as int), block));
            assert forall|i: int| 0 <= i < w * h implies #[trigger] cells@[i] == if i % (w as int)
                < cols && (i / (w as int) < y || (i / (w as int) == y && i % (w as int) < x + 1)) {
                old_cells@[cell_index(old_w as int, i % (w as int), i / (w as int))]
            } else {
                fill
            } by {
                lemma_index_in_grid(w as int, h as int, i);
                assert(row[i] == if i % (w as int) < cols && (i / (w as int) < y || (i / (w as int)
                    == y && i % (w as int) < x)) {
                    old_cells@[cell_index(old_w as int, i % (w as int), i / (w as int))]
                } else {
                    fill
                });
            }
            x += 1;
        }
        y += 1;
    }
    proof {
        let want = resized(old_cells@, old_w as int, old_h as int, w as int, h as int, fill);
        assert forall|i: int| 0 <= i < w * h implies cells@[i] == want[i] by {
            lemma_index_in_grid(w as int, h as int, i);
        }
        assert(cells@ =~= want);
    }
    cells
}

/// An index inside a grid names a cell of it.
pub proof fn lemma_index_in_grid(w: int, h: int, i: int)
    requires
        0 <= i < w * h,
        0 <= w,
        0 <= h,
    ensures
        0 <= i % w < w,
        0 <= i / w < h,
        cell_index(w, i % w, i / w) == i,
{
    assert(w > 0) by (nonlinear_arith)
        requires
            0 <= i < w * h,
            0 <= w,
    ;
    lemma_fundamental_div_mod(i, w);
    assert(w * (i / w) == (i / w) * w) by (nonlinear_arith);
    let q = i / w;
    assert(0 <= q < h) by (nonlinear_arith)
        requires
            0 <= i < w * h,
            i == q * w + i % w,
            0 <= i % w < w,
            w > 0,
    ;
}

/// What cell `i` adds to the text of a selection that starts at `start`: its
/// glyph, with a line break before it where the cell before it is empty. An
/// empty cell adds nothing by itself, so a run of empty cells, however long,
/// gives one line break, and only where a glyph follows.
pub open spec fn piece(cells: Seq<Block>, start: int, i: int) -> Seq<char> {
    if cells[i].c == '\0' {
        Seq::empty()
    } else if i > start && cells[i - 1].c == '\0' {
        seq!['\n', cells[i].c]
    } else {
        seq![cells[i].c]
    }
}

/// The text of the cells from `start` up to, not including, `end`.
pub open spec fn text_between(cells: Seq<Block>, start: int, end: int) -> Seq<char>
    decreases end - start,
{
    if end <= start {
        Seq::empty()
    } else {
        text_between(cells, start, end - 1) + piece(cells, start, end - 1)
    }
}

/// The text of a selection that was dragged from cell `a` to cell `b`, in
/// either direction. Cells beyond the end of the grid add nothing.
pub open spec fn selection_text_of(cells: Seq<Block>, a: int, b: int) -> Seq<char> {
    let lo = if a < b {
        a
    } else {
        b
    };
    let hi = if a < b {
        b
    } else {
        a
    };
    text_between(
        cells,
        lo,
        if hi < cells.len() {
            hi
        } else {
            cells.len() as int
        },
    )
}

/// Reads the text of the selection between `a` and `b` off the grid.
pub fn extract_text(cells: &Vec<Block>, a: usize, b: usize) -> (text: String)
    ensures
        text@ == selection_text_of(cells@, a as int, b as int),
{
    let lo = if a < b {
        a
    } else {
        b
    };
    let hi = if a < b {
        b
    } else {
        a
    };
    let end = if hi < cells.len() {
        hi
    } else {
        cells.len()
    };
    let mut text = String::new();
    let mut skipping = false;
    let mut i: usize = lo;
    while i < end
        invariant
            lo <= i,
            i <= end || i == lo,
            end <= cells@.len(),
            skipping == (i > lo && cells@[i - 1].c == '\0'),
            text@ == text_between(cells@, lo as int, i as int),
        decreases end - i,
    {
        let block = cells[i];
        let ghost so_far = text@;
        if block.c == '\0' {
            skipping = true;
            assert(piece(cells@, lo as int, i as int) =~= Seq::empty());
        } else {
            if skipping {
                text.push('\n');
                skipping = false;
                assert(text@ == so_far.push('\n'));
            }
            text.push(block.c);
            assert(text@ =~= so_far + piece(cells@, lo as int, i as int));
        }
        assert(text@ =~= text_between(cells@, lo as int, i as int) + piece(
            cells@,
            lo as int,
            i as int,
        ));
        i += 1;
    }
    text
}


/// A run of empty cells gives one line break however long it is: where the
/// cells from `run` up to `glyph` are all empty and the cell at `glyph` is
/// not, the text up to and including that cell is the text before the run,
/// one line break, and the glyph.
pub proof fn lemma_one_break_per_run(cells: Seq<Block>, start: int, run: int, glyph: int)
    requires
        start <= run < glyph < cells.len(),
        0 <= start,
        forall|i: int| run <= i < glyph ==> (#[trigger] cells[i]).c == '\0',
        cells[glyph].c != '\0',
    ensures
        text_between(cells, start, glyph + 1) == text_between(cells, start, run) + seq![
            '\n',
            cells[glyph].c,
        ],
{
    lemma_empty_cells_add_nothing(cells, start, run, glyph);
    assert(cells[glyph - 1].c == '\0');
    assert(piece(cells, start, glyph) =~= seq!['\n', cells[glyph].c]);
}

/// Empty cells add nothing to the text by themselves.
pub proof fn lemma_empty_cells_add_nothing(cells: Seq<Block>, start: int, run: int, end: int)
    requires
        start <= run <= end <= cells.len(),
        0 <= start,
        forall|i: int| run <= i < end ==> (#[trigger] cells[i]).c == '\0',
    ensures
        text_between(cells, start, end) == text_between(cells, start, run),
    decreases end - run,
{
    if run < end {
        lemma_empty_cells_add_nothing(cells, start, run, end - 1);
        assert(cells[end - 1].c == '\0');
        assert(piece(cells, start, end - 1) =~= Seq::<char>::empty());
        assert(text_between(cells, start, end) =~= text_between(cells, start, end - 1));
    }
}

/// A glyph that follows a glyph is added as it is, with nothing before it.
pub proof fn lemma_glyph_after_glyph(cells: Seq<Block>, start: int, glyph: int)
    requires
        0 <= start < glyph < cells.len(),
        cells[glyph - 1].c != '\0',
        cells[glyph].c != '\0',
    ensures
        text_between(cells, start, glyph + 1) == text_between(cells, start, glyph).push(
            cells[glyph].c,
        ),
{
    assert(piece(cells, start, glyph) =~= seq![cells[glyph].c]);
    assert(text_between(cells, start, glyph + 1) =~= text_between(cells, start, glyph).push(
        cells[glyph].c,
    ));
}

} // verus!
