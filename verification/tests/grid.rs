use orbterm::block::Block;
use orbterm::color::Argb;
use orbterm::grid::{clear_rect, extract_text, filled, put_char, reallocated, wipe};
use orbterm::region::{copy_within, move_rows, RowMove};
use orbterm::surface::{invert, move_region, INVERT_MASK};

const FG: Argb = Argb { data: 0xFF00_FF00 };
const BG: Argb = Argb { data: 0xFF00_0001 };

fn block(c: char) -> Block {
    Block { c, fg: FG, bg: BG, bold: false }
}

fn cells(text: &str) -> Vec<Block> {
    text.chars().map(block).collect()
}

fn glyphs(cells: &[Block]) -> String {
    cells.iter().map(|block| block.c).collect()
}

#[test]
fn with_alpha_joins_opacity_and_color() {
    assert_eq!(Argb::with_alpha(224, 0xFF12_3456), Argb { data: 0xE012_3456 });
    assert_eq!(Argb::with_alpha(0, 0xFFFF_FFFF), Argb { data: 0x00FF_FFFF });
    assert_eq!(Argb::with_alpha(255, 0), Argb { data: 0xFF00_0000 });
    assert_eq!(Argb::with_alpha(1, 0x0000_0001), Argb { data: 0x0100_0001 });
}

#[test]
fn empty_block_has_no_glyph() {
    assert_eq!(Block::empty(FG, BG), Block { c: '\0', fg: FG, bg: BG, bold: false });
}

#[test]
fn filled_makes_equal_cells() {
    assert_eq!(filled(3, block('x')), vec![block('x'); 3]);
    assert!(filled(0, block('x')).is_empty());
}

#[test]
fn put_char_changes_one_cell() {
    let mut grid = cells("abcdef");
    let ink = Argb { data: 7 };
    put_char(&mut grid, 3, 2, 1, 1, 'Z', ink, true);
    assert_eq!(glyphs(&grid), "abcdZf");
    assert_eq!(grid[4], Block { c: 'Z', fg: ink, bg: BG, bold: true });
    put_char(&mut grid, 3, 2, 2, 1, 'L', ink, false);
    assert_eq!(glyphs(&grid), "abcdZL");
}

#[test]
fn put_char_beyond_the_grid_is_dropped() {
    let mut grid = cells("abcdef");
    let ink = Argb { data: 7 };
    put_char(&mut grid, 3, 2, 3, 0, 'Q', ink, true);
    put_char(&mut grid, 3, 2, 4, 0, 'Q', ink, true);
    put_char(&mut grid, 3, 2, 0, 2, 'Q', ink, true);
    put_char(&mut grid, 3, 2, usize::MAX, 0, 'Q', ink, true);
    put_char(&mut grid, 3, 2, 1, usize::MAX, 'Q', ink, true);
    put_char(&mut grid, 0, 2, 0, 0, 'Q', ink, true);
    put_char(&mut grid, 3, 0, 0, 0, 'Q', ink, true);
    put_char(&mut grid, 3, 3, 0, 2, 'Q', ink, true);
    assert_eq!(glyphs(&grid), "abcdef");
}

#[test]
fn clear_rect_clears_the_covered_cells() {
    let mut grid = cells("abcdefghijkl");
    let back = Argb { data: 9 };
    clear_rect(&mut grid, 4, 3, 1, 1, 2, 2, back);
    assert_eq!(glyphs(&grid), "abcde\0\0hi\0\0l");
    assert_eq!(grid[5], Block { c: '\0', fg: FG, bg: back, bold: false });
    assert_eq!(grid[4].bg, BG);
    let mut grid = cells("abcdefghijkl");
    clear_rect(&mut grid, 4, 3, 0, 0, 0, 3, back);
    clear_rect(&mut grid, 4, 3, 0, 0, 4, 0, back);
    clear_rect(&mut grid, 4, 3, 0, 3, 4, 2, back);
    clear_rect(&mut grid, 4, 3, 4, 0, 4, 2, back);
    assert_eq!(glyphs(&grid), "abcdefghijkl");
}

#[test]
fn clear_rect_stops_at_the_edges_of_the_grid() {
    let back = Argb { data: 9 };
    let mut grid = cells("abcdefghijkl");
    clear_rect(&mut grid, 4, 3, 2, 0, 5, 2, back);
    assert_eq!(glyphs(&grid), "ab\0\0ef\0\0ijkl");
    let mut grid = cells("abcdefghijkl");
    clear_rect(&mut grid, 4, 3, 2, 2, usize::MAX, usize::MAX, back);
    assert_eq!(glyphs(&grid), "abcdefghij\0\0");
    let mut grid = cells("abcdefghijkl");
    clear_rect(&mut grid, 4, 3, 3, 1, 2, 1, back);
    assert_eq!(glyphs(&grid), "abcdefg\0ijkl");
    let mut grid = cells("abcdefghijkl");
    clear_rect(&mut grid, 4, 3, 0, 0, usize::MAX, usize::MAX, back);
    assert_eq!(glyphs(&grid), "\0".repeat(12));
}

#[test]
fn wipe_clears_every_cell() {
    let mut grid = cells("abc");
    let back = Argb { data: 5 };
    wipe(&mut grid, back);
    assert_eq!(grid, vec![Block { c: '\0', fg: FG, bg: back, bold: false }; 3]);
}

#[test]
fn reallocated_keeps_the_overlap() {
    let old = cells("abcdef");
    let fill = block('.');
    assert_eq!(glyphs(&reallocated(&old, 3, 2, 4, 3, fill)), "abc.def.....");
    assert_eq!(glyphs(&reallocated(&old, 3, 2, 2, 1, fill)), "ab");
    assert_eq!(glyphs(&reallocated(&old, 3, 2, 2, 3, fill)), "abde..");
    assert_eq!(glyphs(&reallocated(&old, 3, 2, 3, 2, fill)), "abcdef");
    assert_eq!(glyphs(&reallocated(&old, 3, 2, 0, 7, fill)), "");
    assert_eq!(glyphs(&reallocated(&Vec::new(), 0, 9, 2, 2, fill)), "....");
}

#[test]
fn extract_text_breaks_once_per_run() {
    let grid = cells("AB\0\0CD");
    assert_eq!(extract_text(&grid, 0, 6), "AB\nCD");
    assert_eq!(extract_text(&grid, 6, 0), "AB\nCD");
    assert_eq!(extract_text(&grid, 0, 100), "AB\nCD");
    assert_eq!(extract_text(&grid, 2, 6), "\nCD");
    assert_eq!(extract_text(&grid, 3, 6), "\nCD");
    assert_eq!(extract_text(&grid, 4, 6), "CD");
    assert_eq!(extract_text(&grid, 0, 4), "AB");
    assert_eq!(extract_text(&grid, 1, 5), "B\nC");
    assert_eq!(extract_text(&grid, 3, 3), "");
    assert_eq!(extract_text(&grid, 7, 9), "");
    assert_eq!(extract_text(&cells("\0\0\0"), 0, 3), "");
    assert_eq!(extract_text(&cells("\0a\0b\0\0\0c\0"), 0, 9), "\na\nb\nc");
    assert_eq!(extract_text(&cells("a b"), 0, 3), "a b");
}

#[test]
fn copy_within_handles_overlap_both_ways() {
    let mut forward: Vec<u32> = (0..10).collect();
    copy_within(&mut forward, 2, 0, 6);
    assert_eq!(forward, vec![2, 3, 4, 5, 6, 7, 6, 7, 8, 9]);
    let mut backward: Vec<u32> = (0..10).collect();
    copy_within(&mut backward, 0, 2, 6);
    assert_eq!(backward, vec![0, 1, 0, 1, 2, 3, 4, 5, 8, 9]);
    let mut same: Vec<u32> = (0..4).collect();
    copy_within(&mut same, 1, 1, 3);
    copy_within(&mut same, 4, 0, 0);
    assert_eq!(same, vec![0, 1, 2, 3]);
    for (from, to, len) in [(0usize, 3usize, 5usize), (3, 0, 5), (1, 2, 7), (2, 1, 7)] {
        let untouched: Vec<u32> = (0..10).collect();
        let mut ours = untouched.clone();
        copy_within(&mut ours, from, to, len);
        let mut theirs = untouched.clone();
        theirs.copy_within(from..from + len, to);
        assert_eq!(ours, theirs);
    }
}

fn moved_through_copy(buffer: &[u32], m: &RowMove) -> Vec<u32> {
    let source = buffer.to_vec();
    let mut target = buffer.to_vec();
    for y in 0..m.rows {
        for l in 0..m.sub {
            let from = ((m.from_y + y) * m.sub + l) * m.stride + m.from_x;
            let to = ((m.to_y + y) * m.sub + l) * m.stride + m.to_x;
            if from + m.len <= source.len() && to + m.len <= source.len() {
                target[to..to + m.len].copy_from_slice(&source[from..from + m.len]);
            }
        }
    }
    target
}

#[test]
fn move_rows_equals_copy_through_temporary() {
    let buffer: Vec<u32> = (0..12 * 20).collect();
    for sub in [1usize, 2, 3] {
        for (from_x, from_y, to_x, to_y) in
            [(0usize, 1usize, 0usize, 0usize), (0, 0, 0, 1), (2, 3, 5, 1), (5, 1, 2, 3), (1, 2, 4, 2), (4, 2, 1, 2), (3, 3, 3, 3)]
        {
            for rows in [0usize, 1, 2, 4, 9] {
                let m = RowMove { stride: 12, sub, from_x, from_y, to_x, to_y, len: 7, rows };
                let mut ours = buffer.clone();
                move_rows(&mut ours, &m);
                assert_eq!(ours, moved_through_copy(&buffer, &m), "{:?}", m);
            }
        }
    }
}

#[test]
fn move_rows_scrolls_a_small_grid() {
    let mut up: Vec<u32> = vec![1, 1, 2, 2, 3, 3, 4, 4];
    move_rows(
        &mut up,
        &RowMove { stride: 2, sub: 1, from_x: 0, from_y: 1, to_x: 0, to_y: 0, len: 2, rows: 3 },
    );
    assert_eq!(up, vec![2, 2, 3, 3, 4, 4, 4, 4]);
    let mut down: Vec<u32> = vec![1, 1, 2, 2, 3, 3, 4, 4];
    move_rows(
        &mut down,
        &RowMove { stride: 2, sub: 1, from_x: 0, from_y: 0, to_x: 0, to_y: 1, len: 2, rows: 3 },
    );
    assert_eq!(down, vec![1, 1, 1, 1, 2, 2, 3, 3]);
}

#[test]
fn move_rows_ignores_what_cannot_be_numbered() {
    let buffer: Vec<u32> = (0..16).collect();
    for m in [
        RowMove { stride: 4, sub: 1, from_x: 0, from_y: usize::MAX, to_x: 0, to_y: 0, len: 4, rows: 2 },
        RowMove { stride: usize::MAX, sub: 1, from_x: 0, from_y: 1, to_x: 0, to_y: 0, len: 4, rows: 2 },
        RowMove { stride: 4, sub: usize::MAX, from_x: 0, from_y: 1, to_x: 0, to_y: 1, len: 4, rows: 0 },
        RowMove { stride: 4, sub: 1, from_x: 0, from_y: 1, to_x: 0, to_y: 0, len: usize::MAX, rows: 2 },
        RowMove { stride: 4, sub: 1, from_x: usize::MAX, from_y: 1, to_x: 0, to_y: 0, len: 4, rows: 2 },
    ] {
        let mut ours = buffer.clone();
        move_rows(&mut ours, &m);
        assert_eq!(ours, buffer, "{:?}", m);
    }
    let mut all_rows_on_one_line = buffer.clone();
    move_rows(
        &mut all_rows_on_one_line,
        &RowMove { stride: 0, sub: 1, from_x: 4, from_y: usize::MAX, to_x: 0, to_y: 7, len: 2, rows: 1 },
    );
    assert_eq!(all_rows_on_one_line[0..4], [4, 5, 2, 3]);
}

#[test]
fn invert_flips_the_colors_of_a_rectangle() {
    let width = 6;
    let height = 5;
    let untouched: Vec<u32> = (0..30).map(|i| 0xE000_0000 | (i * 0x01_0203)).collect();
    let mut pixels = untouched.clone();
    invert(&mut pixels, width, height, 1, 2, 3, 2);
    for y in 0..height {
        for x in 0..width {
            let i = y * width + x;
            let inside = (1..4).contains(&x) && (2..4).contains(&y);
            let expected = if inside { untouched[i] ^ 0x00FF_FFFF } else { untouched[i] };
            assert_eq!(pixels[i], expected, "pixel {} {}", x, y);
        }
    }
    assert_eq!(pixels[2 * width + 1] >> 24, 0xE0);
    invert(&mut pixels, width, height, 1, 2, 3, 2);
    assert_eq!(pixels, untouched);
    assert_eq!(INVERT_MASK, 0x00FF_FFFF);
}

#[test]
fn invert_reaches_the_last_column_and_row() {
    let untouched: Vec<u32> = vec![0; 20];
    let mut pixels = untouched.clone();
    invert(&mut pixels, 5, 4, 3, 2, 10, 10);
    let mut expected = untouched.clone();
    for (x, y) in [(3, 2), (4, 2), (3, 3), (4, 3)] {
        expected[y * 5 + x] = 0x00FF_FFFF;
    }
    assert_eq!(pixels, expected);
    let mut pixels = untouched.clone();
    invert(&mut pixels, 5, 4, 4, 3, 1, 1);
    let mut expected = untouched.clone();
    expected[19] = 0x00FF_FFFF;
    assert_eq!(pixels, expected);
    let mut pixels = untouched.clone();
    invert(&mut pixels, 5, 4, 5, 0, 1, 4);
    invert(&mut pixels, 5, 4, 0, 4, 5, 1);
    invert(&mut pixels, 5, 4, 9, 9, 2, 2);
    invert(&mut pixels, 5, 4, 0, 0, 0, 4);
    invert(&mut pixels, 5, 4, 0, 0, 5, 0);
    invert(&mut pixels, 5, 4, usize::MAX, usize::MAX, usize::MAX, usize::MAX);
    assert_eq!(pixels, untouched);
    let mut pixels = untouched.clone();
    invert(&mut pixels, 5, 4, 0, 0, usize::MAX, usize::MAX);
    assert_eq!(pixels, vec![0x00FF_FFFF; 20]);
    let mut nothing: Vec<u32> = Vec::new();
    invert(&mut nothing, 0, 0, 0, 0, 3, 3);
    invert(&mut nothing, 0, 7, 0, 0, 3, 3);
    assert!(nothing.is_empty());
}

#[test]
fn move_region_moves_whole_cells_of_pixels() {
    let width = 8;
    let untouched: Vec<u32> = (0..8 * 9).collect();
    let mut pixels = untouched.clone();
    move_region(&mut pixels, width, 2, 3, 0, 1, 0, 0, 4, 2);
    let mut expected = untouched.clone();
    for line in 0..6 {
        for x in 0..8 {
            expected[line * width + x] = untouched[(line + 3) * width + x];
        }
    }
    assert_eq!(pixels, expected);
    let mut pixels = untouched.clone();
    move_region(&mut pixels, width, 2, 3, 1, 0, 2, 1, 2, 2);
    let mut expected = untouched.clone();
    for line in 0..6 {
        for x in 0..4 {
            expected[(line + 3) * width + 4 + x] = untouched[line * width + 2 + x];
        }
    }
    assert_eq!(pixels, expected);
    let mut pixels = untouched.clone();
    move_region(&mut pixels, width, usize::MAX, 3, 1, 0, 2, 1, 2, 2);
    assert_eq!(pixels, untouched);
}
