use grainx::raster::rasterize_polyline;
use grainx::rendering::{AdvancedCanvas, DrawOp, Rect, BRAILLE_BASE};

fn glyphs(ops: &[DrawOp]) -> Vec<u32> {
    ops.iter()
        .filter_map(|op| match op {
            DrawOp::Glyph(g) => Some(*g - BRAILLE_BASE),
            _ => None,
        })
        .collect()
}

#[test]
fn diagonal_line_dot_count() {
    let mut canvas = AdvancedCanvas::new();
    let rect = Rect { x: 0, y: 0, width: 10, height: 10 };
    canvas.draw_braille_line(&[(0, 0), (3000, 3000)], &rect);
    let ops = canvas.take_ops();
    assert_eq!(ops.len(), 200);
    let dots: u32 = glyphs(&ops).iter().map(|g| g.count_ones()).sum();
    assert_eq!(dots, 4);
    // Cells (0,0), (1,1), (2,2) and (3,3) each hold their top-left dot.
    assert_eq!(ops[0], DrawOp::MoveTo(0, 0));
    assert_eq!(ops[1], DrawOp::Glyph(BRAILLE_BASE + 0x01));
    let cell_1_1 = 2 * (10 + 1);
    assert_eq!(ops[cell_1_1], DrawOp::MoveTo(1, 1));
    assert_eq!(ops[cell_1_1 + 1], DrawOp::Glyph(BRAILLE_BASE + 0x01));
}

#[test]
fn rasterized_grid_is_column_major() {
    let grid = rasterize_polyline(&[(0, 0), (2000, 0)], 6, 4);
    let lit: Vec<usize> = (0..grid.len()).filter(|i| grid[*i]).collect();
    // Dots (0,0), (2,0), (4,0): index gx * 4 + gy.
    assert_eq!(lit, vec![0, 8, 16]);
}

#[test]
fn half_cells_round_away_from_zero() {
    // x = 0.25 cell is dot column 0.5, which rounds to 1; y = 0.125 cell is dot row 0.5 -> 1.
    let grid = rasterize_polyline(&[(250, 125), (250, 125)], 4, 4);
    let lit: Vec<usize> = (0..grid.len()).filter(|i| grid[*i]).collect();
    assert_eq!(lit, vec![1 * 4 + 1]);
}

#[test]
fn points_outside_are_dropped() {
    let grid = rasterize_polyline(&[(-1000, 0), (5000, 0)], 4, 4);
    let lit: Vec<usize> = (0..grid.len()).filter(|i| grid[*i]).collect();
    // Only the steps at x = 0 and x = 1 land inside the four dot columns.
    assert_eq!(lit, vec![0, 8]);
}

#[test]
fn fewer_than_two_points_draw_nothing() {
    let mut canvas = AdvancedCanvas::new();
    let rect = Rect { x: 0, y: 0, width: 3, height: 2 };
    canvas.draw_braille_line(&[], &rect);
    canvas.draw_braille_line(&[(1000, 1000)], &rect);
    assert!(canvas.take_ops().is_empty());
}

#[test]
fn segment_starts_light_their_own_dots() {
    let mut canvas = AdvancedCanvas::new();
    let rect = Rect { x: 0, y: 0, width: 1, height: 1 };
    // Each walk moves a whole cell per step, so inside one cell only the segment starts
    // are drawn: dots 1 (top left), 7 (bottom left) and 8 (bottom right).
    canvas.draw_braille_line(&[(0, 0), (0, 750), (500, 750), (500, 0)], &rect);
    assert_eq!(glyphs(&canvas.take_ops()), vec![0x01 | 0x40 | 0x80]);
    // Dots 1, 2 and 3 down the left column.
    canvas.draw_braille_line(&[(0, 0), (0, 250), (0, 500), (0, 750)], &rect);
    assert_eq!(glyphs(&canvas.take_ops()), vec![0x01 | 0x02 | 0x04]);
    // Dots 4, 5 and 6 down the right column.
    canvas.draw_braille_line(&[(500, 0), (500, 250), (500, 500), (500, 750)], &rect);
    assert_eq!(glyphs(&canvas.take_ops()), vec![0x08 | 0x10 | 0x20]);
}

#[test]
fn text_is_drawn_line_by_line_and_clipped() {
    let mut canvas = AdvancedCanvas::new();
    let rect = Rect { x: 2, y: 3, width: 4, height: 2 };
    canvas.draw_text_in_rect("ab\r\ncd\nlonger line\nx", &rect, 0);
    assert_eq!(
        canvas.take_ops(),
        vec![
            DrawOp::MoveTo(2, 3),
            DrawOp::Text("ab".to_string()),
            DrawOp::Text("  ".to_string()),
            DrawOp::MoveTo(2, 4),
            DrawOp::Text("cd".to_string()),
            DrawOp::Text("  ".to_string()),
        ]
    );
}

#[test]
fn text_is_padded_by_utf8_bytes() {
    let mut canvas = AdvancedCanvas::new();
    let rect = Rect { x: 65_000, y: 0, width: 5, height: 1 };
    // "é" takes two bytes, so two more fill the five.
    canvas.draw_text_in_rect("aé", &rect, 0);
    assert_eq!(
        canvas.take_ops(),
        vec![
            DrawOp::MoveTo(65_000, 0),
            DrawOp::Text("aé".to_string()),
            DrawOp::Text("  ".to_string()),
        ]
    );
}

#[test]
fn text_offset_and_long_lines() {
    let mut canvas = AdvancedCanvas::new();
    let rect = Rect { x: 0, y: 0, width: 3, height: 3 };
    canvas.draw_text_in_rect("abcdef\nz\n", &rect, 1);
    assert_eq!(
        canvas.take_ops(),
        vec![
            DrawOp::MoveTo(0, 1),
            DrawOp::Text("abcdef".to_string()),
            DrawOp::MoveTo(0, 2),
            DrawOp::Text("z".to_string()),
            DrawOp::Text("  ".to_string()),
        ]
    );
    canvas.set_color(255, 0, 0);
    canvas.set_cursor(5, 6);
    canvas.draw_str("hi");
    assert_eq!(
        canvas.take_ops(),
        vec![DrawOp::SetColor(255, 0, 0), DrawOp::MoveTo(5, 6), DrawOp::Text("hi".to_string())]
    );
}
