use vstd::prelude::*;
use crate::grid::{
    cell_count, side, cell_index, in_range, put, lemma_sizes, all_valid, SAND, AIR,
};

verus! {

/// Radius of the circular brush, in cells.
pub const BRUSH_RADIUS: i16 = 8;

/// The offset (dx, dy) lies in the brush: both in [-R, R) and strictly inside the circle.
pub open spec fn in_brush(dx: int, dy: int) -> bool {
    -8 <= dx < 8 && -8 <= dy < 8 && dx * dx + dy * dy < 64
}

/// The column of the cell with row-major index `i`.
pub open spec fn col_of(i: int) -> int {
    i % side()
}

/// The row of the cell with row-major index `i`.
pub open spec fn row_of(i: int) -> int {
    i / side()
}

/// The brush offsets visited before (rx, ry) in row-major order.
pub open spec fn visited_before(dx: int, dy: int, rx: int, ry: int) -> bool {
    dy < ry || (dy == ry && dx < rx)
}

/// The cells of `c` with the brush offsets visited before (rx, ry) around (cx, cy) set
/// to the low bits of `v`.
pub open spec fn paint_upto(c: Seq<u8>, cx: int, cy: int, v: u8, rx: int, ry: int) -> Seq<u8> {
    Seq::new(
        c.len(),
        |i: int|
            {
                let dx = col_of(i) - cx;
                let dy = row_of(i) - cy;
                if in_brush(dx, dy) && visited_before(dx, dy, rx, ry) {
                    (v % 4) as u8
                } else {
                    c[i]
                }
            },
    )
}

/// The cells of `c` with the filled disk of radius R around (cx, cy) set to the low bits
/// of `v`; the disk's cells outside the chunk are dropped.
pub open spec fn paint(c: Seq<u8>, cx: int, cy: int, v: u8) -> Seq<u8> {
    Seq::new(
        c.len(),
        |i: int|
            if in_brush(col_of(i) - cx, row_of(i) - cy) {
                (v % 4) as u8
            } else {
                c[i]
            },
    )
}

pub proof fn lemma_paint_start(c: Seq<u8>, cx: int, cy: int, v: u8)
    ensures
        paint_upto(c, cx, cy, v, -8, -8) =~= c,
{
}

pub proof fn lemma_paint_end(c: Seq<u8>, cx: int, cy: int, v: u8)
    ensures
        paint_upto(c, cx, cy, v, -8, 8) =~= paint(c, cx, cy, v),
{
}

pub proof fn lemma_paint_next_row(c: Seq<u8>, cx: int, cy: int, v: u8, ry: int)
    ensures
        paint_upto(c, cx, cy, v, 8, ry) =~= paint_upto(c, cx, cy, v, -8, ry + 1),
{
}

/// Visiting one more brush offset: painting it when it is in the brush.
pub proof fn lemma_paint_step(c: Seq<u8>, cx: int, cy: int, v: u8, rx: int, ry: int)
    requires
        c.len() == cell_count(),
    ensures
        in_brush(rx, ry) ==> put(paint_upto(c, cx, cy, v, rx, ry), cx + rx, cy + ry, v)
            =~= paint_upto(c, cx, cy, v, rx + 1, ry),
        !in_brush(rx, ry) ==> paint_upto(c, cx, cy, v, rx, ry) =~= paint_upto(
            c,
            cx,
            cy,
            v,
            rx + 1,
            ry,
        ),
{
    lemma_sizes();
    let p = paint_upto(c, cx, cy, v, rx, ry);
    let q = paint_upto(c, cx, cy, v, rx + 1, ry);
    assert forall|i: int| 0 <= i < c.len() implies #[trigger] q[i] == if col_of(i) - cx == rx
        && row_of(i) - cy == ry && in_brush(rx, ry) {
        (v % 4) as u8
    } else {
        p[i]
    } by {}
    if in_brush(rx, ry) {
        let x = cx + rx;
        let y = cy + ry;
        if in_range(x, y) {
            assert forall|i: int| 0 <= i < c.len() implies (col_of(i) == x && row_of(i) == y)
                <==> i == cell_index(x, y) by {
                assert(i == row_of(i) * 160 + col_of(i));
            }
        } else {
            assert forall|i: int| 0 <= i < c.len() implies !(col_of(i) == x && row_of(i) == y) by {
                assert(0 <= col_of(i) < 160);
                assert(0 <= row_of(i) < 160);
            }
        }
    }
}

/// Mouse button flag that paints sand.
pub const MOUSE_LEFT: u8 = 1;

/// Mouse button flag that erases to air.
pub const MOUSE_RIGHT: u8 = 2;

/// What one frame's input does to the cells: with the pointer inside the chunk, the
/// primary button paints sand, else the secondary button paints air; otherwise nothing.
pub open spec fn apply_input(c: Seq<u8>, mouse: u8, mouse_x: int, mouse_y: int) -> Seq<u8> {
    if !in_range(mouse_x, mouse_y) {
        c
    } else if mouse & MOUSE_LEFT != 0 {
        paint(c, mouse_x, mouse_y, SAND)
    } else if mouse & MOUSE_RIGHT != 0 {
        paint(c, mouse_x, mouse_y, AIR)
    } else {
        c
    }
}

/// Painting a code of the table keeps every cell in the table.
pub proof fn lemma_paint_valid(c: Seq<u8>, cx: int, cy: int, v: u8)
    requires
        all_valid(c),
        v < 3,
    ensures
        paint(c, cx, cy, v).len() == c.len(),
        all_valid(paint(c, cx, cy, v)),
{
}

pub proof fn lemma_input_valid(c: Seq<u8>, mouse: u8, mouse_x: int, mouse_y: int)
    requires
        all_valid(c),
    ensures
        apply_input(c, mouse, mouse_x, mouse_y).len() == c.len(),
        all_valid(apply_input(c, mouse, mouse_x, mouse_y)),
{
    lemma_paint_valid(c, mouse_x, mouse_y, SAND);
    lemma_paint_valid(c, mouse_x, mouse_y, AIR);
}

} // verus!
