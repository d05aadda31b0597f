use vstd::prelude::*;

verus! {

/// Side length of the square chunk, in cells.
pub const CHUNK_SIZE: usize = 160;

/// Number of bytes of the packed chunk bitmap: 2 bits per cell, 4 cells per byte.
pub const CHUNK_BITMAP_LENGTH: usize = 6400;

/// Number of cells of the chunk.
pub const CHUNK_CELLS: usize = 25600;

pub const AIR: u8 = 0;

pub const SAND: u8 = 1;

pub const WALL: u8 = 2;

pub open spec fn side() -> int {
    CHUNK_SIZE as int
}

pub open spec fn cell_count() -> int {
    CHUNK_CELLS as int
}

pub open spec fn in_range(x: int, y: int) -> bool {
    0 <= x < side() && 0 <= y < side()
}

/// Index of the cell (x, y) in row-major order.
pub open spec fn cell_index(x: int, y: int) -> int {
    y * side() + x
}

/// The 2-bit code held in slot `k` (0..4) of a packed byte; slot 0 is the low bits.
pub open spec fn slot(b: u8, k: u8) -> u8 {
    (b >> (2 * k) as u8) & 3u8
}

/// The cell codes that a packed bitmap holds, one per cell in row-major order.
pub open spec fn cells_of(bytes: Seq<u8>) -> Seq<u8> {
    Seq::new(cell_count() as nat, |i: int| slot(bytes[i / 4], (i % 4) as u8))
}

/// What reading (x, y) yields: the stored code inside the chunk, a wall outside it.
pub open spec fn cell_at(c: Seq<u8>, x: int, y: int) -> u8 {
    if in_range(x, y) {
        c[cell_index(x, y)]
    } else {
        WALL
    }
}

/// Writing the low two bits of `v` at (x, y); nothing changes outside the chunk.
pub open spec fn put(c: Seq<u8>, x: int, y: int, v: u8) -> Seq<u8> {
    if in_range(x, y) {
        c.update(cell_index(x, y), (v % 4) as u8)
    } else {
        c
    }
}

/// Every cell holds a code of the particle table.
pub open spec fn all_valid(c: Seq<u8>) -> bool {
    forall|i: int| 0 <= i < c.len() ==> #[trigger] c[i] < 3
}

/// Replacing the slot `k` of `b` by the low bits of `v`, as a mask and shift.
pub open spec fn with_slot(b: u8, k: u8, v: u8) -> u8 {
    ((v & 3u8) << (2 * k) as u8) | (b & !(3u8 << (2 * k) as u8))
}

pub proof fn lemma_with_slot(b: u8, k: u8, v: u8, j: u8)
    requires
        k < 4,
        j < 4,
    ensures
        slot(with_slot(b, k, v), j) == if j == k {
            v & 3u8
        } else {
            slot(b, j)
        },
{
    assert(j == k ==> ((((v & 3u8) << (2 * k) as u8) | (b & !(3u8 << (2 * k) as u8))) >> (2
        * j) as u8) & 3u8 == v & 3u8) by (bit_vector)
        requires
            k < 4,
            j < 4,
    ;
    assert(j != k ==> ((((v & 3u8) << (2 * k) as u8) | (b & !(3u8 << (2 * k) as u8))) >> (2
        * j) as u8) & 3u8 == (b >> (2 * j) as u8) & 3u8) by (bit_vector)
        requires
            k < 4,
            j < 4,
    ;
}

pub proof fn lemma_slot_valid(b: u8, k: u8)
    ensures
        slot(b, k) < 4,
{
    assert((b >> (2 * k) as u8) & 3u8 < 4) by (bit_vector);
}

pub proof fn lemma_sizes()
    ensures
        side() == 160,
        side() * side() == cell_count(),
{
    assert(160 * 160 == 25600) by (nonlinear_arith);
}

pub proof fn lemma_zero_slot(k: u8)
    ensures
        slot(0u8, k) == 0,
{
    assert((0u8 >> (2 * k) as u8) & 3u8 == 0) by (bit_vector);
}

/// Writing one slot of one byte changes exactly the one cell that it holds.
pub proof fn lemma_write_cell(bytes: Seq<u8>, x: int, y: int, v: u8)
    requires
        bytes.len() == CHUNK_BITMAP_LENGTH,
        in_range(x, y),
    ensures
        ({
            let i = cell_index(x, y) / 4;
            let k = (x % 4) as u8;
            cells_of(bytes.update(i, with_slot(bytes[i], k, v))) =~= put(
                cells_of(bytes),
                x,
                y,
                v,
            )
        }),
{
    let i = cell_index(x, y) / 4;
    let k = (x % 4) as u8;
    lemma_index_in_bounds(x, y);
    assert(v & 3u8 == v % 4) by (bit_vector);
    let nb = bytes.update(i, with_slot(bytes[i], k, v));
    assert forall|j: int| 0 <= j < cell_count() implies #[trigger] cells_of(nb)[j] == put(
        cells_of(bytes),
        x,
        y,
        v,
    )[j] by {
        if j / 4 == i {
            lemma_with_slot(bytes[i], k, v, (j % 4) as u8);
        }
    }
}

/// Reading back an in-range cell after writing it yields the written code modulo 4;
/// reading any other place yields what it held before; a write off the chunk changes
/// nothing.
pub proof fn lemma_put_then_get(c: Seq<u8>, x: int, y: int, v: u8, a: int, b: int)
    requires
        c.len() == cell_count(),
    ensures
        in_range(x, y) ==> cell_at(put(c, x, y, v), x, y) == v % 4,
        in_range(x, y) ==> cell_at(put(c, x, y, v), x, y) == v & 3u8,
        (a != x || b != y) ==> cell_at(put(c, x, y, v), a, b) == cell_at(c, a, b),
        !in_range(x, y) ==> put(c, x, y, v) == c,
{
    assert(v & 3u8 == v % 4) by (bit_vector);
    if in_range(x, y) {
        lemma_index_in_bounds(x, y);
    }
    if in_range(a, b) {
        lemma_index_in_bounds(a, b);
    }
    if in_range(a, b) && in_range(x, y) && (a != x || b != y) {
        lemma_index_injective(a, b, x, y);
    }
}

pub proof fn lemma_index_in_bounds(x: int, y: int)
    requires
        in_range(x, y),
    ensures
        0 <= cell_index(x, y) < cell_count(),
        cell_index(x, y) % 4 == x % 4,
        cell_index(x, y) / 4 < CHUNK_BITMAP_LENGTH,
{
    assert(0 <= y * 160 + x < 25600) by (nonlinear_arith)
        requires
            0 <= x < 160,
            0 <= y < 160,
    ;
    assert((y * 160 + x) % 4 == x % 4) by (nonlinear_arith)
        requires
            0 <= x < 160,
            0 <= y < 160,
    ;
}

pub proof fn lemma_index_injective(a: int, b: int, x: int, y: int)
    requires
        in_range(a, b),
        in_range(x, y),
        a != x || b != y,
    ensures
        cell_index(a, b) != cell_index(x, y),
{
    assert(b * 160 + a != y * 160 + x) by (nonlinear_arith)
        requires
            0 <= a < 160,
            0 <= x < 160,
            a != x || b != y,
    ;
}

} // verus!
