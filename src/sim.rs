use vstd::prelude::*;
use crate::grid::{
    cell_count, cell_at, put, side, all_valid, in_range, cell_index, lemma_index_in_bounds,
    lemma_index_injective, lemma_sizes, AIR, SAND, WALL,
};
use crate::particle::particle_spec;

verus! {

/// Moving the particle `v` from (x, y) to (tx, ty): the source becomes air.
pub open spec fn moved(c: Seq<u8>, x: int, y: int, tx: int, ty: int, v: u8) -> Seq<u8> {
    put(put(c, x, y, AIR), tx, ty, v)
}

/// The gravity rule applied to the one cell (x, y): straight down if that is air, else
/// the preferred diagonal, else the other diagonal, else no move.
pub open spec fn update_cell(c: Seq<u8>, x: int, y: int, prefer_right: bool) -> Seq<u8> {
    let t = particle_spec(cell_at(c, x, y));
    let d: int = if prefer_right {
        1
    } else {
        -1
    };
    if !t.has_gravity {
        c
    } else if cell_at(c, x, y + 1) == AIR {
        moved(c, x, y, x, y + 1, t.color)
    } else if cell_at(c, x + d, y + 1) == AIR {
        moved(c, x, y, x + d, y + 1, t.color)
    } else if cell_at(c, x - d, y + 1) == AIR {
        moved(c, x, y, x - d, y + 1, t.color)
    } else {
        c
    }
}

/// The `i`-th column visited in a row: left to right when the tick prefers the right.
pub open spec fn column(i: int, prefer_right: bool) -> int {
    if prefer_right {
        i
    } else {
        side() - 1 - i
    }
}

/// Row `y` after its first `k` visited cells have been updated in order.
pub open spec fn sweep_row(c: Seq<u8>, y: int, k: nat, prefer_right: bool) -> Seq<u8>
    decreases k,
{
    if k == 0 {
        c
    } else {
        update_cell(
            sweep_row(c, y, (k - 1) as nat, prefer_right),
            column(k - 1, prefer_right),
            y,
            prefer_right,
        )
    }
}

/// The chunk after its `k` bottom rows have been swept, lowest row first.
pub open spec fn sweep_rows(c: Seq<u8>, k: nat, prefer_right: bool) -> Seq<u8>
    decreases k,
{
    if k == 0 {
        c
    } else {
        sweep_row(
            sweep_rows(c, (k - 1) as nat, prefer_right),
            side() - k,
            side() as nat,
            prefer_right,
        )
    }
}

/// One simulation step: every row swept from the bottom up.
pub open spec fn tick(c: Seq<u8>, prefer_right: bool) -> Seq<u8> {
    sweep_rows(c, side() as nat, prefer_right)
}

/// The direction that tick number `frame` prefers: right on even ticks.
pub open spec fn prefers_right_at(frame: int) -> bool {
    frame % 2 == 0
}

pub proof fn lemma_small_code(v: u8)
    requires
        v < 3,
    ensures
        v % 4 == v,
{
}

pub proof fn lemma_put_valid(c: Seq<u8>, x: int, y: int, v: u8)
    requires
        c.len() == cell_count(),
        all_valid(c),
        v % 4 < 3,
    ensures
        put(c, x, y, v).len() == c.len(),
        all_valid(put(c, x, y, v)),
{
    if in_range(x, y) {
        lemma_index_in_bounds(x, y);
    }
}

/// Updating a cell keeps every code in the table.
pub proof fn lemma_update_cell_valid(c: Seq<u8>, x: int, y: int, prefer_right: bool)
    requires
        c.len() == cell_count(),
        all_valid(c),
    ensures
        update_cell(c, x, y, prefer_right).len() == c.len(),
        all_valid(update_cell(c, x, y, prefer_right)),
{
    let t = particle_spec(cell_at(c, x, y));
    lemma_small_code(AIR);
    lemma_small_code(t.color);
    lemma_put_valid(c, x, y, AIR);
    let c1 = put(c, x, y, AIR);
    lemma_put_valid(c1, x, y + 1, t.color);
    lemma_put_valid(c1, x + 1, y + 1, t.color);
    lemma_put_valid(c1, x - 1, y + 1, t.color);
}

pub proof fn lemma_sweep_row_valid(c: Seq<u8>, y: int, k: nat, prefer_right: bool)
    requires
        c.len() == cell_count(),
        all_valid(c),
    ensures
        sweep_row(c, y, k, prefer_right).len() == c.len(),
        all_valid(sweep_row(c, y, k, prefer_right)),
    decreases k,
{
    if k > 0 {
        lemma_sweep_row_valid(c, y, (k - 1) as nat, prefer_right);
        lemma_update_cell_valid(
            sweep_row(c, y, (k - 1) as nat, prefer_right),
            column(k - 1, prefer_right),
            y,
            prefer_right,
        );
    }
}

pub proof fn lemma_sweep_rows_valid(c: Seq<u8>, k: nat, prefer_right: bool)
    requires
        c.len() == cell_count(),
        all_valid(c),
    ensures
        sweep_rows(c, k, prefer_right).len() == c.len(),
        all_valid(sweep_rows(c, k, prefer_right)),
    decreases k,
{
    if k > 0 {
        lemma_sweep_rows_valid(c, (k - 1) as nat, prefer_right);
        lemma_sweep_row_valid(
            sweep_rows(c, (k - 1) as nat, prefer_right),
            side() - k,
            side() as nat,
            prefer_right,
        );
    }
}

/// A chunk that is all air but for one grain of sand at (x, y).
pub open spec fn lone_grain(x: int, y: int) -> Seq<u8> {
    Seq::new(
        cell_count() as nat,
        |i: int|
            if i == cell_index(x, y) {
                SAND
            } else {
                AIR
            },
    )
}

proof fn lemma_lone_grain_at(x0: int, y0: int, x: int, y: int)
    requires
        in_range(x0, y0),
    ensures
        cell_at(lone_grain(x0, y0), x, y) == if x == x0 && y == y0 {
            SAND
        } else if in_range(x, y) {
            AIR
        } else {
            WALL
        },
{
    lemma_index_in_bounds(x0, y0);
    if in_range(x, y) {
        lemma_index_in_bounds(x, y);
        if x != x0 || y != y0 {
            lemma_index_injective(x, y, x0, y0);
        }
    }
}

proof fn lemma_update_still(c: Seq<u8>, x: int, y: int, prefer_right: bool)
    requires
        cell_at(c, x, y) != SAND,
    ensures
        update_cell(c, x, y, prefer_right) == c,
{
}

/// Visiting the cells of row `y` from the `lo`-th to the `k`-th changes nothing when each
/// of them is left as it is by its own update.
proof fn lemma_row_still(c: Seq<u8>, y: int, lo: nat, k: nat, prefer_right: bool)
    requires
        lo <= k,
        forall|i: int|
            lo <= i < k ==> update_cell(
                sweep_row(c, y, lo, prefer_right),
                #[trigger] column(i, prefer_right),
                y,
                prefer_right,
            ) == sweep_row(c, y, lo, prefer_right),
    ensures
        sweep_row(c, y, k, prefer_right) == sweep_row(c, y, lo, prefer_right),
    decreases k,
{
    if k > lo {
        lemma_row_still(c, y, lo, (k - 1) as nat, prefer_right);
    }
}

/// Sweeping rows that hold no sand, from the `lo`-th to the `k`-th, changes nothing.
proof fn lemma_rows_still(c: Seq<u8>, lo: nat, k: nat, prefer_right: bool)
    requires
        lo <= k <= side(),
        forall|x: int, y: int|
            side() - k <= y < side() - lo ==> #[trigger] cell_at(sweep_rows(c, lo, prefer_right), x, y)
                != SAND,
    ensures
        sweep_rows(c, k, prefer_right) == sweep_rows(c, lo, prefer_right),
    decreases k,
{
    if k > lo {
        lemma_rows_still(c, lo, (k - 1) as nat, prefer_right);
        let d = sweep_rows(c, lo, prefer_right);
        let y = side() - k;
        assert forall|i: int| 0 <= i < side() implies update_cell(
            sweep_row(d, y, 0, prefer_right),
            #[trigger] column(i, prefer_right),
            y,
            prefer_right,
        ) == sweep_row(d, y, 0, prefer_right) by {
            assert(cell_at(d, column(i, prefer_right), y) != SAND);
            lemma_update_still(d, column(i, prefer_right), y, prefer_right);
        }
        lemma_row_still(d, y, 0, side() as nat, prefer_right);
    }
}

/// A lone grain of sand falls exactly one row per tick; on the bottom row it stays put,
/// so from there on every tick leaves the chunk unchanged.
pub proof fn lemma_lone_grain_falls(x0: int, y0: int, prefer_right: bool)
    requires
        in_range(x0, y0),
    ensures
        y0 < side() - 1 ==> tick(lone_grain(x0, y0), prefer_right) == lone_grain(x0, y0 + 1),
        y0 == side() - 1 ==> tick(lone_grain(x0, y0), prefer_right) == lone_grain(x0, y0),
{
    lemma_sizes();
    let c = lone_grain(x0, y0);
    let pr = prefer_right;
    let below = (side() - 1 - y0) as nat;
    // the rows under the grain hold no sand
    assert forall|x: int, y: int|
        side() - below <= y < side() - 0 implies #[trigger] cell_at(sweep_rows(c, 0, pr), x, y)
        != SAND by {
        lemma_lone_grain_at(x0, y0, x, y);
    }
    lemma_rows_still(c, 0, below, pr);
    // the grain's row: air up to the grain's column, then the grain moves
    let p: nat = if pr {
        x0 as nat
    } else {
        (side() - 1 - x0) as nat
    };
    assert(column(p as int, pr) == x0);
    assert forall|i: int| 0 <= i < p implies update_cell(
        sweep_row(c, y0, 0, pr),
        #[trigger] column(i, pr),
        y0,
        pr,
    ) == sweep_row(c, y0, 0, pr) by {
        lemma_lone_grain_at(x0, y0, column(i, pr), y0);
        lemma_update_still(c, column(i, pr), y0, pr);
    }
    lemma_row_still(c, y0, 0, p, pr);
    lemma_lone_grain_at(x0, y0, x0, y0);
    lemma_lone_grain_at(x0, y0, x0, y0 + 1);
    lemma_lone_grain_at(x0, y0, x0 + 1, y0 + 1);
    lemma_lone_grain_at(x0, y0, x0 - 1, y0 + 1);
    let d = update_cell(c, x0, y0, pr);
    assert(sweep_row(c, y0, p + 1, pr) == d);
    let after: Seq<u8> = if y0 < side() - 1 {
        lone_grain(x0, y0 + 1)
    } else {
        c
    };
    if y0 < side() - 1 {
        lemma_small_code(AIR);
        lemma_small_code(SAND);
        lemma_index_in_bounds(x0, y0);
        lemma_index_in_bounds(x0, y0 + 1);
        assert(d =~= after);
    }
    assert(d == after);
    assert forall|i: int| p + 1 <= i < side() implies update_cell(
        sweep_row(c, y0, p + 1, pr),
        #[trigger] column(i, pr),
        y0,
        pr,
    ) == sweep_row(c, y0, p + 1, pr) by {
        if y0 < side() - 1 {
            lemma_lone_grain_at(x0, y0 + 1, column(i, pr), y0);
        } else {
            lemma_lone_grain_at(x0, y0, column(i, pr), y0);
        }
        lemma_update_still(after, column(i, pr), y0, pr);
    }
    lemma_row_still(c, y0, p + 1, side() as nat, pr);
    assert(sweep_rows(c, 0, pr) == c);
    assert(side() - (below + 1) == y0);
    assert(sweep_rows(c, below + 1, pr) == sweep_row(sweep_rows(c, below, pr), y0, side() as nat, pr));
    assert(sweep_rows(c, below + 1, pr) == after);
    // the rows above the grain hold no sand
    assert forall|x: int, y: int|
        side() - side() <= y < side() - (below + 1) implies #[trigger] cell_at(
        sweep_rows(c, below + 1, pr),
        x,
        y,
    ) != SAND by {
        if y0 < side() - 1 {
            lemma_lone_grain_at(x0, y0 + 1, x, y);
        } else {
            lemma_lone_grain_at(x0, y0, x, y);
        }
    }
    lemma_rows_still(c, below + 1, side() as nat, pr);
}

/// A chunk that is all air but for two grains of sand, at (x1, y1) and (x2, y2).
pub open spec fn two_grains(x1: int, y1: int, x2: int, y2: int) -> Seq<u8> {
    Seq::new(
        cell_count() as nat,
        |i: int|
            if i == cell_index(x1, y1) || i == cell_index(x2, y2) {
                SAND
            } else {
                AIR
            },
    )
}

proof fn lemma_two_grains_at(x1: int, y1: int, x2: int, y2: int, x: int, y: int)
    requires
        in_range(x1, y1),
        in_range(x2, y2),
    ensures
        cell_at(two_grains(x1, y1, x2, y2), x, y) == if (x == x1 && y == y1) || (x == x2 && y
            == y2) {
            SAND
        } else if in_range(x, y) {
            AIR
        } else {
            WALL
        },
{
    lemma_index_in_bounds(x1, y1);
    lemma_index_in_bounds(x2, y2);
    if in_range(x, y) {
        lemma_index_in_bounds(x, y);
        if x != x1 || y != y1 {
            lemma_index_injective(x, y, x1, y1);
        }
        if x != x2 || y != y2 {
            lemma_index_injective(x, y, x2, y2);
        }
    }
}

/// A grain resting on another grain on the bottom row slides down the preferred
/// diagonal: to the right on a tick that prefers the right, to the left otherwise, so
/// ticks of opposite parity give mirrored results.
pub proof fn lemma_stacked_grain_slides(x0: int, prefer_right: bool)
    requires
        0 < x0 < side() - 1,
    ensures
        tick(two_grains(x0, side() - 2, x0, side() - 1), prefer_right) == two_grains(
            x0,
            side() - 1,
            if prefer_right {
                x0 + 1
            } else {
                x0 - 1
            },
            side() - 1,
        ),
{
    lemma_sizes();
    let pr = prefer_right;
    let d: int = if pr {
        1
    } else {
        -1
    };
    let c = two_grains(x0, 158, x0, 159);
    let r = two_grains(x0, 159, x0 + d, 159);
    // the bottom row: the lower grain cannot move
    assert forall|i: int| 0 <= i < side() implies update_cell(
        sweep_row(c, 159, 0, pr),
        #[trigger] column(i, pr),
        159,
        pr,
    ) == sweep_row(c, 159, 0, pr) by {
        lemma_two_grains_at(x0, 158, x0, 159, column(i, pr), 159);
    }
    lemma_row_still(c, 159, 0, side() as nat, pr);
    assert(sweep_rows(c, 0, pr) == c);
    assert(sweep_rows(c, 1, pr) == c);
    // the row above: the upper grain slides down the preferred diagonal
    let p: nat = if pr {
        x0 as nat
    } else {
        (side() - 1 - x0) as nat
    };
    assert(column(p as int, pr) == x0);
    assert forall|i: int| 0 <= i < p implies update_cell(
        sweep_row(c, 158, 0, pr),
        #[trigger] column(i, pr),
        158,
        pr,
    ) == sweep_row(c, 158, 0, pr) by {
        lemma_two_grains_at(x0, 158, x0, 159, column(i, pr), 158);
    }
    lemma_row_still(c, 158, 0, p, pr);
    lemma_two_grains_at(x0, 158, x0, 159, x0, 158);
    lemma_two_grains_at(x0, 158, x0, 159, x0, 159);
    lemma_two_grains_at(x0, 158, x0, 159, x0 + d, 159);
    lemma_small_code(AIR);
    lemma_small_code(SAND);
    lemma_index_in_bounds(x0, 158);
    lemma_index_in_bounds(x0, 159);
    lemma_index_in_bounds(x0 + d, 159);
    assert(update_cell(c, x0, 158, pr) == moved(c, x0, 158, x0 + d, 159, SAND));
    assert(moved(c, x0, 158, x0 + d, 159, SAND) =~= r);
    assert(sweep_row(c, 158, p + 1, pr) == r);
    assert forall|i: int| p + 1 <= i < side() implies update_cell(
        sweep_row(c, 158, p + 1, pr),
        #[trigger] column(i, pr),
        158,
        pr,
    ) == sweep_row(c, 158, p + 1, pr) by {
        lemma_two_grains_at(x0, 159, x0 + d, 159, column(i, pr), 158);
        lemma_update_still(r, column(i, pr), 158, pr);
    }
    lemma_row_still(c, 158, p + 1, side() as nat, pr);
    assert(sweep_rows(c, 2, pr) == r);
    // the rows above hold no sand
    assert forall|x: int, y: int|
        side() - side() <= y < side() - 2 implies #[trigger] cell_at(sweep_rows(c, 2, pr), x, y)
        != SAND by {
        lemma_two_grains_at(x0, 159, x0 + d, 159, x, y);
    }
    lemma_rows_still(c, 2, side() as nat, pr);
}

} // verus!
