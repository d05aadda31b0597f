use vstd::prelude::*;
use crate::particle::{ParticleType, particle_type};
use crate::sim::{
    moved, update_cell, sweep_row, sweep_rows, tick, prefers_right_at,
    lemma_put_valid, lemma_sweep_row_valid, lemma_sweep_rows_valid,
};
use crate::brush::{
    paint, paint_upto, lemma_paint_start, lemma_paint_end, lemma_paint_next_row,
    lemma_paint_step, lemma_input_valid, apply_input, BRUSH_RADIUS, MOUSE_LEFT, MOUSE_RIGHT,
};
use crate::present::{
    blit, blit_upto, blit_written, visible_span, clamp_start, lemma_blit_full_screen,
    SCREEN_SIZE, SCREEN_ROW_BYTES, FRAMEBUFFER_LENGTH,
};
use vstd::arithmetic::div_mod::lemma_fundamental_div_mod_converse;
use crate::grid::{
    cell_count, cells_of, cell_at, put, all_valid, in_range, side, cell_index, with_slot, lemma_write_cell,
    lemma_slot_valid, lemma_zero_slot, lemma_sizes, lemma_index_in_bounds, CHUNK_SIZE,
    CHUNK_BITMAP_LENGTH, AIR, SAND, WALL,
};

verus! {

/// The falling-sand engine: one packed chunk of particles and the tick counter.
pub struct Game {
    particles: Vec<u8>,
    frame_count: usize,
    prefer_right: bool,
}

impl Game {
    /// The packed bitmap, 2 bits per cell.
    pub closed spec fn bytes(&self) -> Seq<u8> {
        self.particles@
    }

    /// The cell codes of the chunk in row-major order.
    pub open spec fn cells(&self) -> Seq<u8> {
        cells_of(self.bytes())
    }

    /// Number of ticks run so far.
    pub closed spec fn frame(&self) -> usize {
        self.frame_count
    }

    /// Whether the last tick preferred the right diagonal.
    pub closed spec fn prefers_right(&self) -> bool {
        self.prefer_right
    }

    /// The bitmap has the size of one chunk.
    pub open spec fn wf(&self) -> bool {
        self.bytes().len() == CHUNK_BITMAP_LENGTH
    }

    /// An empty chunk (all air) at tick 0.
    pub fn new() -> (g: Self)
        ensures
            g.wf(),
            all_valid(g.cells()),
            g.cells() == Seq::new(cell_count() as nat, |i: int| AIR),
            g.frame() == 0,
            !g.prefers_right(),
    {
        let mut particles: Vec<u8> = Vec::new();
        let mut n: usize = 0;
        while n < CHUNK_BITMAP_LENGTH
            invariant
                n <= CHUNK_BITMAP_LENGTH,
                particles@.len() == n,
                forall|j: int| 0 <= j < n ==> particles@[j] == 0,
            decreases CHUNK_BITMAP_LENGTH - n,
        {
            particles.push(0);
            n = n + 1;
        }
        let g = Game { particles, frame_count: 0, prefer_right: false };
        proof {
            lemma_sizes();
        }
        assert forall|i: int| 0 <= i < cell_count() implies #[trigger] g.cells()[i] == AIR by {
            assert(g.particles@[i / 4] == 0);
            lemma_zero_slot((i % 4) as u8);
        }
        assert(g.cells() =~= Seq::new(cell_count() as nat, |i: int| AIR));
        g
    }

    /// The code at (x, y); outside the chunk the boundary reads as wall.
    pub fn get_pixel(&self, x: i16, y: i16) -> (r: u8)
        requires
            self.wf(),
        ensures
            r == cell_at(self.cells(), x as int, y as int),
            !in_range(x as int, y as int) ==> r == WALL,
            r < 4,
    {
        if x < 0 || x >= CHUNK_SIZE as i16 || y < 0 || y >= CHUNK_SIZE as i16 {
            return WALL;
        }
        let x = x as usize;
        let y = y as usize;
        let idx = y * CHUNK_SIZE + x;
        let i = idx >> 2;
        let xb = x as u8;
        let shift = (xb & 0b11) << 1;
        assert(shift == 2 * (xb % 4) && shift < 8) by (bit_vector)
            requires
                shift == (xb & 3u8) << 1u8,
        ;
        let mask: u8 = 0b11u8 << shift;
        assert(i == idx / 4) by (bit_vector)
            requires
                i == idx >> 2,
        ;
        let r = (self.particles[i] & mask) >> shift;
        proof {
            let b = self.particles@[i as int];
            let k = (x % 4) as u8;
            assert(shift == 2 * k);
            assert(k < 4);
            assert(((b & (3u8 << shift)) >> shift) == (b >> shift) & 3u8) by (bit_vector)
                requires
                    shift < 8,
            ;
            assert(cell_index(x as int, y as int) % 4 == x % 4);
            lemma_slot_valid(b, k);
        }
        r
    }

    /// Writes the low two bits of `color` at (x, y); a write outside the chunk is dropped.
    pub fn set_pixel(&mut self, x: i16, y: i16, color: u8)
        requires
            old(self).wf(),
        ensures
            final(self).wf(),
            final(self).cells() == put(old(self).cells(), x as int, y as int, color),
            all_valid(old(self).cells()) && color % 4 < 3 ==> all_valid(final(self).cells()),
            !in_range(x as int, y as int) ==> final(self).bytes() == old(self).bytes(),
            final(self).frame() == old(self).frame(),
            final(self).prefers_right() == old(self).prefers_right(),
    {
        if x < 0 || x >= CHUNK_SIZE as i16 || y < 0 || y >= CHUNK_SIZE as i16 {
            return;
        }
        let x = x as usize;
        let y = y as usize;
        let idx = y * CHUNK_SIZE + x;
        let i = idx >> 2;
        let xb = x as u8;
        let shift = (xb & 0b11) << 1;
        assert(shift == 2 * (xb % 4) && shift < 8) by (bit_vector)
            requires
                shift == (xb & 3u8) << 1u8,
        ;
        let mask: u8 = 0b11u8 << shift;
        assert(i == idx / 4) by (bit_vector)
            requires
                i == idx >> 2,
        ;
        let code = color & 0b11;
        let nb = (code << shift) | (self.particles[i] & !mask);
        proof {
            lemma_write_cell(self.particles@, x as int, y as int, color);
            lemma_sizes();
            if all_valid(self.cells()) && color % 4 < 3 {
                lemma_put_valid(self.cells(), x as int, y as int, color);
            }
        }
        self.particles.set(i, nb);
        proof {
            let k = (x % 4) as u8;
            assert(nb == with_slot(old(self).particles@[i as int], k, color));
            assert(self.particles@ == old(self).particles@.update(i as int, nb));
        }
    }

    /// Moves the particle at (x, y) by (dir_x, dir_y) when the target reads as air;
    /// returns whether it moved.
    pub fn move_pixel(
        &mut self,
        particle_type: &ParticleType,
        x: i16,
        y: i16,
        dir_x: i16,
        dir_y: i16,
    ) -> (r: bool)
        requires
            old(self).wf(),
            in_range(x as int, y as int),
            -1 <= dir_x <= 1,
            -1 <= dir_y <= 1,
        ensures
            final(self).wf(),
            r == (cell_at(old(self).cells(), x + dir_x, y + dir_y) == AIR),
            final(self).cells() == if r {
                moved(old(self).cells(), x as int, y as int, x + dir_x, y + dir_y, particle_type.color)
            } else {
                old(self).cells()
            },
            final(self).frame() == old(self).frame(),
            final(self).prefers_right() == old(self).prefers_right(),
    {
        if self.get_pixel(x + dir_x, y + dir_y) != AIR {
            return false;
        }
        self.set_pixel(x, y, AIR);
        self.set_pixel(x + dir_x, y + dir_y, particle_type.color);
        true
    }

    /// Applies the gravity rule to the cell (x, y).
    pub fn update_particle(&mut self, x: i16, y: i16)
        requires
            old(self).wf(),
            all_valid(old(self).cells()),
            in_range(x as int, y as int),
        ensures
            final(self).wf(),
            final(self).cells() == update_cell(
                old(self).cells(),
                x as int,
                y as int,
                old(self).prefers_right(),
            ),
            final(self).frame() == old(self).frame(),
            final(self).prefers_right() == old(self).prefers_right(),
    {
        let pixel = self.get_pixel(x, y);
        proof {
            lemma_index_in_bounds(x as int, y as int);
        }
        let particle_type = particle_type(pixel);
        if particle_type.has_gravity {
            if self.move_pixel(&particle_type, x, y, 0, 1) {
                return;
            }
            if self.prefer_right {
                if !self.move_pixel(&particle_type, x, y, 1, 1) {
                    self.move_pixel(&particle_type, x, y, -1, 1);
                }
            } else if !self.move_pixel(&particle_type, x, y, -1, 1) {
                self.move_pixel(&particle_type, x, y, 1, 1);
            }
        }
    }

    /// Advances the chunk by one tick: rows from the bottom up, columns left to right on
    /// even ticks and right to left on odd ones; then counts the tick.
    pub fn step(&mut self)
        requires
            old(self).wf(),
            all_valid(old(self).cells()),
        ensures
            final(self).wf(),
            all_valid(final(self).cells()),
            final(self).prefers_right() == prefers_right_at(old(self).frame() as int),
            final(self).cells() == tick(old(self).cells(), prefers_right_at(old(self).frame() as int)),
            final(self).frame() == if old(self).frame() == usize::MAX {
                0
            } else {
                old(self).frame() + 1
            },
    {
        let frame = self.frame_count;
        self.prefer_right = frame & 1 == 0;
        proof {
            assert(frame & 1 == 0 <==> frame % 2 == 0) by (bit_vector);
            lemma_sizes();
        }
        let ghost c0 = self.cells();
        let ghost pr = self.prefer_right;
        let mut row: i16 = CHUNK_SIZE as i16;
        while row > 0
            invariant
                0 <= row <= side(),
                self.wf(),
                self.prefer_right == pr,
                c0.len() == cell_count(),
                all_valid(c0),
                self.cells() == sweep_rows(c0, (side() - row) as nat, pr),
                self.frame_count == old(self).frame_count,
            decreases row,
        {
            row = row - 1;
            let ghost before = self.cells();
            proof {
                lemma_sweep_rows_valid(c0, (side() - row - 1) as nat, pr);
            }
            let mut i: i16 = 0;
            while i < CHUNK_SIZE as i16
                invariant
                    0 <= i <= side(),
                    0 <= row < side(),
                    self.wf(),
                    self.prefer_right == pr,
                    before.len() == cell_count(),
                    all_valid(before),
                    self.cells() == sweep_row(before, row as int, i as nat, pr),
                    self.frame_count == old(self).frame_count,
                decreases side() - i,
            {
                let x: i16 = if self.prefer_right {
                    i
                } else {
                    CHUNK_SIZE as i16 - 1 - i
                };
                proof {
                    lemma_sweep_row_valid(before, row as int, i as nat, pr);
                }
                self.update_particle(x, row);
                i = i + 1;
            }
        }
        proof {
            lemma_sweep_rows_valid(c0, side() as nat, pr);
        }
        self.frame_count = self.frame_count.wrapping_add(1);
    }

    /// Stamps the filled disk of radius `BRUSH_RADIUS` around (x, y) with `color`:
    /// every offset (dx, dy) in [-R, R)² with dx² + dy² < R². Cells off the chunk are
    /// skipped. The center lies at least R away from the ends of `i16`, so that every
    /// stamped coordinate is an `i16`.
    pub fn set_pixel_with_brush(&mut self, x: i16, y: i16, color: u8)
        requires
            old(self).wf(),
            i16::MIN + BRUSH_RADIUS <= x <= i16::MAX - BRUSH_RADIUS,
            i16::MIN + BRUSH_RADIUS <= y <= i16::MAX - BRUSH_RADIUS,
        ensures
            final(self).wf(),
            final(self).cells() == paint(old(self).cells(), x as int, y as int, color),
            final(self).frame() == old(self).frame(),
            final(self).prefers_right() == old(self).prefers_right(),
    {
        let ghost c0 = self.cells();
        proof {
            lemma_sizes();
            lemma_paint_start(c0, x as int, y as int, color);
        }
        let mut iy: i16 = -BRUSH_RADIUS;
        while iy < BRUSH_RADIUS
            invariant
                -8 <= iy <= 8,
                i16::MIN + 8 <= x <= i16::MAX - 8,
                i16::MIN + 8 <= y <= i16::MAX - 8,
                self.wf(),
                c0.len() == cell_count(),
                self.cells() == paint_upto(c0, x as int, y as int, color, -8, iy as int),
                self.frame_count == old(self).frame_count,
                self.prefer_right == old(self).prefer_right,
            decreases 8 - iy,
        {
            let mut ix: i16 = -BRUSH_RADIUS;
            while ix < BRUSH_RADIUS
                invariant
                    -8 <= iy < 8,
                    -8 <= ix <= 8,
                    i16::MIN + 8 <= x <= i16::MAX - 8,
                    i16::MIN + 8 <= y <= i16::MAX - 8,
                    self.wf(),
                    c0.len() == cell_count(),
                    self.cells() == paint_upto(c0, x as int, y as int, color, ix as int, iy as int),
                    self.frame_count == old(self).frame_count,
                    self.prefer_right == old(self).prefer_right,
                decreases 8 - ix,
            {
                assert(0 <= ix * ix <= 64 && 0 <= iy * iy <= 64) by (nonlinear_arith)
                    requires
                        -8 <= ix < 8,
                        -8 <= iy < 8,
                ;
                proof {
                    lemma_paint_step(c0, x as int, y as int, color, ix as int, iy as int);
                }
                if ix * ix + iy * iy < BRUSH_RADIUS * BRUSH_RADIUS {
                    self.set_pixel(x + ix, y + iy, color);
                }
                ix = ix + 1;
            }
            proof {
                lemma_paint_next_row(c0, x as int, y as int, color, iy as int);
            }
            iy = iy + 1;
        }
        proof {
            lemma_paint_end(c0, x as int, y as int, color);
        }
    }

    /// Seeds the boot stroke: sand in the five cells (80..85, 0).
    pub fn start(&mut self)
        requires
            old(self).wf(),
        ensures
            final(self).wf(),
            final(self).cells().len() == old(self).cells().len(),
            all_valid(old(self).cells()) ==> all_valid(final(self).cells()),
            forall|x: int, y: int|
                #[trigger] cell_at(final(self).cells(), x, y) == if y == 0 && 80 <= x < 85 {
                    SAND
                } else {
                    cell_at(old(self).cells(), x, y)
                },
            final(self).frame() == old(self).frame(),
            final(self).prefers_right() == old(self).prefers_right(),
    {
        self.set_pixel(80, 0, SAND);
        self.set_pixel(81, 0, SAND);
        self.set_pixel(82, 0, SAND);
        self.set_pixel(83, 0, SAND);
        self.set_pixel(84, 0, SAND);
        proof {
            lemma_sizes();
            assert forall|x: int, y: int| #[trigger]
                cell_at(self.cells(), x, y) == if y == 0 && 80 <= x < 85 {
                    SAND
                } else {
                    cell_at(old(self).cells(), x, y)
                } by {
                if in_range(x, y) {
                    lemma_index_in_bounds(x, y);
                    if y != 0 {
                        assert(cell_index(x, y) >= 160) by (nonlinear_arith)
                            requires
                                y >= 1,
                                x >= 0,
                                cell_index(x, y) == y * 160 + x,
                        ;
                    }
                }
            }
        }
    }

    /// Applies one frame's input: with the pointer inside the chunk, the primary button
    /// paints sand and otherwise the secondary button erases.
    pub fn process_input(&mut self, mouse: u8, mouse_x: i16, mouse_y: i16)
        requires
            old(self).wf(),
        ensures
            final(self).wf(),
            final(self).cells() == apply_input(old(self).cells(), mouse, mouse_x as int, mouse_y as int),
            all_valid(old(self).cells()) ==> all_valid(final(self).cells()),
            final(self).frame() == old(self).frame(),
            final(self).prefers_right() == old(self).prefers_right(),
    {
        if mouse_x < 0 || mouse_x >= CHUNK_SIZE as i16 || mouse_y < 0 || mouse_y >= CHUNK_SIZE as i16 {
            return;
        }
        proof {
            if all_valid(old(self).cells()) {
                lemma_input_valid(old(self).cells(), mouse, mouse_x as int, mouse_y as int);
            }
        }
        if mouse & MOUSE_LEFT != 0 {
            self.set_pixel_with_brush(mouse_x, mouse_y, SAND);
        } else if mouse & MOUSE_RIGHT != 0 {
            self.set_pixel_with_brush(mouse_x, mouse_y, AIR);
        }
    }

    /// One frame: the input's brush stroke, then one tick of the simulation.
    pub fn update(&mut self, mouse: u8, mouse_x: i16, mouse_y: i16)
        requires
            old(self).wf(),
            all_valid(old(self).cells()),
        ensures
            final(self).wf(),
            all_valid(final(self).cells()),
            final(self).cells() == tick(
                apply_input(old(self).cells(), mouse, mouse_x as int, mouse_y as int),
                prefers_right_at(old(self).frame() as int),
            ),
            final(self).prefers_right() == prefers_right_at(old(self).frame() as int),
            final(self).frame() == if old(self).frame() == usize::MAX {
                0
            } else {
                old(self).frame() + 1
            },
    {
        self.process_input(mouse, mouse_x, mouse_y);
        proof {
            lemma_input_valid(old(self).cells(), mouse, mouse_x as int, mouse_y as int);
        }
        self.step();
    }

    /// Copies the `width` x `height` packed sprite into the packed `framebuffer` at
    /// (x, y), a run of whole bytes per visible row, clipped to the screen. The sprite
    /// holds at least its `width * height` cells, 4 to a byte.
    pub fn mem_blit(
        sprite: &[u8],
        x: i32,
        y: i32,
        width: usize,
        height: usize,
        framebuffer: &mut Vec<u8>,
    )
        requires
            old(framebuffer)@.len() == FRAMEBUFFER_LENGTH,
            width * height <= 4 * sprite@.len(),
            width * height <= usize::MAX,
        ensures
            final(framebuffer)@ == blit(
                old(framebuffer)@,
                sprite@,
                x as int,
                y as int,
                width as int,
                height as int,
            ),
    {
        let dst_x: usize = if x < 0 {
            0
        } else {
            x as usize
        };
        let src_x: usize = if x < 0 {
            (0i64 - x as i64) as usize
        } else {
            0
        };
        let dst_y: usize = if y < 0 {
            0
        } else {
            y as usize
        };
        let src_y: usize = if y < 0 {
            (0i64 - y as i64) as usize
        } else {
            0
        };
        let visible_width: usize = if src_x >= width || dst_x >= SCREEN_SIZE {
            0
        } else if width - src_x < SCREEN_SIZE - dst_x {
            (width - src_x) / 4
        } else {
            (SCREEN_SIZE - dst_x) / 4
        };
        let visible_height: usize = if src_y >= height || dst_y >= SCREEN_SIZE {
            0
        } else if height - src_y < SCREEN_SIZE - dst_y {
            height - src_y
        } else {
            SCREEN_SIZE - dst_y
        };
        let ghost fb0 = framebuffer@;
        let ghost (xi, yi, w, h) = (x as int, y as int, width as int, height as int);
        assert(visible_width == visible_span(xi, w) / 4);
        assert(visible_height == visible_span(yi, h));
        assert(dst_x == clamp_start(xi) && dst_y == clamp_start(yi));
        if visible_width == 0 || visible_height == 0 {
            assert(framebuffer@ =~= blit(fb0, sprite@, xi, yi, w, h));
            return;
        }
        assert(dst_x / 4 + visible_width <= 40);
        let mut iy: usize = 0;
        while iy < visible_height
            invariant
                iy <= visible_height,
                0 < visible_width,
                dst_x / 4 + visible_width <= 40,
                visible_width == visible_span(xi, w) / 4,
                visible_height == visible_span(yi, h),
                dst_x == clamp_start(xi),
                dst_y == clamp_start(yi),
                dst_y + visible_height <= 160,
                src_y + visible_height <= h,
                src_x + 4 * visible_width <= w,
                dst_x - xi == src_x,
                dst_y - yi == src_y,
                xi == x,
                yi == y,
                w == width,
                h == height,
                w * h <= 4 * sprite@.len(),
                w * h <= usize::MAX,
                fb0.len() == FRAMEBUFFER_LENGTH,
                framebuffer@ == blit_upto(fb0, sprite@, xi, yi, w, h, iy as int, 0),
            decreases visible_height - iy,
        {
            assert((src_y + iy + 1) * w <= h * w) by (nonlinear_arith)
                requires
                    src_y + iy + 1 <= h,
                    0 <= w,
            ;
            assert((src_y + iy + 1) * w == (src_y + iy) * w + w) by (nonlinear_arith);
            let src_i = ((src_y + iy) * width + src_x) / 4;
            let dst_i = (dst_y + iy) * SCREEN_ROW_BYTES + dst_x / 4;
            let mut k: usize = 0;
            while k < visible_width
                invariant
                    k <= visible_width,
                    iy < visible_height,
                    dst_x / 4 + visible_width <= 40,
                    visible_width == visible_span(xi, w) / 4,
                    visible_height == visible_span(yi, h),
                    dst_x == clamp_start(xi),
                    dst_y == clamp_start(yi),
                    dst_y + visible_height <= 160,
                    src_x + 4 * visible_width <= w,
                    (src_y + iy + 1) * w <= h * w,
                    (src_y + iy + 1) * w == (src_y + iy) * w + w,
                    dst_x - xi == src_x,
                    dst_y - yi == src_y,
                    src_i == ((src_y + iy) * w + src_x) / 4,
                    dst_i == (dst_y + iy) * 40 + dst_x / 4,
                    w * h <= 4 * sprite@.len(),
                    w * h <= usize::MAX,
                    fb0.len() == FRAMEBUFFER_LENGTH,
                    framebuffer@ == blit_upto(fb0, sprite@, xi, yi, w, h, iy as int, k as int),
                decreases visible_width - k,
            {
                let ghost j0 = dst_i + k;
                proof {
                    assert(src_i + k < sprite@.len()) by {
                        assert(4 * (src_i + k) <= (src_y + iy) * w + src_x + 4 * k);
                        assert((src_y + iy) * w + src_x + 4 * k < (src_y + iy + 1) * w);
                        assert(h * w == w * h) by (nonlinear_arith);
                    }
                    lemma_fundamental_div_mod_converse(
                        j0 as int,
                        40,
                        (dst_y + iy) as int,
                        (dst_x / 4 + k) as int,
                    );
                    assert forall|j: int| 0 <= j < 6400 implies #[trigger] blit_written(
                        j,
                        xi,
                        yi,
                        w,
                        h,
                        iy as int,
                        k + 1,
                    ) == (blit_written(j, xi, yi, w, h, iy as int, k as int) || j == j0) by {
                        assert(j == (j / 40) * 40 + j % 40);
                    }
                }
                framebuffer.set(dst_i + k, sprite[src_i + k]);
                assert(framebuffer@ =~= blit_upto(fb0, sprite@, xi, yi, w, h, iy as int, k + 1));
                k = k + 1;
            }
            assert(blit_upto(fb0, sprite@, xi, yi, w, h, iy as int, visible_width as int)
                =~= blit_upto(fb0, sprite@, xi, yi, w, h, iy + 1, 0));
            iy = iy + 1;
        }
    }

    /// Presents the chunk: blits its packed bitmap over the whole packed framebuffer.
    pub fn draw(&self, framebuffer: &mut Vec<u8>)
        requires
            self.wf(),
            old(framebuffer)@.len() == FRAMEBUFFER_LENGTH,
        ensures
            final(framebuffer)@ == self.bytes(),
    {
        proof {
            lemma_sizes();
            lemma_blit_full_screen(framebuffer@, self.particles@);
        }
        Game::mem_blit(self.particles.as_slice(), 0, 0, CHUNK_SIZE, CHUNK_SIZE, framebuffer);
    }
}

} // verus!
