use vstd::prelude::*;

verus! {

/// Side length of the output surface, in pixels.
pub const SCREEN_SIZE: usize = 160;

/// Bytes of one packed output row: 4 pixels per byte.
pub const SCREEN_ROW_BYTES: usize = 40;

/// Bytes of the packed output surface.
pub const FRAMEBUFFER_LENGTH: usize = 6400;

/// How many of the `len` positions starting at `pos` fall on the screen's [0, 160).
pub open spec fn visible_span(pos: int, len: int) -> int {
    let lo = if pos < 0 {
        0
    } else {
        pos
    };
    let hi = if pos + len < 160 {
        pos + len
    } else {
        160
    };
    if hi > lo {
        hi - lo
    } else {
        0
    }
}

/// First visible screen position of a run that starts at `pos`.
pub open spec fn clamp_start(pos: int) -> int {
    if pos < 0 {
        0
    } else {
        pos
    }
}

/// The output byte `j` is among the first `rows` full visible rows, or among the first
/// `k` visible bytes of the row after them.
pub open spec fn blit_written(j: int, x: int, y: int, w: int, h: int, rows: int, k: int) -> bool {
    let r = j / 40;
    let b = j % 40 - clamp_start(x) / 4;
    let dy = clamp_start(y);
    (dy <= r < dy + rows && 0 <= b < visible_span(x, w) / 4) || (r == dy + rows && 0 <= b < k)
}

/// The sprite byte that lands on output byte `j`.
pub open spec fn blit_source(j: int, x: int, y: int, w: int) -> int {
    ((j / 40 - y) * w + (clamp_start(x) - x)) / 4 + (j % 40 - clamp_start(x) / 4)
}

/// The output after copying the first `rows` visible rows and `k` bytes of the next.
pub open spec fn blit_upto(
    fb: Seq<u8>,
    sprite: Seq<u8>,
    x: int,
    y: int,
    w: int,
    h: int,
    rows: int,
    k: int,
) -> Seq<u8> {
    Seq::new(
        fb.len(),
        |j: int|
            if blit_written(j, x, y, w, h, rows, k) {
                sprite[blit_source(j, x, y, w)]
            } else {
                fb[j]
            },
    )
}

/// The output after blitting the `w` x `h` packed sprite at (x, y): each visible row's
/// run of whole bytes is copied, clipped to the screen; the rest is kept.
pub open spec fn blit(fb: Seq<u8>, sprite: Seq<u8>, x: int, y: int, w: int, h: int) -> Seq<u8> {
    blit_upto(fb, sprite, x, y, w, h, visible_span(y, h), 0)
}

/// Blitting a full-screen sprite at the origin reproduces it byte for byte.
pub proof fn lemma_blit_full_screen(fb: Seq<u8>, sprite: Seq<u8>)
    requires
        fb.len() == FRAMEBUFFER_LENGTH,
        sprite.len() == FRAMEBUFFER_LENGTH,
    ensures
        blit(fb, sprite, 0, 0, 160, 160) == sprite,
{
    assert forall|j: int| 0 <= j < 6400 implies #[trigger] blit(fb, sprite, 0, 0, 160, 160)[j]
        == sprite[j] by {
        assert(j == (j / 40) * 40 + j % 40);
        assert((j / 40) * 160 / 4 == (j / 40) * 40);
        assert(((j / 40) * 160 + 0) / 4 + (j % 40) == j);
    }
    assert(blit(fb, sprite, 0, 0, 160, 160) =~= sprite);
}

} // verus!
