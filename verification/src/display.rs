//! The 64x32 monochrome framebuffer: pixel accessors, clearing, and the
//! XOR blit of one sprite row with collision detection and coordinate
//! wraparound.
use vstd::prelude::*;

use crate::config::get_bit_values;
use crate::config::spec_bit_msb;
use crate::config::CHIP8_DISPLAY_HEIGHT;
use crate::config::CHIP8_DISPLAY_WIDTH;
use vstd::arithmetic::div_mod::lemma_add_mod_noop;
use vstd::arithmetic::div_mod::lemma_add_mod_noop_right;
use vstd::arithmetic::div_mod::lemma_mod_bound;
use vstd::arithmetic::div_mod::lemma_mod_equivalence;
use vstd::arithmetic::div_mod::lemma_mod_twice;
use vstd::arithmetic::div_mod::lemma_small_mod;
use vstd::arithmetic::div_mod::lemma_sub_mod_noop;
use vstd::arithmetic::div_mod::lemma_sub_mod_noop_right;

verus! {

/// Pixel state, indexed `[x][y]`: column first, row second.
pub type PixelGrid = [[bool; CHIP8_DISPLAY_HEIGHT]; CHIP8_DISPLAY_WIDTH];

/// The pixel of grid `d` at column `x`, row `y`.
pub open spec fn pixel_at(d: PixelGrid, x: int, y: int) -> bool
    recommends
        0 <= x < CHIP8_DISPLAY_WIDTH,
        0 <= y < CHIP8_DISPLAY_HEIGHT,
{
    d[x][y]
}

/// How one XOR-blitted sprite row relates a grid before a draw to the grid
/// after it: on row `y mod 32`, the eight columns `(x + p) mod 64` are
/// flipped wherever sprite bit `p` is set; every other pixel keeps its value.
pub open spec fn draw_byte_post(pre: PixelGrid, post: PixelGrid, x: int, y: int, b: u8) -> bool {
    forall|px: int, py: int|
        0 <= px < CHIP8_DISPLAY_WIDTH && 0 <= py < CHIP8_DISPLAY_HEIGHT
            ==> #[trigger] pixel_at(post, px, py) == (if py == y % 32 && (px - x) % 64 < 8 {
            pixel_at(pre, px, py) ^ spec_bit_msb(b, (px - x) % 64)
        } else {
            pixel_at(pre, px, py)
        })
}

/// Whether blitting byte `b` at `(x, y)` collides: some set sprite bit lands
/// on a pixel that is already lit.
pub open spec fn draw_byte_collision(pre: PixelGrid, x: int, y: int, b: u8) -> bool {
    exists|p: int|
        0 <= p < 8 && spec_bit_msb(b, p) && #[trigger] pixel_at(pre, (x + p) % 64, y % 32)
}

/// The sprite-column offset of column `px` relative to a draw that started
/// at column `x`: drawing writes bit `q` to column `(x + q) mod 64`, and
/// that column's offset is `q` again.
proof fn lemma_col_offset(x: int, q: int)
    requires
        0 <= x,
        0 <= q < 64,
    ensures
        ((x + q) % 64 - x) % 64 == q,
{
    lemma_sub_mod_noop(x + q, x, 64);
    lemma_sub_mod_noop_right((x + q) % 64, x, 64);
    lemma_small_mod(q as nat, 64);
}

/// Reducing the start column modulo 64 before stepping does not change
/// which column is hit.
proof fn lemma_col_wrap(x: int, q: int)
    requires
        0 <= x,
        0 <= q < 64,
    ensures
        (x % 64 + q) % 64 == (x + q) % 64,
{
    lemma_add_mod_noop(x, q, 64);
    lemma_small_mod(q as nat, 64);
}

pub struct Display {
    pub pixels: PixelGrid,
}

impl Display {
    /// A blank screen.
    pub fn new() -> (d: Display)
        ensures
            forall|px: int, py: int|
                0 <= px < CHIP8_DISPLAY_WIDTH && 0 <= py < CHIP8_DISPLAY_HEIGHT
                    ==> !#[trigger] pixel_at(d.pixels, px, py),
    {
        Display { pixels: [[false; CHIP8_DISPLAY_HEIGHT]; CHIP8_DISPLAY_WIDTH] }
    }

    /// Write one pixel; all others keep their value.
    pub fn set_pixel(&mut self, x: usize, y: usize, val: bool)
        requires
            x < CHIP8_DISPLAY_WIDTH,
            y < CHIP8_DISPLAY_HEIGHT,
        ensures
            forall|px: int, py: int|
                0 <= px < CHIP8_DISPLAY_WIDTH && 0 <= py < CHIP8_DISPLAY_HEIGHT
                    ==> #[trigger] pixel_at(final(self).pixels, px, py) == (if px == x && py
                    == y {
                    val
                } else {
                    pixel_at(old(self).pixels, px, py)
                }),
    {
        let mut column = self.pixels[x];
        column[y] = val;
        self.pixels[x] = column;
    }

    /// Read one pixel.
    pub fn get_pixel(&self, x: usize, y: usize) -> (val: bool)
        requires
            x < CHIP8_DISPLAY_WIDTH,
            y < CHIP8_DISPLAY_HEIGHT,
        ensures
            val == pixel_at(self.pixels, x as int, y as int),
    {
        self.pixels[x][y]
    }

    /// Clear the screen: every pixel off.
    pub fn clear(&mut self)
        ensures
            forall|px: int, py: int|
                0 <= px < CHIP8_DISPLAY_WIDTH && 0 <= py < CHIP8_DISPLAY_HEIGHT
                    ==> !#[trigger] pixel_at(final(self).pixels, px, py),
    {
        self.pixels = [[false; CHIP8_DISPLAY_HEIGHT]; CHIP8_DISPLAY_WIDTH];
    }

    /// XOR one sprite row of eight pixels onto the screen starting at
    /// `(x, y)`, wrapping both coordinates, and report whether the draw
    /// cleared any lit pixel.
    pub fn draw_byte(&mut self, x: usize, y: usize, byte: u8) -> (collision: bool)
        ensures
            draw_byte_post(old(self).pixels, final(self).pixels, x as int, y as int, byte),
            collision == draw_byte_collision(old(self).pixels, x as int, y as int, byte),
    {
        let bits = get_bit_values(byte);
        let xm = x % 64;
        let ym = y % 32;
        let mut collision_happened = false;
        let mut p: usize = 0;
        while p < 8
            invariant
                p <= 8,
                xm == x as int % 64,
                ym == y as int % 32,
                forall|q: int| 0 <= q < 8 ==> bits@[q] == spec_bit_msb(byte, q),
                forall|px: int, py: int|
                    0 <= px < CHIP8_DISPLAY_WIDTH && 0 <= py < CHIP8_DISPLAY_HEIGHT
                        ==> #[trigger] pixel_at(self.pixels, px, py) == (if py == y as int % 32
                        && (px - x) % 64 < p {
                        pixel_at(old(self).pixels, px, py) ^ spec_bit_msb(byte, (px - x) % 64)
                    } else {
                        pixel_at(old(self).pixels, px, py)
                    }),
                collision_happened == exists|q: int|
                    0 <= q < p && spec_bit_msb(byte, q) && #[trigger] pixel_at(
                        old(self).pixels,
                        (x as int + q) % 64,
                        y as int % 32,
                    ),
            decreases 8 - p,
        {
            let cx = (xm + p) % 64;
            proof {
                lemma_col_wrap(x as int, p as int);
                lemma_col_offset(x as int, p as int);
                assert(cx as int == (x as int + p) % 64);
                assert((cx as int - x as int) % 64 == p as int);
            }
            let curr_val = self.get_pixel(cx, ym);
            let bit = bits[p];
            self.set_pixel(cx, ym, curr_val ^ bit);
            if curr_val && bit {
                collision_happened = true;
            }
            proof {
                assert forall|px: int, py: int|
                    0 <= px < CHIP8_DISPLAY_WIDTH && 0 <= py < CHIP8_DISPLAY_HEIGHT
                        implies #[trigger] pixel_at(self.pixels, px, py) == (if py == y as int
                    % 32 && (px - x) % 64 < p + 1 {
                    pixel_at(old(self).pixels, px, py) ^ spec_bit_msb(byte, (px - x) % 64)
                } else {
                    pixel_at(old(self).pixels, px, py)
                }) by {
                    if px == cx as int && py == ym as int {
                        assert((px - x) % 64 == p as int);
                    } else if (px - x) % 64 == p as int && py == ym as int {
                        // only column (x + p) % 64 has offset p, so this
                        // case cannot in fact differ from the first
                        lemma_col_identity(px, x as int);
                        assert(px == cx as int);
                    }
                }
            }
            p += 1;
        }
        collision_happened
    }
}

/// The framebuffer as a mathematical grid: a sequence of 64 columns of 32
/// pixels each.
pub open spec fn grid_view(d: PixelGrid) -> Seq<Seq<bool>> {
    Seq::new(64, |px: int| Seq::new(32, |py: int| pixel_at(d, px, py)))
}

/// The all-dark mathematical grid.
pub open spec fn blank_grid() -> Seq<Seq<bool>> {
    Seq::new(64, |px: int| Seq::new(32, |py: int| false))
}

/// A screen with every pixel off views as the blank grid.
pub proof fn lemma_clear_grid(d: PixelGrid)
    requires
        forall|px: int, py: int|
            0 <= px < CHIP8_DISPLAY_WIDTH && 0 <= py < CHIP8_DISPLAY_HEIGHT ==> !#[trigger] pixel_at(
                d,
                px,
                py,
            ),
    ensures
        grid_view(d) == blank_grid(),
{
    let g = grid_view(d);
    let b = blank_grid();
    assert forall|px: int| 0 <= px < 64 implies g[px] =~= b[px] by {
        assert forall|py: int| 0 <= py < 32 implies g[px][py] == b[px][py] by {
            assert(!pixel_at(d, px, py));
        }
    }
    assert(g =~= b);
}

/// The pixel of a mathematical grid at column `x`, row `y`.
pub open spec fn grid_pixel(g: Seq<Seq<bool>>, x: int, y: int) -> bool
    recommends
        0 <= x < CHIP8_DISPLAY_WIDTH,
        0 <= y < CHIP8_DISPLAY_HEIGHT,
{
    g[x][y]
}

/// Functional form of one XOR-blitted sprite row on a mathematical grid.
pub open spec fn grid_after_byte(g: Seq<Seq<bool>>, x: int, y: int, b: u8) -> Seq<Seq<bool>> {
    Seq::new(
        64,
        |px: int|
            Seq::new(
                32,
                |py: int|
                    if py == y % 32 && (px - x) % 64 < 8 {
                        grid_pixel(g, px, py) ^ spec_bit_msb(b, (px - x) % 64)
                    } else {
                        grid_pixel(g, px, py)
                    },
            ),
    )
}

/// Whether one blitted sprite row collides on a mathematical grid.
pub open spec fn grid_byte_hit(g: Seq<Seq<bool>>, x: int, y: int, b: u8) -> bool {
    exists|p: int|
        0 <= p < 8 && spec_bit_msb(b, p) && #[trigger] grid_pixel(g, (x + p) % 64, y % 32)
}

/// Functional form of a whole sprite draw: `rows` are drawn top down, each
/// one row lower than the one before.
pub open spec fn grid_after_sprite(g: Seq<Seq<bool>>, x: int, y: int, rows: Seq<u8>) -> Seq<
    Seq<bool>,
>
    decreases rows.len(),
{
    if rows.len() == 0 {
        g
    } else {
        grid_after_byte(
            grid_after_sprite(g, x, y, rows.drop_last()),
            x,
            y + rows.len() - 1,
            rows.last(),
        )
    }
}

/// Whether any row of a whole sprite draw collides.
pub open spec fn sprite_hit(g: Seq<Seq<bool>>, x: int, y: int, rows: Seq<u8>) -> bool
    decreases rows.len(),
{
    if rows.len() == 0 {
        false
    } else {
        sprite_hit(g, x, y, rows.drop_last()) || grid_byte_hit(
            grid_after_sprite(g, x, y, rows.drop_last()),
            x,
            y + rows.len() - 1,
            rows.last(),
        )
    }
}

/// Shape of a well-formed mathematical grid: 64 columns of 32 pixels.
pub open spec fn wf_grid(g: Seq<Seq<bool>>) -> bool {
    &&& g.len() == 64
    &&& forall|px: int| 0 <= px < 64 ==> (#[trigger] g[px]).len() == 32
}

/// Whether a sprite draw starting at `(x, y)` flips the pixel at
/// `(px, py)`: some sprite row lands on that screen row with a set bit in
/// that column.
pub open spec fn sprite_flips(x: int, y: int, rows: Seq<u8>, px: int, py: int) -> bool {
    exists|rr: int|
        0 <= rr < rows.len() && py == (y + rr) % 32 && (px - x) % 64 < 8 && spec_bit_msb(
            #[trigger] rows[rr],
            (px - x) % 64,
        )
}

/// Two rows of a sprite of at most 32 rows never land on the same screen
/// row.
proof fn lemma_rows_distinct(y: int, r1: int, r2: int)
    requires
        0 <= r1 < r2,
        r2 - r1 < 32,
    ensures
        (y + r1) % 32 != (y + r2) % 32,
{
    if (y + r1) % 32 == (y + r2) % 32 {
        lemma_mod_equivalence(y + r2, y + r1, 32);
        lemma_small_mod((r2 - r1) as nat, 32);
    }
}

/// A sprite draw changes each pixel independently: the pixel after the
/// draw is the pixel before it, flipped exactly where `sprite_flips` says
/// so.
proof fn lemma_sprite_pointwise(
    g: Seq<Seq<bool>>,
    x: int,
    y: int,
    rows: Seq<u8>,
    px: int,
    py: int,
)
    requires
        0 <= x,
        rows.len() <= 32,
        0 <= px < 64,
        0 <= py < 32,
    ensures
        grid_pixel(grid_after_sprite(g, x, y, rows), px, py) == (grid_pixel(g, px, py)
            ^ sprite_flips(x, y, rows, px, py)),
    decreases rows.len(),
{
    if rows.len() == 0 {
        assert(!sprite_flips(x, y, rows, px, py));
    } else {
        let prior = rows.drop_last();
        let b = rows.last();
        let yl = y + rows.len() - 1;
        let off = (px - x) % 64;
        lemma_sprite_pointwise(g, x, y, prior, px, py);
        let mid = grid_after_sprite(g, x, y, prior);
        assert(grid_pixel(grid_after_sprite(g, x, y, rows), px, py) == (if py == yl % 32 && off
            < 8 {
            grid_pixel(mid, px, py) ^ spec_bit_msb(b, off)
        } else {
            grid_pixel(mid, px, py)
        }));
        if py == yl % 32 && off < 8 && spec_bit_msb(b, off) {
            // the last row flips this pixel, and no earlier row shares its
            // screen row
            if sprite_flips(x, y, prior, px, py) {
                let rr = choose|rr: int|
                    0 <= rr < prior.len() && py == (y + rr) % 32 && (px - x) % 64 < 8
                        && spec_bit_msb(#[trigger] prior[rr], (px - x) % 64);
                lemma_rows_distinct(y, rr, rows.len() - 1);
                assert(false);
            }
            assert(0 <= rows.len() - 1 < rows.len() && py == (y + (rows.len() - 1)) % 32 && (px
                - x) % 64 < 8 && spec_bit_msb(rows[rows.len() - 1], (px - x) % 64));
            assert(sprite_flips(x, y, rows, px, py));
        } else {
            // the last row leaves this pixel alone, so only earlier rows
            // count
            if sprite_flips(x, y, rows, px, py) {
                let rr = choose|rr: int|
                    0 <= rr < rows.len() && py == (y + rr) % 32 && (px - x) % 64 < 8
                        && spec_bit_msb(#[trigger] rows[rr], (px - x) % 64);
                assert(rr != rows.len() - 1);
                assert(prior[rr] == rows[rr]);
                assert(sprite_flips(x, y, prior, px, py));
            }
            if sprite_flips(x, y, prior, px, py) {
                let rr = choose|rr: int|
                    0 <= rr < prior.len() && py == (y + rr) % 32 && (px - x) % 64 < 8
                        && spec_bit_msb(#[trigger] prior[rr], (px - x) % 64);
                assert(rows[rr] == prior[rr]);
                assert(sprite_flips(x, y, rows, px, py));
            }
        }
    }
}

/// A single-row blit on a screen row that a sprite does not touch
/// commutes with drawing the sprite.
proof fn lemma_sprite_byte_commute(
    g: Seq<Seq<bool>>,
    x: int,
    y: int,
    rows: Seq<u8>,
    yb: int,
    b: u8,
)
    requires
        0 <= x,
        rows.len() <= 32,
        forall|rr: int| 0 <= rr < rows.len() ==> #[trigger] ((y + rr) % 32) != yb % 32,
    ensures
        grid_after_byte(grid_after_sprite(g, x, y, rows), x, yb, b) == grid_after_sprite(
            grid_after_byte(g, x, yb, b),
            x,
            y,
            rows,
        ),
{
    let lhs = grid_after_byte(grid_after_sprite(g, x, y, rows), x, yb, b);
    let rhs = grid_after_sprite(grid_after_byte(g, x, yb, b), x, y, rows);
    assert forall|px: int| 0 <= px < 64 implies lhs[px] =~= rhs[px] by {
        assert forall|py: int| 0 <= py < 32 implies lhs[px][py] == rhs[px][py] by {
            lemma_sprite_pointwise(g, x, y, rows, px, py);
            lemma_sprite_pointwise(grid_after_byte(g, x, yb, b), x, y, rows, px, py);
            assert(lhs[px][py] == (if py == yb % 32 && (px - x) % 64 < 8 {
                grid_pixel(grid_after_sprite(g, x, y, rows), px, py) ^ spec_bit_msb(
                    b,
                    (px - x) % 64,
                )
            } else {
                grid_pixel(grid_after_sprite(g, x, y, rows), px, py)
            }));
            assert(grid_pixel(grid_after_byte(g, x, yb, b), px, py) == (if py == yb % 32 && (px
                - x) % 64 < 8 {
                grid_pixel(g, px, py) ^ spec_bit_msb(b, (px - x) % 64)
            } else {
                grid_pixel(g, px, py)
            }));
            if py == yb % 32 {
                // the sprite leaves the blit's row alone
                if sprite_flips(x, y, rows, px, py) {
                    let rr = choose|rr: int|
                        0 <= rr < rows.len() && py == (y + rr) % 32 && (px - x) % 64 < 8
                            && spec_bit_msb(#[trigger] rows[rr], (px - x) % 64);
                    assert(false);
                }
            }
        }
    }
    assert(lhs =~= rhs);
}

/// After one full sprite draw, drawing the identical sprite again
/// collides exactly where the first draw turned a pixel on.
proof fn lemma_second_sprite_hit(g: Seq<Seq<bool>>, x: int, y: int, rows: Seq<u8>)
    requires
        0 <= x,
        0 <= y,
        rows.len() <= 32,
    ensures
        sprite_hit(grid_after_sprite(g, x, y, rows), x, y, rows) <==> (exists|rr: int, p: int|
            0 <= rr < rows.len() && 0 <= p < 8 && spec_bit_msb(#[trigger] rows[rr], p)
                && !#[trigger] grid_pixel(g, (x + p) % 64, (y + rr) % 32)),
    decreases rows.len(),
{
    if rows.len() == 0 {
    } else {
        let prior = rows.drop_last();
        let b = rows.last();
        let yl = y + rows.len() - 1;
        let h = grid_after_sprite(g, x, y, rows);
        let bg = grid_after_byte(g, x, yl, b);
        assert forall|rr: int| 0 <= rr < prior.len() implies #[trigger] ((y + rr) % 32) != yl
            % 32 by {
            lemma_rows_distinct(y, rr, rows.len() - 1);
        }
        // the last row's blit commutes past the prefix draw
        lemma_sprite_byte_commute(g, x, y, prior, yl, b);
        assert(h == grid_after_sprite(bg, x, y, prior));
        lemma_second_sprite_hit(bg, x, y, prior);
        // pixels of bg on the prefix rows are those of g
        assert forall|c: int, rr: int|
            0 <= c < 64 && 0 <= rr < prior.len() implies #[trigger] grid_pixel(
            bg,
            c,
            (y + rr) % 32,
        ) == grid_pixel(g, c, (y + rr) % 32) by {
            lemma_mod_bound(y + rr, 32);
        }
        // the last row of h carries the first draw's flips of row yl
        assert forall|p: int| 0 <= p < 8 implies #[trigger] grid_pixel(
            grid_after_sprite(h, x, y, prior),
            (x + p) % 64,
            (y + (rows.len() - 1)) % 32,
        ) == (grid_pixel(g, (x + p) % 64, (y + (rows.len() - 1)) % 32) ^ spec_bit_msb(b, p)) by {
            let c = (x + p) % 64;
            lemma_mod_bound(x + p, 64);
            lemma_mod_bound(y + rows.len() - 1, 32);
            lemma_col_offset(x, p);
            lemma_sprite_pointwise(h, x, y, prior, c, yl % 32);
            if sprite_flips(x, y, prior, c, yl % 32) {
                let rr = choose|rr: int|
                    0 <= rr < prior.len() && yl % 32 == (y + rr) % 32 && (c - x) % 64 < 8
                        && spec_bit_msb(#[trigger] prior[rr], (c - x) % 64);
                lemma_mod_twice(yl, 32);
                assert(false);
            }
            lemma_sprite_pointwise(g, x, y, rows, c, yl % 32);
            if spec_bit_msb(b, p) {
                assert(0 <= rows.len() - 1 < rows.len() && yl % 32 == (y + (rows.len() - 1)) % 32
                    && (c - x) % 64 < 8 && spec_bit_msb(rows[rows.len() - 1], (c - x) % 64)) by {
                    lemma_mod_twice(yl, 32);
                }
                assert(sprite_flips(x, y, rows, c, yl % 32));
            } else {
                if sprite_flips(x, y, rows, c, yl % 32) {
                    let rr = choose|rr: int|
                        0 <= rr < rows.len() && yl % 32 == (y + rr) % 32 && (c - x) % 64 < 8
                            && spec_bit_msb(#[trigger] rows[rr], (c - x) % 64);
                    if rr < rows.len() - 1 {
                        lemma_rows_distinct(y, rr, rows.len() - 1);
                        lemma_mod_twice(yl, 32);
                    }
                    assert(false);
                }
            }
        }
        // sprite_hit(h, rows) unfolds to the prefix part and the last row's
        // blit on the prefix-redrawn grid; translate each side
        if sprite_hit(h, x, y, rows) {
            if sprite_hit(h, x, y, prior) {
                let (rr, p) = choose|rr: int, p: int|
                    0 <= rr < prior.len() && 0 <= p < 8 && spec_bit_msb(#[trigger] prior[rr], p)
                        && !#[trigger] grid_pixel(bg, (x + p) % 64, (y + rr) % 32);
                assert(spec_bit_msb(rows[rr], p));
                assert(!grid_pixel(g, (x + p) % 64, (y + rr) % 32));
            } else {
                let p = choose|p: int|
                    0 <= p < 8 && spec_bit_msb(b, p) && #[trigger] grid_pixel(
                        grid_after_sprite(h, x, y, prior),
                        (x + p) % 64,
                        yl % 32,
                    );
                assert(grid_pixel(grid_after_sprite(h, x, y, prior), (x + p) % 64, (y + (
                rows.len() - 1)) % 32));
                assert(spec_bit_msb(rows[rows.len() - 1], p));
                assert(!grid_pixel(g, (x + p) % 64, (y + (rows.len() - 1)) % 32));
            }
        }
        if exists|rr: int, p: int|
            0 <= rr < rows.len() && 0 <= p < 8 && spec_bit_msb(#[trigger] rows[rr], p)
                && !#[trigger] grid_pixel(g, (x + p) % 64, (y + rr) % 32) {
            let (rr, p) = choose|rr: int, p: int|
                0 <= rr < rows.len() && 0 <= p < 8 && spec_bit_msb(#[trigger] rows[rr], p)
                    && !#[trigger] grid_pixel(g, (x + p) % 64, (y + rr) % 32);
            if rr < rows.len() - 1 {
                assert(spec_bit_msb(prior[rr], p));
                assert(!grid_pixel(bg, (x + p) % 64, (y + rr) % 32));
                assert(sprite_hit(h, x, y, prior));
            } else {
                assert(grid_pixel(
                    grid_after_sprite(h, x, y, prior),
                    (x + p) % 64,
                    (y + (rows.len() - 1)) % 32,
                ));
                lemma_mod_twice(yl, 32);
                assert(grid_byte_hit(grid_after_sprite(h, x, y, prior), x, yl, b));
            }
        }
    }
}

/// Drawing an identical sprite twice at the same location restores the
/// pre-draw pixel state, and the second draw's collision flag is set
/// exactly where the first draw turned a pixel on.
pub proof fn lemma_draw_sprite_twice(g: Seq<Seq<bool>>, x: int, y: int, rows: Seq<u8>)
    requires
        0 <= x,
        0 <= y,
        rows.len() <= 32,
        wf_grid(g),
    ensures
        grid_after_sprite(grid_after_sprite(g, x, y, rows), x, y, rows) == g,
        sprite_hit(grid_after_sprite(g, x, y, rows), x, y, rows) <==> (exists|rr: int, p: int|
            0 <= rr < rows.len() && 0 <= p < 8 && spec_bit_msb(#[trigger] rows[rr], p)
                && !#[trigger] grid_pixel(g, (x + p) % 64, (y + rr) % 32)),
{
    let h = grid_after_sprite(g, x, y, rows);
    let h2 = grid_after_sprite(h, x, y, rows);
    if rows.len() > 0 {
        assert forall|px: int| 0 <= px < 64 implies h2[px] =~= g[px] by {
            assert forall|py: int| 0 <= py < 32 implies h2[px][py] == g[px][py] by {
                lemma_sprite_pointwise(g, x, y, rows, px, py);
                lemma_sprite_pointwise(h, x, y, rows, px, py);
            }
        }
        assert(h2 =~= g);
    }
    lemma_second_sprite_hit(g, x, y, rows);
}

/// An executed blit and the functional form agree: the grid after
/// `draw_byte` is `grid_after_byte` of the grid before it.
pub proof fn lemma_draw_byte_grid(pre: PixelGrid, post: PixelGrid, x: int, y: int, b: u8)
    requires
        draw_byte_post(pre, post, x, y, b),
    ensures
        grid_view(post) == grid_after_byte(grid_view(pre), x, y, b),
{
    let gp = grid_view(post);
    let ga = grid_after_byte(grid_view(pre), x, y, b);
    assert forall|px: int| 0 <= px < 64 implies gp[px] =~= ga[px] by {
        assert forall|py: int| 0 <= py < 32 implies gp[px][py] == ga[px][py] by {
            assert(gp[px][py] == pixel_at(post, px, py));
        }
    }
    assert(gp =~= ga);
}

/// An executed blit's collision result and the functional form agree.
pub proof fn lemma_draw_byte_hit_grid(pre: PixelGrid, x: int, y: int, b: u8)
    requires
        0 <= x,
        0 <= y,
    ensures
        draw_byte_collision(pre, x, y, b) == grid_byte_hit(grid_view(pre), x, y, b),
{
    if draw_byte_collision(pre, x, y, b) {
        let p = choose|p: int|
            0 <= p < 8 && spec_bit_msb(b, p) && #[trigger] pixel_at(pre, (x + p) % 64, y % 32);
        lemma_mod_bound(x + p, 64);
        lemma_mod_bound(y, 32);
        assert(grid_pixel(grid_view(pre), (x + p) % 64, y % 32));
    }
    if grid_byte_hit(grid_view(pre), x, y, b) {
        let p = choose|p: int|
            0 <= p < 8 && spec_bit_msb(b, p) && #[trigger] grid_pixel(
                grid_view(pre),
                (x + p) % 64,
                y % 32,
            );
        lemma_mod_bound(x + p, 64);
        lemma_mod_bound(y, 32);
        assert(pixel_at(pre, (x + p) % 64, y % 32));
    }
}

/// Only the row index modulo 32 matters to a single-row blit.
pub proof fn lemma_byte_row_mod(g: Seq<Seq<bool>>, x: int, y1: int, y2: int, b: u8)
    requires
        y1 % 32 == y2 % 32,
    ensures
        grid_after_byte(g, x, y1, b) == grid_after_byte(g, x, y2, b),
        grid_byte_hit(g, x, y1, b) == grid_byte_hit(g, x, y2, b),
{
    let g1 = grid_after_byte(g, x, y1, b);
    let g2 = grid_after_byte(g, x, y2, b);
    assert forall|px: int| 0 <= px < 64 implies g1[px] =~= g2[px] by {
    }
    assert(g1 =~= g2);
}

/// Drawing an identical sprite row twice at the same location restores the
/// pre-draw pixel state, and the second draw collides exactly where the
/// first draw turned a pixel on.
pub proof fn lemma_draw_byte_twice(
    pre: PixelGrid,
    mid: PixelGrid,
    post: PixelGrid,
    x: int,
    y: int,
    b: u8,
)
    requires
        0 <= x,
        0 <= y,
        draw_byte_post(pre, mid, x, y, b),
        draw_byte_post(mid, post, x, y, b),
    ensures
        forall|px: int, py: int|
            0 <= px < CHIP8_DISPLAY_WIDTH && 0 <= py < CHIP8_DISPLAY_HEIGHT
                ==> #[trigger] pixel_at(post, px, py) == pixel_at(pre, px, py),
        draw_byte_collision(mid, x, y, b) <==> exists|p: int|
            0 <= p < 8 && spec_bit_msb(b, p) && !#[trigger] pixel_at(pre, (x + p) % 64, y % 32),
{
    assert forall|px: int, py: int|
        0 <= px < CHIP8_DISPLAY_WIDTH && 0 <= py < CHIP8_DISPLAY_HEIGHT
            implies #[trigger] pixel_at(post, px, py) == pixel_at(pre, px, py) by {
        // both draws flip the same pixels by the same sprite bit, and a
        // double flip cancels
        let _mid_value = pixel_at(mid, px, py);
    }
    assert forall|p: int| 0 <= p < 8 implies #[trigger] pixel_at(mid, (x + p) % 64, y % 32) == (
    pixel_at(pre, (x + p) % 64, y % 32) ^ spec_bit_msb(b, p)) by {
        lemma_mod_bound(x + p, 64);
        lemma_mod_bound(y, 32);
        lemma_col_offset(x, p);
    }
    if draw_byte_collision(mid, x, y, b) {
        let p = choose|p: int|
            0 <= p < 8 && spec_bit_msb(b, p) && #[trigger] pixel_at(mid, (x + p) % 64, y % 32);
        assert(!pixel_at(pre, (x + p) % 64, y % 32));
    }
    if exists|p: int|
        0 <= p < 8 && spec_bit_msb(b, p) && !#[trigger] pixel_at(pre, (x + p) % 64, y % 32) {
        let p = choose|p: int|
            0 <= p < 8 && spec_bit_msb(b, p) && !#[trigger] pixel_at(pre, (x + p) % 64, y % 32);
        assert(pixel_at(mid, (x + p) % 64, y % 32));
    }
}

/// A column index below 64 equals the start column stepped by its own
/// start-relative offset: `(x + ((px - x) mod 64)) mod 64` is `px` again.
proof fn lemma_col_identity(px: int, x: int)
    requires
        0 <= px < 64,
        0 <= x,
    ensures
        (x + ((px - x) % 64)) % 64 == px,
{
    lemma_add_mod_noop_right(x, px - x, 64);
    lemma_small_mod(px as nat, 64);
}

} // verus!
