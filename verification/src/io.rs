//! The machine's side of the host-facing ports: the hex keypad state the
//! host fills in, the framebuffer the opcodes draw on, and the 32-bit pixel
//! buffer a host window presents.
use vstd::prelude::*;

use crate::config::CHIP8_DISPLAY_HEIGHT;
use crate::config::CHIP8_DISPLAY_WIDTH;
use crate::config::CHIP8_KEYBOARD_SIZE;
use crate::display::draw_byte_collision;
use crate::display::draw_byte_post;
use crate::display::pixel_at;
use crate::display::Display;

verus! {

/// Framebuffer value of a lit pixel.
pub const PIXEL_ON: u32 = 0x00FFFFFF;

/// Framebuffer value of a dark pixel.
pub const PIXEL_OFF: u32 = 0;

/// The sixteen keypad keys in physical layout order, row by row:
/// `1 2 3 C / 4 5 6 D / 7 8 9 E / A 0 B F`.
pub enum VKeys {
    Key1,
    Key2,
    Key3,
    KeyC,
    Key4,
    Key5,
    Key6,
    KeyD,
    Key7,
    Key8,
    Key9,
    KeyE,
    KeyA,
    Key0,
    KeyB,
    KeyF,
}

/// Slot of a keypad key in the key-state array.
pub open spec fn spec_vkey_index(key: VKeys) -> int {
    match key {
        VKeys::Key1 => 0,
        VKeys::Key2 => 1,
        VKeys::Key3 => 2,
        VKeys::KeyC => 3,
        VKeys::Key4 => 4,
        VKeys::Key5 => 5,
        VKeys::Key6 => 6,
        VKeys::KeyD => 7,
        VKeys::Key7 => 8,
        VKeys::Key8 => 9,
        VKeys::Key9 => 10,
        VKeys::KeyE => 11,
        VKeys::KeyA => 12,
        VKeys::Key0 => 13,
        VKeys::KeyB => 14,
        VKeys::KeyF => 15,
    }
}

/// Slot of hex key `n` in the key-state array, following the physical
/// keypad layout.
pub open spec fn spec_key_index(n: int) -> int
    recommends
        0 <= n < 16,
{
    if n == 0x1 {
        0
    } else if n == 0x2 {
        1
    } else if n == 0x3 {
        2
    } else if n == 0xC {
        3
    } else if n == 0x4 {
        4
    } else if n == 0x5 {
        5
    } else if n == 0x6 {
        6
    } else if n == 0xD {
        7
    } else if n == 0x7 {
        8
    } else if n == 0x8 {
        9
    } else if n == 0x9 {
        10
    } else if n == 0xE {
        11
    } else if n == 0xA {
        12
    } else if n == 0x0 {
        13
    } else if n == 0xB {
        14
    } else {
        15
    }
}

pub struct IO {
    /// Key-down state of the sixteen keypad keys, written by the host.
    pub keys: [bool; CHIP8_KEYBOARD_SIZE],
    /// The framebuffer the opcodes draw on.
    pub display: Display,
}

impl IO {
    /// Fresh port state: no key down, blank screen.
    pub fn new() -> (io: IO)
        ensures
            forall|k: int| 0 <= k < CHIP8_KEYBOARD_SIZE ==> !io.keys@[k],
            forall|px: int, py: int|
                0 <= px < CHIP8_DISPLAY_WIDTH && 0 <= py < CHIP8_DISPLAY_HEIGHT
                    ==> !#[trigger] pixel_at(io.display.pixels, px, py),
    {
        IO { keys: [false; CHIP8_KEYBOARD_SIZE], display: Display::new() }
    }

    /// Write one pixel; all others keep their value.
    pub fn set_pixel(&mut self, x: usize, y: usize, val: bool)
        requires
            x < CHIP8_DISPLAY_WIDTH,
            y < CHIP8_DISPLAY_HEIGHT,
        ensures
            final(self).keys == old(self).keys,
            forall|px: int, py: int|
                0 <= px < CHIP8_DISPLAY_WIDTH && 0 <= py < CHIP8_DISPLAY_HEIGHT
                    ==> #[trigger] pixel_at(final(self).display.pixels, px, py) == (if px == x
                    && py == y {
                    val
                } else {
                    pixel_at(old(self).display.pixels, px, py)
                }),
    {
        self.display.set_pixel(x, y, val);
    }

    /// Read one pixel.
    pub fn get_pixel(&self, x: usize, y: usize) -> (val: bool)
        requires
            x < CHIP8_DISPLAY_WIDTH,
            y < CHIP8_DISPLAY_HEIGHT,
        ensures
            val == pixel_at(self.display.pixels, x as int, y as int),
    {
        self.display.get_pixel(x, y)
    }

    /// Lay the framebuffer out as one 32-bit pixel per cell, row-major, for
    /// a host window to present.
    pub fn render(&self) -> (buffer: Vec<u32>)
        ensures
            buffer@.len() == CHIP8_DISPLAY_WIDTH * CHIP8_DISPLAY_HEIGHT,
            forall|px: int, py: int|
                0 <= px < CHIP8_DISPLAY_WIDTH && 0 <= py < CHIP8_DISPLAY_HEIGHT ==> buffer@[py
                    * CHIP8_DISPLAY_WIDTH + px] == (if #[trigger] pixel_at(
                    self.display.pixels,
                    px,
                    py,
                ) {
                    PIXEL_ON
                } else {
                    PIXEL_OFF
                }),
    {
        let mut buffer: Vec<u32> = Vec::new();
        let mut y: usize = 0;
        while y < CHIP8_DISPLAY_HEIGHT
            invariant
                y <= CHIP8_DISPLAY_HEIGHT,
                buffer@.len() == y * CHIP8_DISPLAY_WIDTH,
                forall|px: int, py: int|
                    0 <= px < CHIP8_DISPLAY_WIDTH && 0 <= py < y ==> buffer@[py
                        * CHIP8_DISPLAY_WIDTH + px] == (if #[trigger] pixel_at(
                        self.display.pixels,
                        px,
                        py,
                    ) {
                        PIXEL_ON
                    } else {
                        PIXEL_OFF
                    }),
            decreases CHIP8_DISPLAY_HEIGHT - y,
        {
            let mut x: usize = 0;
            while x < CHIP8_DISPLAY_WIDTH
                invariant
                    x <= CHIP8_DISPLAY_WIDTH,
                    y < CHIP8_DISPLAY_HEIGHT,
                    buffer@.len() == y * CHIP8_DISPLAY_WIDTH + x,
                    forall|px: int, py: int|
                        0 <= px < CHIP8_DISPLAY_WIDTH && 0 <= py < y ==> buffer@[py
                            * CHIP8_DISPLAY_WIDTH + px] == (if #[trigger] pixel_at(
                            self.display.pixels,
                            px,
                            py,
                        ) {
                            PIXEL_ON
                        } else {
                            PIXEL_OFF
                        }),
                    forall|px: int|
                        0 <= px < x ==> buffer@[y * CHIP8_DISPLAY_WIDTH + px] == (if
                        #[trigger] pixel_at(self.display.pixels, px, y as int) {
                            PIXEL_ON
                        } else {
                            PIXEL_OFF
                        }),
                decreases CHIP8_DISPLAY_WIDTH - x,
            {
                if self.get_pixel(x, y) {
                    buffer.push(PIXEL_ON);
                } else {
                    buffer.push(PIXEL_OFF);
                }
                x += 1;
            }
            y += 1;
        }
        buffer
    }

    /// Turn every pixel off.
    pub fn clear(&mut self)
        ensures
            final(self).keys == old(self).keys,
            forall|px: int, py: int|
                0 <= px < CHIP8_DISPLAY_WIDTH && 0 <= py < CHIP8_DISPLAY_HEIGHT
                    ==> !#[trigger] pixel_at(final(self).display.pixels, px, py),
    {
        self.display.clear();
    }

    /// XOR one sprite row onto the screen; see `Display::draw_byte`.
    pub fn draw_byte(&mut self, x: usize, y: usize, byte: u8) -> (collision: bool)
        ensures
            final(self).keys == old(self).keys,
            draw_byte_post(
                old(self).display.pixels,
                final(self).display.pixels,
                x as int,
                y as int,
                byte,
            ),
            collision == draw_byte_collision(old(self).display.pixels, x as int, y as int, byte),
    {
        self.display.draw_byte(x, y, byte)
    }

    /// Key-down state of one keypad key.
    pub fn get_key_status_from_vkey(&self, key: VKeys) -> (down: bool)
        ensures
            down == self.keys@[spec_vkey_index(key)],
    {
        match key {
            VKeys::Key1 => self.keys[0],
            VKeys::Key2 => self.keys[1],
            VKeys::Key3 => self.keys[2],
            VKeys::KeyC => self.keys[3],
            VKeys::Key4 => self.keys[4],
            VKeys::Key5 => self.keys[5],
            VKeys::Key6 => self.keys[6],
            VKeys::KeyD => self.keys[7],
            VKeys::Key7 => self.keys[8],
            VKeys::Key8 => self.keys[9],
            VKeys::Key9 => self.keys[10],
            VKeys::KeyE => self.keys[11],
            VKeys::KeyA => self.keys[12],
            VKeys::Key0 => self.keys[13],
            VKeys::KeyB => self.keys[14],
            VKeys::KeyF => self.keys[15],
        }
    }

    /// Key-down state of hex key `n`.
    pub fn get_key_status_from_num(&self, n: u8) -> (down: bool)
        requires
            n < 16,
        ensures
            down == self.keys@[spec_key_index(n as int)],
    {
        match n {
            0x1 => self.get_key_status_from_vkey(VKeys::Key1),
            0x2 => self.get_key_status_from_vkey(VKeys::Key2),
            0x3 => self.get_key_status_from_vkey(VKeys::Key3),
            0xC => self.get_key_status_from_vkey(VKeys::KeyC),
            0x4 => self.get_key_status_from_vkey(VKeys::Key4),
            0x5 => self.get_key_status_from_vkey(VKeys::Key5),
            0x6 => self.get_key_status_from_vkey(VKeys::Key6),
            0xD => self.get_key_status_from_vkey(VKeys::KeyD),
            0x7 => self.get_key_status_from_vkey(VKeys::Key7),
            0x8 => self.get_key_status_from_vkey(VKeys::Key8),
            0x9 => self.get_key_status_from_vkey(VKeys::Key9),
            0xE => self.get_key_status_from_vkey(VKeys::KeyE),
            0xA => self.get_key_status_from_vkey(VKeys::KeyA),
            0x0 => self.get_key_status_from_vkey(VKeys::Key0),
            0xB => self.get_key_status_from_vkey(VKeys::KeyB),
            _ => self.get_key_status_from_vkey(VKeys::KeyF),
        }
    }
}

} // verus!
