//! Pixel writes into a caller-owned RGBA frame, and the static road background.
use vstd::prelude::*;
use crate::config::{DASH_LENGTH, GAP_LENGTH, HEIGHT, WIDTH};

verus! {

/// Bytes per pixel: red, green, blue, alpha.
pub const BYTES_PER_PIXEL: usize = 4;

/// The frame after writing `color` at pixel `(x, y)`; pixels outside the
/// frame are not written.
pub open spec fn with_pixel(frame: Seq<u8>, frame_width: u32, frame_height: u32, x: i32, y: i32, color: [u8; 4]) -> Seq<u8> {
    if 0 <= x < frame_width && 0 <= y < frame_height {
        let base = (y * frame_width + x) * 4;
        frame.update(base, color@[0]).update(base + 1, color@[1]).update(base + 2, color@[2]).update(base + 3, color@[3])
    } else {
        frame
    }
}

/// Writes `color` at pixel `(x, y)` of a `frame_width` by `frame_height` frame.
pub fn set_pixel(frame: &mut Vec<u8>, frame_width: u32, frame_height: u32, x: i32, y: i32, color: [u8; 4])
    requires
        old(frame)@.len() == frame_width * frame_height * 4,
    ensures
        final(frame)@ == with_pixel(old(frame)@, frame_width, frame_height, x, y, color),
{
    let len = frame.len();
    if x >= 0 && (x as u32) < frame_width && y >= 0 && (y as u32) < frame_height {
        proof {
            assert(y * frame_width + x <= (y * frame_width + x) * 4) by (nonlinear_arith)
                requires
                    0 <= x,
                    0 <= y,
            ;
            assert(y * frame_width <= y * frame_width + x);
            assert((y * frame_width + x) * 4 + 3 < frame_width * frame_height * 4) by (nonlinear_arith)
                requires
                    0 <= x < frame_width,
                    0 <= y < frame_height,
            ;
        }
        let index = (y as usize * frame_width as usize + x as usize) * 4;
        frame.set(index, color[0]);
        frame.set(index + 1, color[1]);
        frame.set(index + 2, color[2]);
        frame.set(index + 3, color[3]);
    }
}

pub open spec fn sky() -> (u8, u8, u8, u8) {
    (0x48, 0xb2, 0xe8, 0xff)
}

pub open spec fn asphalt() -> (u8, u8, u8, u8) {
    (0xa0, 0xa0, 0xa0, 0xff)
}

pub open spec fn paint() -> (u8, u8, u8, u8) {
    (0xff, 0xff, 0x00, 0xff)
}

/// The background color of column `i`, row `j`: two crossing roads over
/// sky, a solid center line on each road outside the crossing, and dashed
/// lines between lanes.
pub open spec fn background_color(i: int, j: int) -> (u8, u8, u8, u8) {
    let cw = WIDTH as int / 2;
    let ch = HEIGHT as int / 2;
    let in_vertical = cw - 50 < i < cw + 50;
    let in_horizontal = ch - 50 < j < ch + 50;
    let period = (DASH_LENGTH + GAP_LENGTH) as int;
    if !(in_vertical && in_horizontal) && ((cw - 5 < i < cw + 5) != (ch - 5 < j < ch + 5)) {
        paint()
    } else if !(in_vertical && in_horizontal) && (i == cw - 25 || i == cw + 25) && (j / period) % 2 == 0 {
        paint()
    } else if !(in_vertical && in_horizontal) && (j == ch - 25 || j == ch + 25) && (i / period) % 2 == 0 {
        paint()
    } else if in_vertical || in_horizontal {
        asphalt()
    } else {
        sky()
    }
}

/// Pixel `p` of the frame holds the given color.
pub open spec fn pixel_is(frame: Seq<u8>, p: int, c: (u8, u8, u8, u8)) -> bool {
    &&& frame[4 * p] == c.0
    &&& frame[4 * p + 1] == c.1
    &&& frame[4 * p + 2] == c.2
    &&& frame[4 * p + 3] == c.3
}

fn background_color_exec(i: usize, j: usize) -> (r: (u8, u8, u8, u8))
    requires
        i <= u32::MAX,
        j <= u32::MAX,
    ensures
        r == background_color(i as int, j as int),
{
    let cw = WIDTH as usize / 2;
    let ch = HEIGHT as usize / 2;
    let in_vertical = i < cw + 50 && i > cw - 50;
    let in_horizontal = j < ch + 50 && j > ch - 50;
    let period = DASH_LENGTH + GAP_LENGTH;
    let outside_box = !(in_vertical && in_horizontal);
    if outside_box && ((i < cw + 5 && i > cw - 5) ^ (j < ch + 5 && j > ch - 5)) {
        (0xff, 0xff, 0x00, 0xff)
    } else if outside_box && (i == cw - 25 || i == cw + 25) && (j / period) % 2 == 0 {
        (0xff, 0xff, 0x00, 0xff)
    } else if outside_box && (j == ch - 25 || j == ch + 25) && (i / period) % 2 == 0 {
        (0xff, 0xff, 0x00, 0xff)
    } else if in_vertical || in_horizontal {
        (0xa0, 0xa0, 0xa0, 0xff)
    } else {
        (0x48, 0xb2, 0xe8, 0xff)
    }
}

/// Paints the road background into a frame of `WIDTH`-pixel rows and
/// returns a copy of it.
pub fn load_background_frame(frame: &mut Vec<u8>) -> (r: Vec<u8>)
    requires
        old(frame)@.len() % 4 == 0,
        old(frame)@.len() <= u32::MAX,
    ensures
        final(frame)@.len() == old(frame)@.len(),
        forall|p: int| 0 <= p < old(frame)@.len() / 4 ==> #[trigger] pixel_is(final(frame)@, p,
            background_color(p % (WIDTH as int), p / (WIDTH as int))),
        r@ == final(frame)@,
{
    let n = frame.len() / 4;
    let mut p: usize = 0;
    while p < n
        invariant
            n == old(frame)@.len() / 4,
            frame@.len() == old(frame)@.len(),
            old(frame)@.len() % 4 == 0,
            old(frame)@.len() <= u32::MAX,
            0 <= p <= n,
            forall|q: int| 0 <= q < p ==> #[trigger] pixel_is(frame@, q,
                background_color(q % (WIDTH as int), q / (WIDTH as int))),
        decreases n - p,
    {
        let c = background_color_exec(p % WIDTH as usize, p / WIDTH as usize);
        let ghost before = frame@;
        frame.set(4 * p, c.0);
        frame.set(4 * p + 1, c.1);
        frame.set(4 * p + 2, c.2);
        frame.set(4 * p + 3, c.3);
        proof {
            assert forall|q: int| 0 <= q < p + 1 implies #[trigger] pixel_is(frame@, q,
                background_color(q % (WIDTH as int), q / (WIDTH as int))) by {
                if q < p {
                    assert(pixel_is(before, q, background_color(q % (WIDTH as int), q / (WIDTH as int))));
                }
            }
        }
        p += 1;
    }
    frame.clone()
}

} // verus!
