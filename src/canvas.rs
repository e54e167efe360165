//! A fixed-size grid of colors, and the channel bytes of its image file.
use vstd::prelude::*;
use vstd::string::StringExecFns;
use crate::color::Color;
use crate::scalar::{Scalar, SCALE};
use crate::text::{decimal, push_decimal};

verus! {

broadcast use vstd::array::group_array_axioms;

/// The message of an `IndexError` for the pixel (`x`, `y`) of a `w` by `h`
/// canvas.
pub open spec fn index_message(x: nat, y: nat, w: nat, h: nat) -> Seq<char> {
    "tried to set pixel at x="@ + decimal(x) + " and y="@ + decimal(y)
        + " for canvas with width="@ + decimal(w) + " and height="@ + decimal(h)
        + " (index out of bounds)"@
}

/// Row-major indices of earlier rows come before row `x`.
proof fn lemma_row_major(a: int, b: int, x: int, n: int)
    requires
        0 <= a < x,
        0 <= b < n,
    ensures
        0 <= a * n + b < x * n,
{
    assert(0 <= a * n + b < x * n) by (nonlinear_arith)
        requires
            0 <= a < x,
            0 <= b < n,
    ;
}

/// A pixel outside the canvas was written.
#[derive(Debug, PartialEq, Eq)]
pub struct IndexError(pub String);

/// `round(clamp(255 * v, 0, 255))` for the raw value `v`, halves rounded up.
pub open spec fn channel_byte(v: int) -> int {
    let x = 255 * v;
    if x <= 0 {
        0
    } else if x >= 255 * SCALE {
        255
    } else {
        (x + SCALE / 2) / SCALE as int
    }
}

/// The byte of one color channel in the image file.
pub fn ppm_channel(v: Scalar) -> (r: u8)
    ensures
        r == channel_byte(v@),
{
    let x: i128 = 255 * (v.raw as i128);
    if x <= 0 {
        0
    } else if x >= 255 * (SCALE as i128) {
        255
    } else {
        ((x + (SCALE as i128) / 2) / (SCALE as i128)) as u8
    }
}

/// The line of one pixel in the image file: `r g b`.
pub open spec fn ppm_line(c: (u8, u8, u8)) -> Seq<char> {
    decimal(c.0 as nat) + " "@ + decimal(c.1 as nat) + " "@ + decimal(c.2 as nat) + "\n"@
}

/// The lines of the first `k` pixels of `bytes`.
pub open spec fn ppm_body(bytes: Seq<(u8, u8, u8)>, k: nat) -> Seq<char>
    decreases k,
{
    if k == 0 {
        Seq::empty()
    } else {
        ppm_body(bytes, (k - 1) as nat) + ppm_line(bytes[k - 1])
    }
}

/// The header of a `w` by `h` image file with channels up to 255.
pub open spec fn ppm_header(w: nat, h: nat) -> Seq<char> {
    "P3\n"@ + decimal(w) + " "@ + decimal(h) + "\n255\n"@
}

/// The text of an image file: the header, then one line per pixel.
pub fn ppm_text(w: usize, h: usize, bytes: &Vec<(u8, u8, u8)>) -> (r: String)
    ensures
        r@ == ppm_header(w as nat, h as nat) + ppm_body(bytes@, bytes@.len()),
{
    proof {
        reveal_strlit("P3\n");
        reveal_strlit(" ");
        reveal_strlit("\n");
        reveal_strlit("\n255\n");
    }
    let mut s = String::from_str("P3\n");
    push_decimal(&mut s, w as u64);
    s.append(" ");
    push_decimal(&mut s, h as u64);
    s.append("\n255\n");
    let ghost header = s@;
    assert(header =~= ppm_header(w as nat, h as nat));
    let mut k: usize = 0;
    while k < bytes.len()
        invariant
            0 <= k <= bytes@.len(),
            header == ppm_header(w as nat, h as nat),
            s@ == header + ppm_body(bytes@, k as nat),
        decreases bytes@.len() - k,
    {
        let (r, g, b) = bytes[k];
        push_decimal(&mut s, r as u64);
        s.append(" ");
        push_decimal(&mut s, g as u64);
        s.append(" ");
        push_decimal(&mut s, b as u64);
        s.append("\n");
        assert(s@ =~= header + ppm_body(bytes@, (k + 1) as nat));
        k = k + 1;
    }
    s
}

/// A `W` by `H` grid of colors, black when made.
#[derive(Clone, Copy, Debug)]
pub struct Canvas<const W: usize, const H: usize> {
    data: [[Color; H]; W],
}

impl<const W: usize, const H: usize> Canvas<W, H> {
    /// The color at column `x`, row `y`.
    pub closed spec fn pixel(&self, x: int, y: int) -> Color {
        self.data@[x]@[y]
    }

    pub fn new() -> (r: Canvas<W, H>)
        ensures
            forall|x: int, y: int| 0 <= x < W && 0 <= y < H ==> #[trigger] r.pixel(x, y)@ == (0int, 0int, 0int),
    {
        let column: [Color; H] = [Color::black(); H];
        let data: [[Color; H]; W] = [column; W];
        Canvas { data }
    }

    pub fn width(&self) -> (r: usize)
        ensures
            r == W,
    {
        W
    }

    pub fn height(&self) -> (r: usize)
        ensures
            r == H,
    {
        H
    }

    /// Writes `color` at (`x`, `y`); outside the canvas nothing changes and
    /// the error says where the write went.
    pub fn set_pixel(&mut self, x: usize, y: usize, color: Color) -> (r: Result<(), IndexError>)
        ensures
            r is Ok <==> x < W && y < H,
            r is Ok ==> final(self).pixel(x as int, y as int) == color,
            forall|a: int, b: int|
                0 <= a < W && 0 <= b < H && (a != x || b != y) ==> #[trigger] final(self).pixel(a, b)
                    == old(self).pixel(a, b),
            r matches Err(e) ==> e.0@ == index_message(x as nat, y as nat, W as nat, H as nat),
    {
        if x < W && y < H {
            let mut column = self.data[x];
            column[y] = color;
            self.data[x] = column;
            Ok(())
        } else {
            let mut m = String::from_str("tried to set pixel at x=");
            push_decimal(&mut m, x as u64);
            m.append(" and y=");
            push_decimal(&mut m, y as u64);
            m.append(" for canvas with width=");
            push_decimal(&mut m, W as u64);
            m.append(" and height=");
            push_decimal(&mut m, H as u64);
            m.append(" (index out of bounds)");
            Err(IndexError(m))
        }
    }

    /// The color at (`x`, `y`), or `None` outside the canvas.
    pub fn get_pixel(&self, x: usize, y: usize) -> (r: Option<Color>)
        ensures
            r is Some <==> x < W && y < H,
            r matches Some(c) ==> c == self.pixel(x as int, y as int),
    {
        if x < W && y < H {
            Some(self.data[x][y])
        } else {
            None
        }
    }

    /// Every pixel, column by column: index `x * H + y` holds (`x`, `y`).
    pub fn pixels(&self) -> (r: Vec<Color>)
        requires
            W * H <= usize::MAX,
        ensures
            r@.len() == W * H,
            forall|x: int, y: int| 0 <= x < W && 0 <= y < H ==> #[trigger] r@[x * H + y] == self.pixel(x, y),
    {
        let mut out: Vec<Color> = Vec::new();
        let mut x: usize = 0;
        while x < W
            invariant
                W * H <= usize::MAX,
                0 <= x <= W,
                out@.len() == x * H,
                forall|a: int, b: int| 0 <= a < x && 0 <= b < H ==> #[trigger] out@[a * H + b] == self.pixel(a, b),
            decreases W - x,
        {
            let mut y: usize = 0;
            while y < H
                invariant
                    W * H <= usize::MAX,
                    0 <= x < W,
                    0 <= y <= H,
                    out@.len() == x * H + y,
                    forall|a: int, b: int| 0 <= a < x && 0 <= b < H ==> #[trigger] out@[a * H + b] == self.pixel(a, b),
                    forall|b: int| 0 <= b < y ==> #[trigger] out@[x * H + b] == self.pixel(x as int, b),
                decreases H - y,
            {
                proof {
                    assert((x + 1) * H <= W * H) by (nonlinear_arith)
                        requires
                            x < W,
                    ;
                }
                let ghost before = out@;
                out.push(self.data[x][y]);
                proof {
                    assert forall|a: int, b: int| 0 <= a < x && 0 <= b < H implies #[trigger] out@[a * H + b]
                        == self.pixel(a, b) by {
                        lemma_row_major(a, b, x as int, H as int);
                        assert(out@[a * H + b] == before[a * H + b]);
                    }
                }
                y = y + 1;
            }
            proof {
                assert(x * H + H == (x + 1) * H) by (nonlinear_arith);
            }
            x = x + 1;
        }
        out
    }

    /// The channel bytes of every pixel in the order the image file lists
    /// them: index `k` holds the pixel at column `k % W`, row `k / W`.
    pub closed spec fn ppm_bytes(&self) -> Seq<(u8, u8, u8)> {
        Seq::new(
            (W * H) as nat,
            |k: int|
                (
                    channel_byte(self.pixel(k % W as int, k / W as int).r@) as u8,
                    channel_byte(self.pixel(k % W as int, k / W as int).g@) as u8,
                    channel_byte(self.pixel(k % W as int, k / W as int).b@) as u8,
                ),
        )
    }

    /// What `ppm_bytes` holds: `W * H` entries, entry `k` being the channel
    /// bytes of the pixel at column `k % W`, row `k / W`.
    pub proof fn lemma_ppm_bytes(&self)
        ensures
            self.ppm_bytes().len() == W * H,
            forall|k: int|
                0 <= k < W * H ==> #[trigger] self.ppm_bytes()[k] == (
                    channel_byte(self.pixel(k % W as int, k / W as int).r@) as u8,
                    channel_byte(self.pixel(k % W as int, k / W as int).g@) as u8,
                    channel_byte(self.pixel(k % W as int, k / W as int).b@) as u8,
                ),
    {
    }

    /// The image file of the canvas: `P3`, the width and height, 255, and
    /// one `r g b` line per pixel, row by row from the top, each row from
    /// the left.
    pub fn to_ppm(&self) -> (r: String)
        requires
            W * H <= usize::MAX,
        ensures
            r@ == ppm_header(W as nat, H as nat) + ppm_body(self.ppm_bytes(), (W * H) as nat),
    {
        let bytes = self.ppm_pixels();
        proof {
            assert forall|k: int| 0 <= k < W * H implies #[trigger] bytes@[k] == self.ppm_bytes()[k] by {
                let x = k % W as int;
                let y = k / W as int;
                vstd::arithmetic::div_mod::lemma_fundamental_div_mod(k, W as int);
                vstd::arithmetic::div_mod::lemma_mod_pos_bound(k, W as int);
                vstd::arithmetic::div_mod::lemma_div_pos_is_pos(k, W as int);
                assert(y < H) by (nonlinear_arith)
                    requires
                        k == W * y + x,
                        0 <= x < W,
                        k < W * H,
                ;
                assert(k == y * W + x) by (nonlinear_arith)
                    requires
                        k == W * y + x,
                ;
            }
            assert(bytes@ =~= self.ppm_bytes());
        }
        ppm_text(W, H, &bytes)
    }

    /// The channel bytes of every pixel as the image file lists them: row by
    /// row from the top, each row from the left.
    pub fn ppm_pixels(&self) -> (r: Vec<(u8, u8, u8)>)
        requires
            W * H <= usize::MAX,
        ensures
            r@.len() == W * H,
            forall|x: int, y: int|
                0 <= x < W && 0 <= y < H ==> #[trigger] r@[y * W + x] == (
                    channel_byte(self.pixel(x, y).r@) as u8,
                    channel_byte(self.pixel(x, y).g@) as u8,
                    channel_byte(self.pixel(x, y).b@) as u8,
                ),
    {
        let mut out: Vec<(u8, u8, u8)> = Vec::new();
        let mut y: usize = 0;
        while y < H
            invariant
                W * H <= usize::MAX,
                0 <= y <= H,
                out@.len() == y * W,
                forall|a: int, b: int|
                    0 <= a < W && 0 <= b < y ==> #[trigger] out@[b * W + a] == (
                        channel_byte(self.pixel(a, b).r@) as u8,
                        channel_byte(self.pixel(a, b).g@) as u8,
                        channel_byte(self.pixel(a, b).b@) as u8,
                    ),
            decreases H - y,
        {
            let mut x: usize = 0;
            while x < W
                invariant
                    W * H <= usize::MAX,
                    0 <= y < H,
                    0 <= x <= W,
                    out@.len() == y * W + x,
                    forall|a: int, b: int|
                        0 <= a < W && 0 <= b < y ==> #[trigger] out@[b * W + a] == (
                            channel_byte(self.pixel(a, b).r@) as u8,
                            channel_byte(self.pixel(a, b).g@) as u8,
                            channel_byte(self.pixel(a, b).b@) as u8,
                        ),
                    forall|a: int|
                        0 <= a < x ==> #[trigger] out@[y * W + a] == (
                            channel_byte(self.pixel(a, y as int).r@) as u8,
                            channel_byte(self.pixel(a, y as int).g@) as u8,
                            channel_byte(self.pixel(a, y as int).b@) as u8,
                        ),
                decreases W - x,
            {
                proof {
                    assert((y + 1) * W <= H * W) by (nonlinear_arith)
                        requires
                            y < H,
                    ;
                    assert(H * W == W * H) by (nonlinear_arith);
                }
                let c = self.data[x][y];
                let ghost before = out@;
                out.push((ppm_channel(c.r), ppm_channel(c.g), ppm_channel(c.b)));
                proof {
                    assert forall|a: int, b: int| 0 <= a < W && 0 <= b < y implies #[trigger] out@[b * W + a]
                        == (
                        channel_byte(self.pixel(a, b).r@) as u8,
                        channel_byte(self.pixel(a, b).g@) as u8,
                        channel_byte(self.pixel(a, b).b@) as u8,
                    ) by {
                        lemma_row_major(b, a, y as int, W as int);
                        assert(out@[b * W + a] == before[b * W + a]);
                    }
                }
                x = x + 1;
            }
            proof {
                assert(y * W + W == (y + 1) * W) by (nonlinear_arith);
            }
            y = y + 1;
        }
        assert(H * W == W * H) by (nonlinear_arith);
        out
    }
}

} // verus!
