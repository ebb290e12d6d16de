//! Conversion of an RGB canvas into a 1-bit monochrome bitmap by
//! deterministic two-level error diffusion.
//!
//! Each pixel's gray value (the mean of its three channels) plus the error
//! carried from its left neighbour is thresholded at 128: below the
//! threshold the pixel prints black, otherwise white.  The rounding error is
//! carried to the next pixel of the same row; rows start with no carry.
//! The transform is a pure function of the input canvas: the same canvas
//! always gives the bit-identical bitmap.

use vstd::prelude::*;

verus! {

/// A raster canvas for the 384-pixel print head: RGB, row-major, three bytes
/// per pixel, every row exactly 384 pixels wide.
pub struct Canvas {
    /// Number of pixel rows.
    pub height: usize,
    /// RGB bytes, `3 * 384 * height` of them.
    pub pixels: Vec<u8>,
}

impl Canvas {
    /// The canvas holds exactly its `384 x height` pixels.
    pub open spec fn wf(&self) -> bool {
        self.pixels@.len() == 1152 * self.height
    }

    /// An all-white canvas of the given height.
    pub fn white(height: usize) -> (r: Canvas)
        requires
            1152 * height <= usize::MAX,
        ensures
            r.wf(),
            r.height == height,
            forall|i: int| 0 <= i < 1152 * height ==> r.pixels@[i] == 255u8,
    {
        let mut pixels: Vec<u8> = Vec::new();
        let total: usize = 1152 * height;
        let mut i: usize = 0;
        while i < total
            invariant
                i <= total,
                pixels@.len() == i,
                forall|j: int| 0 <= j < i ==> pixels@[j] == 255u8,
            decreases total - i,
        {
            pixels.push(255);
            i = i + 1;
        }
        Canvas { height, pixels }
    }

    /// Wraps raw RGB bytes as a canvas; succeeds exactly when the byte count
    /// matches `3 * 384 * height`.
    pub fn from_pixels(height: usize, pixels: Vec<u8>) -> (r: Option<Canvas>)
        ensures
            r is Some <==> pixels@.len() == 1152 * height,
            r is Some ==> r->0.wf() && r->0.height == height && r->0.pixels@ == pixels@,
    {
        let n = pixels.len();
        if height <= usize::MAX / 1152 && n == 1152 * height {
            Some(Canvas { height, pixels })
        } else {
            proof {
                if pixels@.len() == 1152 * height {
                    assert(n as int == 1152 * height);
                    assert(height <= usize::MAX / 1152) by (nonlinear_arith)
                        requires
                            1152 * (height as int) <= usize::MAX as int,
                    ;
                    assert(false);
                }
            }
            None
        }
    }
}

/// A packed 1-bit-per-pixel bitmap, 384 pixels (48 bytes) per row,
/// row-major, 8 pixels per byte, leftmost pixel in the highest bit.
/// A set bit prints black.
pub struct MonochromeBitmap {
    /// Number of pixel rows, equal to the source canvas height.
    pub height: usize,
    /// Packed rows, `48 * height` bytes.
    pub data: Vec<u8>,
}

impl MonochromeBitmap {
    /// The bitmap holds exactly its `48 x height` packed bytes.
    pub open spec fn wf(&self) -> bool {
        self.data@.len() == 48 * self.height
    }
}

/// `2^n`.
pub open spec fn two_pow(n: nat) -> nat
    decreases n,
{
    if n == 0 {
        1
    } else {
        2 * two_pow((n - 1) as nat)
    }
}

/// The byte packing a run of bits, first bit highest.
pub open spec fn bits_to_byte(bits: Seq<bool>) -> int
    decreases bits.len(),
{
    if bits.len() == 0 {
        0
    } else {
        2 * bits_to_byte(bits.drop_last()) + if bits.last() {
            1int
        } else {
            0int
        }
    }
}

/// Whether bit `j` (counting from the highest) of a packed byte is set.
pub open spec fn bit_at(b: u8, j: int) -> bool {
    (b >> ((7 - j) as u8)) & 1 == 1
}

/// Gray value of pixel `pi`: the mean of its three channels.
pub open spec fn gray_at(pixels: Seq<u8>, pi: int) -> int {
    ((pixels[3 * pi] as int) + (pixels[3 * pi + 1] as int) + (pixels[3 * pi + 2] as int)) / 3
}

/// Error left behind after deciding one pixel: the distance of the adjusted
/// gray from the level that was chosen (0 for black, 255 for white).
pub open spec fn diffuse_err(g: int, carry: int) -> int {
    if g + carry >= 128 {
        g + carry - 255
    } else {
        g + carry
    }
}

/// Error carried into column `k` of a row; a row starts with no carry.
pub open spec fn carry_at(pixels: Seq<u8>, row: int, k: int) -> int
    decreases k,
{
    if k <= 0 {
        0
    } else {
        diffuse_err(gray_at(pixels, row * 384 + (k - 1)), carry_at(pixels, row, k - 1))
    }
}

/// Whether column `k` of a row dithers to black: adjusted gray below the
/// 128 threshold.
pub open spec fn black_at(pixels: Seq<u8>, row: int, k: int) -> bool {
    gray_at(pixels, row * 384 + k) + carry_at(pixels, row, k) < 128
}

/// The eight dithered bits packed into byte `k` of a row.
pub open spec fn row_byte(pixels: Seq<u8>, row: int, k: int) -> int {
    bits_to_byte(Seq::new(8, |t: int| black_at(pixels, row, 8 * k + t)))
}

/// The packed bytes of the dithered bitmap for a canvas' pixels.
pub open spec fn dither_spec(pixels: Seq<u8>, height: int) -> Seq<u8> {
    Seq::new((48 * height) as nat, |i: int| row_byte(pixels, i / 48, i % 48) as u8)
}

/// The RGB pixels of a bitmap rendered back onto a canvas: black for a set
/// bit, white otherwise.
pub open spec fn bilevel_spec(data: Seq<u8>, height: int) -> Seq<u8> {
    Seq::new(
        (1152 * height) as nat,
        |n: int|
            if bit_at(data[(n / 3) / 8], (n / 3) % 8) {
                0u8
            } else {
                255u8
            },
    )
}

proof fn lemma_bits_to_byte_bound(bits: Seq<bool>)
    ensures
        0 <= bits_to_byte(bits) < two_pow(bits.len()),
    decreases bits.len(),
{
    if bits.len() > 0 {
        lemma_bits_to_byte_bound(bits.drop_last());
    }
}

proof fn lemma_two_pow_small()
    ensures
        two_pow(0) == 1,
        two_pow(1) == 2,
        two_pow(2) == 4,
        two_pow(3) == 8,
        two_pow(4) == 16,
        two_pow(5) == 32,
        two_pow(6) == 64,
        two_pow(7) == 128,
        two_pow(8) == 256,
{
    reveal_with_fuel(two_pow, 10);
}

/// The packed byte of eight bits written as a weighted sum.
proof fn lemma_bits_linear(bits: Seq<bool>)
    requires
        bits.len() == 8,
    ensures
        bits_to_byte(bits) == 128 * bit_int(bits[0]) + 64 * bit_int(bits[1]) + 32 * bit_int(
            bits[2],
        ) + 16 * bit_int(bits[3]) + 8 * bit_int(bits[4]) + 4 * bit_int(bits[5]) + 2 * bit_int(
            bits[6],
        ) + bit_int(bits[7]),
{
    let s7 = bits.drop_last();
    let s6 = s7.drop_last();
    let s5 = s6.drop_last();
    let s4 = s5.drop_last();
    let s3 = s4.drop_last();
    let s2 = s3.drop_last();
    let s1 = s2.drop_last();
    let s0 = s1.drop_last();
    assert(bits_to_byte(bits) == 2 * bits_to_byte(s7) + bit_int(bits[7]));
    assert(bits_to_byte(s7) == 2 * bits_to_byte(s6) + bit_int(bits[6]));
    assert(bits_to_byte(s6) == 2 * bits_to_byte(s5) + bit_int(bits[5]));
    assert(bits_to_byte(s5) == 2 * bits_to_byte(s4) + bit_int(bits[4]));
    assert(bits_to_byte(s4) == 2 * bits_to_byte(s3) + bit_int(bits[3]));
    assert(bits_to_byte(s3) == 2 * bits_to_byte(s2) + bit_int(bits[2]));
    assert(bits_to_byte(s2) == 2 * bits_to_byte(s1) + bit_int(bits[1]));
    assert(bits_to_byte(s1) == 2 * bits_to_byte(s0) + bit_int(bits[0]));
    assert(bits_to_byte(s0) == 0);
}

/// 1 for a set bit, 0 for a clear one.
pub open spec fn bit_int(b: bool) -> int {
    if b {
        1
    } else {
        0
    }
}

/// Unpacking a packed byte gives the bits back.
proof fn lemma_byte_bits(bits: Seq<bool>)
    requires
        bits.len() == 8,
    ensures
        forall|j: int| 0 <= j < 8 ==> bit_at(bits_to_byte(bits) as u8, j) == bits[j],
{
    lemma_bits_linear(bits);
    lemma_bits_to_byte_bound(bits);
    lemma_two_pow_small();
    let b0: u8 = if bits[0] {
        1
    } else {
        0
    };
    let b1: u8 = if bits[1] {
        1
    } else {
        0
    };
    let b2: u8 = if bits[2] {
        1
    } else {
        0
    };
    let b3: u8 = if bits[3] {
        1
    } else {
        0
    };
    let b4: u8 = if bits[4] {
        1
    } else {
        0
    };
    let b5: u8 = if bits[5] {
        1
    } else {
        0
    };
    let b6: u8 = if bits[6] {
        1
    } else {
        0
    };
    let b7: u8 = if bits[7] {
        1
    } else {
        0
    };
    let x: u8 = bits_to_byte(bits) as u8;
    assert(x == 128 * b0 + 64 * b1 + 32 * b2 + 16 * b3 + 8 * b4 + 4 * b5 + 2 * b6 + b7);
    assert((((x >> 7u8) & 1 == 1) <==> b0 == 1) && (((x >> 6u8) & 1 == 1) <==> b1 == 1) && (((x
        >> 5u8) & 1 == 1) <==> b2 == 1) && (((x >> 4u8) & 1 == 1) <==> b3 == 1) && (((x >> 3u8) & 1
        == 1) <==> b4 == 1) && (((x >> 2u8) & 1 == 1) <==> b5 == 1) && (((x >> 1u8) & 1 == 1) <==>
        b6 == 1) && (((x >> 0u8) & 1 == 1) <==> b7 == 1)) by (bit_vector)
        requires
            x == 128 * b0 + 64 * b1 + 32 * b2 + 16 * b3 + 8 * b4 + 4 * b5 + 2 * b6 + b7,
            b0 <= 1 && b1 <= 1 && b2 <= 1 && b3 <= 1 && b4 <= 1 && b5 <= 1 && b6 <= 1 && b7 <= 1,
    ;
    assert forall|j: int| 0 <= j < 8 implies bit_at(x, j) == bits[j] by {
        if j == 0 {
            assert((7 - j) as u8 == 7u8);
        } else if j == 1 {
            assert((7 - j) as u8 == 6u8);
        } else if j == 2 {
            assert((7 - j) as u8 == 5u8);
        } else if j == 3 {
            assert((7 - j) as u8 == 4u8);
        } else if j == 4 {
            assert((7 - j) as u8 == 3u8);
        } else if j == 5 {
            assert((7 - j) as u8 == 2u8);
        } else if j == 6 {
            assert((7 - j) as u8 == 1u8);
        } else {
            assert((7 - j) as u8 == 0u8);
        }
    }
}

/// Dithers a canvas into its monochrome bitmap.  The result is fully
/// determined by the input pixels: dithering is deterministic.
pub fn dither(c: &Canvas) -> (r: MonochromeBitmap)
    requires
        c.wf(),
    ensures
        r.wf(),
        r.height == c.height,
        r.data@ == dither_spec(c.pixels@, c.height as int),
{
    let h = c.height;
    let plen = c.pixels.len();
    let ghost goal = dither_spec(c.pixels@, c.height as int);
    let mut data: Vec<u8> = Vec::new();
    let mut row: usize = 0;
    while row < h
        invariant
            row <= h,
            c.wf(),
            h == c.height,
            plen as int == 1152 * h as int,
            goal == dither_spec(c.pixels@, c.height as int),
            data@ =~= goal.subrange(0, 48 * row as int),
        decreases h - row,
    {
        let mut carry: i32 = 0;
        let mut k: usize = 0;
        while k < 48
            invariant
                k <= 48,
                row < h,
                c.wf(),
                h == c.height,
                plen as int == 1152 * h as int,
                goal == dither_spec(c.pixels@, c.height as int),
                -127 <= carry <= 127,
                carry as int == carry_at(c.pixels@, row as int, 8 * k as int),
                data@ =~= goal.subrange(0, 48 * row as int + k as int),
            decreases 48 - k,
        {
            let mut byte: u8 = 0;
            let ghost bits = Seq::new(8, |t: int| black_at(c.pixels@, row as int, 8 * k + t));
            let mut t: usize = 0;
            while t < 8
                invariant
                    t <= 8,
                    row < h,
                    k < 48,
                    c.wf(),
                    h == c.height,
                    plen as int == 1152 * h as int,
                    bits == Seq::new(8, |u: int| black_at(c.pixels@, row as int, 8 * k + u)),
                    -127 <= carry <= 127,
                    carry as int == carry_at(c.pixels@, row as int, 8 * k as int + t as int),
                    byte as int == bits_to_byte(bits.subrange(0, t as int)),
                decreases 8 - t,
            {
                let col: usize = 8 * k + t;
                proof {
                    assert(384 * (row as int) + (col as int) < 384 * (h as int))
                        by (nonlinear_arith)
                        requires
                            (row as int) < (h as int),
                            (col as int) < 384,
                    ;
                    assert(3 * (384 * (h as int)) == 1152 * (h as int));
                }
                let pi: usize = 384 * row + col;
                let base: usize = 3 * pi;
                let g: u32 = (c.pixels[base] as u32 + c.pixels[base + 1] as u32 + c.pixels[base + 2]
                    as u32) / 3;
                proof {
                    assert(g as int == gray_at(c.pixels@, pi as int));
                    assert(g <= 255);
                }
                let adj: i32 = g as i32 + carry;
                let black = adj < 128;
                if black {
                    carry = adj;
                } else {
                    carry = adj - 255;
                }
                proof {
                    assert(carry_at(c.pixels@, row as int, 8 * k as int + t as int + 1)
                        == diffuse_err(
                        gray_at(c.pixels@, row as int * 384 + (8 * k as int + t as int)),
                        carry_at(c.pixels@, row as int, 8 * k as int + t as int),
                    ));
                    assert(bits[t as int] == black_at(c.pixels@, row as int, 8 * k as int + t as int));
                    assert(bits[t as int] == black);
                    lemma_bits_to_byte_bound(bits.subrange(0, t as int));
                    lemma_two_pow_small();
                    if (t as int) < 7 {
                        assert(two_pow((t as int) as nat) <= two_pow(7)) by {
                            lemma_two_pow_mono((t as int) as nat, 7nat);
                        }
                    }
                }
                let bv: u8 = if black {
                    1
                } else {
                    0
                };
                byte = byte * 2 + bv;
                proof {
                    assert(bits.subrange(0, t as int + 1).drop_last() =~= bits.subrange(
                        0,
                        t as int,
                    ));
                    assert(bits.subrange(0, t as int + 1).last() == bits[t as int]);
                }
                t = t + 1;
            }
            proof {
                assert(bits.subrange(0, 8) =~= bits);
                assert(byte as int == row_byte(c.pixels@, row as int, k as int));
                let i: int = 48 * row as int + k as int;
                vstd::arithmetic::div_mod::lemma_fundamental_div_mod_converse(
                    i,
                    48,
                    row as int,
                    k as int,
                );
                assert(goal[i] == byte);
            }
            data.push(byte);
            proof {
                assert(data@ =~= goal.subrange(0, 48 * row as int + k as int + 1));
            }
            k = k + 1;
        }
        row = row + 1;
        proof {
            assert(data@ =~= goal.subrange(0, 48 * row as int));
        }
    }
    proof {
        assert(data@ =~= goal);
    }
    MonochromeBitmap { height: h, data }
}

proof fn lemma_two_pow_mono(a: nat, b: nat)
    requires
        a <= b,
    ensures
        two_pow(a) <= two_pow(b),
    decreases b,
{
    if a < b {
        lemma_two_pow_mono(a, (b - 1) as nat);
        assert(two_pow(b) == 2 * two_pow((b - 1) as nat));
    }
}

/// Renders a bitmap back onto a canvas: black pixels for set bits, white for
/// clear ones.  Feeding the result to `dither` gives the same bitmap again.
pub fn to_canvas(bm: &MonochromeBitmap) -> (r: Canvas)
    requires
        bm.wf(),
        1152 * bm.height <= usize::MAX,
    ensures
        r.wf(),
        r.height == bm.height,
        r.pixels@ == bilevel_spec(bm.data@, bm.height as int),
{
    let h = bm.height;
    let ghost goal = bilevel_spec(bm.data@, bm.height as int);
    let mut pixels: Vec<u8> = Vec::new();
    let mut pi: usize = 0;
    let total: usize = 384 * h;
    while pi < total
        invariant
            pi <= total,
            total == 384 * h,
            bm.wf(),
            h == bm.height,
            goal == bilevel_spec(bm.data@, bm.height as int),
            pixels@ =~= goal.subrange(0, 3 * pi as int),
        decreases total - pi,
    {
        let byte = bm.data[pi / 8];
        let j: usize = pi % 8;
        let sh: u8 = (7 - j) as u8;
        let v: u8 = if (byte >> sh) & 1 == 1 {
            0
        } else {
            255
        };
        proof {
            let n: int = 3 * pi as int;
            vstd::arithmetic::div_mod::lemma_fundamental_div_mod_converse(n, 3, pi as int, 0);
            vstd::arithmetic::div_mod::lemma_fundamental_div_mod_converse(n + 1, 3, pi as int, 1);
            vstd::arithmetic::div_mod::lemma_fundamental_div_mod_converse(n + 2, 3, pi as int, 2);
            assert((7 - j as int) as u8 == sh);
            assert(goal[n] == v && goal[n + 1] == v && goal[n + 2] == v);
        }
        pixels.push(v);
        pixels.push(v);
        pixels.push(v);
        pi = pi + 1;
        proof {
            assert(pixels@ =~= goal.subrange(0, 3 * pi as int));
        }
    }
    proof {
        assert(pixels@ =~= goal);
    }
    Canvas { height: h, pixels }
}

/// In a row whose gray values are all 0 or 255 no error is ever carried.
proof fn lemma_carry_bilevel(pixels: Seq<u8>, row: int, k: int)
    requires
        forall|j: int|
            0 <= j < k ==> #[trigger] gray_at(pixels, row * 384 + j) == 0 || gray_at(
                pixels,
                row * 384 + j,
            ) == 255,
    ensures
        carry_at(pixels, row, k) == 0,
    decreases k,
{
    if k > 0 {
        lemma_carry_bilevel(pixels, row, k - 1);
    }
}

/// Gray value a rendered bitmap pixel shows for a given source column.
proof fn lemma_bilevel_gray(pixels: Seq<u8>, height: int, row: int, m: int)
    requires
        0 <= row < height,
        0 <= m < 384,
        pixels.len() == 1152 * height,
    ensures
        gray_at(bilevel_spec(dither_spec(pixels, height), height), row * 384 + m) == if black_at(
            pixels,
            row,
            m,
        ) {
            0int
        } else {
            255int
        },
{
    let d1 = dither_spec(pixels, height);
    let p2 = bilevel_spec(d1, height);
    let pi = row * 384 + m;
    let k = m / 8;
    let j = m % 8;
    vstd::arithmetic::div_mod::lemma_fundamental_div_mod(m, 8);
    assert(0 <= k < 48 && 0 <= j < 8);
    vstd::arithmetic::div_mod::lemma_fundamental_div_mod_converse(pi, 8, 48 * row + k, j);
    assert(pi / 8 == 48 * row + k && pi % 8 == j);
    vstd::arithmetic::div_mod::lemma_fundamental_div_mod_converse(48 * row + k, 48, row, k);
    assert(d1[48 * row + k] == row_byte(pixels, row, k) as u8);
    let bits = Seq::new(8, |t: int| black_at(pixels, row, 8 * k + t));
    lemma_bits_to_byte_bound(bits);
    lemma_two_pow_small();
    lemma_byte_bits(bits);
    assert(bit_at(d1[pi / 8], pi % 8) == bits[j]);
    assert(8 * k + j == m);
    assert(bits[j] == black_at(pixels, row, m));
    let n = 3 * pi;
    vstd::arithmetic::div_mod::lemma_fundamental_div_mod_converse(n, 3, pi, 0);
    vstd::arithmetic::div_mod::lemma_fundamental_div_mod_converse(n + 1, 3, pi, 1);
    vstd::arithmetic::div_mod::lemma_fundamental_div_mod_converse(n + 2, 3, pi, 2);
    assert(n + 2 < 1152 * height);
    if black_at(pixels, row, m) {
        assert(p2[n] == 0u8 && p2[n + 1] == 0u8 && p2[n + 2] == 0u8);
    } else {
        assert(p2[n] == 255u8 && p2[n + 1] == 255u8 && p2[n + 2] == 255u8);
    }
}

/// Idempotence law: dithering a canvas, rendering the bitmap back to a
/// (now bilevel) canvas and dithering again gives the same bitmap unchanged.
pub proof fn lemma_dither_idempotent(pixels: Seq<u8>, height: int)
    requires
        height >= 0,
        pixels.len() == 1152 * height,
    ensures
        dither_spec(bilevel_spec(dither_spec(pixels, height), height), height) == dither_spec(
            pixels,
            height,
        ),
{
    let d1 = dither_spec(pixels, height);
    let p2 = bilevel_spec(d1, height);
    let d2 = dither_spec(p2, height);
    assert forall|i: int| 0 <= i < 48 * height implies d2[i] == d1[i] by {
        vstd::arithmetic::div_mod::lemma_fundamental_div_mod(i, 48);
        let row = i / 48;
        let k = i % 48;
        assert(48 * row <= i);
        assert(row < height) by (nonlinear_arith)
            requires
                48 * row + k == i,
                0 <= k < 48,
                i < 48 * height,
        ;
        assert(row >= 0) by (nonlinear_arith)
            requires
                48 * row + k == i,
                0 <= k < 48,
                i >= 0,
        ;
        assert forall|m: int| 0 <= m < 384 implies gray_at(p2, row * 384 + m) == (if black_at(
            pixels,
            row,
            m,
        ) {
            0int
        } else {
            255int
        }) by {
            lemma_bilevel_gray(pixels, height, row, m);
        }
        assert forall|m: int| 0 <= m < 384 implies black_at(p2, row, m) == black_at(
            pixels,
            row,
            m,
        ) by {
            lemma_carry_bilevel(p2, row, m);
            assert(carry_at(p2, row, m) == 0);
        }
        let bits1 = Seq::new(8, |t: int| black_at(pixels, row, 8 * k + t));
        let bits2 = Seq::new(8, |t: int| black_at(p2, row, 8 * k + t));
        assert forall|t: int| 0 <= t < 8 implies bits2[t] == bits1[t] by {
            assert(0 <= 8 * k + t < 384);
        }
        assert(bits2 =~= bits1);
        assert(d2[i] == row_byte(p2, row, k) as u8);
        assert(d1[i] == row_byte(pixels, row, k) as u8);
    }
    assert(d2 =~= d1);
}

} // verus!
