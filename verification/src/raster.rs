//! Rasters: rectangles of RGBA pixels, eight bits to the channel.
//!
//! Every image the merge engine works on is held in this one form, rows from
//! top to bottom, pixels from left to right, four bytes to the pixel. An image
//! that came without an alpha channel is opaque: its alpha bytes are 255.

use vstd::prelude::*;

verus! {

/// The number of bytes that a raster of the given size holds.
pub open spec fn byte_count(width: nat, height: nat) -> nat {
    width * height * 4
}

/// The largest number of bytes that one buffer can hold.
pub open spec fn max_buffer_bytes() -> nat {
    isize::MAX as nat
}

/// Where the byte of channel `channel` of the pixel in column `x` and row `y`
/// stands in a raster that is `width` pixels wide.
pub open spec fn byte_index(width: nat, x: int, y: int, channel: int) -> int {
    (y * width + x) * 4 + channel
}

/// What a raster is: its size and its bytes.
pub ghost struct RasterData {
    pub width: nat,
    pub height: nat,
    pub pixels: Seq<u8>,
}

impl RasterData {
    /// The bytes are as many as the size asks for.
    pub open spec fn wf(self) -> bool {
        self.pixels.len() == byte_count(self.width, self.height)
    }

    /// The byte of one channel of one pixel.
    pub open spec fn sample(self, x: int, y: int, channel: int) -> u8 {
        self.pixels[byte_index(self.width, x, y, channel)]
    }

    /// Whether `(x, y)` names a pixel of the raster.
    pub open spec fn contains(self, x: int, y: int) -> bool {
        0 <= x < self.width && 0 <= y < self.height
    }

    /// The raster of the given size whose samples are those that `f` gives.
    pub open spec fn from_samples(
        width: nat,
        height: nat,
        f: spec_fn(int, int, int) -> u8,
    ) -> RasterData {
        RasterData {
            width,
            height,
            pixels: Seq::new(
                byte_count(width, height),
                |k: int| f((k / 4) % (width as int), (k / 4) / (width as int), k % 4),
            ),
        }
    }
}

/// A raster of RGBA pixels.
#[derive(Debug)]
pub struct Raster {
    pub(crate) width: u32,
    pub(crate) height: u32,
    pub(crate) data: Vec<u8>,
}

impl View for Raster {
    type V = RasterData;

    open(crate) spec fn view(&self) -> RasterData {
        RasterData { width: self.width as nat, height: self.height as nat, pixels: self.data@ }
    }
}

/// Distinct channels of distinct pixels have distinct places, all of them
/// inside the raster's bytes.
pub proof fn lemma_byte_index(width: nat, height: nat, x: int, y: int, channel: int)
    requires
        0 <= x < width,
        0 <= y < height,
        0 <= channel < 4,
    ensures
        0 <= byte_index(width, x, y, channel) < byte_count(width, height),
        0 <= y * width <= y * width + x < width * height,
        byte_index(width, x, y, channel) / 4 == y * width + x,
        byte_index(width, x, y, channel) % 4 == channel,
        (y * width + x) / (width as int) == y,
        (y * width + x) % (width as int) == x,
{
    assert(0 <= y * width && y * width + width <= height * width) by (nonlinear_arith)
        requires
            0 <= y < height,
            0 <= width,
    ;
    assert(height * width == width * height) by (nonlinear_arith);
    let w = width as int;
    assert((y * w + x) / w == y && (y * w + x) % w == x) by (nonlinear_arith)
        requires
            0 <= x < w,
            0 <= y,
    {
        vstd::arithmetic::div_mod::lemma_fundamental_div_mod_converse(y * w + x, w, y, x);
    }
}

/// Every byte of a raster is one channel of one of its pixels.
pub proof fn lemma_byte_is_sample(width: nat, height: nat, k: int)
    requires
        0 <= k < byte_count(width, height),
    ensures
        width > 0,
        0 <= (k / 4) % (width as int) < width,
        0 <= (k / 4) / (width as int) < height,
        0 <= k % 4 < 4,
        k == byte_index(width, (k / 4) % (width as int), (k / 4) / (width as int), k % 4),
{
    let w = width as int;
    let p = k / 4;
    if width == 0 {
        assert(width * height * 4 == 0) by (nonlinear_arith)
            requires
                width == 0,
        ;
    }
    assert(0 <= p < width * height);
    vstd::arithmetic::div_mod::lemma_fundamental_div_mod(p, w);
    vstd::arithmetic::div_mod::lemma_mod_bound(p, w);
    vstd::arithmetic::div_mod::lemma_div_pos_is_pos(p, w);
    vstd::arithmetic::mul::lemma_mul_is_commutative(w, p / w);
    if p / w >= height {
        assert(w * (p / w) >= w * height) by (nonlinear_arith)
            requires
                p / w >= height,
                w > 0,
        ;
    }
}

/// Two rasters of one size with the same samples are the same raster.
pub proof fn lemma_same_samples(a: RasterData, b: RasterData)
    requires
        a.wf(),
        b.wf(),
        a.width == b.width,
        a.height == b.height,
        forall|x: int, y: int, c: int|
            a.contains(x, y) && 0 <= c < 4 ==> a.sample(x, y, c) == #[trigger] b.sample(x, y, c),
    ensures
        a == b,
{
    assert forall|k: int| 0 <= k < a.pixels.len() implies a.pixels[k] == b.pixels[k] by {
        lemma_byte_is_sample(a.width, a.height, k);
        let x = (k / 4) % (a.width as int);
        let y = (k / 4) / (a.width as int);
        assert(a.sample(x, y, k % 4) == b.sample(x, y, k % 4));
    }
    assert(a.pixels =~= b.pixels);
}

/// A raster made from samples has those samples.
pub proof fn lemma_from_samples(width: nat, height: nat, f: spec_fn(int, int, int) -> u8)
    ensures
        RasterData::from_samples(width, height, f).wf(),
        forall|x: int, y: int, c: int|
            0 <= x < width && 0 <= y < height && 0 <= c < 4 ==> #[trigger] RasterData::from_samples(
                width,
                height,
                f,
            ).sample(x, y, c) == f(x, y, c),
{
    let r = RasterData::from_samples(width, height, f);
    assert forall|x: int, y: int, c: int| 0 <= x < width && 0 <= y < height && 0 <= c < 4 implies
        #[trigger] r.sample(x, y, c) == f(x, y, c) by {
        lemma_byte_index(width, height, x, y, c);
    }
}

/// The size in bytes of a raster of the given size, where one buffer can
/// hold it.
pub fn byte_len(width: u32, height: u32) -> (len: Option<usize>)
    ensures
        match len {
            Some(n) => n == byte_count(width as nat, height as nat) && n <= max_buffer_bytes(),
            None => byte_count(width as nat, height as nat) > max_buffer_bytes(),
        },
{
    assert(width * height <= 0xffff_ffff * 0xffff_ffff) by (nonlinear_arith)
        requires
            0 <= width <= 0xffff_ffff,
            0 <= height <= 0xffff_ffff,
    ;
    let pixels: u128 = (width as u128) * (height as u128);
    let bytes: u128 = pixels * 4;
    if bytes <= isize::MAX as u128 {
        Some(bytes as usize)
    } else {
        None
    }
}

impl Clone for Raster {
    fn clone(&self) -> (r: Raster)
        ensures
            r@ == self@,
    {
        Raster { width: self.width, height: self.height, data: self.data.clone() }
    }
}

impl Raster {
    /// A raster of the given size, every pixel transparent black.
    pub fn new(width: u32, height: u32) -> (r: Raster)
        requires
            byte_count(width as nat, height as nat) <= max_buffer_bytes(),
        ensures
            r@.wf(),
            r@.width == width,
            r@.height == height,
            forall|i: int| 0 <= i < r@.pixels.len() ==> r@.pixels[i] == 0,
    {
        let len = byte_len(width, height);
        let n: usize = match len {
            Some(n) => n,
            None => 0,
        };
        let data: Vec<u8> = vec![0u8; n];
        Raster { width, height, data }
    }

    /// The raster of the given size that holds the bytes `data`, where they
    /// are as many as that size asks for.
    pub fn from_raw(width: u32, height: u32, data: Vec<u8>) -> (r: Option<Raster>)
        ensures
            r is Some <==> data@.len() == byte_count(width as nat, height as nat),
            r matches Some(raster) ==> raster@ == (RasterData {
                width: width as nat,
                height: height as nat,
                pixels: data@,
            }),
    {
        assert(width * height <= 0xffff_ffff * 0xffff_ffff) by (nonlinear_arith)
            requires
                0 <= width <= 0xffff_ffff,
                0 <= height <= 0xffff_ffff,
        ;
        let wanted: u128 = (width as u128) * (height as u128) * 4;
        if data.len() as u128 == wanted {
            Some(Raster { width, height, data })
        } else {
            None
        }
    }

    /// The width in pixels.
    pub fn width(&self) -> (w: u32)
        ensures
            w == self@.width,
    {
        self.width
    }

    /// The height in pixels.
    pub fn height(&self) -> (h: u32)
        ensures
            h == self@.height,
    {
        self.height
    }

    /// The bytes, row by row.
    pub fn as_raw(&self) -> (bytes: &Vec<u8>)
        ensures
            bytes@ == self@.pixels,
    {
        &self.data
    }

    /// The bytes, row by row.
    pub fn into_raw(self) -> (bytes: Vec<u8>)
        ensures
            bytes@ == self@.pixels,
    {
        self.data
    }

    /// The pixel in column `x` of row `y`.
    pub fn get_pixel(&self, x: u32, y: u32) -> (pixel: [u8; 4])
        requires
            self@.wf(),
            self@.contains(x as int, y as int),
        ensures
            forall|c: int| 0 <= c < 4 ==> pixel[c] == self@.sample(x as int, y as int, c),
    {
        proof {
            lemma_byte_index(self@.width, self@.height, x as int, y as int, 0);
            lemma_byte_index(self@.width, self@.height, x as int, y as int, 3);
        }
        let len: usize = self.data.len();
        let base: usize = (y as usize * self.width as usize + x as usize) * 4;
        assert(base + 4 <= len);
        [self.data[base], self.data[base + 1], self.data[base + 2], self.data[base + 3]]
    }

    /// Sets the pixel in column `x` of row `y`, and no other.
    pub fn put_pixel(&mut self, x: u32, y: u32, pixel: [u8; 4])
        requires
            old(self)@.wf(),
            old(self)@.contains(x as int, y as int),
        ensures
            final(self)@.wf(),
            final(self)@.width == old(self)@.width,
            final(self)@.height == old(self)@.height,
            forall|c: int|
                0 <= c < 4 ==> #[trigger] final(self)@.sample(x as int, y as int, c) == pixel[c],
            forall|x2: int, y2: int, c: int|
                old(self)@.contains(x2, y2) && 0 <= c < 4 && (x2 != x || y2 != y)
                    ==> #[trigger] final(self)@.sample(x2, y2, c) == old(self)@.sample(x2, y2, c),
    {
        proof {
            lemma_byte_index(self@.width, self@.height, x as int, y as int, 0);
            lemma_byte_index(self@.width, self@.height, x as int, y as int, 3);
        }
        let ghost before = self@;
        let len: usize = self.data.len();
        let base: usize = (y as usize * self.width as usize + x as usize) * 4;
        assert(base + 4 <= len);
        self.data[base] = pixel[0];
        self.data[base + 1] = pixel[1];
        self.data[base + 2] = pixel[2];
        self.data[base + 3] = pixel[3];
        proof {
            assert forall|x2: int, y2: int, c: int|
                before.contains(x2, y2) && 0 <= c < 4 && (x2 != x || y2 != y) implies #[trigger] self@.sample(
                x2,
                y2,
                c,
            ) == before.sample(x2, y2, c) by {
                lemma_byte_index(before.width, before.height, x2, y2, c);
            }
        }
    }

    /// Copies the whole of `tile` into the raster, the tile's first pixel
    /// going to column `left` of row `top`. Nothing outside that block changes.
    pub fn copy_from(&mut self, tile: &Raster, left: u32, top: u32)
        requires
            old(self)@.wf(),
            tile@.wf(),
            left + tile@.width <= old(self)@.width,
            top + tile@.height <= old(self)@.height,
        ensures
            final(self)@.wf(),
            final(self)@.width == old(self)@.width,
            final(self)@.height == old(self)@.height,
            forall|x: int, y: int, c: int|
                tile@.contains(x, y) && 0 <= c < 4 ==> #[trigger] final(self)@.sample(
                    left + x,
                    top + y,
                    c,
                ) == tile@.sample(x, y, c),
            forall|x: int, y: int, c: int|
                old(self)@.contains(x, y) && 0 <= c < 4 && !tile@.contains(x - left, y - top)
                    ==> #[trigger] final(self)@.sample(x, y, c) == old(self)@.sample(x, y, c),
    {
        let ghost before = self@;
        let mut y: u32 = 0;
        while y < tile.height
            invariant
                y <= tile.height,
                self@.wf(),
                tile@.wf(),
                self@.width == before.width,
                self@.height == before.height,
                left + tile@.width <= before.width,
                top + tile@.height <= before.height,
                forall|x2: int, y2: int, c: int|
                    tile@.contains(x2, y2) && y2 < y && 0 <= c < 4 ==> #[trigger] self@.sample(
                        left + x2,
                        top + y2,
                        c,
                    ) == tile@.sample(x2, y2, c),
                forall|x2: int, y2: int, c: int|
                    before.contains(x2, y2) && 0 <= c < 4 && !(tile@.contains(x2 - left, y2 - top)
                        && y2 - top < y) ==> #[trigger] self@.sample(x2, y2, c) == before.sample(
                        x2,
                        y2,
                        c,
                    ),
            decreases tile.height - y,
        {
            let mut x: u32 = 0;
            while x < tile.width
                invariant
                    x <= tile.width,
                    y < tile.height,
                    self@.wf(),
                    tile@.wf(),
                    self@.width == before.width,
                    self@.height == before.height,
                    left + tile@.width <= before.width,
                    top + tile@.height <= before.height,
                    forall|x2: int, y2: int, c: int|
                        tile@.contains(x2, y2) && (y2 < y || (y2 == y && x2 < x)) && 0 <= c < 4
                            ==> #[trigger] self@.sample(left + x2, top + y2, c) == tile@.sample(
                            x2,
                            y2,
                            c,
                        ),
                    forall|x2: int, y2: int, c: int|
                        before.contains(x2, y2) && 0 <= c < 4 && !(tile@.contains(
                            x2 - left,
                            y2 - top,
                        ) && (y2 - top < y || (y2 - top == y && x2 - left < x)))
                            ==> #[trigger] self@.sample(x2, y2, c) == before.sample(x2, y2, c),
                decreases tile.width - x,
            {
                let pixel = tile.get_pixel(x, y);
                let ghost mid = self@;
                self.put_pixel(left + x, top + y, pixel);
                proof {
                    assert forall|x2: int, y2: int, c: int|
                        tile@.contains(x2, y2) && (y2 < y || (y2 == y && x2 < x + 1)) && 0 <= c
                            < 4 implies #[trigger] self@.sample(left + x2, top + y2, c)
                        == tile@.sample(x2, y2, c) by {
                        if x2 == x && y2 == y {
                        } else {
                            assert(mid.sample(left + x2, top + y2, c) == tile@.sample(x2, y2, c));
                        }
                    }
                }
                x = x + 1;
            }
            y = y + 1;
        }
    }
}

} // verus!
