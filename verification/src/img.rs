//! RGBA pixel buffers.
//!
//! `Image` is the crate's own pixel-buffer type: a row-major RGBA byte
//! buffer with a width and a height. All pixel access is bounds checked and
//! specified pixel-by-pixel through [`Image::pix`].

use vstd::prelude::*;

verus! {

/// One RGBA pixel.
#[derive(Clone, Copy, Debug, PartialEq, Eq, Structural)]
pub struct Pix {
    pub r: u8,
    pub g: u8,
    pub b: u8,
    pub a: u8,
}

impl Pix {
    /// The fully transparent pixel: all channels zero.
    pub open spec fn transparent() -> Pix {
        Pix { r: 0, g: 0, b: 0, a: 0 }
    }
}

/// A decoded RGBA image: `width * height` pixels stored row-major, four
/// bytes per pixel.
pub struct Image {
    pub width: u32,
    pub height: u32,
    pub data: Vec<u8>,
}

impl Image {
    /// Well-formedness: the byte buffer holds exactly four bytes per pixel.
    pub open spec fn wf(self) -> bool {
        self.data@.len() == 4 * self.width * self.height
    }

    /// The pixel at column `x`, row `y` (only meaningful in bounds on a
    /// well-formed image).
    pub open spec fn pix(self, x: int, y: int) -> Pix {
        let base = 4 * (y * self.width + x);
        Pix {
            r: self.data@[base],
            g: self.data@[base + 1],
            b: self.data@[base + 2],
            a: self.data@[base + 3],
        }
    }

    /// A fresh, fully transparent image.
    pub fn new(width: u32, height: u32) -> (r: Image)
        requires
            4 * width * height <= usize::MAX,
        ensures
            r.wf(),
            r.width == width,
            r.height == height,
            forall|x: int, y: int|
                0 <= x < width && 0 <= y < height ==> r.pix(x, y) == Pix::transparent(),
    {
        proof {
            assert(width * height * 4 == 4 * width * height) by (nonlinear_arith);
            assert(width * height <= 4 * width * height) by (nonlinear_arith);
        }
        let len: usize = (width as usize) * (height as usize) * 4;
        let mut data: Vec<u8> = Vec::new();
        let mut i: usize = 0;
        while i < len
            invariant
                i <= len,
                data@.len() == i,
                forall|j: int| 0 <= j < i ==> data@[j] == 0u8,
            decreases len - i,
        {
            data.push(0u8);
            i = i + 1;
        }
        let r = Image { width, height, data };
        proof {
            assert forall|x: int, y: int|
                0 <= x < width && 0 <= y < height
                    implies r.pix(x, y) == Pix::transparent() by {
                lemma_pix_base_in_bounds(width as int, height as int, x, y);
            }
        }
        r
    }

    /// Byte index of the first channel of pixel (`x`, `y`).
    fn pix_base(&self, x: u32, y: u32) -> (base: usize)
        requires
            self.wf(),
            x < self.width,
            y < self.height,
        ensures
            base == 4 * (y * self.width + x),
            base + 3 < self.data@.len(),
    {
        let n = self.data.len();
        proof {
            lemma_pix_base_in_bounds(
                self.width as int, self.height as int, x as int, y as int,
            );
        }
        4 * ((y as usize) * (self.width as usize) + (x as usize))
    }

    pub fn get_pixel(&self, x: u32, y: u32) -> (p: Pix)
        requires
            self.wf(),
            x < self.width,
            y < self.height,
        ensures
            p == self.pix(x as int, y as int),
    {
        let base: usize = self.pix_base(x, y);
        Pix {
            r: self.data[base],
            g: self.data[base + 1],
            b: self.data[base + 2],
            a: self.data[base + 3],
        }
    }

    pub fn put_pixel(&mut self, x: u32, y: u32, p: Pix)
        requires
            old(self).wf(),
            x < old(self).width,
            y < old(self).height,
        ensures
            final(self).wf(),
            final(self).width == old(self).width,
            final(self).height == old(self).height,
            final(self).pix(x as int, y as int) == p,
            forall|i: int, j: int|
                0 <= i < old(self).width && 0 <= j < old(self).height && !(i == x && j == y)
                    ==> final(self).pix(i, j) == old(self).pix(i, j),
    {
        let base: usize = self.pix_base(x, y);
        self.data[base] = p.r;
        self.data[base + 1] = p.g;
        self.data[base + 2] = p.b;
        self.data[base + 3] = p.a;
        proof {
            assert forall|i: int, j: int|
                0 <= i < self.width && 0 <= j < self.height && !(i == x && j == y)
                    implies self.pix(i, j) == old(self).pix(i, j) by {
                lemma_pix_base_in_bounds(
                    self.width as int, self.height as int, i, j,
                );
                lemma_pixel_bases_distinct(
                    self.width as int, self.height as int, x as int, y as int, i, j,
                );
            }
        }
    }

    /// Crop the rectangle at (`x`, `y`) of size `w` x `h`, clamped to the
    /// image bounds: the origin is clamped onto the image, then the size is
    /// clamped to what remains.
    pub fn crop(&self, x: u32, y: u32, w: u32, h: u32) -> (r: Image)
        requires
            self.wf(),
        ensures
            r.wf(),
            r.width == crop_len(x as int, w as int, self.width as int),
            r.height == crop_len(y as int, h as int, self.height as int),
            forall|i: int, j: int|
                0 <= i < r.width && 0 <= j < r.height
                    ==> r.pix(i, j) == self.pix(
                        crop_start(x as int, self.width as int) + i,
                        crop_start(y as int, self.height as int) + j,
                    ),
    {
        let cx: u32 = if x <= self.width { x } else { self.width };
        let cy: u32 = if y <= self.height { y } else { self.height };
        let cw: u32 = if w <= self.width - cx { w } else { self.width - cx };
        let ch: u32 = if h <= self.height - cy { h } else { self.height - cy };
        proof {
            assert(self.data.len() <= usize::MAX);
            assert(4 * cw * ch <= 4 * self.width * self.height) by (nonlinear_arith)
                requires cw <= self.width, ch <= self.height, 0 <= cw, 0 <= ch;
        }
        let mut r = Image::new(cw, ch);
        let mut j: u32 = 0;
        while j < ch
            invariant
                r.wf(),
                r.width == cw,
                r.height == ch,
                j <= ch,
                self.wf(),
                cx + cw <= self.width,
                cy + ch <= self.height,
                forall|a: int, b: int|
                    0 <= a < cw && 0 <= b < j ==> r.pix(a, b) == self.pix(cx + a, cy + b),
            decreases ch - j,
        {
            let mut i: u32 = 0;
            while i < cw
                invariant
                    r.wf(),
                    r.width == cw,
                    r.height == ch,
                    i <= cw,
                    j < ch,
                    self.wf(),
                    cx + cw <= self.width,
                    cy + ch <= self.height,
                    forall|a: int, b: int|
                        0 <= a < cw && 0 <= b < j ==> r.pix(a, b) == self.pix(cx + a, cy + b),
                    forall|a: int| 0 <= a < i ==> #[trigger] r.pix(a, j as int) == self.pix(cx + a, cy + j),
                decreases cw - i,
            {
                let p = self.get_pixel(cx + i, cy + j);
                r.put_pixel(i, j, p);
                i = i + 1;
            }
            j = j + 1;
        }
        r
    }

    /// Copy every pixel of `src` into this image with its top-left corner at
    /// (`dx`, `dy`); pixels outside that rectangle are unchanged.
    pub fn blit(&mut self, src: &Image, dx: u32, dy: u32)
        requires
            old(self).wf(),
            src.wf(),
            dx + src.width <= old(self).width,
            dy + src.height <= old(self).height,
        ensures
            final(self).wf(),
            final(self).width == old(self).width,
            final(self).height == old(self).height,
            forall|i: int, j: int|
                dx <= i < dx + src.width && dy <= j < dy + src.height
                    ==> final(self).pix(i, j) == src.pix(i - dx, j - dy),
            forall|i: int, j: int|
                0 <= i < old(self).width && 0 <= j < old(self).height
                    && !(dx <= i < dx + src.width && dy <= j < dy + src.height)
                    ==> final(self).pix(i, j) == old(self).pix(i, j),
    {
        let mut j: u32 = 0;
        while j < src.height
            invariant
                self.wf(),
                self.width == old(self).width,
                self.height == old(self).height,
                src.wf(),
                j <= src.height,
                dx + src.width <= self.width,
                dy + src.height <= self.height,
                forall|a: int, b: int|
                    dx <= a < dx + src.width && dy <= b < dy + j
                        ==> self.pix(a, b) == src.pix(a - dx, b - dy),
                forall|a: int, b: int|
                    0 <= a < old(self).width && 0 <= b < old(self).height
                        && !(dx <= a < dx + src.width && dy <= b < dy + j)
                        ==> self.pix(a, b) == old(self).pix(a, b),
            decreases src.height - j,
        {
            let mut i: u32 = 0;
            while i < src.width
                invariant
                    self.wf(),
                    self.width == old(self).width,
                    self.height == old(self).height,
                    src.wf(),
                    i <= src.width,
                    j < src.height,
                    dx + src.width <= self.width,
                    dy + src.height <= self.height,
                    forall|a: int, b: int|
                        dx <= a < dx + src.width && dy <= b < dy + j
                            ==> self.pix(a, b) == src.pix(a - dx, b - dy),
                    forall|a: int| dx <= a < dx + i ==> #[trigger] self.pix(a, dy + j) == src.pix(a - dx, j as int),
                    forall|a: int, b: int|
                        0 <= a < old(self).width && 0 <= b < old(self).height
                            && !(dx <= a < dx + src.width && dy <= b < dy + j)
                            && !(dx <= a < dx + i && b == dy + j)
                            ==> self.pix(a, b) == old(self).pix(a, b),
                decreases src.width - i,
            {
                let p = src.get_pixel(i, j);
                self.put_pixel(dx + i, dy + j, p);
                i = i + 1;
            }
            j = j + 1;
        }
    }
}

/// The clamped origin of a crop along one axis.
pub open spec fn crop_start(x: int, dim: int) -> int {
    if x <= dim { x } else { dim }
}

/// The clamped length of a crop along one axis.
pub open spec fn crop_len(x: int, want: int, dim: int) -> int {
    let start = crop_start(x, dim);
    if want <= dim - start { want } else { dim - start }
}


/// The byte buffer a well-formed image of these pixels holds: row-major,
/// four bytes per pixel.
pub open spec fn image_bytes(img: Image) -> Seq<u8> {
    Seq::new((4 * img.width * img.height) as nat, |b: int| {
        let p = img.pix((b / 4) % (img.width as int), (b / 4) / (img.width as int));
        let chan = b % 4;
        if chan == 0 {
            p.r
        } else if chan == 1 {
            p.g
        } else if chan == 2 {
            p.b
        } else {
            p.a
        }
    })
}

/// A well-formed image's buffer is exactly [`image_bytes`] of its pixels.
pub proof fn lemma_image_bytes(img: Image)
    requires
        img.wf(),
        img.width >= 1,
    ensures
        img.data@ == image_bytes(img),
{
    let w = img.width as int;
    let h = img.height as int;
    assert forall|b: int| 0 <= b < 4 * w * h implies img.data@[b] == image_bytes(img)[b] by {
        vstd::arithmetic::div_mod::lemma_fundamental_div_mod(b, 4);
        vstd::arithmetic::div_mod::lemma_mod_bound(b, 4);
        let pi = b / 4;
        assert(0 <= pi && pi < w * h) by (nonlinear_arith)
            requires 0 <= b < 4 * (w * h) || 0 <= b < 4 * w * h,
                b == 4 * pi + b % 4, 0 <= b % 4 < 4;
        vstd::arithmetic::div_mod::lemma_fundamental_div_mod(pi, w);
        vstd::arithmetic::div_mod::lemma_mod_bound(pi, w);
        let x = pi % w;
        let y = pi / w;
        assert(0 <= y && y < h) by (nonlinear_arith)
            requires 0 <= pi < w * h, pi == w * y + x, 0 <= x < w, 0 < w;
        assert(4 * (y * w + x) == b - b % 4) by (nonlinear_arith)
            requires pi == w * y + x, b == 4 * pi + b % 4;
    }
    assert(img.data@ =~= image_bytes(img));
}

/// An in-bounds pixel's four bytes lie inside the row-major buffer.
proof fn lemma_pix_base_in_bounds(w: int, h: int, x: int, y: int)
    requires
        0 <= x < w,
        0 <= y < h,
    ensures
        4 * (y * w + x) + 3 < 4 * w * h,
{
    assert(y * w + w <= h * w) by (nonlinear_arith)
        requires y < h, w > 0;
    assert(4 * (h * w) == 4 * w * h) by (nonlinear_arith);
    assert(4 * (y * w + x) + 3 < 4 * (h * w)) by (nonlinear_arith)
        requires y * w + w <= h * w, x < w, 0 <= x, 0 <= y * w;
}

/// Distinct in-bounds pixel coordinates use distinct byte ranges of the
/// row-major buffer.
proof fn lemma_pixel_bases_distinct(w: int, h: int, x: int, y: int, i: int, j: int)
    requires
        0 <= x < w,
        0 <= y < h,
        0 <= i < w,
        0 <= j < h,
        !(i == x && j == y),
    ensures
        4 * (j * w + i) + 3 < 4 * (y * w + x) || 4 * (y * w + x) + 3 < 4 * (j * w + i),
{
    if j < y {
        assert(j * w + w <= y * w) by (nonlinear_arith)
            requires j < y, w > 0;
    } else if j > y {
        assert(y * w + w <= j * w) by (nonlinear_arith)
            requires y < j, w > 0;
    }
}

} // verus!
