//! Row-major RGB pixel buffers and their division into row stripes.

use vstd::prelude::*;

pub mod ppm;
pub mod stripes;

use stripes::{
    lemma_stripe_bytes, lemma_stripes_adjacent, lemma_stripes_end, lemma_stripes_within,
    stripe_count, stripe_rows, stripe_start,
};

verus! {

/// Bytes that one pixel occupies: red, green, blue.
pub const CHANNELS: u32 = 3;

/// Index of the first byte of pixel (`x`, `y`) in a buffer whose rows are
/// `stride` bytes long.
pub open spec fn pixel_index(stride: u32, x: u32, y: u32) -> int {
    y * stride + x * CHANNELS
}

/// `bytes` with the three channels of `rgb` written from index `at` on.
pub open spec fn with_pixel(bytes: Seq<u8>, at: int, rgb: [u8; 3]) -> Seq<u8> {
    bytes.update(at, rgb[0]).update(at + 1, rgb[1]).update(at + 2, rgb[2])
}

/// An RGB image: `height` rows of `width` pixels, three bytes to a pixel, the
/// rows one after another from the top.
pub struct Image {
    width: u32,
    height: u32,
    stride: u32,
    pixels: Vec<u8>,
}

impl View for Image {
    type V = Seq<u8>;

    /// The bytes of the image, row by row.
    closed spec fn view(&self) -> Seq<u8> {
        self.pixels@
    }
}

impl Image {
    pub closed spec fn spec_width(&self) -> u32 {
        self.width
    }

    pub closed spec fn spec_height(&self) -> u32 {
        self.height
    }

    /// Bytes in one row.
    pub closed spec fn spec_stride(&self) -> u32 {
        self.stride
    }

    /// The buffer holds exactly `height` rows of `width` pixels.
    pub open spec fn wf(&self) -> bool {
        &&& self.spec_stride() == CHANNELS * self.spec_width()
        &&& self@.len() == self.spec_stride() * self.spec_height()
    }

    /// A black image of the given size.
    pub fn new(width: u32, height: u32) -> (image: Self)
        requires
            CHANNELS * width <= u32::MAX,
            CHANNELS * width * height <= usize::MAX,
        ensures
            image.wf(),
            image.spec_width() == width,
            image.spec_height() == height,
            forall|i: int| 0 <= i < image@.len() ==> image@[i] == 0,
    {
        let stride: u32 = width * 3;
        assert(stride * height == CHANNELS * width * height) by (nonlinear_arith)
            requires
                stride == CHANNELS * width,
        ;
        let len: usize = stride as usize * height as usize;
        Self { width, height, stride, pixels: vec![0u8; len] }
    }

    #[verifier::when_used_as_spec(spec_width)]
    pub fn get_width(&self) -> (width: u32)
        ensures
            width == self.spec_width(),
    {
        self.width
    }

    #[verifier::when_used_as_spec(spec_height)]
    pub fn get_height(&self) -> (height: u32)
        ensures
            height == self.spec_height(),
    {
        self.height
    }

    pub fn pixels(&self) -> (bytes: &[u8])
        ensures
            bytes@ == self@,
    {
        self.pixels.as_slice()
    }

    /// Whether the three bytes of pixel (`x`, `y`) lie in the buffer, as
    /// those of every pixel of the image do.
    pub open spec fn has_pixel(&self, x: u32, y: u32) -> bool {
        pixel_index(self.spec_stride(), x, y) + CHANNELS <= self@.len()
    }

    /// Every pixel of a well-formed image lies in its buffer.
    pub proof fn lemma_has_pixel(&self, x: u32, y: u32)
        requires
            self.wf(),
            x < self.spec_width(),
            y < self.spec_height(),
        ensures
            self.has_pixel(x, y),
    {
        lemma_pixel_in_bounds(self.spec_width(), self.spec_height(), self.spec_stride(), x, y);
    }

    /// Writes one pixel; every other byte stays as it was.
    pub fn put_pixel(&mut self, x: u32, y: u32, rgb: [u8; 3])
        requires
            old(self).has_pixel(x, y),
        ensures
            final(self).wf() == old(self).wf(),
            final(self).spec_width() == old(self).spec_width(),
            final(self).spec_height() == old(self).spec_height(),
            final(self).spec_stride() == old(self).spec_stride(),
            final(self)@ == with_pixel(old(self)@, pixel_index(old(self).spec_stride(), x, y), rgb),
    {
        proof {
            assert(self.pixels@.len() == self.pixels.len());
            assert(0 <= y * self.stride) by (nonlinear_arith)
                requires
                    0 <= y,
                    0 <= self.stride,
            ;
        }
        let index: usize = y as usize * self.stride as usize + x as usize * 3;
        self.pixels[index] = rgb[0];
        self.pixels[index + 1] = rgb[1];
        self.pixels[index + 2] = rgb[2];
    }
}

/// The three bytes of a pixel inside the image lie inside its buffer.
pub proof fn lemma_pixel_in_bounds(width: u32, height: u32, stride: u32, x: u32, y: u32)
    requires
        stride == CHANNELS * width,
        x < width,
        y < height,
    ensures
        0 <= y * stride,
        0 <= pixel_index(stride, x, y),
        pixel_index(stride, x, y) + CHANNELS <= stride * height,
        y * stride + stride <= stride * height,
{
    assert(y * stride + stride <= stride * height && 0 <= y * stride) by (nonlinear_arith)
        requires
            y < height,
            0 <= stride,
            0 <= y,
    ;
}

/// A stripe of an image: `height` whole rows, starting at row `y_offset` of
/// the image they were taken from, with exclusive access to their bytes.
pub struct SubImage<'a> {
    pub width: u32,
    pub height: u32,
    pub stride: u32,
    pub y_offset: u32,
    pub pixels: &'a mut [u8],
}

impl View for SubImage<'_> {
    type V = Seq<u8>;

    /// The bytes of the stripe as they are now, row by row.
    open spec fn view(&self) -> Seq<u8> {
        self.pixels@
    }
}

impl SubImage<'_> {
    /// The stripe holds exactly `height` rows of `width` pixels, and its rows
    /// have row numbers in the image.
    pub open spec fn wf(&self) -> bool {
        &&& self.stride == CHANNELS * self.width
        &&& self@.len() == self.stride * self.height
        &&& self.y_offset + self.height <= u32::MAX
    }

    /// Whether the three bytes of pixel (`x`, `y`) lie in the stripe, as
    /// those of every pixel of its rows do.
    pub open spec fn has_pixel(&self, x: u32, y: u32) -> bool {
        pixel_index(self.stride, x, y) + CHANNELS <= self@.len()
    }

    pub fn get_y_offset(&self) -> (y_offset: u32)
        ensures
            y_offset == self.y_offset,
    {
        self.y_offset
    }

    pub fn get_width(&self) -> (width: u32)
        ensures
            width == self.width,
    {
        self.width
    }

    pub fn get_height(&self) -> (height: u32)
        ensures
            height == self.height,
    {
        self.height
    }

    pub fn pixels(&self) -> (bytes: &[u8])
        ensures
            bytes@ == self@,
    {
        &*self.pixels
    }

    /// Writes the pixel in column `x` of the stripe's row `y`; every other
    /// byte stays as it was.
    pub fn put_pixel(&mut self, x: u32, y: u32, rgb: [u8; 3])
        requires
            old(self).has_pixel(x, y),
        ensures
            final(self).wf() == old(self).wf(),
            final(self).width == old(self).width,
            final(self).height == old(self).height,
            final(self).stride == old(self).stride,
            final(self).y_offset == old(self).y_offset,
            final(self)@ == with_pixel(old(self)@, pixel_index(old(self).stride, x, y), rgb),
            final(final(self).pixels)@ == final(old(self).pixels)@,
    {
        proof {
            assert(self.pixels@.len() == self.pixels.len());
            assert(0 <= y * self.stride) by (nonlinear_arith)
                requires
                    0 <= y,
                    0 <= self.stride,
            ;
        }
        let index: usize = y as usize * self.stride as usize + x as usize * 3;
        self.pixels[index] = rgb[0];
        self.pixels[index + 1] = rgb[1];
        self.pixels[index + 2] = rgb[2];
    }
}

/// Whether `bytes` hold the three channels of `rgb` from index `at` on.
pub open spec fn holds_pixel(bytes: Seq<u8>, at: int, rgb: [u8; 3]) -> bool {
    &&& bytes[at] == rgb[0]
    &&& bytes[at + 1] == rgb[1]
    &&& bytes[at + 2] == rgb[2]
}

/// Whether the pixel (`x`, `y`) of a stripe that starts at row `y_offset`
/// holds, in `bytes`, a colour that `shade` gives for its place in the image.
pub open spec fn pixel_shaded<F: Fn(u32, u32) -> [u8; 3]>(
    shade: F,
    bytes: Seq<u8>,
    stride: u32,
    y_offset: u32,
    x: u32,
    y: u32,
) -> bool {
    exists|rgb: [u8; 3]|
        call_ensures(shade, (x, (y_offset + y) as u32), rgb) && holds_pixel(
            bytes,
            pixel_index(stride, x, y),
            rgb,
        )
}

impl SubImage<'_> {
    /// Writes every pixel of the stripe once, row by row: the pixel in column
    /// `x` of the stripe's row `y` gets what `shade` gives for column `x` and
    /// row `y_offset + y` of the image.
    pub fn render<F: Fn(u32, u32) -> [u8; 3]>(&mut self, shade: &F)
        requires
            old(self).wf(),
            forall|x: u32, y: u32|
                x < old(self).width && old(self).y_offset <= y < old(self).y_offset + old(
                    self,
                ).height ==> call_requires(*shade, (x, y)),
        ensures
            final(self).wf(),
            final(self).width == old(self).width,
            final(self).height == old(self).height,
            final(self).stride == old(self).stride,
            final(self).y_offset == old(self).y_offset,
            final(final(self).pixels)@ == final(old(self).pixels)@,
            forall|x: u32, y: u32|
                x < old(self).width && y < old(self).height ==> #[trigger] pixel_shaded(
                    *shade,
                    final(self)@,
                    old(self).stride,
                    old(self).y_offset,
                    x,
                    y,
                ),
    {
        let width: u32 = self.width;
        let height: u32 = self.height;
        let y_offset: u32 = self.y_offset;
        let ghost stride = self.stride;
        let ghost target = final(self.pixels)@;
        let mut y: u32 = 0;
        while y < height
            invariant
                y <= height,
                self.wf(),
                self.width == width,
                self.height == height,
                self.y_offset == y_offset,
                self.stride == stride,
                final(self.pixels)@ == target,
                forall|x: u32, y: u32|
                    x < width && y_offset <= y < y_offset + height ==> call_requires(*shade, (x, y)),
                forall|px: u32, py: u32|
                    px < width && py < y ==> #[trigger] pixel_shaded(
                        *shade,
                        self@,
                        stride,
                        y_offset,
                        px,
                        py,
                    ),
            decreases height - y,
        {
            let mut x: u32 = 0;
            while x < width
                invariant
                    y < height,
                    x <= width,
                    self.wf(),
                    self.width == width,
                    self.height == height,
                    self.y_offset == y_offset,
                    self.stride == stride,
                    final(self.pixels)@ == target,
                    forall|x: u32, y: u32|
                        x < width && y_offset <= y < y_offset + height ==> call_requires(
                            *shade,
                            (x, y),
                        ),
                    forall|px: u32, py: u32|
                        px < width && (py < y || (py == y && px < x)) ==> #[trigger] pixel_shaded(
                            *shade,
                            self@,
                            stride,
                            y_offset,
                            px,
                            py,
                        ),
                decreases width - x,
            {
                let rgb: [u8; 3] = shade(x, y_offset + y);
                let ghost before = self@;
                proof {
                    lemma_pixel_in_bounds(width, height, stride, x, y);
                }
                self.put_pixel(x, y, rgb);
                proof {
                    assert forall|px: u32, py: u32|
                        px < width && (py < y || (py == y && px < x + 1)) implies #[trigger] pixel_shaded(
                        *shade,
                        self@,
                        stride,
                        y_offset,
                        px,
                        py,
                    ) by {
                        if px == x && py == y {
                            assert(holds_pixel(self@, pixel_index(stride, px, py), rgb));
                        } else {
                            lemma_pixels_apart(width, height, stride, px, py, x, y);
                            lemma_pixel_in_bounds(width, height, stride, px, py);
                            assert(pixel_shaded(*shade, before, stride, y_offset, px, py));
                            let c = choose|c: [u8; 3]|
                                call_ensures(*shade, (px, (y_offset + py) as u32), c) && holds_pixel(
                                    before,
                                    pixel_index(stride, px, py),
                                    c,
                                );
                            assert(holds_pixel(self@, pixel_index(stride, px, py), c));
                        }
                    }
                }
                x = x + 1;
            }
            y = y + 1;
        }
    }
}

/// Two different pixels of an image share no byte.
pub proof fn lemma_pixels_apart(
    width: u32,
    height: u32,
    stride: u32,
    x1: u32,
    y1: u32,
    x2: u32,
    y2: u32,
)
    requires
        stride == CHANNELS * width,
        x1 < width,
        x2 < width,
        y1 < height,
        y2 < height,
        x1 != x2 || y1 != y2,
    ensures
        pixel_index(stride, x1, y1) + CHANNELS <= pixel_index(stride, x2, y2) || pixel_index(
            stride,
            x2,
            y2,
        ) + CHANNELS <= pixel_index(stride, x1, y1),
{
    if y1 < y2 {
        assert(y1 * stride + stride <= y2 * stride) by (nonlinear_arith)
            requires
                y1 < y2,
                0 <= stride,
        ;
    } else if y2 < y1 {
        assert(y2 * stride + stride <= y1 * stride) by (nonlinear_arith)
            requires
                y2 < y1,
                0 <= stride,
        ;
    }
}

impl Image {
    /// Divides the image into row stripes for `n` workers, as evenly as
    /// possible and from the top down. Each stripe has exclusive access to the
    /// bytes of its rows; what is written through the stripes is what the
    /// image holds afterwards.
    pub fn split_n(&mut self, n: u32) -> (stripes: Vec<SubImage<'_>>)
        requires
            old(self).wf(),
            n > 0,
        ensures
            stripes.len() == stripe_count(old(self).spec_height() as int, n as int),
            forall|i: int|
                0 <= i < stripes.len() ==> {
                    let s = #[trigger] stripes[i];
                    let start = stripe_start(old(self).spec_height() as int, n as int, i);
                    let rows = stripe_rows(old(self).spec_height() as int, n as int, i);
                    &&& s.wf()
                    &&& s.width == old(self).spec_width()
                    &&& s.stride == old(self).spec_stride()
                    &&& s.y_offset == start
                    &&& s.height == rows
                    &&& s@ == old(self)@.subrange(start * s.stride, (start + rows) * s.stride)
                },
            final(self)@ == Seq::new(stripes.len() as nat, |i: int| final(stripes[i].pixels)@).flatten(),
            final(self).spec_width() == old(self).spec_width(),
            final(self).spec_height() == old(self).spec_height(),
            final(self).spec_stride() == old(self).spec_stride(),
    {
        let width: u32 = self.width;
        let height: u32 = self.height;
        let stride: u32 = self.stride;
        let ghost all = self.pixels@;
        let ghost total = self.pixels.len();
        assert(all.len() == total);
        let ghost h = height as int;
        let ghost m = n as int;
        let count: u32 = if n <= height {
            n
        } else {
            height
        };
        let mut sub_images: Vec<SubImage<'_>> = Vec::with_capacity(count as usize);
        let mut remaining: &mut [u8] = self.pixels.as_mut_slice();

        let rows_per_stripe: u32 = height / n;
        let mut remainder: u32 = height % n;
        let mut current_y_offset: u32 = 0;
        let mut i: u32 = 0;
        proof {
            lemma_stripes_adjacent(h, m, 0);
            lemma_stripes_end(h, m);
            assert(Seq::new(0, |k: int| final(sub_images[k].pixels)@) =~= Seq::<Seq<u8>>::empty());
        }
        while i < n
            invariant_except_break
                i <= stripe_count(h, m),
            invariant
                n > 0,
                h == height,
                m == n,
                i <= n,
                stride == CHANNELS * width,
                all.len() == stride * height,
                all.len() == total,
                stripe_start(h, m, stripe_count(h, m)) == h,
                rows_per_stripe == h / m,
                remainder == if i < h % m { h % m - i } else { 0 },
                current_y_offset == stripe_start(h, m, i as int),
                current_y_offset <= height,
                sub_images.len() == i,
                remaining@ == all.subrange(current_y_offset * stride, all.len() as int),
                forall|k: int|
                    0 <= k < i ==> {
                        let s = #[trigger] sub_images[k];
                        let start = stripe_start(h, m, k);
                        let rows = stripe_rows(h, m, k);
                        &&& s.wf()
                        &&& s.width == width
                        &&& s.stride == stride
                        &&& s.y_offset == start
                        &&& s.height == rows
                        &&& s@ == all.subrange(start * stride, (start + rows) * stride)
                    },
                after_borrow(self.pixels)@ == Seq::new(
                    i as nat,
                    |k: int| final(sub_images[k].pixels)@,
                ).flatten() + final(remaining)@,
            ensures
                i == stripe_count(h, m),
                current_y_offset == height,
            decreases n - i,
        {
            proof {
                lemma_stripes_adjacent(h, m, i as int);
                lemma_stripes_end(h, m);
                if i < stripe_count(h, m) {
                    lemma_stripes_within(h, m, i as int);
                }
                assert(stripe_rows(h, m, i as int) <= h);
            }
            let stripe_height: u32 = rows_per_stripe + if remainder > 0 {
                1
            } else {
                0
            };
            if remainder > 0 {
                remainder = remainder - 1;
            }
            if stripe_height == 0 {
                break ;
            }
            let ghost before = Seq::new(i as nat, |k: int| final(sub_images[k].pixels)@);
            proof {
                assert(i < stripe_count(h, m));
                lemma_stripe_bytes(h, m, i as int, stride as int);
                assert(h * stride == stride * h) by (nonlinear_arith);
            }
            let ghost start = current_y_offset as int;
            let ghost pending = final(remaining)@;
            let byte_count: usize = stripe_height as usize * stride as usize;
            let (current_slice, rest) = remaining.split_at_mut(byte_count);
            remaining = rest;
            let ghost written = final(current_slice)@;
            let ghost earlier = sub_images@;
            sub_images.push(
                SubImage {
                    width,
                    height: stripe_height,
                    stride,
                    y_offset: current_y_offset,
                    pixels: current_slice,
                },
            );
            current_y_offset = current_y_offset + stripe_height;
            i = i + 1;
            proof {
                let after = Seq::new(i as nat, |k: int| final(sub_images[k].pixels)@);
                assert(after =~= before.push(written));
                before.lemma_flatten_push(written);
                assert(pending == written + final(remaining)@);
                assert(before.flatten() + pending =~= after.flatten() + final(remaining)@);
                assert(sub_images[i - 1]@ =~= all.subrange(
                    start * stride,
                    (start + stripe_height) * stride,
                ));
                assert(remaining@ =~= all.subrange(current_y_offset * stride, all.len() as int));
                assert(stride * stripe_height == stripe_height * stride) by (nonlinear_arith);
                assert forall|k: int| 0 <= k < i implies {
                    let s = #[trigger] sub_images[k];
                    let start = stripe_start(h, m, k);
                    let rows = stripe_rows(h, m, k);
                    &&& s.wf()
                    &&& s.width == width
                    &&& s.stride == stride
                    &&& s.y_offset == start
                    &&& s.height == rows
                    &&& s@ == all.subrange(start * stride, (start + rows) * stride)
                } by {
                    if k < i - 1 {
                        assert(sub_images[k] == earlier[k]);
                    }
                }
            }
        }
        sub_images
    }
}

} // verus!
