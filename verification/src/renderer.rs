//! Renderers: they divide an image into stripes and have every pixel shaded,
//! so that the image does not depend on the number of stripes.

use vstd::prelude::*;

use crate::image::stripes::{
    lemma_rows_covered, lemma_stripes_adjacent, lemma_stripes_end, lemma_stripes_within,
    row_covered, stripe_count, stripe_has_row, stripe_rows, stripe_start,
};
use crate::image::{
    holds_pixel, lemma_pixel_in_bounds, pixel_index, pixel_shaded, Image, SubImage, CHANNELS,
};

verus! {

/// Whether `part` holds the shaded rows of stripe `k` of an image of `height`
/// rows divided among `n` workers.
pub open spec fn stripe_shaded<F: Fn(u32, u32) -> [u8; 3]>(
    shade: F,
    part: Seq<u8>,
    width: u32,
    height: u32,
    stride: u32,
    n: u32,
    k: int,
) -> bool {
    &&& part.len() == stride * stripe_rows(height as int, n as int, k)
    &&& forall|x: u32, y: u32|
        x < width && y < stripe_rows(height as int, n as int, k) ==> #[trigger] pixel_shaded(
            shade,
            part,
            stride,
            stripe_start(height as int, n as int, k) as u32,
            x,
            y,
        )
}

/// The bytes of the stripes before stripe `k`, one stripe after another.
pub open spec fn bytes_before(parts: Seq<Seq<u8>>, k: int) -> Seq<u8> {
    parts.subrange(0, k).flatten()
}

/// In the bytes of all stripes, one after another, byte `j` of stripe `k`
/// stands after the bytes of the stripes before it.
pub proof fn lemma_flatten_index(parts: Seq<Seq<u8>>, k: int, j: int)
    requires
        0 <= k < parts.len(),
        0 <= j < parts[k].len(),
    ensures
        bytes_before(parts, k).len() + j < parts.flatten().len(),
        parts.flatten()[bytes_before(parts, k).len() + j] == parts[k][j],
    decreases parts.len(),
{
    let front = parts.drop_last();
    assert(front.push(parts.last()) =~= parts);
    front.lemma_flatten_push(parts.last());
    assert(parts.flatten() =~= front.flatten() + parts.last());
    if k == parts.len() - 1 {
        assert(parts.subrange(0, k) =~= front);
    } else {
        assert(parts.subrange(0, k) =~= front.subrange(0, k));
        lemma_flatten_index(front, k, j);
    }
}

/// Where every stripe holds as many bytes as its rows take, the stripes
/// before stripe `k` hold the bytes of the rows before its first row.
pub proof fn lemma_bytes_before(parts: Seq<Seq<u8>>, height: int, n: int, stride: int, k: int)
    requires
        0 <= height,
        1 <= n,
        0 <= stride,
        0 <= k <= parts.len(),
        forall|i: int| 0 <= i < parts.len() ==> (#[trigger] parts[i]).len() == stride * stripe_rows(height, n, i),
    ensures
        bytes_before(parts, k).len() == stripe_start(height, n, k) * stride,
    decreases k,
{
    if k == 0 {
        assert(parts.subrange(0, 0) =~= Seq::<Seq<u8>>::empty());
        lemma_stripes_adjacent(height, n, 0);
        let a = stripe_start(height, n, 0);
        assert(a * stride == 0) by (nonlinear_arith)
            requires
                a == 0,
        ;
        assert(bytes_before(parts, 0).len() == 0);
    } else {
        lemma_bytes_before(parts, height, n, stride, k - 1);
        let shorter = parts.subrange(0, k - 1);
        assert(parts.subrange(0, k) =~= shorter.push(parts[k - 1]));
        shorter.lemma_flatten_push(parts[k - 1]);
        lemma_stripes_adjacent(height, n, k - 1);
        let a = stripe_start(height, n, k - 1);
        let b = stripe_rows(height, n, k - 1);
        assert((a + b) * stride == a * stride + stride * b) by (nonlinear_arith);
    }
}

/// Whether every pixel of an image of the given size holds, in `bytes`, a
/// colour that `shade` gives for it.
pub open spec fn image_shaded<F: Fn(u32, u32) -> [u8; 3]>(
    shade: F,
    bytes: Seq<u8>,
    width: u32,
    height: u32,
    stride: u32,
) -> bool {
    forall|x: u32, y: u32|
        x < width && y < height ==> #[trigger] pixel_shaded(shade, bytes, stride, 0, x, y)
}

/// Has every pixel of the image shaded once, in the stripes that the image
/// divides into for `n` workers, one stripe after another.
pub fn render_stripes<F: Fn(u32, u32) -> [u8; 3]>(image: &mut Image, n: u32, shade: &F)
    requires
        old(image).wf(),
        n >= 1,
        forall|x: u32, y: u32|
            x < old(image).spec_width() && y < old(image).spec_height() ==> call_requires(
                *shade,
                (x, y),
            ),
    ensures
        final(image).wf(),
        final(image).spec_width() == old(image).spec_width(),
        final(image).spec_height() == old(image).spec_height(),
        final(image).spec_stride() == old(image).spec_stride(),
        image_shaded(
            *shade,
            final(image)@,
            old(image).spec_width(),
            old(image).spec_height(),
            old(image).spec_stride(),
        ),
{
    let ghost width = image.spec_width();
    let ghost height = image.spec_height();
    let ghost stride = image.spec_stride();
    let ghost h = height as int;
    let ghost m = n as int;
    let mut stripes: Vec<SubImage<'_>> = image.split_n(n);
    let ghost parts = Seq::new(stripes.len() as nat, |i: int| final(stripes[i].pixels)@);
    let ghost count = stripes.len() as int;
    while stripes.len() > 0
        invariant
            n >= 1,
            h == height,
            m == n,
            stride == CHANNELS * width,
            stripes.len() <= count,
            parts.len() == count,
            count == stripe_count(h, m),
            forall|x: u32, y: u32| x < width && y < height ==> call_requires(*shade, (x, y)),
            forall|i: int|
                0 <= i < stripes.len() ==> {
                    let s = #[trigger] stripes[i];
                    &&& s.wf()
                    &&& s.width == width
                    &&& s.stride == stride
                    &&& s.y_offset == stripe_start(h, m, i)
                    &&& s.height == stripe_rows(h, m, i)
                    &&& final(s.pixels)@ == parts[i]
                },
            forall|i: int|
                stripes.len() <= i < count ==> stripe_shaded(
                    *shade,
                    #[trigger] parts[i],
                    width,
                    height,
                    stride,
                    n,
                    i,
                ),
        decreases stripes.len(),
    {
        let ghost k = stripes.len() - 1;
        let ghost last = stripes[k];
        let mut stripe: SubImage<'_> = stripes.pop().unwrap();
        proof {
            assert(stripe == last);
            lemma_stripes_within(h, m, k);
        }
        stripe.render(shade);
        proof {
            assert(final(stripe.pixels)@ == parts[k]);
            assert(stripe@ == parts[k]);
            assert(stripe_shaded(*shade, parts[k], width, height, stride, n, k));
        }
    }
    proof {
        let whole = parts.flatten();
        lemma_stripes_end(h, m);
        lemma_bytes_before(parts, h, m, stride as int, count);
        assert(parts.subrange(0, count) =~= parts);
        assert(h * stride == stride * h) by (nonlinear_arith);
        lemma_rows_covered(h, m, count);
        assert forall|x: u32, y: u32| x < width && y < height implies #[trigger] pixel_shaded(
            *shade,
            whole,
            stride,
            0,
            x,
            y,
        ) by {
            assert(row_covered(h, m, count, y as int));
            let k = choose|k: int| 0 <= k < count && #[trigger] stripe_has_row(h, m, k, y as int);
            let start = stripe_start(h, m, k);
            let rows = stripe_rows(h, m, k);
            let local = (y - start) as u32;
            assert(stripe_shaded(*shade, parts[k], width, height, stride, n, k));
            assert(pixel_shaded(*shade, parts[k], stride, start as u32, x, local));
            let rgb = choose|rgb: [u8; 3]|
                call_ensures(*shade, (x, (start as u32 + local) as u32), rgb) && holds_pixel(
                    parts[k],
                    pixel_index(stride, x, local),
                    rgb,
                );
            lemma_bytes_before(parts, h, m, stride as int, k);
            lemma_pixel_in_bounds(width, rows as u32, stride, x, local);
            let at = pixel_index(stride, x, local);
            lemma_flatten_index(parts, k, at);
            lemma_flatten_index(parts, k, at + 1);
            lemma_flatten_index(parts, k, at + 2);
            assert(pixel_index(stride, x, y) == start * stride + at) by (nonlinear_arith)
                requires
                    pixel_index(stride, x, y) == y * stride + x * CHANNELS,
                    at == (y - start) * stride + x * CHANNELS,
            ;
            assert(holds_pixel(whole, pixel_index(stride, x, y), rgb));
        }
    }
}

/// A way to have an image shaded.
pub trait Renderer {
    /// Has every pixel of the image shaded once: afterwards the pixel in
    /// column `x` of row `y` holds what `shade` gave for `x` and `y`.
    fn render<F: Fn(u32, u32) -> [u8; 3]>(&self, image: &mut Image, shade: &F)
        requires
            old(image).wf(),
            forall|x: u32, y: u32|
                x < old(image).spec_width() && y < old(image).spec_height() ==> call_requires(
                    *shade,
                    (x, y),
                ),
        ensures
            final(image).wf(),
            final(image).spec_width() == old(image).spec_width(),
            final(image).spec_height() == old(image).spec_height(),
            final(image).spec_stride() == old(image).spec_stride(),
            image_shaded(
                *shade,
                final(image)@,
                old(image).spec_width(),
                old(image).spec_height(),
                old(image).spec_stride(),
            ),
    ;
}

/// Renders the image as a single stripe.
#[derive(Default)]
pub struct StRenderer;

/// Renders the image in one stripe for each of its workers. The stripes share
/// no byte, so that `render`, which takes them one after another, leaves the
/// image that workers leave who take them at the same time.
pub struct MtRenderer {
    n_workers: usize,
}

impl MtRenderer {
    #[verifier::type_invariant]
    spec fn inv(self) -> bool {
        self.n_workers >= 1
    }

    /// How many workers the renderer divides an image among.
    pub closed spec fn workers(&self) -> usize {
        self.n_workers
    }

    pub fn new(n_workers: usize) -> (renderer: Self)
        requires
            n_workers >= 1,
        ensures
            renderer.workers() == n_workers,
    {
        Self { n_workers }
    }

    /// The number of workers, as far as it matters for an image: no image
    /// has more rows than the greatest `u32`.
    pub fn stripes(&self) -> (n: u32)
        ensures
            n >= 1,
            n == if self.workers() <= u32::MAX {
                self.workers() as int
            } else {
                u32::MAX as int
            },
    {
        proof {
            use_type_invariant(self);
        }
        if self.n_workers > u32::MAX as usize {
            u32::MAX
        } else {
            self.n_workers as u32
        }
    }
}

impl Renderer for StRenderer {
    fn render<F: Fn(u32, u32) -> [u8; 3]>(&self, image: &mut Image, shade: &F) {
        render_stripes(image, 1, shade);
    }
}

impl Renderer for MtRenderer {
    fn render<F: Fn(u32, u32) -> [u8; 3]>(&self, image: &mut Image, shade: &F) {
        let n: u32 = self.stripes();
        render_stripes(image, n, shade);
    }
}

/// Whether `shade` gives no more than one colour for any pixel.
pub open spec fn single_valued<F: Fn(u32, u32) -> [u8; 3]>(shade: F) -> bool {
    forall|x: u32, y: u32, a: [u8; 3], b: [u8; 3]|
        #[trigger] call_ensures(shade, (x, y), a) && #[trigger] call_ensures(shade, (x, y), b) ==> a
            == b
}

/// The image does not depend on the workers. Two buffers of the same size in
/// which every pixel is shaded by the same single-valued `shade` hold the
/// same bytes, in however many stripes each of them was rendered.
pub proof fn lemma_shaded_images_equal<F: Fn(u32, u32) -> [u8; 3]>(
    shade: F,
    a: Seq<u8>,
    b: Seq<u8>,
    width: u32,
    height: u32,
    stride: u32,
)
    requires
        single_valued(shade),
        stride == CHANNELS * width,
        a.len() == stride * height,
        b.len() == stride * height,
        image_shaded(shade, a, width, height, stride),
        image_shaded(shade, b, width, height, stride),
    ensures
        a == b,
{
    assert forall|k: int| 0 <= k < a.len() implies a[k] == b[k] by {
        let s = stride as int;
        assert(s > 0) by (nonlinear_arith)
            requires
                k < s * height,
                0 <= k,
                0 <= s,
        ;
        let y = k / s;
        let rest = k % s;
        let x = rest / 3;
        let c = rest % 3;
        assert(k == s * y + rest && 0 <= rest < s && 0 <= y) by (nonlinear_arith)
            requires
                s > 0,
                0 <= k,
                y == k / s,
                rest == k % s,
        ;
        assert(y < height) by (nonlinear_arith)
            requires
                k == s * y + rest,
                0 <= rest,
                k < s * height,
                s > 0,
        ;
        assert(s * y == y * s) by (nonlinear_arith);
        let px = x as u32;
        let py = y as u32;
        assert(pixel_index(stride, px, py) + c == k);
        assert(pixel_shaded(shade, a, stride, 0, px, py));
        assert(pixel_shaded(shade, b, stride, 0, px, py));
        let in_a = choose|rgb: [u8; 3]|
            call_ensures(shade, (px, (0 + py) as u32), rgb) && holds_pixel(
                a,
                pixel_index(stride, px, py),
                rgb,
            );
        let in_b = choose|rgb: [u8; 3]|
            call_ensures(shade, (px, (0 + py) as u32), rgb) && holds_pixel(
                b,
                pixel_index(stride, px, py),
                rgb,
            );
        assert(in_a == in_b);
    }
    assert(a =~= b);
}

} // verus!
