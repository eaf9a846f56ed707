//! Where the pixels and rows of an image lie among its samples.

use vstd::prelude::*;

use crate::format::lemma_chunk_within;
use crate::image::{FarbfeldImage, Pixels, Rows, RowsMut};

verus! {

/// Making an image keeps the dimensions and samples as they are, and is refused
/// exactly where there are not `width * height * 4` samples. A copy of an image is
/// the same image.
pub proof fn law_image_is_made(
    width: u32,
    height: u32,
    pixels: Vec<u16>,
    r: Option<FarbfeldImage>,
    image: &FarbfeldImage,
    copy: FarbfeldImage,
)
    requires
        call_ensures(FarbfeldImage::new, (width, height, pixels), r),
        call_ensures(<FarbfeldImage as Clone>::clone, (image,), copy),
    ensures
        call_requires(<FarbfeldImage as Clone>::clone, (image,)),
        call_requires(FarbfeldImage::new, (width, height, pixels)),
        r is Some <==> pixels@.len() == width * height * 4,
        r matches Some(made) ==> made.width == width && made.height == height && made.pixels@
            == pixels@,
        copy.width == image.width && copy.height == image.height && copy.pixels@
            == image.pixels@,
        image.wf() <==> image.pixels@.len() == image.width * image.height * 4,
{
}

/// Channel `c` of the pixel `(x, y)` is the sample `(y * width + x) * 4 + c`. There
/// is a pixel exactly where `x < width` and `y < height`, and it has four channels.
pub proof fn law_pixel_is_found(
    image: &FarbfeldImage,
    x: u32,
    y: u32,
    c: usize,
    pixel: Option<[u16; 4]>,
    channel: Option<u16>,
    count: usize,
)
    requires
        call_ensures(FarbfeldImage::pixel, (image, x, y), pixel),
        call_ensures(FarbfeldImage::channel, (image, x, y, c), channel),
        call_ensures(FarbfeldImage::pixel_count, (image,), count),
    ensures
        image.pixels@.len() == image.width * image.height * 4 ==> {
            &&& call_requires(FarbfeldImage::pixel, (image, x, y))
            &&& call_requires(FarbfeldImage::channel, (image, x, y, c))
            &&& call_requires(FarbfeldImage::pixel_count, (image,))
        },
        pixel is Some <==> x < image.width && y < image.height,
        pixel matches Some(quad) ==> {
            let base = (y * image.width + x) * 4;
            base + 4 <= image.pixels@.len() ==> {
                &&& quad@[0] == image.pixels@[base]
                &&& quad@[1] == image.pixels@[base + 1]
                &&& quad@[2] == image.pixels@[base + 2]
                &&& quad@[3] == image.pixels@[base + 3]
            }
        },
        channel is Some <==> x < image.width && y < image.height && c < 4,
        channel matches Some(sample) ==> sample == image.pixels@[(y * image.width + x) * 4 + c],
        count == image.width * image.height,
{
    if x < image.width && y < image.height {
        lemma_base(image.width as int, image.height as int, x as int, y as int);
    }
    assert(0 <= image.width * image.height) by (nonlinear_arith);
}

/// In an image with `width * height * 4` samples every pixel and every row has its
/// samples.
pub proof fn law_whole_image_holds_its_pixels(image: &FarbfeldImage, x: u32, y: u32)
    requires
        image.pixels@.len() == image.width * image.height * 4,
        x < image.width,
        y < image.height,
    ensures
        (y * image.width + x) * 4 + 4 <= image.pixels@.len(),
        y * (image.width * 4) + image.width * 4 <= image.pixels@.len(),
        y * (image.width * 4) + 4 * x == (y * image.width + x) * 4,
{
    lemma_base(image.width as int, image.height as int, x as int, y as int);
    lemma_row_bounds(image.width as int, image.height as int, y as int);
    assert(y * (image.width * 4) == y * image.width * 4) by (nonlinear_arith);
}

/// The four samples of a pixel are among those of the image.
proof fn lemma_base(w: int, h: int, x: int, y: int)
    requires
        0 <= x < w,
        0 <= y < h,
    ensures
        0 <= (y * w + x) * 4,
        (y * w + x) * 4 + 4 <= w * h * 4,
{
    assert(0 <= y * w) by (nonlinear_arith)
        requires
            0 <= y,
            0 <= w,
    ;
    assert(y * w + w <= w * h) by (nonlinear_arith)
        requires
            y + 1 <= h,
            0 <= w,
    ;
}

/// Setting the pixel `(x, y)` writes its channels to the samples from
/// `(y * width + x) * 4` on and changes no other sample; outside the image it
/// changes nothing and says so.
pub proof fn law_pixel_is_set(
    image: &mut FarbfeldImage,
    x: u32,
    y: u32,
    rgba: [u16; 4],
    r: bool,
)
    requires
        call_ensures(FarbfeldImage::set_pixel, (image, x, y, rgba), r),
        x < old(image).width && y < old(image).height ==> (y * old(image).width + x) * 4 + 4
            <= old(image).pixels@.len(),
    ensures
        call_requires(FarbfeldImage::set_pixel, (image, x, y, rgba)),
        r <==> x < old(image).width && y < old(image).height,
        final(image).width == old(image).width,
        final(image).height == old(image).height,
        final(image).pixels@.len() == old(image).pixels@.len(),
        forall|i: int|
            0 <= i < old(image).pixels@.len() ==> #[trigger] final(image).pixels@[i] == ({
                let base = (y * old(image).width + x) * 4;
                if r && base <= i < base + 4 {
                    rgba@[i - base]
                } else {
                    old(image).pixels@[i]
                }
            }),
{
    if x < old(image).width && y < old(image).height {
        lemma_base(old(image).width as int, old(image).height as int, x as int, y as int);
    }
}

/// Row `y` is the `width * 4` samples from `y * width * 4` on, and there is one
/// exactly where `y < height`.
pub proof fn law_row_is_found(image: &FarbfeldImage, y: u32, r: Option<&[u16]>)
    requires
        call_ensures(FarbfeldImage::row, (image, y), r),
        y < image.height ==> y * (image.width * 4) + image.width * 4 <= image.pixels@.len(),
    ensures
        call_requires(FarbfeldImage::row, (image, y)),
        r is Some <==> y < image.height,
        r matches Some(row) ==> {
            &&& row@.len() == image.width * 4
            &&& forall|i: int|
                0 <= i < row@.len() ==> #[trigger] row@[i] == image.pixels@[y * (image.width * 4)
                    + i]
        },
{
    if y < image.height {
        lemma_row_bounds(image.width as int, image.height as int, y as int);
    }
}

/// The samples of a row are among those of the image.
proof fn lemma_row_bounds(w: int, h: int, y: int)
    requires
        0 <= w,
        0 <= y < h,
    ensures
        0 <= y * (w * 4),
        (y + 1) * (w * 4) == y * (w * 4) + w * 4,
        y * (w * 4) + w * 4 <= w * h * 4,
{
    assert(0 <= y * (w * 4)) by (nonlinear_arith)
        requires
            0 <= y,
            0 <= w,
    ;
    assert((y + 1) * (w * 4) == y * (w * 4) + w * 4) by (nonlinear_arith);
    assert(y * (w * 4) + w * 4 <= w * h * 4) by (nonlinear_arith)
        requires
            y + 1 <= h,
            0 <= w,
    ;
}

/// Row `y` for writing is the same samples: what is written to it is found there,
/// and the samples before and behind it keep their value.
pub proof fn law_row_is_lent(image: &mut FarbfeldImage, y: u32, r: Option<&mut [u16]>)
    requires
        call_ensures(FarbfeldImage::row_mut, (image, y), r),
        y < old(image).height ==> y * (old(image).width * 4) + old(image).width * 4
            <= old(image).pixels@.len(),
    ensures
        call_requires(FarbfeldImage::row_mut, (image, y)),
        r is Some <==> y < old(image).height,
        final(image).width == old(image).width,
        final(image).height == old(image).height,
        match r {
            Some(row) => {
                let from = y * (old(image).width * 4);
                let to = from + old(image).width * 4;
                &&& row@ == old(image).pixels@.subrange(from, to)
                &&& final(image).pixels@ == old(image).pixels@.subrange(0, from) + final(row)@
                    + old(image).pixels@.subrange(to, old(image).pixels@.len() as int)
            },
            None => final(image).pixels@ == old(image).pixels@,
        },
{
    if y < old(image).height {
        lemma_row_bounds(old(image).width as int, old(image).height as int, y as int);
    }
}

/// A walk over the rows has one for each `width * 4` samples, in order; over an
/// image without width it has `height` empty ones. A walk over the pixels has one
/// for each four samples, in order.
pub proof fn law_walks_begin(image: &FarbfeldImage, rows: Rows<'_>, pixels: Pixels<'_>)
    requires
        call_ensures(FarbfeldImage::rows, (image,), rows),
        call_ensures(FarbfeldImage::pixels, (image,), pixels),
    ensures
        call_requires(FarbfeldImage::rows, (image,)),
        call_requires(FarbfeldImage::pixels, (image,)),
        image.width > 0 ==> rows@.len() * (image.width * 4) <= image.pixels@.len() < (rows@.len()
            + 1) * (image.width * 4),
        image.width == 0 ==> rows@.len() == image.height,
        forall|k: int|
            0 <= k < rows@.len() ==> (#[trigger] rows@[k]).len() == image.width * 4,
        forall|k: int, i: int|
            0 <= k < rows@.len() && 0 <= i < image.width * 4 ==> #[trigger] rows@[k][i]
                == image.pixels@[k * (image.width * 4) + i],
        4 * pixels@.len() <= image.pixels@.len() < 4 * pixels@.len() + 4,
        forall|p: int| 0 <= p < pixels@.len() ==> (#[trigger] pixels@[p]).len() == 4,
        forall|p: int, c: int|
            0 <= p < pixels@.len() && 0 <= c < 4 ==> #[trigger] pixels@[p][c] == image.pixels@[4
                * p + c],
{
    lemma_all_rows(image);
}

/// The rows of a walk, in their parts.
proof fn lemma_all_rows(image: &FarbfeldImage)
    ensures
        image.width > 0 ==> image.all_rows().len() * (image.width * 4) <= image.pixels@.len() < (
        image.all_rows().len() + 1) * (image.width * 4),
        image.width == 0 ==> image.all_rows().len() == image.height,
        forall|k: int|
            0 <= k < image.all_rows().len() ==> (#[trigger] image.all_rows()[k]).len()
                == image.width * 4,
        forall|k: int, i: int|
            0 <= k < image.all_rows().len() && 0 <= i < image.width * 4
                ==> #[trigger] image.all_rows()[k][i] == image.pixels@[k * (image.width * 4) + i],
{
    let n = image.width * 4;
    let count = image.all_rows().len() as int;
    if image.width > 0 {
        vstd::arithmetic::div_mod::lemma_fundamental_div_mod(image.pixels@.len() as int, n);
        assert(n * count == count * n) by (nonlinear_arith);
        assert((count + 1) * n == count * n + n) by (nonlinear_arith);
    } else {
        assert(count * n == 0) by (nonlinear_arith)
            requires
                n == 0,
        ;
    }
    assert forall|k: int| 0 <= k < count implies (#[trigger] image.all_rows()[k]).len() == n by {
        lemma_chunk_within(count, n, k);
    }
    assert forall|k: int, i: int| 0 <= k < count && 0 <= i < n implies #[trigger] image.all_rows()[k][i]
        == image.pixels@[k * n + i] by {
        lemma_chunk_within(count, n, k);
    }
}

/// A walk over the rows for writing begins with the same rows, and what becomes of
/// them is what becomes of the image; the samples behind the last whole row keep
/// their value.
pub proof fn law_writing_walk_begins(image: &mut FarbfeldImage, rows: RowsMut<'_>)
    requires
        call_ensures(FarbfeldImage::rows_mut, (image,), rows),
    ensures
        call_requires(FarbfeldImage::rows_mut, (image,)),
        rows.wf(),
        final(image).width == old(image).width,
        final(image).height == old(image).height,
        old(image).width > 0 ==> rows@.len() * (old(image).width * 4) <= old(image).pixels@.len()
            < (rows@.len() + 1) * (old(image).width * 4),
        old(image).width == 0 ==> rows@.len() == old(image).height,
        forall|k: int|
            0 <= k < rows@.len() ==> (#[trigger] rows@[k]).len() == old(image).width * 4,
        forall|k: int, i: int|
            0 <= k < rows@.len() && 0 <= i < old(image).width * 4 ==> #[trigger] rows@[k][i]
                == old(image).pixels@[k * (old(image).width * 4) + i],
        final(image).pixels@ == final(rows.handle())@ + old(image).pixels@.skip(
            rows@.len() * (old(image).width * 4),
        ),
{
    lemma_all_rows(&*old(image));
}

/// A walk gives its first row, or its last one from the other end, and has the
/// others left; it ends exactly when none is left. It tells how many there are.
pub proof fn law_rows_are_walked(
    front: &mut Rows<'_>,
    first: Option<&[u16]>,
    back: &mut Rows<'_>,
    last: Option<&[u16]>,
    walk: &Rows<'_>,
    len: usize,
    hint: (usize, Option<usize>),
)
    requires
        call_ensures(Rows::next, (front,), first),
        call_ensures(Rows::next_back, (back,), last),
        call_ensures(Rows::len, (walk,), len),
        call_ensures(Rows::size_hint, (walk,), hint),
    ensures
        call_requires(Rows::next, (front,)),
        call_requires(Rows::next_back, (back,)),
        call_requires(Rows::len, (walk,)),
        call_requires(Rows::size_hint, (walk,)),
        first is Some <==> old(front)@.len() > 0,
        first matches Some(row) ==> old(front)@ == seq![row@] + final(front)@,
        first is None ==> final(front)@ == old(front)@,
        last is Some <==> old(back)@.len() > 0,
        last matches Some(row) ==> old(back)@ == final(back)@ + seq![row@],
        last is None ==> final(back)@ == old(back)@,
        len == walk@.len(),
        hint == (len, Some(len)),
{
    if old(front)@.len() > 0 {
        assert(old(front)@ =~= seq![old(front)@.first()] + old(front)@.drop_first());
    }
    if old(back)@.len() > 0 {
        assert(old(back)@ =~= old(back)@.drop_last() + seq![old(back)@.last()]);
    }
}

/// A walk gives its first pixel, or its last one from the other end, and has the
/// others left; it ends exactly when none is left. It tells how many there are.
pub proof fn law_pixels_are_walked(
    front: &mut Pixels<'_>,
    first: Option<[u16; 4]>,
    back: &mut Pixels<'_>,
    last: Option<[u16; 4]>,
    walk: &Pixels<'_>,
    len: usize,
    hint: (usize, Option<usize>),
)
    requires
        call_ensures(Pixels::next, (front,), first),
        call_ensures(Pixels::next_back, (back,), last),
        call_ensures(Pixels::len, (walk,), len),
        call_ensures(Pixels::size_hint, (walk,), hint),
    ensures
        call_requires(Pixels::next, (front,)),
        call_requires(Pixels::next_back, (back,)),
        call_requires(Pixels::len, (walk,)),
        call_requires(Pixels::size_hint, (walk,)),
        first is Some <==> old(front)@.len() > 0,
        first matches Some(quad) ==> old(front)@ == seq![quad@] + final(front)@,
        first is None ==> final(front)@ == old(front)@,
        last is Some <==> old(back)@.len() > 0,
        last matches Some(quad) ==> old(back)@ == final(back)@ + seq![quad@],
        last is None ==> final(back)@ == old(back)@,
        len == walk@.len(),
        hint == (len, Some(len)),
{
    if old(front)@.len() > 0 {
        assert(old(front)@ =~= seq![old(front)@.first()] + old(front)@.drop_first());
    }
    if old(back)@.len() > 0 {
        assert(old(back)@ =~= old(back)@.drop_last() + seq![old(back)@.last()]);
    }
}

/// A walk for writing gives its first row, or its last one from the other end, and
/// has the others left. What becomes of that row and of the others is, in their
/// order, what becomes of them all.
pub proof fn law_rows_are_walked_for_writing(
    front: &mut RowsMut<'_>,
    first: Option<&mut [u16]>,
    back: &mut RowsMut<'_>,
    last: Option<&mut [u16]>,
    walk: &RowsMut<'_>,
    len: usize,
    hint: (usize, Option<usize>),
)
    requires
        old(front).wf(),
        old(back).wf(),
        call_ensures(RowsMut::next, (front,), first),
        call_ensures(RowsMut::next_back, (back,), last),
        call_ensures(RowsMut::len, (walk,), len),
        call_ensures(RowsMut::size_hint, (walk,), hint),
    ensures
        call_requires(RowsMut::next, (front,)),
        call_requires(RowsMut::next_back, (back,)),
        call_requires(RowsMut::len, (walk,)),
        call_requires(RowsMut::size_hint, (walk,)),
        final(front).wf(),
        first is Some <==> old(front)@.len() > 0,
        first matches Some(row) ==> old(front)@ == seq![row@] + final(front)@ && final(old(front).handle())@ == final(row)@ + final(final(front).handle())@,
        first is None ==> *final(front) == *old(front),
        final(back).wf(),
        last is Some <==> old(back)@.len() > 0,
        last matches Some(row) ==> old(back)@ == final(back)@ + seq![row@] && final(old(back).handle())@ == final(final(back).handle())@ + final(row)@,
        last is None ==> *final(back) == *old(back),
        len == walk@.len(),
        hint == (len, Some(len)),
{
    if old(front)@.len() > 0 {
        assert(old(front)@ =~= seq![old(front)@.first()] + old(front)@.drop_first());
    }
    if old(back)@.len() > 0 {
        assert(old(back)@ =~= old(back)@.drop_last() + seq![old(back)@.last()]);
    }
}

} // verus!
