//! Decoded images and access to their pixels.
//!
//! An image carries `width * height * 4` samples, flat and row-major: the pixel
//! `(x, y)` starts at index `(y * width + x) * 4`, with channels `R, G, B, A`
//! as native-endian `u16`.

use vstd::arithmetic::div_mod::lemma_fundamental_div_mod;
use vstd::prelude::*;

pub use crate::format::CHANNELS_PER_PIXEL;
use crate::format::{chunk, chunks, lemma_chunk_within, lemma_chunks_join, sample_total};

verus! {

/// One decoded image.
#[derive(Debug, PartialEq, Eq)]
pub struct FarbfeldImage {
    /// Picture width in pixels.
    pub width: u32,
    /// Picture height in pixels.
    pub height: u32,
    /// Flat row-major samples, four per pixel in `R, G, B, A` order.
    pub pixels: Vec<u16>,
}

impl View for FarbfeldImage {
    type V = (u32, u32, Seq<u16>);

    /// Width, height and samples.
    open spec fn view(&self) -> (u32, u32, Seq<u16>) {
        (self.width, self.height, self.pixels@)
    }
}

impl Clone for FarbfeldImage {
    /// The same image again.
    fn clone(&self) -> (r: Self)
        ensures
            r@ == self@,
    {
        FarbfeldImage { width: self.width, height: self.height, pixels: self.pixels.clone() }
    }
}

impl FarbfeldImage {
    /// There are four samples for every pixel.
    pub open spec fn wf(&self) -> bool {
        self.pixels@.len() == sample_total(self.width as nat, self.height as nat)
    }

    /// Whether `(x, y)` is a pixel of the image.
    pub open spec fn contains(&self, x: u32, y: u32) -> bool {
        x < self.width && y < self.height
    }

    /// Index of the first sample of the pixel `(x, y)`.
    pub open spec fn slot(&self, x: u32, y: u32) -> int {
        (y * self.width + x) * 4
    }

    /// The four samples of the pixel `(x, y)`.
    pub open spec fn quad(&self, x: u32, y: u32) -> Seq<u16> {
        self.pixels@.subrange(self.slot(x, y), self.slot(x, y) + 4)
    }

    /// Samples of one row.
    pub open spec fn row_len(&self) -> int {
        self.width * 4
    }

    /// Index of the first sample of row `y`.
    pub open spec fn row_start(&self, y: int) -> int {
        y * self.row_len()
    }

    /// The samples of row `y`.
    pub open spec fn row_samples(&self, y: int) -> Seq<u16> {
        chunk(self.pixels@, self.row_len(), y)
    }

    /// Rows that a walk over the image visits: one per line of pixels, or per
    /// whole line that the samples fill.
    pub open spec fn row_total(&self) -> nat {
        if self.width == 0 {
            self.height as nat
        } else {
            self.pixels@.len() / self.row_len() as nat
        }
    }

    /// The rows of the image, top to bottom.
    pub open spec fn all_rows(&self) -> Seq<Seq<u16>> {
        chunks(self.pixels@, self.row_len(), 0, self.row_total() as int)
    }

    /// The pixels of the image in scan order.
    pub open spec fn all_quads(&self) -> Seq<Seq<u16>> {
        chunks(self.pixels@, 4, 0, self.pixels@.len() as int / 4)
    }

    /// An image of the given samples, or `None` where there are not exactly
    /// `width * height * 4`.
    pub fn new(width: u32, height: u32, pixels: Vec<u16>) -> (r: Option<Self>)
        ensures
            match r {
                Some(image) => {
                    &&& image.wf()
                    &&& image == (FarbfeldImage { width, height, pixels })
                },
                None => pixels@.len() != sample_total(width as nat, height as nat),
            },
    {
        let pixel_count: usize = match (width as usize).checked_mul(height as usize) {
            Some(pixel_count) => pixel_count,
            None => {
                assert(pixels.len() != sample_total(width as nat, height as nat));
                return None;
            },
        };
        let expected: usize = match pixel_count.checked_mul(CHANNELS_PER_PIXEL) {
            Some(expected) => expected,
            None => {
                assert(pixels.len() != sample_total(width as nat, height as nat));
                return None;
            },
        };
        if pixels.len() != expected {
            return None;
        }
        Some(FarbfeldImage { width, height, pixels })
    }

    /// The pixel at `(x, y)`, or `None` outside the image.
    pub fn pixel(&self, x: u32, y: u32) -> (r: Option<[u16; 4]>)
        requires
            self.wf() || (self.contains(x, y) ==> self.slot(x, y) + 4 <= self.pixels.len()),
        ensures
            r is Some <==> self.contains(x, y),
            r matches Some(quad) ==> quad@ == self.quad(x, y),
    {
        proof {
            lemma_slot(self, x, y);
        }
        let base: usize = match self.pixel_offset(x, y) {
            Some(base) => base,
            None => return None,
        };
        Some(
            [
                self.pixels[base],
                self.pixels[base + 1],
                self.pixels[base + 2],
                self.pixels[base + 3],
            ],
        )
    }

    /// Overwrites the pixel at `(x, y)`. Returns `false`, with the image
    /// untouched, outside the image.
    pub fn set_pixel(&mut self, x: u32, y: u32, rgba: [u16; 4]) -> (r: bool)
        requires
            old(self).wf() || (old(self).contains(x, y) ==> old(self).slot(x, y) + 4 <= old(
                self,
            ).pixels.len()),
        ensures
            r == old(self).contains(x, y),
            final(self).width == old(self).width,
            final(self).height == old(self).height,
            final(self).pixels@ == (if r {
                old(self).pixels@.take(old(self).slot(x, y)) + rgba@ + old(
                    self,
                ).pixels@.skip(old(self).slot(x, y) + 4)
            } else {
                old(self).pixels@
            }),
    {
        proof {
            lemma_slot(&*self, x, y);
        }
        let base: usize = match self.pixel_offset(x, y) {
            Some(base) => base,
            None => return false,
        };
        self.pixels[base] = rgba[0];
        self.pixels[base + 1] = rgba[1];
        self.pixels[base + 2] = rgba[2];
        self.pixels[base + 3] = rgba[3];
        true
    }

    /// Channel `c` (0 to 3 for R, G, B, A) of the pixel at `(x, y)`, or `None`
    /// where there is no such pixel or channel.
    pub fn channel(&self, x: u32, y: u32, c: usize) -> (r: Option<u16>)
        requires
            self.wf() || (c < 4 && self.contains(x, y) ==> self.slot(x, y) + c
                < self.pixels.len()),
        ensures
            r is Some <==> c < 4 && self.contains(x, y),
            r matches Some(sample) ==> sample == self.pixels@[self.slot(x, y) + c],
    {
        if c >= CHANNELS_PER_PIXEL {
            return None;
        }
        proof {
            lemma_slot(self, x, y);
        }
        match self.pixel_offset(x, y) {
            Some(base) => Some(self.pixels[base + c]),
            None => None,
        }
    }

    /// Row `y`, `width * 4` samples, or `None` below the image. A row of an
    /// image of width zero is empty.
    pub fn row(&self, y: u32) -> (r: Option<&[u16]>)
        requires
            self.wf() || (y < self.height ==> self.row_start(y + 1) <= self.pixels.len()),
        ensures
            r is Some <==> y < self.height,
            r matches Some(row) ==> row@ == self.row_samples(y as int),
    {
        proof {
            lemma_row(self, y);
        }
        match self.row_range(y) {
            Some((lo, hi)) => Some(&self.pixels[lo..hi]),
            None => None,
        }
    }

    /// Row `y` for writing, or `None` below the image. The samples outside the
    /// row keep their value.
    pub fn row_mut(&mut self, y: u32) -> (r: Option<&mut [u16]>)
        requires
            old(self).wf() || (y < old(self).height ==> old(self).row_start(y + 1) <= old(
                self,
            ).pixels.len()),
        ensures
            final(self).width == old(self).width,
            final(self).height == old(self).height,
            match r {
                Some(row) => {
                    &&& y < old(self).height
                    &&& row@ == old(self).row_samples(y as int)
                    &&& final(self).pixels@ == old(self).pixels@.take(
                        old(self).row_start(y as int),
                    ) + final(row)@ + old(self).pixels@.skip(
                        old(self).row_start(y + 1),
                    )
                },
                None => {
                    &&& y >= old(self).height
                    &&& final(self).pixels@ == old(self).pixels@
                },
            },
    {
        proof {
            lemma_row(&*self, y);
        }
        match self.row_range(y) {
            Some((lo, hi)) => {
                let (_, tail) = self.pixels.as_mut_slice().split_at_mut(lo);
                let (row, _) = tail.split_at_mut(hi - lo);
                Some(row)
            },
            None => None,
        }
    }

    /// Number of pixels, `width * height`.
    pub fn pixel_count(&self) -> (r: usize)
        requires
            self.wf() || self.width * self.height <= usize::MAX,
        ensures
            r == self.width * self.height,
    {
        proof {
            assert(0 <= self.width * self.height) by (nonlinear_arith);
            assert(self.wf() ==> self.pixels.len() == self.width * self.height * 4);
        }
        self.width as usize * self.height as usize
    }

    /// Number of rows that a walk over the image visits.
    fn walk_rows(&self) -> (r: usize)
        ensures
            r == self.row_total(),
            r * self.row_len() <= self.pixels.len(),
            r > 0 ==> self.row_len() <= usize::MAX,
    {
        if self.width == 0 {
            assert(self.height * self.row_len() == 0) by (nonlinear_arith)
                requires
                    self.row_len() == 0,
            ;
            return self.height as usize;
        }
        proof {
            lemma_fundamental_div_mod(self.pixels@.len() as int, self.row_len());
            assert(self.row_total() * self.row_len() == self.row_len() * self.row_total())
                by (nonlinear_arith);
        }
        if self.width as usize > usize::MAX / CHANNELS_PER_PIXEL {
            assert(self.row_len() > self.pixels.len());
            assert(self.row_total() == 0) by (nonlinear_arith)
                requires
                    self.row_len() * self.row_total() <= self.pixels@.len() < self.row_len(),
                    self.row_total() >= 0,
            ;
            return 0;
        }
        self.pixels.len() / (self.width as usize * CHANNELS_PER_PIXEL)
    }

    /// The rows of the image, top to bottom.
    pub fn rows(&self) -> (r: Rows<'_>)
        ensures
            r@ == self.all_rows(),
    {
        let back: usize = self.walk_rows();
        let row_samples: usize = if back > 0 {
            self.width as usize * CHANNELS_PER_PIXEL
        } else {
            0
        };
        Rows { pixels: self.pixels.as_slice(), row_samples, front: 0, back }
    }

    /// The rows of the image, top to bottom, for writing.
    ///
    /// When the walk is over, the rows hold what was written to them and the
    /// samples behind the last whole row are unchanged.
    pub fn rows_mut(&mut self) -> (r: RowsMut<'_>)
        ensures
            r.wf(),
            r@ == old(self).all_rows(),
            final(self).width == old(self).width,
            final(self).height == old(self).height,
            final(self).pixels@ == final(r.handle())@ + old(self).pixels@.skip(
                old(self).row_total() * old(self).row_len(),
            ),
    {
        let left: usize = self.walk_rows();
        let row_samples: usize = if left > 0 {
            self.width as usize * CHANNELS_PER_PIXEL
        } else {
            0
        };
        proof {
            if left == 0 {
                assert(0 * self.row_len() == 0) by (nonlinear_arith);
            } else {
                assert(0 <= left * self.row_len()) by (nonlinear_arith)
                    requires
                        0 <= self.row_len(),
                ;
            }
        }
        let ghost before = self.pixels@;
        let (whole, _) = self.pixels.as_mut_slice().split_at_mut(left * row_samples);
        proof {
            assert forall|k: int| 0 <= k < left implies chunk(whole@, row_samples as int, k)
                == chunk(before, row_samples as int, k) by {
                lemma_chunk_within(left as int, row_samples as int, k);
            }
        }
        RowsMut { rest: Some(whole), row_samples, left }
    }

    /// The pixels of the image in scan order.
    pub fn pixels(&self) -> (r: Pixels<'_>)
        ensures
            r@ == self.all_quads(),
    {
        Pixels { pixels: self.pixels.as_slice(), front: 0, back: self.pixels.len() / 4 }
    }

    /// Index of the first sample of the pixel `(x, y)`, or `None` outside the
    /// image.
    fn pixel_offset(&self, x: u32, y: u32) -> (r: Option<usize>)
        requires
            self.contains(x, y) ==> self.slot(x, y) <= usize::MAX,
        ensures
            r is Some <==> self.contains(x, y),
            r matches Some(base) ==> base == self.slot(x, y),
    {
        if x >= self.width || y >= self.height {
            return None;
        }
        assert(0 <= y * self.width) by (nonlinear_arith);
        let pix_index: usize = y as usize * self.width as usize + x as usize;
        Some(pix_index * CHANNELS_PER_PIXEL)
    }

    /// Where the samples of row `y` begin and end, or `None` below the image.
    fn row_range(&self, y: u32) -> (r: Option<(usize, usize)>)
        requires
            y < self.height ==> self.row_start(y + 1) <= usize::MAX,
        ensures
            r is Some <==> y < self.height,
            r matches Some((lo, hi)) ==> lo == self.row_start(y as int) && hi == self.row_start(
                y + 1,
            ),
    {
        if y >= self.height {
            return None;
        }
        proof {
            let n = self.row_len();
            assert((y + 1) * n == y * n + n) by (nonlinear_arith);
            assert(0 <= y * n) by (nonlinear_arith)
                requires
                    0 <= n,
            ;
        }
        let row_samples: usize = self.width as usize * CHANNELS_PER_PIXEL;
        let lo: usize = y as usize * row_samples;
        let hi: usize = lo + row_samples;
        Some((lo, hi))
    }
}

/// In an image with four samples for every pixel, every pixel has its four.
proof fn lemma_slot(image: &FarbfeldImage, x: u32, y: u32)
    ensures
        image.wf() && image.contains(x, y) ==> image.slot(x, y) + 4 <= image.pixels.len(),
{
    if image.wf() && image.contains(x, y) {
        let w = image.width;
        assert(y * w + w <= image.height * w) by (nonlinear_arith)
            requires
                y + 1 <= image.height,
        ;
        assert(image.height * w == w * image.height) by (nonlinear_arith);
        assert(0 <= y * w) by (nonlinear_arith);
    }
}

/// In an image with four samples for every pixel, every row has all of its own.
proof fn lemma_row(image: &FarbfeldImage, y: u32)
    ensures
        image.wf() && y < image.height ==> image.row_start(y + 1) <= image.pixels.len(),
        image.row_start(y as int) + image.row_len() == image.row_start(y + 1),
        0 <= image.row_start(y as int),
{
    let n = image.row_len();
    assert((y + 1) * n == y * n + n) by (nonlinear_arith);
    assert(0 <= y * n) by (nonlinear_arith)
        requires
            0 <= n,
    ;
    if image.wf() && y < image.height {
        assert((y + 1) * n <= image.width * image.height * 4) by (nonlinear_arith)
            requires
                y + 1 <= image.height,
                n == image.width * 4,
        ;
    }
}

/// A walk over the rows of an image, from either end. Each row is `width * 4`
/// samples.
pub struct Rows<'a> {
    pixels: &'a [u16],
    row_samples: usize,
    front: usize,
    back: usize,
}

impl<'a> View for Rows<'a> {
    type V = Seq<Seq<u16>>;

    /// The rows that are still to be visited, top to bottom.
    closed spec fn view(&self) -> Seq<Seq<u16>> {
        chunks(self.pixels@, self.row_samples as int, self.front as int, self.back as int)
    }
}

impl<'a> Rows<'a> {
    #[verifier::type_invariant]
    spec fn within(&self) -> bool {
        &&& self.front <= self.back
        &&& self.back * self.row_samples <= self.pixels.len()
    }

    /// The next row from the top, or `None` when all have been visited.
    pub fn next(&mut self) -> (r: Option<&'a [u16]>)
        ensures
            match r {
                Some(row) => {
                    &&& old(self)@.len() > 0
                    &&& row@ == old(self)@.first()
                    &&& final(self)@ == old(self)@.drop_first()
                },
                None => old(self)@.len() == 0 && final(self)@ == old(self)@,
            },
    {
        proof {
            use_type_invariant(&*self);
        }
        if self.front == self.back {
            return None;
        }
        proof {
            lemma_chunk_within(self.back as int, self.row_samples as int, self.front as int);
        }
        let lo: usize = self.front * self.row_samples;
        let row = &self.pixels[lo..lo + self.row_samples];
        self.front = self.front + 1;
        Some(row)
    }

    /// The next row from the bottom, or `None` when all have been visited.
    pub fn next_back(&mut self) -> (r: Option<&'a [u16]>)
        ensures
            match r {
                Some(row) => {
                    &&& old(self)@.len() > 0
                    &&& row@ == old(self)@.last()
                    &&& final(self)@ == old(self)@.drop_last()
                },
                None => old(self)@.len() == 0 && final(self)@ == old(self)@,
            },
    {
        proof {
            use_type_invariant(&*self);
        }
        if self.front == self.back {
            return None;
        }
        proof {
            lemma_chunk_within(self.back as int, self.row_samples as int, self.back - 1);
        }
        let lo: usize = (self.back - 1) * self.row_samples;
        let row = &self.pixels[lo..lo + self.row_samples];
        self.back = self.back - 1;
        Some(row)
    }

    /// Number of rows that are still to be visited.
    pub fn len(&self) -> (r: usize)
        ensures
            r == self@.len(),
    {
        proof {
            use_type_invariant(self);
        }
        self.back - self.front
    }

    /// The number of rows that are still to be visited, as bounds that meet.
    pub fn size_hint(&self) -> (r: (usize, Option<usize>))
        ensures
            r.0 == self@.len(),
            r.1 == Some(r.0),
    {
        let n: usize = self.len();
        (n, Some(n))
    }
}

/// A walk over the pixels of an image in scan order, from either end.
pub struct Pixels<'a> {
    pixels: &'a [u16],
    front: usize,
    back: usize,
}

impl<'a> View for Pixels<'a> {
    type V = Seq<Seq<u16>>;

    /// The pixels that are still to be visited, in scan order.
    closed spec fn view(&self) -> Seq<Seq<u16>> {
        chunks(self.pixels@, 4, self.front as int, self.back as int)
    }
}

impl<'a> Pixels<'a> {
    #[verifier::type_invariant]
    spec fn within(&self) -> bool {
        &&& self.front <= self.back
        &&& self.back * 4 <= self.pixels.len()
    }

    /// The pixel at index `k`, counted in pixels.
    fn quad_at(&self, k: usize) -> (r: [u16; 4])
        requires
            k * 4 + 4 <= self.pixels.len(),
        ensures
            r@ == chunk(self.pixels@, 4, k as int),
    {
        let base: usize = k * 4;
        [self.pixels[base], self.pixels[base + 1], self.pixels[base + 2], self.pixels[base + 3]]
    }

    /// The next pixel from the start, or `None` when all have been visited.
    pub fn next(&mut self) -> (r: Option<[u16; 4]>)
        ensures
            match r {
                Some(quad) => {
                    &&& old(self)@.len() > 0
                    &&& quad@ == old(self)@.first()
                    &&& final(self)@ == old(self)@.drop_first()
                },
                None => old(self)@.len() == 0 && final(self)@ == old(self)@,
            },
    {
        proof {
            use_type_invariant(&*self);
        }
        if self.front == self.back {
            return None;
        }
        let quad = self.quad_at(self.front);
        self.front = self.front + 1;
        Some(quad)
    }

    /// The next pixel from the end, or `None` when all have been visited.
    pub fn next_back(&mut self) -> (r: Option<[u16; 4]>)
        ensures
            match r {
                Some(quad) => {
                    &&& old(self)@.len() > 0
                    &&& quad@ == old(self)@.last()
                    &&& final(self)@ == old(self)@.drop_last()
                },
                None => old(self)@.len() == 0 && final(self)@ == old(self)@,
            },
    {
        proof {
            use_type_invariant(&*self);
        }
        if self.front == self.back {
            return None;
        }
        let quad = self.quad_at(self.back - 1);
        self.back = self.back - 1;
        Some(quad)
    }

    /// Number of pixels that are still to be visited.
    pub fn len(&self) -> (r: usize)
        ensures
            r == self@.len(),
    {
        proof {
            use_type_invariant(self);
        }
        self.back - self.front
    }

    /// The number of pixels that are still to be visited, as bounds that meet.
    pub fn size_hint(&self) -> (r: (usize, Option<usize>))
        ensures
            r.0 == self@.len(),
            r.1 == Some(r.0),
    {
        let n: usize = self.len();
        (n, Some(n))
    }
}

/// A walk over the rows of an image, from either end, for writing.
pub struct RowsMut<'a> {
    rest: Option<&'a mut [u16]>,
    row_samples: usize,
    left: usize,
}

impl<'a> View for RowsMut<'a> {
    type V = Seq<Seq<u16>>;

    /// The rows that are still to be visited, as they stand, top to bottom.
    closed spec fn view(&self) -> Seq<Seq<u16>> {
        chunks(self.rest->0@, self.row_samples as int, 0, self.left as int)
    }
}

impl<'a> RowsMut<'a> {
    /// The samples held are exactly those of the rows still to be visited.
    pub closed spec fn wf(&self) -> bool {
        &&& self.rest is Some
        &&& self.rest->0@.len() == self.left * self.row_samples
    }

    /// The samples of the rows still to be visited, as a place to write to.
    pub closed spec fn handle(self) -> &'a mut [u16] {
        self.rest->0
    }

    /// A walk that goes no further leaves the rows that it has not visited as
    /// they stand. Where it has visited all rows, no samples are left over.
    pub proof fn law_unvisited_rows_stand(self)
        requires
            self.wf(),
            has_resolved(self),
        ensures
            final(self.handle())@ == self@.flatten(),
            self@.len() == 0 ==> final(self.handle())@.len() == 0,
    {
        lemma_chunks_join(self.rest->0@, self.row_samples as int, self.left as int);
    }

    /// The next row from the top, or `None` when all have been visited.
    pub fn next(&mut self) -> (r: Option<&'a mut [u16]>)
        requires
            old(self).wf(),
        ensures
            final(self).wf(),
            match r {
                Some(row) => {
                    &&& old(self)@.len() > 0
                    &&& row@ == old(self)@.first()
                    &&& final(self)@ == old(self)@.drop_first()
                    &&& final(old(self).handle())@ == final(row)@ + final(final(self).handle())@
                },
                None => old(self)@.len() == 0 && *final(self) == *old(self),
            },
    {
        if self.left == 0 {
            return None;
        }
        let ghost before = self.rest->0@;
        let ghost rows = self@;
        proof {
            lemma_chunk_within(self.left as int, self.row_samples as int, 0);
            lemma_chunk_within(self.left as int, self.row_samples as int, self.left - 1);
        }
        match self.rest.take() {
            Some(rest) => {
                let (row, tail) = rest.split_at_mut(self.row_samples);
                proof {
                    assert forall|k: int| 0 <= k < self.left - 1 implies chunk(
                        tail@,
                        self.row_samples as int,
                        k,
                    ) == chunk(before, self.row_samples as int, 1 + k) by {
                        lemma_chunk_within(self.left as int, self.row_samples as int, k);
                        lemma_chunk_within(self.left as int, self.row_samples as int, k + 1);
                        lemma_chunk_within(self.left - 1, self.row_samples as int, k);
                    }
                }
                self.rest = Some(tail);
                self.left = self.left - 1;
                assert(self@ == rows.drop_first());
                Some(row)
            },
            None => None,
        }
    }

    /// The next row from the bottom, or `None` when all have been visited.
    pub fn next_back(&mut self) -> (r: Option<&'a mut [u16]>)
        requires
            old(self).wf(),
        ensures
            final(self).wf(),
            match r {
                Some(row) => {
                    &&& old(self)@.len() > 0
                    &&& row@ == old(self)@.last()
                    &&& final(self)@ == old(self)@.drop_last()
                    &&& final(old(self).handle())@ == final(final(self).handle())@ + final(row)@
                },
                None => old(self)@.len() == 0 && *final(self) == *old(self),
            },
    {
        if self.left == 0 {
            return None;
        }
        let ghost before = self.rest->0@;
        let ghost rows = self@;
        proof {
            lemma_chunk_within(self.left as int, self.row_samples as int, self.left - 1);
        }
        match self.rest.take() {
            Some(rest) => {
                assert(rest.len() == self.left * self.row_samples);
                let (head, row) = rest.split_at_mut((self.left - 1) * self.row_samples);
                proof {
                    assert forall|k: int| 0 <= k < self.left - 1 implies chunk(
                        head@,
                        self.row_samples as int,
                        k,
                    ) == chunk(before, self.row_samples as int, k) by {
                        lemma_chunk_within(self.left as int, self.row_samples as int, k);
                        lemma_chunk_within(self.left - 1, self.row_samples as int, k);
                    }
                }
                self.rest = Some(head);
                self.left = self.left - 1;
                assert(self@ == rows.drop_last());
                Some(row)
            },
            None => None,
        }
    }

    /// Number of rows that are still to be visited.
    pub fn len(&self) -> (r: usize)
        ensures
            r == self@.len(),
    {
        self.left
    }

    /// The number of rows that are still to be visited, as bounds that meet.
    pub fn size_hint(&self) -> (r: (usize, Option<usize>))
        ensures
            r.0 == self@.len(),
            r.1 == Some(r.0),
    {
        let n: usize = self.len();
        (n, Some(n))
    }
}

} // verus!
