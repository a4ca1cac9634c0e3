//! The pixel collector: the single consumer that writes worker results
//! into the output image buffer and tracks overall completion.
//!
//! Workers hand finished pixels (coordinate plus quantized color) to the
//! collector; only the collector touches the image buffer. The collector
//! remembers which pixels have arrived, so that a render is reported
//! complete exactly when every pixel of the image has been delivered.

use vstd::prelude::*;

verus! {

/// Holds the image crate's pixel buffer. The buffer's type cannot be
/// declared to the verifier (its generics carry a trait bound of the
/// image crate), so this struct is opaque and its contents are reached
/// only through the trusted wrappers below.
#[verifier::external_body]
pub struct ImageStore {
    img: image::RgbImage,
}

/// The pixels an image store holds, as a map from (column, row) to the
/// three channel bytes stored there.
pub uninterp spec fn image_pixels(s: ImageStore) -> Map<(int, int), (u8, u8, u8)>;

/// The (width, height) an image store was created with.
pub uninterp spec fn image_dims(s: ImageStore) -> (int, int);

/// Relies on image::ImageBuffer::new: a buffer of the given dimensions
/// whose pixels are all zero. It panics when the byte length (three per
/// pixel) overflows usize, so that size is required to fit.
#[verifier::external_body]
fn image_new(width: u32, height: u32) -> (r: ImageStore)
    requires
        3 * (width as int) * (height as int) <= usize::MAX as int,
    ensures
        image_dims(r) == (width as int, height as int),
        forall|x: int, y: int|
            0 <= x < width && 0 <= y < height ==> image_pixels(r)[(x, y)] == (0u8, 0u8, 0u8),
{
    ImageStore { img: image::RgbImage::new(width, height) }
}

/// Relies on image::ImageBuffer::put_pixel: stores the given pixel at
/// (x, y) and leaves every other pixel and the dimensions unchanged. It
/// panics out of bounds, so the coordinates are required to be in range.
#[verifier::external_body]
fn image_put(s: &mut ImageStore, x: u32, y: u32, p: (u8, u8, u8))
    requires
        x < image_dims(*old(s)).0,
        y < image_dims(*old(s)).1,
    ensures
        image_dims(*final(s)) == image_dims(*old(s)),
        image_pixels(*final(s)) == image_pixels(*old(s)).insert((x as int, y as int), p),
{
    s.img.put_pixel(x, y, image::Rgb([p.0, p.1, p.2]));
}

/// Relies on image::ImageBuffer::get_pixel: returns the pixel stored at
/// (x, y). It panics out of bounds, so the coordinates are required to
/// be in range.
#[verifier::external_body]
fn image_get(s: &ImageStore, x: u32, y: u32) -> (r: (u8, u8, u8))
    requires
        x < image_dims(*s).0,
        y < image_dims(*s).1,
    ensures
        r == image_pixels(*s)[(x as int, y as int)],
{
    let p = s.img.get_pixel(x, y);
    (p.0[0], p.0[1], p.0[2])
}

/// Relies on image::ImageBuffer::into_raw: the buffer's backing vector,
/// three bytes per pixel in row-major order, as the buffer's own
/// indexing arithmetic lays them out.
#[verifier::external_body]
fn image_into_raw(s: ImageStore) -> (r: Vec<u8>)
    ensures
        r@.len() == 3 * image_dims(s).0 * image_dims(s).1,
        forall|x: int, y: int|
            0 <= x < image_dims(s).0 && 0 <= y < image_dims(s).1 ==> r@[3 * (y * image_dims(s).0
                + x)] == image_pixels(s)[(x, y)].0 && r@[3 * (y * image_dims(s).0 + x) + 1]
                == image_pixels(s)[(x, y)].1 && r@[3 * (y * image_dims(s).0 + x) + 2]
                == image_pixels(s)[(x, y)].2,
{
    s.img.into_raw()
}

/// How many entries of the sequence are true.
pub open spec fn count_true(s: Seq<bool>) -> int
    decreases s.len(),
{
    if s.len() == 0 {
        0
    } else {
        count_true(s.drop_last()) + if s.last() {
            1int
        } else {
            0int
        }
    }
}

proof fn lemma_count_true_push(s: Seq<bool>, b: bool)
    ensures
        count_true(s.push(b)) == count_true(s) + if b {
            1int
        } else {
            0int
        },
{
    assert(s.push(b).drop_last() =~= s);
}

proof fn lemma_count_true_le(s: Seq<bool>)
    ensures
        0 <= count_true(s) <= s.len(),
    decreases s.len(),
{
    if s.len() > 0 {
        lemma_count_true_le(s.drop_last());
    }
}

proof fn lemma_count_true_update(s: Seq<bool>, i: int)
    requires
        0 <= i < s.len(),
    ensures
        count_true(s.update(i, true)) == count_true(s) + if s[i] {
            0int
        } else {
            1int
        },
    decreases s.len(),
{
    if i == s.len() - 1 {
        assert(s.update(i, true).drop_last() =~= s.drop_last());
    } else {
        assert(s.update(i, true).drop_last() =~= s.drop_last().update(i, true));
        lemma_count_true_update(s.drop_last(), i);
    }
}

/// The count reaches the length exactly when every entry is true.
proof fn lemma_count_true_full(s: Seq<bool>)
    ensures
        count_true(s) == s.len() <==> (forall|i: int| 0 <= i < s.len() ==> s[i]),
    decreases s.len(),
{
    if s.len() > 0 {
        lemma_count_true_full(s.drop_last());
        lemma_count_true_le(s.drop_last());
        if count_true(s) == s.len() {
            assert forall|i: int| 0 <= i < s.len() implies s[i] by {
                if i < s.len() - 1 {
                    assert(s.drop_last()[i]);
                }
            };
        }
        if forall|i: int| 0 <= i < s.len() ==> s[i] {
            assert forall|i: int| 0 <= i < s.drop_last().len() implies s.drop_last()[i] by {
                assert(s[i]);
            };
        }
    }
}

/// Row-major indices are injective: two distinct in-range coordinates
/// never map to the same index.
proof fn lemma_row_major_injective(w: int, x1: int, y1: int, x2: int, y2: int)
    requires
        0 <= x1 < w,
        0 <= x2 < w,
        y1 * w + x1 == y2 * w + x2,
    ensures
        x1 == x2 && y1 == y2,
{
    assert(y1 == y2) by (nonlinear_arith)
        requires
            0 <= x1 < w,
            0 <= x2 < w,
            y1 * w + x1 == y2 * w + x2,
    ;
}

/// Every in-range coordinate's row-major index is in range.
proof fn lemma_row_major_in_range(w: int, h: int, x: int, y: int)
    requires
        0 <= x < w,
        0 <= y < h,
    ensures
        0 <= y * w + x < w * h,
{
    assert(0 <= y * w + x < w * h) by (nonlinear_arith)
        requires
            0 <= x < w,
            0 <= y < h,
    ;
}

/// Funnels finished pixels into the output image and tracks which pixels
/// have arrived. Only this type ever writes to the image buffer.
pub struct PixelCollector {
    img: ImageStore,
    filled: Vec<bool>,
    count: u32,
    width: u32,
    height: u32,
}

impl PixelCollector {
    /// Width in pixels of the image being collected.
    pub closed spec fn width_spec(self) -> int {
        self.width as int
    }

    /// Height in pixels of the image being collected.
    pub closed spec fn height_spec(self) -> int {
        self.height as int
    }

    /// The collector's internal invariant: the image buffer matches the
    /// stated dimensions, one arrival flag exists per pixel, and the
    /// count equals the number of flags set.
    pub closed spec fn wf(self) -> bool {
        &&& image_dims(self.img) == (self.width as int, self.height as int)
        &&& self.filled@.len() == self.width as int * self.height as int
        &&& self.count as int == count_true(self.filled@)
        &&& self.width as int * self.height as int <= u32::MAX as int
    }

    /// Whether the pixel at (x, y) has been delivered.
    pub closed spec fn recorded(self, x: int, y: int) -> bool {
        self.filled@[y * self.width as int + x]
    }

    /// The color currently stored at (x, y) of the output image.
    pub closed spec fn pixel_spec(self, x: int, y: int) -> (u8, u8, u8) {
        image_pixels(self.img)[(x, y)]
    }

    /// Every pixel of the image has been delivered.
    pub open spec fn complete(self) -> bool {
        forall|x: int, y: int|
            0 <= x < self.width_spec() && 0 <= y < self.height_spec() ==> self.recorded(x, y)
    }

    /// A fresh collector for a width-by-height image: nothing recorded
    /// yet, every pixel of the buffer zeroed.
    pub fn new(width: u32, height: u32) -> (r: PixelCollector)
        requires
            width as int * height as int <= u32::MAX as int,
            3 * (width as int) * (height as int) <= usize::MAX as int,
        ensures
            r.wf(),
            r.width_spec() == width,
            r.height_spec() == height,
            forall|x: int, y: int|
                0 <= x < width && 0 <= y < height ==> !r.recorded(x, y) && r.pixel_spec(x, y) == (
                0u8,
                0u8,
                0u8,
                ),
    {
        let img = image_new(width, height);
        let n = width * height;
        let mut filled: Vec<bool> = Vec::new();
        let mut i: u32 = 0;
        while i < n
            invariant
                i <= n,
                filled@.len() == i as int,
                count_true(filled@) == 0,
                forall|k: int| 0 <= k < i ==> !filled@[k],
            decreases n - i,
        {
            proof {
                lemma_count_true_push(filled@, false);
            }
            filled.push(false);
            i = i + 1;
        }
        let r = PixelCollector { img, filled, count: 0, width, height };
        proof {
            assert forall|x: int, y: int| 0 <= x < width && 0 <= y < height implies !r.recorded(
                x,
                y,
            ) by {
                lemma_row_major_in_range(width as int, height as int, x, y);
            };
        }
        r
    }

    /// Deliver the pixel at (x, y): the image now stores exactly that
    /// color there, every other pixel is untouched, the pixel counts as
    /// recorded, and the arrival count grows only on a first delivery.
    pub fn record(&mut self, x: u32, y: u32, p: (u8, u8, u8))
        requires
            old(self).wf(),
            x < old(self).width_spec(),
            y < old(self).height_spec(),
        ensures
            final(self).wf(),
            final(self).width_spec() == old(self).width_spec(),
            final(self).height_spec() == old(self).height_spec(),
            final(self).recorded(x as int, y as int),
            final(self).pixel_spec(x as int, y as int) == p,
            forall|x2: int, y2: int|
                0 <= x2 < old(self).width_spec() && 0 <= y2 < old(self).height_spec() && (x2, y2)
                    != (x as int, y as int) ==> final(self).recorded(x2, y2) == old(self).recorded(
                    x2,
                    y2,
                ) && final(self).pixel_spec(x2, y2) == old(self).pixel_spec(x2, y2),
    {
        proof {
            lemma_row_major_in_range(self.width as int, self.height as int, x as int, y as int);
            lemma_count_true_update(self.filled@, y as int * self.width as int + x as int);
            lemma_count_true_le(self.filled@.update(y as int * self.width as int + x as int, true));
        }
        image_put(&mut self.img, x, y, p);
        let idx = y * self.width + x;
        let was = self.filled[idx as usize];
        self.filled[idx as usize] = true;
        if !was {
            self.count = self.count + 1;
        }
        proof {
            assert forall|x2: int, y2: int|
                0 <= x2 < self.width as int && 0 <= y2 < self.height as int && (x2, y2) != (
                x as int,
                y as int,
            ) implies self.recorded(x2, y2) == old(self).recorded(x2, y2) by {
                lemma_row_major_in_range(self.width as int, self.height as int, x2, y2);
                if y2 * self.width as int + x2 == y as int * self.width as int + x as int {
                    lemma_row_major_injective(
                        self.width as int,
                        x2,
                        y2,
                        x as int,
                        y as int,
                    );
                }
            };
        }
    }

    /// The color currently stored at (x, y) of the output image.
    pub fn pixel(&self, x: u32, y: u32) -> (r: (u8, u8, u8))
        requires
            self.wf(),
            x < self.width_spec(),
            y < self.height_spec(),
        ensures
            r == self.pixel_spec(x as int, y as int),
    {
        image_get(&self.img, x, y)
    }

    /// Whether every pixel of the image has been delivered.
    pub fn is_complete(&self) -> (r: bool)
        requires
            self.wf(),
        ensures
            r <==> self.complete(),
    {
        proof {
            let s = self.filled@;
            let w = self.width as int;
            let h = self.height as int;
            lemma_count_true_le(s);
            lemma_count_true_full(s);
            if count_true(s) == s.len() {
                assert forall|x: int, y: int| 0 <= x < w && 0 <= y < h implies self.recorded(
                    x,
                    y,
                ) by {
                    lemma_row_major_in_range(w, h, x, y);
                    assert(s[y * w + x]);
                };
            } else {
                assert(s.len() > 0);
                assert(w > 0) by (nonlinear_arith)
                    requires
                        w * h > 0,
                        0 <= w,
                ;
                let i = choose|i: int| 0 <= i < s.len() && !s[i];
                let x = i % w;
                let y = i / w;
                vstd::arithmetic::div_mod::lemma_fundamental_div_mod(i, w);
                assert(0 <= y < h) by (nonlinear_arith)
                    requires
                        i == w * y + x,
                        0 <= i < w * h,
                        0 <= x < w,
                ;
                assert(y * w + x == i);
                assert(!self.recorded(x, y));
            }
        }
        self.count == self.width * self.height
    }

    /// Hand the finished image out as its raw bytes, three per pixel in
    /// row-major order, for encoding by the caller.
    pub fn into_bytes(self) -> (r: Vec<u8>)
        requires
            self.wf(),
        ensures
            r@.len() == 3 * self.width_spec() * self.height_spec(),
            forall|x: int, y: int|
                0 <= x < self.width_spec() && 0 <= y < self.height_spec() ==> {
                    let i = 3 * (y * self.width_spec() + x);
                    &&& r@[i] == (#[trigger] self.pixel_spec(x, y)).0
                    &&& r@[i + 1] == self.pixel_spec(x, y).1
                    &&& r@[i + 2] == self.pixel_spec(x, y).2
                },
    {
        image_into_raw(self.img)
    }
}

} // verus!
