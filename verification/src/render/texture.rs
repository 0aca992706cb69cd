use vstd::prelude::*;
use vstd::arithmetic::div_mod::{lemma_fundamental_div_mod, lemma_fundamental_div_mod_converse};
use guillotiere::SimpleAtlasAllocator;
use vstd::multiset::Multiset;
use crate::util::int_vec::UVec2;
use crate::render::mesh::quad::TexelTexture;
use crate::render::util::BoxToUV;

verus! {

/// The index of a texture in the texture atlas.
#[derive(Copy, Clone, Debug)]
pub struct TextureHandle {
    inner_index: u32,
}

impl TextureHandle {
    /// The index.
    pub closed spec fn spec_index(self) -> u32 {
        self.inner_index
    }

    /// The handle of the texture at `index` in the atlas.
    pub fn new(index: u32) -> (r: Self)
        ensures
            r.spec_index() == index,
    {
        Self { inner_index: index }
    }

    pub fn index(&self) -> (r: u32)
        ensures
            r == self.spec_index(),
    {
        self.inner_index
    }
}

#[verifier::external_type_specification]
#[verifier::external_body]
pub struct ExSimpleAtlasAllocator(SimpleAtlasAllocator);

/// The width and height that a `guillotiere::SimpleAtlasAllocator` was made with.
pub uninterp spec fn atlas_allocator_size(a: SimpleAtlasAllocator) -> (i32, i32);

/// A rectangle of texels in the atlas: `min` is its first texel on each axis,
/// `max` the first one past it.
#[derive(Copy, Clone, Debug, PartialEq, Eq, Structural)]
pub struct AtlasRect {
    pub min_x: i32,
    pub min_y: i32,
    pub max_x: i32,
    pub max_y: i32,
}

impl AtlasRect {
    /// The rectangle lies in an atlas of `side` by `side` texels and measures
    /// `width` by `height`, neither of them zero.
    pub open spec fn places(self, side: int, width: int, height: int) -> bool {
        &&& 0 < width
        &&& 0 < height
        &&& 0 <= self.min_x
        &&& 0 <= self.min_y
        &&& self.max_x == self.min_x + width
        &&& self.max_y == self.min_y + height
        &&& self.max_x <= side
        &&& self.max_y <= side
    }
}

/// A rectangle of a `guillotiere` free list, as `(min_x, min_y, max_x, max_y)`.
pub type FreeRect = (i32, i32, i32, i32);

/// The free rectangles of a `guillotiere::SimpleAtlasAllocator`, over all its
/// size buckets: the parts of the atlas that later requests are cut from.
pub uninterp spec fn atlas_free_rects(a: SimpleAtlasAllocator) -> Multiset<FreeRect>;

/// The free rectangle as an atlas rectangle.
pub open spec fn free_as_rect(f: FreeRect) -> AtlasRect {
    AtlasRect { min_x: f.0, min_y: f.1, max_x: f.2, max_y: f.3 }
}

/// A request of `w` by `h` fits in the free rectangle `f`.
pub open spec fn free_fits(f: FreeRect, w: int, h: int) -> bool {
    f.2 - f.0 >= w && f.3 - f.1 >= h
}

/// The `w` by `h` rectangle at the first corner of `f`.
pub open spec fn corner_rect(f: FreeRect, w: int, h: int) -> AtlasRect {
    AtlasRect { min_x: f.0, min_y: f.1, max_x: (f.0 + w) as i32, max_y: (f.1 + h) as i32 }
}

/// Width times height, at most `i32::MAX`, as `guillotiere` compares the parts
/// it may cut.
pub open spec fn saturated_area(r: FreeRect) -> int {
    let a = (r.2 - r.0) * (r.3 - r.1);
    if a > i32::MAX {
        i32::MAX as int
    } else {
        a
    }
}

/// The rectangle, kept in the free list when it is at least one texel wide
/// and high.
pub open spec fn kept(r: FreeRect) -> Multiset<FreeRect> {
    if r.2 - r.0 >= 1 && r.3 - r.1 >= 1 {
        Multiset::singleton(r)
    } else {
        Multiset::empty()
    }
}

/// What stays free of `f` once `w` by `h` is taken at its corner: nothing on
/// an exact fit; otherwise the strip beside or below the request, and the rest
/// of `f` past the other side, cut so that the larger of the two possible
/// side parts stays whole.
pub open spec fn split_pieces(f: FreeRect, w: int, h: int) -> Multiset<FreeRect> {
    let right: FreeRect = ((f.0 + w) as i32, f.1, f.2, (f.1 + h) as i32);
    let bottom: FreeRect = (f.0, (f.1 + h) as i32, (f.0 + w) as i32, f.3);
    if w == f.2 - f.0 && h == f.3 - f.1 {
        Multiset::empty()
    } else if saturated_area(right) > saturated_area(bottom) {
        kept(bottom).add(kept(((f.0 + w) as i32, f.1, f.2, f.3)))
    } else {
        kept(right).add(kept((f.0, (f.1 + h) as i32, f.2, f.3)))
    }
}

/// One call of `SimpleAtlasAllocator::allocate` for `w` by `h`, on the free
/// rectangles `free`, gives `res` and leaves the free rectangles `next`. An
/// empty request gets `None`. Otherwise the answer is `None` exactly when no
/// free rectangle can hold the request; else some free rectangle that can is
/// taken out, the request is placed at its first corner, and what is left of
/// it goes back into the free list.
pub open spec fn allocate_step(
    free: Multiset<FreeRect>,
    w: int,
    h: int,
    res: Option<AtlasRect>,
    next: Multiset<FreeRect>,
) -> bool {
    if w <= 0 || h <= 0 {
        res is None && next == free
    } else {
        match res {
            None => next == free && !exists|f: FreeRect| #[trigger] free.contains(f) && free_fits(f, w, h),
            Some(rect) => exists|f: FreeRect|
                #[trigger] free.contains(f) && free_fits(f, w, h) && rect == corner_rect(f, w, h) && next
                    == free.remove(f).add(split_pieces(f, w, h)),
        }
    }
}

/// `SimpleAtlasAllocator::new` from `guillotiere`: an allocator for an atlas
/// of the given size, with the crate's default options (alignment one texel),
/// whose one free rectangle is the whole atlas. A negative side would make a
/// later `allocate` overflow, so `requires` rules it out.
#[verifier::external_body]
fn new_atlas_allocator(width: i32, height: i32) -> (r: SimpleAtlasAllocator)
    requires
        width >= 0,
        height >= 0,
    ensures
        atlas_allocator_size(r) == (width, height),
        atlas_free_rects(r) == Multiset::singleton((0i32, 0i32, width, height)),
{
    SimpleAtlasAllocator::new(guillotiere::size2(width, height))
}

/// `SimpleAtlasAllocator::allocate` from `guillotiere`, as `allocate_step`
/// states it. Which of several free rectangles that can hold the request is
/// taken depends on the order of the free lists and on a best-fit score, which
/// this contract leaves open.
#[verifier::external_body]
fn atlas_allocate(a: &mut SimpleAtlasAllocator, width: i32, height: i32) -> (r: Option<AtlasRect>)
    ensures
        atlas_allocator_size(*final(a)) == atlas_allocator_size(*old(a)),
        allocate_step(atlas_free_rects(*old(a)), width as int, height as int, r, atlas_free_rects(*final(a))),
{
    match a.allocate(guillotiere::size2(width, height)) {
        Some(b) => Some(AtlasRect { min_x: b.min.x, min_y: b.min.y, max_x: b.max.x, max_y: b.max.y }),
        None => None,
    }
}

/// How a decoded image lays out the bytes of a pixel, eight bits a channel.
/// An indexed image has been expanded to RGB by the decoder.
#[derive(Copy, Clone, Debug, PartialEq, Eq, Structural)]
pub enum PixelLayout {
    Grayscale,
    GrayscaleAlpha,
    Rgb,
    Rgba,
    Indexed,
}

/// The number of bytes of one pixel.
pub open spec fn channels(layout: PixelLayout) -> nat {
    match layout {
        PixelLayout::Grayscale => 1,
        PixelLayout::GrayscaleAlpha => 2,
        PixelLayout::Rgb => 3,
        PixelLayout::Indexed => 3,
        PixelLayout::Rgba => 4,
    }
}

/// Channel `c` (red, green, blue, alpha) of pixel `p` of `buf`, widened to
/// RGBA: a gray value goes to all three colors, and a missing alpha is opaque.
pub open spec fn rgba_byte(buf: Seq<u8>, layout: PixelLayout, p: int, c: int) -> u8 {
    match layout {
        PixelLayout::Grayscale => if c < 3 { buf[p] } else { 255u8 },
        PixelLayout::GrayscaleAlpha => if c < 3 { buf[2 * p] } else { buf[2 * p + 1] },
        PixelLayout::Rgba => buf[4 * p + c],
        _ => if c < 3 { buf[3 * p + c] } else { 255u8 },
    }
}

/// The RGBA bytes of a decoded image: an RGBA buffer as it is, any other one
/// widened pixel by pixel.
pub open spec fn rgba_pixels(buf: Seq<u8>, layout: PixelLayout) -> Seq<u8> {
    if layout == PixelLayout::Rgba {
        buf
    } else {
        Seq::new(
            (buf.len() / channels(layout) * 4) as nat,
            |i: int| rgba_byte(buf, layout, i / 4, i % 4),
        )
    }
}

/// An RGBA image, eight bits a channel, row by row.
pub struct ImageData {
    pub data: Vec<u8>,
    pub dimensions: UVec2,
}

/// What the `png` crate decodes the bytes of a file to, eight bits a channel
/// (`Transformations::normalize_to_color8`): the bytes of the first frame,
/// the width, the height and the colour type of the file; `None` when the
/// bytes are not a PNG image that the decoder reads.
pub uninterp spec fn png_decoded(bytes: Seq<u8>) -> Option<(Seq<u8>, u32, u32, PixelLayout)>;

/// Decodes PNG bytes with the `png` crate: `Decoder::new`, `read_info` and
/// `next_frame` into a buffer of `output_buffer_size` bytes, with the colour
/// type of the file's header. The result is `png_decoded` of the bytes.
#[verifier::external_body]
fn decode_png(bytes: &[u8]) -> (r: Option<(Vec<u8>, u32, u32, PixelLayout)>)
    ensures
        match r {
            Some(d) => png_decoded(bytes@) == Some((d.0@, d.1, d.2, d.3)),
            None => png_decoded(bytes@) is None,
        },
{
    let mut decoder = png::Decoder::new(bytes);
    decoder.set_transformations(png::Transformations::normalize_to_color8());
    let mut reader = decoder.read_info().ok()?;
    let mut buf = vec![0u8; reader.output_buffer_size()];
    reader.next_frame(&mut buf).ok()?;
    let info = reader.info();
    let layout = match info.color_type {
        png::ColorType::Grayscale => PixelLayout::Grayscale,
        png::ColorType::GrayscaleAlpha => PixelLayout::GrayscaleAlpha,
        png::ColorType::Rgb => PixelLayout::Rgb,
        png::ColorType::Rgba => PixelLayout::Rgba,
        png::ColorType::Indexed => PixelLayout::Indexed,
    };
    Some((buf, info.width, info.height, layout))
}

/// A decoded buffer holds whole pixels of its layout, and its RGBA widening
/// fits in memory.
pub open spec fn whole_pixels(buf: Seq<u8>, layout: PixelLayout) -> bool {
    &&& buf.len() % channels(layout) == 0
    &&& buf.len() / channels(layout) * 4 <= usize::MAX
}

impl ImageData {
    /// Every texel of the image is in `data`.
    pub open spec fn wf(&self) -> bool {
        self.data@.len() >= self.dimensions.x * self.dimensions.y * 4
    }

    pub fn new(data: Vec<u8>, dimensions: UVec2) -> (r: Self)
        ensures
            r.data@ == data@,
            r.dimensions == dimensions,
    {
        Self { data, dimensions }
    }

    /// The image in the bytes of a PNG file, widened to RGBA: `None` when the
    /// decoder cannot read the bytes, or when its buffer is not whole pixels.
    pub fn from_png(bytes: &[u8]) -> (r: Option<Self>)
        ensures
            r is Some <==> (png_decoded(bytes@) matches Some(d) && whole_pixels(d.0, d.3)),
            r matches Some(img) ==> (png_decoded(bytes@) matches Some(d) && img.data@ == rgba_pixels(d.0, d.3)
                && img.dimensions == (UVec2 { x: d.1, y: d.2 })),
    {
        let (buf, width, height, layout) = match decode_png(bytes) {
            Some(d) => d,
            None => return None,
        };
        let ch: usize = match layout {
            PixelLayout::Grayscale => 1,
            PixelLayout::GrayscaleAlpha => 2,
            PixelLayout::Rgba => 4,
            _ => 3,
        };
        if buf.len() % ch != 0 || buf.len() / ch > usize::MAX / 4 {
            return None;
        }
        Some(Self::from_decoded(buf, UVec2::new(width, height), layout))
    }

    /// The image of a decoded buffer, widened to RGBA. A gray-and-alpha
    /// buffer is whole pairs and an RGB one whole triples.
    pub fn from_decoded(buf: Vec<u8>, dimensions: UVec2, layout: PixelLayout) -> (r: Self)
        requires
            layout == PixelLayout::GrayscaleAlpha ==> buf@.len() % 2 == 0,
            layout == PixelLayout::Rgb || layout == PixelLayout::Indexed ==> buf@.len() % 3 == 0,
            buf@.len() / channels(layout) * 4 <= usize::MAX,
        ensures
            r.data@ == rgba_pixels(buf@, layout),
            r.dimensions == dimensions,
    {
        if layout == PixelLayout::Rgba {
            return Self { data: buf, dimensions };
        }
        let ch: usize = match layout {
            PixelLayout::Grayscale => 1,
            PixelLayout::GrayscaleAlpha => 2,
            _ => 3,
        };
        let n = buf.len() / ch;
        let mut out: Vec<u8> = Vec::new();
        let mut p: usize = 0;
        while p < n
            invariant
                ch == channels(layout),
                layout != PixelLayout::Rgba,
                n == buf@.len() / channels(layout),
                n * 4 <= usize::MAX,
                p <= n,
                out@.len() == 4 * p,
                forall|j: int| 0 <= j < 4 * p ==> out@[j] == #[trigger] rgba_byte(buf@, layout, j / 4, j % 4),
            decreases n - p,
        {
            assert(p * ch + ch <= buf@.len()) by (nonlinear_arith)
                requires p < n, n == buf@.len() / (ch as nat), ch >= 1;
            let (r, g, b, a) = match layout {
                PixelLayout::Grayscale => (buf[p], buf[p], buf[p], 255u8),
                PixelLayout::GrayscaleAlpha => (buf[2 * p], buf[2 * p], buf[2 * p], buf[2 * p + 1]),
                _ => (buf[3 * p], buf[3 * p + 1], buf[3 * p + 2], 255u8),
            };
            out.push(r);
            out.push(g);
            out.push(b);
            out.push(a);
            assert forall|j: int| 0 <= j < 4 * (p + 1) implies out@[j] == #[trigger] rgba_byte(buf@, layout, j / 4, j % 4) by {
                if j >= 4 * p {
                    assert(j / 4 == p && j % 4 == j - 4 * p);
                }
            }
            p = p + 1;
        }
        assert(out@ =~= rgba_pixels(buf@, layout));
        Self { data: out, dimensions }
    }
}

/// The place in an RGBA buffer, rows `width` texels long, of channel `c` of
/// texel `(x, y)`.
pub open spec fn texel_byte(width: int, x: int, y: int, c: int) -> int {
    (y * width + x) * 4 + c
}

/// The column of the texel that byte `i` belongs to, rows `width` texels long.
pub open spec fn texel_x(width: int, i: int) -> int {
    (i / 4) % width
}

/// The row of the texel that byte `i` belongs to, rows `width` texels long.
pub open spec fn texel_y(width: int, i: int) -> int {
    (i / 4) / width
}

/// Byte `i` of an atlas `aw` texels wide belongs to the `w` by `h` rectangle
/// whose first texel is `(x0, y0)`.
pub open spec fn in_rect(aw: int, w: int, h: int, x0: int, y0: int, i: int) -> bool {
    x0 <= texel_x(aw, i) < x0 + w && y0 <= texel_y(aw, i) < y0 + h
}

/// The byte of a `w` texels wide image placed at `(x0, y0)` that lands on
/// byte `i` of an atlas `aw` texels wide.
pub open spec fn image_byte(aw: int, w: int, x0: int, y0: int, i: int) -> int {
    texel_byte(w, texel_x(aw, i) - x0, texel_y(aw, i) - y0, i % 4)
}

/// The atlas bytes `a`, `aw` texels a row, with the `w` by `h` image `img`
/// written over them at `(x0, y0)`.
pub open spec fn pasted(a: Seq<u8>, aw: int, img: Seq<u8>, w: int, h: int, x0: int, y0: int) -> Seq<u8> {
    Seq::new(
        a.len(),
        |i: int|
            if in_rect(aw, w, h, x0, y0, i) {
                img[image_byte(aw, w, x0, y0, i)]
            } else {
                a[i]
            },
    )
}

/// As `pasted`, with only the first `n` bytes of the image written.
spec fn pasted_prefix(a: Seq<u8>, aw: int, img: Seq<u8>, w: int, h: int, x0: int, y0: int, n: int) -> Seq<u8> {
    Seq::new(
        a.len(),
        |i: int|
            if in_rect(aw, w, h, x0, y0, i) && image_byte(aw, w, x0, y0, i) < n {
                img[image_byte(aw, w, x0, y0, i)]
            } else {
                a[i]
            },
    )
}

/// A byte written as texel `(x, y)` channel `c` is found again at that texel.
proof fn lemma_texel_byte_parts(width: int, x: int, y: int, c: int)
    requires
        0 <= x < width,
        0 <= y,
        0 <= c < 4,
    ensures
        texel_byte(width, x, y, c) / 4 == y * width + x,
        texel_byte(width, x, y, c) % 4 == c,
        texel_x(width, texel_byte(width, x, y, c)) == x,
        texel_y(width, texel_byte(width, x, y, c)) == y,
{
    let i = texel_byte(width, x, y, c);
    lemma_fundamental_div_mod_converse(i, 4, y * width + x, c);
    lemma_fundamental_div_mod_converse(y * width + x, width, y, x);
}

/// Every byte is some channel of some texel.
proof fn lemma_texel_byte_cover(width: int, i: int)
    requires
        0 < width,
        0 <= i,
    ensures
        0 <= texel_x(width, i) < width,
        0 <= texel_y(width, i),
        0 <= i % 4 < 4,
        i == texel_byte(width, texel_x(width, i), texel_y(width, i), i % 4),
{
    lemma_fundamental_div_mod(i, 4);
    lemma_fundamental_div_mod(i / 4, width);
    assert(0 <= i / 4);
    assert(0 <= (i / 4) / width) by (nonlinear_arith)
        requires 0 <= i / 4, 0 < width;
    assert(width * ((i / 4) / width) == ((i / 4) / width) * width) by (nonlinear_arith);
}

/// Byte `k` of row `row` of the image goes to the atlas byte that the copy
/// loop writes, and to no other.
proof fn lemma_paste_target(aw: int, w: int, h: int, x0: int, y0: int, row: int, k: int, i: int)
    requires
        0 <= x0,
        0 <= y0,
        0 < w,
        x0 + w <= aw,
        0 <= row < h,
        0 <= k < 4 * w,
        0 <= i,
    ensures
        in_rect(aw, w, h, x0, y0, ((y0 + row) * aw + x0) * 4 + k),
        image_byte(aw, w, x0, y0, ((y0 + row) * aw + x0) * 4 + k) == row * (4 * w) + k,
        in_rect(aw, w, h, x0, y0, i) && image_byte(aw, w, x0, y0, i) == row * (4 * w) + k
            ==> i == ((y0 + row) * aw + x0) * 4 + k,
{
    let col = k / 4;
    let c = k % 4;
    lemma_fundamental_div_mod(k, 4);
    let j = ((y0 + row) * aw + x0) * 4 + k;
    assert(j == texel_byte(aw, x0 + col, y0 + row, c));
    lemma_texel_byte_parts(aw, x0 + col, y0 + row, c);
    assert((row * w + col) * 4 + c == row * (4 * w) + k) by (nonlinear_arith)
        requires k == 4 * col + c;
    if in_rect(aw, w, h, x0, y0, i) && image_byte(aw, w, x0, y0, i) == row * (4 * w) + k {
        let x = texel_x(aw, i);
        let y = texel_y(aw, i);
        lemma_texel_byte_cover(aw, i);
        let n = (y - y0) * w + (x - x0);
        assert(image_byte(aw, w, x0, y0, i) == n * 4 + i % 4);
        assert(row * (4 * w) + k == (row * w + col) * 4 + c);
        lemma_fundamental_div_mod_converse(row * (4 * w) + k, 4, n, i % 4);
        lemma_fundamental_div_mod_converse(row * (4 * w) + k, 4, row * w + col, c);
        lemma_fundamental_div_mod_converse(n, w, y - y0, x - x0);
        lemma_fundamental_div_mod_converse(n, w, row, col);
    }
}

/// Every byte of the rectangle comes from the first `4 * w * h` bytes of the image.
proof fn lemma_image_byte_bound(aw: int, w: int, h: int, x0: int, y0: int, i: int)
    requires
        0 < aw,
        0 <= i,
        in_rect(aw, w, h, x0, y0, i),
    ensures
        0 <= image_byte(aw, w, x0, y0, i) < h * (4 * w),
{
    lemma_texel_byte_cover(aw, i);
    let x = texel_x(aw, i) - x0;
    let y = texel_y(aw, i) - y0;
    let c = i % 4;
    assert(0 <= (y * w + x) * 4 + c < h * (4 * w)) by (nonlinear_arith)
        requires 0 <= x < w, 0 <= y < h, 0 <= c < 4;
}

/// Writes the `w` by `h` image `img` over the atlas bytes `atlas`, `aw`
/// texels a row, with its first texel at `(x0, y0)`, one row at a time.
fn paste_image(atlas: &mut Vec<u8>, aw: usize, img: &Vec<u8>, w: usize, h: usize, x0: usize, y0: usize)
    requires
        0 < w,
        0 < h,
        x0 + w <= aw,
        (y0 + h) * aw * 4 <= old(atlas)@.len(),
        h * (4 * w) <= img@.len(),
    ensures
        final(atlas)@ == pasted(old(atlas)@, aw as int, img@, w as int, h as int, x0 as int, y0 as int),
{
    let ghost a0 = atlas@;
    let atlas_len = atlas.len();
    let img_len = img.len();
    assert(4 * w <= h * (4 * w) && (y0 + h) * aw <= (y0 + h) * aw * 4 && y0 + h <= (y0 + h) * aw) by (nonlinear_arith)
        requires 0 < h, 0 < w, x0 + w <= aw;
    let row_bytes = 4 * w;
    let mut row: usize = 0;
    while row < h
        invariant
            0 < w,
            x0 + w <= aw,
            (y0 + h) * aw * 4 <= a0.len(),
            h * (4 * w) <= img@.len(),
            row_bytes == 4 * w,
            atlas_len == a0.len(),
            img_len == img@.len(),
            y0 + h <= (y0 + h) * aw <= (y0 + h) * aw * 4,
            row <= h,
            atlas@ == pasted_prefix(a0, aw as int, img@, w as int, h as int, x0 as int, y0 as int, row * row_bytes),
        decreases h - row,
    {
        assert(((y0 + row) * aw + x0) * 4 + row_bytes <= (y0 + h) * aw * 4
            && (y0 + row) * aw <= (y0 + h) * aw
            && row * row_bytes + row_bytes <= h * (4 * w)) by (nonlinear_arith)
            requires row < h, x0 + w <= aw, row_bytes == 4 * w;
        let atlas_start = ((y0 + row) * aw + x0) * 4;
        let image_start = row * row_bytes;
        let mut k: usize = 0;
        while k < row_bytes
            invariant
                0 < w,
                x0 + w <= aw,
                (y0 + h) * aw * 4 <= a0.len(),
                h * (4 * w) <= img@.len(),
                row_bytes == 4 * w,
                row < h,
                atlas_start == ((y0 + row) * aw + x0) * 4,
                image_start == row * row_bytes,
                atlas_start + row_bytes <= a0.len(),
                image_start + row_bytes <= img@.len(),
                atlas_len == a0.len(),
                img_len == img@.len(),
                k <= row_bytes,
                atlas@ == pasted_prefix(a0, aw as int, img@, w as int, h as int, x0 as int, y0 as int, image_start + k),
            decreases row_bytes - k,
        {
            let b = img[image_start + k];
            atlas.set(atlas_start + k, b);
            proof {
                let n = image_start + k;
                let j = atlas_start + k;
                let next = pasted_prefix(a0, aw as int, img@, w as int, h as int, x0 as int, y0 as int, n + 1);
                assert forall|i: int| 0 <= i < a0.len() implies atlas@[i] == next[i] by {
                    lemma_paste_target(aw as int, w as int, h as int, x0 as int, y0 as int, row as int, k as int, i);
                }
                assert(atlas@ =~= next);
            }
            k = k + 1;
        }
        assert((row + 1) * row_bytes == image_start + row_bytes) by (nonlinear_arith)
            requires image_start == row * row_bytes;
        row = row + 1;
    }
    proof {
        let done = pasted(a0, aw as int, img@, w as int, h as int, x0 as int, y0 as int);
        assert forall|i: int| 0 <= i < a0.len() implies atlas@[i] == done[i] by {
            if in_rect(aw as int, w as int, h as int, x0 as int, y0 as int, i) {
                lemma_image_byte_bound(aw as int, w as int, h as int, x0 as int, y0 as int, i);
            }
        }
        assert(atlas@ =~= done);
    }
}

/// What the shaders are told of a rectangle (see `BoxToUV`).
pub open spec fn uv_of(rect: AtlasRect) -> TexelTexture {
    TexelTexture {
        offset: [rect.min_x as u16, rect.min_y as u16],
        size: [(rect.max_x - rect.min_x) as u16, (rect.max_y - rect.min_y) as u16],
    }
}

/// The bytes of a `side` by `side` atlas, zero at first, into which `images`
/// are written one after the other, each at the first texel of its rectangle
/// in `rects` (a later image over an earlier one where two meet).
pub open spec fn packed(side: int, images: Seq<ImageData>, rects: Seq<AtlasRect>) -> Seq<u8>
    decreases images.len(),
{
    if images.len() == 0 {
        Seq::new((side * side * 4) as nat, |i: int| 0u8)
    } else {
        let k = images.len() - 1;
        pasted(
            packed(side, images.take(k), rects.take(k)),
            side,
            images[k].data@,
            images[k].dimensions.x as int,
            images[k].dimensions.y as int,
            rects[k].min_x as int,
            rects[k].min_y as int,
        )
    }
}

/// The index of the last name in `names` that reads `name`, or -1 where none does.
pub open spec fn name_index(names: Seq<String>, name: Seq<char>) -> int
    decreases names.len(),
{
    if names.len() == 0 {
        -1
    } else if names.last()@ == name {
        names.len() - 1
    } else {
        name_index(names.drop_last(), name)
    }
}

/// A found name is at an index of the list.
pub proof fn lemma_name_index_bounds(names: Seq<String>, name: Seq<char>)
    ensures
        -1 <= name_index(names, name) < names.len(),
        name_index(names, name) >= 0 ==> names[name_index(names, name)]@ == name,
    decreases names.len(),
{
    if names.len() > 0 && names.last()@ != name {
        lemma_name_index_bounds(names.drop_last(), name);
    }
}

/// The two rectangles share no texel.
pub open spec fn rects_disjoint(a: AtlasRect, b: AtlasRect) -> bool {
    a.max_x <= b.min_x || b.max_x <= a.min_x || a.max_y <= b.min_y || b.max_y <= a.min_y
}

/// The request made for an image side: the side cast to `i32`, as the
/// allocator takes it.
pub open spec fn request_side(x: u32) -> int {
    (x as i32) as int
}

/// `frees` and `results` follow the allocator of an empty `side` by `side`
/// atlas through the requests for `images`, in order, each for the image's
/// size, up to the first refusal: `frees[k]` is the free list before request
/// `k` and `results[k]` its answer (see `allocate_step`).
pub open spec fn packing_run(
    side: int,
    images: Seq<ImageData>,
    frees: Seq<Multiset<FreeRect>>,
    results: Seq<Option<AtlasRect>>,
) -> bool {
    &&& frees.len() == results.len() + 1
    &&& results.len() <= images.len()
    &&& frees[0] == Multiset::singleton((0i32, 0i32, side as i32, side as i32))
    &&& forall|k: int|
        0 <= k < results.len() ==> allocate_step(
            #[trigger] frees[k],
            request_side(images[k].dimensions.x),
            request_side(images[k].dimensions.y),
            results[k],
            frees[k + 1],
        )
    &&& forall|k: int| 0 <= k < results.len() - 1 ==> (#[trigger] results[k]) is Some
}

/// No two of the rectangles overlap.
pub open spec fn pairwise_disjoint(rects: Seq<AtlasRect>) -> bool {
    forall|i: int, j: int| 0 <= i < j < rects.len() ==> rects_disjoint(#[trigger] rects[i], #[trigger] rects[j])
}

/// `p` lies inside `f`.
pub open spec fn free_inside(p: FreeRect, f: FreeRect) -> bool {
    f.0 <= p.0 && f.1 <= p.1 && p.2 <= f.2 && p.3 <= f.3
}

/// The free list of an atlas of `side` by `side` texels as the allocator keeps
/// it: its rectangles lie in the atlas, and no two of them overlap.
pub open spec fn free_list_ok(free: Multiset<FreeRect>, side: int) -> bool {
    &&& forall|f: FreeRect| #[trigger] free.contains(f) ==> 0 <= f.0 <= f.2 <= side && 0 <= f.1 <= f.3 <= side
    &&& forall|f: FreeRect| #[trigger] free.count(f) <= 1
    &&& forall|f: FreeRect, g: FreeRect|
        #[trigger] free.contains(f) && #[trigger] free.contains(g) && f != g ==> rects_disjoint(
            free_as_rect(f),
            free_as_rect(g),
        )
}

/// None of the rectangles overlaps a free rectangle.
pub open spec fn clear_of_free(rects: Seq<AtlasRect>, free: Multiset<FreeRect>) -> bool {
    forall|j: int, g: FreeRect|
        0 <= j < rects.len() && #[trigger] free.contains(g) ==> rects_disjoint(#[trigger] rects[j], free_as_rect(g))
}

/// A rectangle clear of `f` is clear of every rectangle inside `f`.
proof fn lemma_disjoint_inside(a: AtlasRect, f: FreeRect, p: FreeRect)
    requires
        rects_disjoint(a, free_as_rect(f)),
        free_inside(p, f),
        p.0 <= p.2,
        p.1 <= p.3,
    ensures
        rects_disjoint(a, free_as_rect(p)),
        rects_disjoint(free_as_rect(p), a),
{
}

/// What `split_pieces` puts back lies inside `f`, is at least a texel wide and
/// high, is clear of the placed request, and holds two different rectangles
/// that do not overlap.
proof fn lemma_split_pieces(f: FreeRect, w: int, h: int)
    requires
        0 < w,
        0 < h,
        f.0 <= f.2,
        f.1 <= f.3,
        free_fits(f, w, h),
    ensures
        forall|p: FreeRect| #[trigger] split_pieces(f, w, h).contains(p) ==> {
            &&& free_inside(p, f)
            &&& p.2 - p.0 >= 1
            &&& p.3 - p.1 >= 1
            &&& rects_disjoint(corner_rect(f, w, h), free_as_rect(p))
        },
        forall|p: FreeRect| #[trigger] split_pieces(f, w, h).count(p) <= 1,
        forall|p: FreeRect, q: FreeRect|
            #[trigger] split_pieces(f, w, h).contains(p) && #[trigger] split_pieces(f, w, h).contains(q) && p
                != q ==> rects_disjoint(free_as_rect(p), free_as_rect(q)),
{
    broadcast use vstd::multiset::group_multiset_axioms;

    let right: FreeRect = ((f.0 + w) as i32, f.1, f.2, (f.1 + h) as i32);
    let bottom: FreeRect = (f.0, (f.1 + h) as i32, (f.0 + w) as i32, f.3);
    let side_split: FreeRect = ((f.0 + w) as i32, f.1, f.2, f.3);
    let low_split: FreeRect = (f.0, (f.1 + h) as i32, f.2, f.3);
    if w == f.2 - f.0 && h == f.3 - f.1 {
    } else if saturated_area(right) > saturated_area(bottom) {
        assert forall|p: FreeRect| #[trigger] split_pieces(f, w, h).contains(p) implies p == bottom || p
            == side_split by {}
        assert forall|p: FreeRect| #[trigger] split_pieces(f, w, h).count(p) <= 1 by {
            if p == bottom {
                assert(p != side_split);
            }
        }
    } else {
        assert forall|p: FreeRect| #[trigger] split_pieces(f, w, h).contains(p) implies p == right || p
            == low_split by {}
        assert forall|p: FreeRect| #[trigger] split_pieces(f, w, h).count(p) <= 1 by {
            if p == right {
                assert(p != low_split);
            }
        }
    }
}

/// One allocation keeps the free list in order, places the request inside the
/// atlas, clear of every earlier rectangle, and leaves every rectangle clear of
/// what stays free.
proof fn lemma_allocation_keeps_packing(
    free: Multiset<FreeRect>,
    side: int,
    rects: Seq<AtlasRect>,
    f: FreeRect,
    w: int,
    h: int,
)
    requires
        free_list_ok(free, side),
        clear_of_free(rects, free),
        pairwise_disjoint(rects),
        free.contains(f),
        free_fits(f, w, h),
        0 < w,
        0 < h,
    ensures
        free_list_ok(free.remove(f).add(split_pieces(f, w, h)), side),
        clear_of_free(rects.push(corner_rect(f, w, h)), free.remove(f).add(split_pieces(f, w, h))),
        pairwise_disjoint(rects.push(corner_rect(f, w, h))),
        corner_rect(f, w, h).places(side, w, h),
{
    broadcast use vstd::multiset::group_multiset_axioms;

    let r = corner_rect(f, w, h);
    let pieces = split_pieces(f, w, h);
    let next = free.remove(f).add(pieces);
    lemma_split_pieces(f, w, h);
    assert(free.count(f) == 1);
    assert forall|g: FreeRect| #[trigger] next.contains(g) implies free.contains(g) && g != f || pieces.contains(
        g,
    ) by {
        if !pieces.contains(g) {
            assert(free.remove(f).count(g) > 0);
        }
    }
    // Every rectangle that stays free and was free before is clear of `f`.
    assert forall|g: FreeRect| free.contains(g) && g != f implies rects_disjoint(r, free_as_rect(g))
        && rects_disjoint(free_as_rect(f), free_as_rect(g)) by {
        lemma_disjoint_inside(free_as_rect(g), f, (f.0, f.1, (f.0 + w) as i32, (f.1 + h) as i32));
    }
    assert forall|g: FreeRect| #[trigger] next.count(g) <= 1 by {
        if pieces.contains(g) && free.contains(g) && g != f {
            lemma_disjoint_inside(free_as_rect(g), f, g);
        }
        if pieces.contains(g) && g == f {
            assert(free.remove(f).count(g) == 0);
        }
        if !pieces.contains(g) {
            assert(pieces.count(g) == 0);
        }
        if !(free.contains(g) && g != f) {
            assert(free.remove(f).count(g) == 0);
        }
    }
    assert forall|a: FreeRect, b: FreeRect|
        #[trigger] next.contains(a) && #[trigger] next.contains(b) && a != b implies rects_disjoint(
        free_as_rect(a),
        free_as_rect(b),
    ) by {
        if pieces.contains(a) && !pieces.contains(b) {
            lemma_disjoint_inside(free_as_rect(b), f, a);
        } else if !pieces.contains(a) && pieces.contains(b) {
            lemma_disjoint_inside(free_as_rect(a), f, b);
        }
    }
    let rs = rects.push(r);
    assert forall|j: int, g: FreeRect| 0 <= j < rs.len() && #[trigger] next.contains(g) implies rects_disjoint(
        #[trigger] rs[j],
        free_as_rect(g),
    ) by {
        if j < rects.len() {
            assert(rs[j] == rects[j]);
            if pieces.contains(g) {
                lemma_disjoint_inside(rects[j], f, g);
            }
        }
    }
    assert forall|i: int, j: int| 0 <= i < j < rs.len() implies rects_disjoint(#[trigger] rs[i], #[trigger] rs[j]) by {
        if j == rects.len() {
            assert(rs[i] == rects[i]);
            lemma_disjoint_inside(rects[i], f, (f.0, f.1, (f.0 + w) as i32, (f.1 + h) as i32));
        } else {
            assert(rs[i] == rects[i] && rs[j] == rects[j]);
        }
    }
}

/// A packed atlas is `side` by `side` texels of four bytes.
pub proof fn lemma_packed_len(side: int, images: Seq<ImageData>, rects: Seq<AtlasRect>)
    requires
        0 <= side,
    ensures
        packed(side, images, rects).len() == side * side * 4,
    decreases images.len(),
{
    if images.len() > 0 {
        lemma_packed_len(side, images.take(images.len() - 1), rects.take(images.len() - 1));
    }
    assert(0 <= side * side * 4) by (nonlinear_arith)
        requires 0 <= side;
}

/// Where no two rectangles overlap, the atlas holds every texel of every
/// image at the texel's place in the image's rectangle.
pub proof fn lemma_packed_keeps_images(
    side: int,
    images: Seq<ImageData>,
    rects: Seq<AtlasRect>,
    k: int,
    x: int,
    y: int,
    c: int,
)
    requires
        rects.len() == images.len(),
        forall|i: int|
            0 <= i < images.len() ==> (#[trigger] rects[i]).places(
                side,
                images[i].dimensions.x as int,
                images[i].dimensions.y as int,
            ),
        forall|i: int, j: int| 0 <= i < j < images.len() ==> rects_disjoint(#[trigger] rects[i], #[trigger] rects[j]),
        0 <= k < images.len(),
        0 <= x < images[k].dimensions.x,
        0 <= y < images[k].dimensions.y,
        0 <= c < 4,
    ensures
        packed(side, images, rects)[texel_byte(side, rects[k].min_x + x, rects[k].min_y + y, c)]
            == images[k].data@[texel_byte(images[k].dimensions.x as int, x, y, c)],
    decreases images.len(),
{
    let n = images.len() - 1;
    let last = rects[n];
    let img = images[n];
    let px = rects[k].min_x + x;
    let py = rects[k].min_y + y;
    let i = texel_byte(side, px, py, c);
    assert(rects[k].places(side, images[k].dimensions.x as int, images[k].dimensions.y as int));
    assert(last.places(side, img.dimensions.x as int, img.dimensions.y as int));
    lemma_texel_byte_parts(side, px, py, c);
    lemma_packed_len(side, images.take(n), rects.take(n));
    assert(0 <= i < side * side * 4) by (nonlinear_arith)
        requires
            i == (py * side + px) * 4 + c,
            0 <= px < side,
            0 <= py < side,
            0 <= c < 4;
    if k == n {
        assert(in_rect(side, img.dimensions.x as int, img.dimensions.y as int, last.min_x as int, last.min_y as int, i));
    } else {
        assert(rects_disjoint(rects[k], rects[n]));
        assert(!in_rect(side, img.dimensions.x as int, img.dimensions.y as int, last.min_x as int, last.min_y as int, i));
        let ti = images.take(n);
        let tr = rects.take(n);
        assert forall|a: int| 0 <= a < ti.len() implies (#[trigger] tr[a]).places(
            side,
            ti[a].dimensions.x as int,
            ti[a].dimensions.y as int,
        ) by {
            assert(rects[a].places(side, images[a].dimensions.x as int, images[a].dimensions.y as int));
        }
        assert forall|a: int, b: int| 0 <= a < b < ti.len() implies rects_disjoint(#[trigger] tr[a], #[trigger] tr[b]) by {
            assert(rects_disjoint(rects[a], rects[b]));
        }
        lemma_packed_keeps_images(side, ti, tr, k, x, y, c);
    }
}

/// Textures packed into one RGBA image, each found by the name of its file.
pub struct TextureAtlas {
    pub names: Vec<String>,
    pub data: ImageData,
    pub allocations: Vec<AtlasRect>,
    pub uvs: Vec<TexelTexture>,
}

impl TextureAtlas {
    /// Every named texture has its rectangle and its texture coordinates.
    pub open spec fn wf(&self) -> bool {
        &&& self.allocations@.len() == self.names@.len()
        &&& self.uvs@.len() == self.names@.len()
    }

    /// An atlas of `side` by `side` texels holding `images`, named by `names`,
    /// each written at the first texel of its rectangle in `allocations`.
    pub fn from_allocations(
        names: Vec<String>,
        images: Vec<ImageData>,
        side: u32,
        allocations: Vec<AtlasRect>,
    ) -> (r: Self)
        requires
            names@.len() == images@.len(),
            allocations@.len() == images@.len(),
            side * side * 4 <= u32::MAX,
            forall|i: int|
                0 <= i < images@.len() ==> {
                    &&& (#[trigger] images@[i]).wf()
                    &&& allocations@[i].places(
                        side as int,
                        images@[i].dimensions.x as int,
                        images@[i].dimensions.y as int,
                    )
                },
        ensures
            r.wf(),
            r.names@ == names@,
            r.allocations@ == allocations@,
            r.uvs@ == allocations@.map_values(|a: AtlasRect| uv_of(a)),
            r.data.dimensions == (UVec2 { x: side, y: side }),
            r.data.data@ == packed(side as int, images@, allocations@),
    {
        let total = (side * side * 4) as usize;
        let mut atlas_data: Vec<u8> = vec![0u8; total];
        proof {
            assert(atlas_data@ =~= packed(side as int, images@.take(0), allocations@.take(0)));
        }
        let mut uvs: Vec<TexelTexture> = Vec::new();
        let mut i: usize = 0;
        while i < images.len()
            invariant
                names@.len() == images@.len(),
                allocations@.len() == images@.len(),
                side * side * 4 <= u32::MAX,
                forall|i: int|
                    0 <= i < images@.len() ==> {
                        &&& (#[trigger] images@[i]).wf()
                        &&& allocations@[i].places(
                            side as int,
                            images@[i].dimensions.x as int,
                            images@[i].dimensions.y as int,
                        )
                    },
                i <= images@.len(),
                atlas_data@.len() == side * side * 4,
                atlas_data@ == packed(side as int, images@.take(i as int), allocations@.take(i as int)),
                uvs@ == allocations@.take(i as int).map_values(|a: AtlasRect| uv_of(a)),
            decreases images@.len() - i,
        {
            let image = &images[i];
            let rect = allocations[i];
            let w = image.dimensions.x as usize;
            let h = image.dimensions.y as usize;
            assert(h * (4 * w) <= image.data@.len() && (rect.min_y + h) * side * 4 <= side * side * 4) by (nonlinear_arith)
                requires
                    image.data@.len() >= w * h * 4,
                    rect.min_y + h <= side,
                    0 <= rect.min_y;
            paste_image(&mut atlas_data, side as usize, &image.data, w, h, rect.min_x as usize, rect.min_y as usize);
            uvs.push(rect.to_quad_uv());
            proof {
                assert(images@.take(i + 1).take(i as int) =~= images@.take(i as int));
                assert(allocations@.take(i + 1).take(i as int) =~= allocations@.take(i as int));
                assert(uvs@ =~= allocations@.take(i + 1).map_values(|a: AtlasRect| uv_of(a)));
            }
            i = i + 1;
        }
        proof {
            assert(images@.take(images@.len() as int) =~= images@);
            assert(allocations@.take(images@.len() as int) =~= allocations@);
        }
        Self { names, data: ImageData::new(atlas_data, UVec2::new(side, side)), allocations, uvs }
    }

    /// Places `images` one after the other in a `side` by `side` atlas, asking
    /// the atlas allocator for a rectangle of each image's size, and packs them
    /// there (see `from_allocations`); `None` when the allocator has no place
    /// for one of them. The rectangles never overlap, so every image can be
    /// read back from the atlas (`lemma_packed_keeps_images`).
    pub fn from_images(names: Vec<String>, images: Vec<ImageData>, side: u32) -> (r: Option<Self>)
        requires
            names@.len() == images@.len(),
            side * side * 4 <= u32::MAX,
            forall|i: int| 0 <= i < images@.len() ==> (#[trigger] images@[i]).wf(),
        ensures
            images@.len() == 0 ==> r is Some,
            r matches Some(atlas) ==> {
                &&& atlas.wf()
                &&& atlas.names@ == names@
                &&& atlas.allocations@.len() == images@.len()
                &&& forall|i: int|
                    0 <= i < images@.len() ==> (#[trigger] atlas.allocations@[i]).places(
                        side as int,
                        images@[i].dimensions.x as int,
                        images@[i].dimensions.y as int,
                    )
                &&& pairwise_disjoint(atlas.allocations@)
                &&& atlas.uvs@ == atlas.allocations@.map_values(|a: AtlasRect| uv_of(a))
                &&& atlas.data.dimensions == (UVec2 { x: side, y: side })
                &&& atlas.data.data@ == packed(side as int, images@, atlas.allocations@)
                &&& exists|frees: Seq<Multiset<FreeRect>>, results: Seq<Option<AtlasRect>>|
                    #![trigger packing_run(side as int, images@, frees, results)]
                    packing_run(side as int, images@, frees, results) && results.len() == images@.len()
                        && forall|k: int| 0 <= k < results.len() ==> #[trigger] results[k] == Some(
                        atlas.allocations@[k],
                    )
            },
            r is None ==> exists|frees: Seq<Multiset<FreeRect>>, results: Seq<Option<AtlasRect>>|
                #![trigger packing_run(side as int, images@, frees, results)]
                packing_run(side as int, images@, frees, results) && results.len() >= 1 && results.last() is None,
    {
        broadcast use vstd::multiset::group_multiset_axioms;

        assert(side < 32768) by (nonlinear_arith)
            requires side * side * 4 <= u32::MAX;
        let mut allocator = new_atlas_allocator(side as i32, side as i32);
        let mut allocations: Vec<AtlasRect> = Vec::new();
        let ghost mut frees: Seq<Multiset<FreeRect>> = seq![atlas_free_rects(allocator)];
        let ghost mut results: Seq<Option<AtlasRect>> = Seq::empty();
        proof {
            assert(side as i32 == (side as int) as i32);
            assert(frees[0] == Multiset::singleton((0i32, 0i32, (side as int) as i32, (side as int) as i32)));
            assert(packing_run(side as int, images@, frees, results));
        }
        let mut i: usize = 0;
        while i < images.len()
            invariant
                names@.len() == images@.len(),
                side < 32768,
                forall|i: int| 0 <= i < images@.len() ==> (#[trigger] images@[i]).wf(),
                atlas_allocator_size(allocator) == (side as i32, side as i32),
                i <= images@.len(),
                allocations@.len() == i,
                forall|j: int|
                    0 <= j < i ==> {
                        &&& (#[trigger] allocations@[j]).places(
                            side as int,
                            images@[j].dimensions.x as int,
                            images@[j].dimensions.y as int,
                        )
                    },
                packing_run(side as int, images@, frees, results),
                results.len() == i,
                forall|k: int| 0 <= k < i ==> #[trigger] results[k] == Some(allocations@[k]),
                frees[i as int] == atlas_free_rects(allocator),
                free_list_ok(atlas_free_rects(allocator), side as int),
                clear_of_free(allocations@, atlas_free_rects(allocator)),
                pairwise_disjoint(allocations@),
            decreases images@.len() - i,
        {
            let dims = images[i].dimensions;
            let ghost free = atlas_free_rects(allocator);
            if dims.x > 0x7fff_ffff || dims.y > 0x7fff_ffff {
                proof {
                    let dx = dims.x;
                    let dy = dims.y;
                    assert(dx > 0x7fff_ffff ==> (dx as i32) < 0) by (bit_vector);
                    assert(dy > 0x7fff_ffff ==> (dy as i32) < 0) by (bit_vector);
                    assert(dims == images@[i as int].dimensions);
                    let fs = frees.push(free);
                    let rs = results.push(None);
                    assert(fs[i as int] == frees[i as int]);
                    assert forall|k: int| 0 <= k < rs.len() implies allocate_step(
                        #[trigger] fs[k],
                        request_side(images@[k].dimensions.x),
                        request_side(images@[k].dimensions.y),
                        rs[k],
                        fs[k + 1],
                    ) by {
                        if k < i {
                            assert(fs[k] == frees[k] && fs[k + 1] == frees[k + 1] && rs[k] == results[k]);
                        }
                    }
                    assert forall|k: int| 0 <= k < rs.len() - 1 implies (#[trigger] rs[k]) is Some by {
                        assert(rs[k] == results[k]);
                    }
                    assert(packing_run(side as int, images@, fs, rs));
                }
                return None;
            }
            let dx = dims.x;
            let dy = dims.y;
            let width = dx as i32;
            let height = dy as i32;
            assert(width == dx && height == dy) by (bit_vector)
                requires
                    dx <= 0x7fff_ffff,
                    dy <= 0x7fff_ffff,
                    width == dx as i32,
                    height == dy as i32;
            assert(dims == images@[i as int].dimensions);
            let ghost before = allocations@;
            let res = atlas_allocate(&mut allocator, width, height);
            let ghost next = atlas_free_rects(allocator);
            proof {
                let fs = frees.push(next);
                let rs = results.push(res);
                assert(fs[i as int] == frees[i as int]);
                assert forall|k: int| 0 <= k < rs.len() implies allocate_step(
                    #[trigger] fs[k],
                    request_side(images@[k].dimensions.x),
                    request_side(images@[k].dimensions.y),
                    rs[k],
                    fs[k + 1],
                ) by {
                    if k < i {
                        assert(fs[k] == frees[k] && fs[k + 1] == frees[k + 1] && rs[k] == results[k]);
                    }
                }
                assert forall|k: int| 0 <= k < rs.len() - 1 implies (#[trigger] rs[k]) is Some by {
                    assert(rs[k] == results[k]);
                }
                assert(packing_run(side as int, images@, fs, rs));
                frees = fs;
                results = rs;
            }
            let rect = match res {
                Some(rect) => rect,
                None => return None,
            };
            proof {
                let f = choose|f: FreeRect|
                    #[trigger] free.contains(f) && free_fits(f, width as int, height as int) && rect == corner_rect(
                        f,
                        width as int,
                        height as int,
                    ) && next == free.remove(f).add(split_pieces(f, width as int, height as int));
                lemma_allocation_keeps_packing(free, side as int, before, f, width as int, height as int);
            }
            allocations.push(rect);
            assert(allocations@ == before.push(rect));
            assert forall|j: int| 0 <= j < i + 1 implies {
                &&& (#[trigger] allocations@[j]).places(
                    side as int,
                    images@[j].dimensions.x as int,
                    images@[j].dimensions.y as int,
                )
            } by {
                if j < i {
                    assert(allocations@[j] == before[j]);
                }
            }
            assert forall|k: int| 0 <= k < i + 1 implies #[trigger] results[k] == Some(allocations@[k]) by {
                if k < i {
                    assert(allocations@[k] == before[k]);
                }
            }
            i = i + 1;
        }
        let ghost allocs = allocations@;
        let atlas = Self::from_allocations(names, images, side, allocations);
        assert(packing_run(side as int, images@, frees, results));
        Some(atlas)
    }

    /// The texture whose file was named `file_name`; where two were, the later.
    pub fn get_handle(&self, file_name: &str) -> (r: Option<TextureHandle>)
        ensures
            r is Some <==> name_index(self.names@, file_name@) >= 0,
            r matches Some(handle) ==> handle.spec_index() == name_index(self.names@, file_name@) as u32,
    {
        let key = file_name.to_owned();
        let mut i = self.names.len();
        proof {
            assert(self.names@.take(i as int) =~= self.names@);
        }
        while i > 0
            invariant
                i <= self.names@.len(),
                key@ == file_name@,
                name_index(self.names@, file_name@) == name_index(self.names@.take(i as int), file_name@),
            decreases i,
        {
            proof {
                let t = self.names@.take(i as int);
                assert(t.drop_last() =~= self.names@.take(i - 1));
            }
            i = i - 1;
            if self.names[i] == key {
                return Some(TextureHandle::new(i as u32));
            }
        }
        None
    }

    /// Where the texture lies in the atlas, as the shaders read it.
    pub fn get_uv(&self, handle: TextureHandle) -> (r: TexelTexture)
        requires
            handle.spec_index() < self.allocations@.len(),
        ensures
            r == uv_of(self.allocations@[handle.spec_index() as int]),
    {
        let rect = self.allocations[handle.index() as usize];
        rect.to_quad_uv()
    }
}

} // verus!
