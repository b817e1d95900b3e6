use vstd::arithmetic::div_mod::{lemma_fundamental_div_mod, lemma_fundamental_div_mod_converse};
use vstd::prelude::*;

verus! {

/// Number of cells along each side of the scramble grid.
pub const DIVIDE: u32 = 4;

/// Cell sides are multiples of this many pixels.
pub const ALIGN: u32 = 8;

/// Bytes per pixel of an RGBA buffer.
pub const RGBA: usize = 4;

/// Side of one cell for an image side of `len` pixels.
pub open spec fn cell_size(len: int) -> int {
    (len / 32) * 8
}

/// Whether pixel `(x, y)` lies in the aligned 4×4 grid of a `w`×`h` image.
pub open spec fn in_grid(w: int, h: int, x: int, y: int) -> bool {
    0 <= x < 4 * cell_size(w) && 0 <= y < 4 * cell_size(h)
}

/// Column of the scrambled pixel that lands at `(x, y)`: the cell grid is
/// transposed, the offset inside the cell is kept.
pub open spec fn source_x(w: int, h: int, x: int, y: int) -> int {
    if in_grid(w, h, x, y) {
        (y / cell_size(h)) * cell_size(w) + x % cell_size(w)
    } else {
        x
    }
}

/// Row of the scrambled pixel that lands at `(x, y)`.
pub open spec fn source_y(w: int, h: int, x: int, y: int) -> int {
    if in_grid(w, h, x, y) {
        (x / cell_size(w)) * cell_size(h) + y % cell_size(h)
    } else {
        y
    }
}

/// Byte `k` of pixel `(x, y)` in a row-major RGBA buffer of width `w`.
pub open spec fn pixel(b: Seq<u8>, w: int, x: int, y: int, k: int) -> u8 {
    b[4 * (y * w + x) + k]
}

/// The descrambled image: each pixel taken from its source position.
pub open spec fn descrambled(b: Seq<u8>, w: int, h: int) -> Seq<u8> {
    Seq::new(
        b.len(),
        |j: int|
            {
                let p = j / 4;
                let x = p % w;
                let y = p / w;
                pixel(b, w, source_x(w, h, x, y), source_y(w, h, x, y), j % 4)
            },
    )
}

/// The scramble grid of an image: its size and the size of one cell.
pub struct TileGrid {
    pub width: u32,
    pub height: u32,
    pub cell_w: u32,
    pub cell_h: u32,
}

impl TileGrid {
    pub open spec fn wf(&self) -> bool {
        self.cell_w == cell_size(self.width as int) && self.cell_h == cell_size(self.height as int)
    }

    pub fn new(width: u32, height: u32) -> (g: TileGrid)
        ensures
            g.width == width,
            g.height == height,
            g.wf(),
    {
        TileGrid {
            width,
            height,
            cell_w: (width / (DIVIDE * ALIGN)) * ALIGN,
            cell_h: (height / (DIVIDE * ALIGN)) * ALIGN,
        }
    }
}

proof fn lemma_cell_fits(len: int)
    requires
        len >= 0,
    ensures
        0 <= 4 * cell_size(len) <= len,
{
    lemma_fundamental_div_mod(len, 32);
}

proof fn lemma_cell_index(v: int, c: int)
    requires
        0 <= v < 4 * c,
    ensures
        0 <= v / c < 4,
        0 <= v % c < c,
        v == (v / c) * c + v % c,
{
    lemma_fundamental_div_mod(v, c);
    assert(0 <= v / c < 4) by (nonlinear_arith)
        requires
            v == c * (v / c) + v % c,
            0 <= v % c < c,
            0 <= v < 4 * c,
    ;
    assert(v == (v / c) * c + v % c) by (nonlinear_arith)
        requires
            v == c * (v / c) + v % c,
    ;
}

/// The source of an in-image pixel is inside the image.
proof fn lemma_source_in_image(w: int, h: int, x: int, y: int)
    requires
        0 <= x < w,
        0 <= y < h,
    ensures
        0 <= source_x(w, h, x, y) < w,
        0 <= source_y(w, h, x, y) < h,
        in_grid(w, h, x, y) == in_grid(w, h, source_x(w, h, x, y), source_y(w, h, x, y)),
{
    lemma_cell_fits(w);
    lemma_cell_fits(h);
    if in_grid(w, h, x, y) {
        let cw = cell_size(w);
        let ch = cell_size(h);
        lemma_cell_index(x, cw);
        lemma_cell_index(y, ch);
        let r = y / ch;
        let c = x / cw;
        assert(0 <= r * cw + x % cw < 4 * cw) by (nonlinear_arith)
            requires
                0 <= r < 4,
                0 <= x % cw < cw,
        ;
        assert(0 <= c * ch + y % ch < 4 * ch) by (nonlinear_arith)
            requires
                0 <= c < 4,
                0 <= y % ch < ch,
        ;
    }
}

/// Moving a pixel to its source twice brings it back.
proof fn lemma_source_involution(w: int, h: int, x: int, y: int)
    requires
        0 <= x < w,
        0 <= y < h,
    ensures
        source_x(w, h, source_x(w, h, x, y), source_y(w, h, x, y)) == x,
        source_y(w, h, source_x(w, h, x, y), source_y(w, h, x, y)) == y,
{
    lemma_source_in_image(w, h, x, y);
    if in_grid(w, h, x, y) {
        let cw = cell_size(w);
        let ch = cell_size(h);
        lemma_cell_index(x, cw);
        lemma_cell_index(y, ch);
        let sx = source_x(w, h, x, y);
        let sy = source_y(w, h, x, y);
        lemma_fundamental_div_mod_converse(sx, cw, y / ch, x % cw);
        lemma_fundamental_div_mod_converse(sy, ch, x / cw, y % ch);
    }
}

/// Position of pixel `(x, y)` in row-major order, split back into column and row.
proof fn lemma_flat_index(w: int, x: int, y: int)
    requires
        0 <= x < w,
        0 <= y,
    ensures
        (y * w + x) % w == x,
        (y * w + x) / w == y,
{
    lemma_fundamental_div_mod_converse(y * w + x, w, y, x);
}

/// Descrambles a row-major RGBA buffer of `width`×`height` pixels: the
/// aligned 4×4 grid of cells is transposed, the border is copied as it is.
pub fn descramble(pixels: &Vec<u8>, width: u32, height: u32) -> (out: Vec<u8>)
    requires
        pixels@.len() == 4 * width * height,
    ensures
        out@ == descrambled(pixels@, width as int, height as int),
{
    let grid = TileGrid::new(width, height);
    let w = width as usize;
    let cw = grid.cell_w as usize;
    let ch = grid.cell_h as usize;
    let n = pixels.len() / RGBA;
    let ghost b = pixels@;
    proof {
        lemma_cell_fits(w as int);
        lemma_cell_fits(height as int);
        assert(b.len() == (w * height) * 4 + 0) by (nonlinear_arith)
            requires
                b.len() == 4 * w * height,
        ;
        lemma_fundamental_div_mod_converse(b.len() as int, 4, w * height, 0);
    }
    let mut out: Vec<u8> = Vec::with_capacity(pixels.len());
    let mut p: usize = 0;
    while p < n
        invariant
            b == pixels@,
            n == w * height,
            b.len() == 4 * n,
            b.len() <= usize::MAX,
            w == width,
            cw == cell_size(width as int),
            ch == cell_size(height as int),
            4 * cw <= w,
            4 * ch <= height,
            p <= n,
            out@.len() == 4 * p,
            forall|j: int| 0 <= j < out@.len() ==> out@[j] == #[trigger] descrambled(b, w as int, height as int)[j],
        decreases n - p,
    {
        let x = p % w;
        let y = p / w;
        proof {
            assert(y < height) by (nonlinear_arith)
                requires
                    p < n,
                    n == w * height,
                    y == p / w,
                    w > 0,
            ;
            lemma_source_in_image(w as int, height as int, x as int, y as int);
        }
        let (sx, sy) = if x < 4 * cw && y < 4 * ch {
            ((y / ch) * cw + x % cw, (x / cw) * ch + y % ch)
        } else {
            (x, y)
        };
        proof {
            assert(sy * w + sx < n) by (nonlinear_arith)
                requires
                    sx < w,
                    sy < height,
                    n == w * height,
            ;
            assert((sy * w + sx) * 4 < 4 * n);
        }
        let s = (sy * w + sx) * RGBA;
        let ghost d = descrambled(b, w as int, height as int);
        let ghost q = p as int;
        proof {
            lemma_flat_index(w as int, x as int, y as int);
            lemma_fundamental_div_mod(p as int, w as int);
        }
        out.push(pixels[s]);
        out.push(pixels[s + 1]);
        out.push(pixels[s + 2]);
        out.push(pixels[s + 3]);
        proof {
            assert(d[4 * q] == out@[4 * q]);
            assert(d[4 * q + 1] == out@[4 * q + 1]);
            assert(d[4 * q + 2] == out@[4 * q + 2]);
            assert(d[4 * q + 3] == out@[4 * q + 3]);
        }
        p += 1;
    }
    assert(out@ =~= descrambled(b, w as int, height as int));
    out
}

proof fn lemma_split_byte(b: Seq<u8>, w: int, h: int, j: int)
    requires
        w > 0,
        h >= 0,
        b.len() == 4 * w * h,
        0 <= j < b.len(),
    ensures
        0 <= (j / 4) % w < w,
        0 <= (j / 4) / w < h,
        j == 4 * (((j / 4) / w) * w + (j / 4) % w) + j % 4,
        0 <= j % 4 < 4,
{
    let p = j / 4;
    lemma_fundamental_div_mod(j, 4);
    lemma_fundamental_div_mod(p, w);
    assert(p < w * h) by (nonlinear_arith)
        requires
            j == 4 * p + j % 4,
            0 <= j % 4 < 4,
            j < 4 * w * h,
    ;
    assert(0 <= p / w < h) by (nonlinear_arith)
        requires
            p == w * (p / w) + p % w,
            0 <= p % w < w,
            0 <= p < w * h,
    ;
    assert(p == (p / w) * w + p % w) by (nonlinear_arith)
        requires
            p == w * (p / w) + p % w,
    ;
}

proof fn lemma_join_byte(w: int, h: int, x: int, y: int, k: int)
    requires
        0 <= x < w,
        0 <= y < h,
        0 <= k < 4,
    ensures
        0 <= 4 * (y * w + x) + k < 4 * w * h,
        (4 * (y * w + x) + k) / 4 == y * w + x,
        (4 * (y * w + x) + k) % 4 == k,
        (y * w + x) % w == x,
        (y * w + x) / w == y,
{
    lemma_flat_index(w, x, y);
    assert(0 <= y * w + x < w * h) by (nonlinear_arith)
        requires
            0 <= x < w,
            0 <= y < h,
    ;
    assert(4 * (w * h) == 4 * w * h) by (nonlinear_arith);
    lemma_fundamental_div_mod_converse(4 * (y * w + x) + k, 4, y * w + x, k);
}

/// Descrambling twice gives back the same buffer, whatever the image size.
pub proof fn descramble_is_involution(b: Seq<u8>, w: int, h: int)
    requires
        w >= 0,
        h >= 0,
        b.len() == 4 * w * h,
    ensures
        descrambled(descrambled(b, w, h), w, h) == b,
{
    let d = descrambled(b, w, h);
    let dd = descrambled(d, w, h);
    assert forall|j: int| 0 <= j < b.len() implies #[trigger] dd[j] == b[j] by {
        assert(w > 0) by (nonlinear_arith)
            requires
                0 <= j < b.len(),
                b.len() == 4 * w * h,
                w >= 0,
        ;
        lemma_split_byte(b, w, h, j);
        let x = (j / 4) % w;
        let y = (j / 4) / w;
        let k = j % 4;
        lemma_source_in_image(w, h, x, y);
        lemma_source_involution(w, h, x, y);
        let sx = source_x(w, h, x, y);
        let sy = source_y(w, h, x, y);
        lemma_join_byte(w, h, sx, sy, k);
    }
    assert(dd =~= b);
}

/// Cell mapping: after descrambling, the cell at grid position `(row, col)`
/// holds what the scrambled image held at grid position `(col, row)`.
pub proof fn descramble_transposes_cells(
    b: Seq<u8>,
    w: int,
    h: int,
    row: int,
    col: int,
    dx: int,
    dy: int,
    k: int,
)
    requires
        w >= 0,
        h >= 0,
        b.len() == 4 * w * h,
        0 <= row < 4,
        0 <= col < 4,
        0 <= dx < cell_size(w),
        0 <= dy < cell_size(h),
        0 <= k < 4,
    ensures
        pixel(descrambled(b, w, h), w, col * cell_size(w) + dx, row * cell_size(h) + dy, k)
            == pixel(b, w, row * cell_size(w) + dx, col * cell_size(h) + dy, k),
{
    let cw = cell_size(w);
    let ch = cell_size(h);
    let x = col * cw + dx;
    let y = row * ch + dy;
    lemma_cell_fits(w);
    lemma_cell_fits(h);
    assert(0 <= x < 4 * cw && 0 <= y < 4 * ch) by (nonlinear_arith)
        requires
            x == col * cw + dx,
            y == row * ch + dy,
            0 <= row < 4,
            0 <= col < 4,
            0 <= dx < cw,
            0 <= dy < ch,
    ;
    lemma_fundamental_div_mod_converse(x, cw, col, dx);
    lemma_fundamental_div_mod_converse(y, ch, row, dy);
    lemma_join_byte(w, h, x, y, k);
}

/// Pixels outside the aligned grid are the same before and after descrambling.
pub proof fn descramble_keeps_border(b: Seq<u8>, w: int, h: int, x: int, y: int, k: int)
    requires
        w >= 0,
        h >= 0,
        b.len() == 4 * w * h,
        0 <= x < w,
        0 <= y < h,
        !in_grid(w, h, x, y),
        0 <= k < 4,
    ensures
        pixel(descrambled(b, w, h), w, x, y, k) == pixel(b, w, x, y, k),
{
    lemma_join_byte(w, h, x, y, k);
}

/// RGB bytes of an RGBA buffer: the alpha byte of each pixel dropped.
pub open spec fn without_alpha(b: Seq<u8>) -> Seq<u8> {
    Seq::new((b.len() / 4) * 3, |j: int| b[(j / 3) * 4 + j % 3])
}

/// Drops the alpha byte of each pixel of an RGBA buffer.
pub fn drop_alpha(pixels: &Vec<u8>) -> (out: Vec<u8>)
    requires
        pixels@.len() % 4 == 0,
    ensures
        out@ == without_alpha(pixels@),
{
    let n = pixels.len() / RGBA;
    let mut out: Vec<u8> = Vec::with_capacity(n * 3);
    let mut p: usize = 0;
    while p < n
        invariant
            n == pixels@.len() / 4,
            pixels@.len() == 4 * n,
            pixels@.len() <= usize::MAX,
            p <= n,
            out@.len() == 3 * p,
            forall|j: int| 0 <= j < out@.len() ==> out@[j] == #[trigger] without_alpha(pixels@)[j],
        decreases n - p,
    {
        let ghost q = p as int;
        let s = p * RGBA;
        out.push(pixels[s]);
        out.push(pixels[s + 1]);
        out.push(pixels[s + 2]);
        proof {
            lemma_fundamental_div_mod_converse(3 * q, 3, q, 0);
            lemma_fundamental_div_mod_converse(3 * q + 1, 3, q, 1);
            lemma_fundamental_div_mod_converse(3 * q + 2, 3, q, 2);
            let d = without_alpha(pixels@);
            assert(d[3 * q] == out@[3 * q]);
            assert(d[3 * q + 1] == out@[3 * q + 1]);
            assert(d[3 * q + 2] == out@[3 * q + 2]);
        }
        p += 1;
    }
    assert(out@ =~= without_alpha(pixels@));
    out
}

/// Descrambles an RGBA buffer and drops its alpha: the RGB pixels that are
/// stored for a protected page.
pub fn descramble_to_rgb(pixels: &Vec<u8>, width: u32, height: u32) -> (out: Vec<u8>)
    requires
        pixels@.len() == 4 * width * height,
    ensures
        out@ == without_alpha(descrambled(pixels@, width as int, height as int)),
{
    let d = descramble(pixels, width, height);
    assert(d@.len() == (width * height) * 4 + 0) by (nonlinear_arith)
        requires
            d@.len() == 4 * width * height,
    ;
    proof {
        lemma_fundamental_div_mod_converse(d@.len() as int, 4, width * height, 0);
    }
    drop_alpha(&d)
}

/// Raster formats a page can be stored in.
#[derive(Clone, Copy, Debug, PartialEq, Eq, Structural)]
pub enum RasterFormat {
    Jpeg,
    Png,
}

/// Why a page could not be descrambled.
#[derive(Clone, Copy, Debug, PartialEq, Eq, Structural)]
pub enum TransformError {
    /// The bytes do not decode to a supported raster image.
    Decode,
    /// The descrambled image could not be encoded.
    Encode,
}

/// The image that `data` encodes: width, height and row-major RGBA bytes.
pub uninterp spec fn decoded_rgba(data: Seq<u8>) -> Option<(u32, u32, Seq<u8>)>;

/// The encoding of a `w`×`h` RGB image, as PNG when `png` holds, else as
/// JPEG; `None` where the encoder refuses the image (a zero side, or a side
/// too large for the format).
pub uninterp spec fn encoded_rgb(w: u32, h: u32, rgb: Seq<u8>, png: bool) -> Option<Seq<u8>>;

/// Relies on image::load_from_memory and DynamicImage::into_rgba8: decodes
/// the bytes, whatever their format, to RGBA pixels.
#[verifier::external_body]
fn decode_rgba(data: &[u8]) -> (r: Option<(u32, u32, Vec<u8>)>)
    ensures
        match r {
            Some((w, h, px)) => decoded_rgba(data@) == Some((w, h, px@)),
            None => decoded_rgba(data@) is None,
        },
{
    match image::load_from_memory(data) {
        Ok(img) => {
            let rgba = img.into_rgba8();
            let (w, h) = rgba.dimensions();
            Some((w, h, rgba.into_raw()))
        },
        Err(_) => None,
    }
}

/// Relies on image::write_buffer_with_format: encodes RGB pixels in the given
/// format. It panics unless the buffer holds exactly three bytes per pixel.
#[verifier::external_body]
fn encode_rgb(rgb: &[u8], width: u32, height: u32, format: RasterFormat) -> (r: Option<Vec<u8>>)
    requires
        rgb@.len() == 3 * width * height,
    ensures
        r matches Some(out) ==> encoded_rgb(width, height, rgb@, format == RasterFormat::Png) == Some(
            out@,
        ),
        r is None ==> encoded_rgb(width, height, rgb@, format == RasterFormat::Png) is None,
{
    let fmt = match format {
        RasterFormat::Jpeg => image::ImageFormat::Jpeg,
        RasterFormat::Png => image::ImageFormat::Png,
    };
    let mut out = std::io::Cursor::new(Vec::new());
    match image::write_buffer_with_format(&mut out, rgb, width, height, image::ExtendedColorType::Rgb8, fmt) {
        Ok(()) => Some(out.into_inner()),
        Err(_) => None,
    }
}

/// What descrambling an encoded page gives: the page decoded, its cells
/// transposed, its alpha dropped and encoded again, or the step that fails.
pub open spec fn descrambled_file(data: Seq<u8>, format: RasterFormat) -> Result<
    Seq<u8>,
    TransformError,
> {
    match decoded_rgba(data) {
        None => Err(TransformError::Decode),
        Some((w, h, px)) => if px.len() != 4 * w * h {
            Err(TransformError::Decode)
        } else {
            match encoded_rgb(
                w,
                h,
                without_alpha(descrambled(px, w as int, h as int)),
                format == RasterFormat::Png,
            ) {
                Some(out) => Ok(out),
                None => Err(TransformError::Encode),
            }
        },
    }
}

/// Descrambles an encoded page: decodes it, transposes its cell grid, drops
/// the alpha channel and encodes it again in `format`.
pub fn remove_drm(data: &[u8], format: RasterFormat) -> (r: Result<Vec<u8>, TransformError>)
    ensures
        match descrambled_file(data@, format) {
            Ok(s) => r matches Ok(out) && out@ == s,
            Err(e) => r == Err::<Vec<u8>, TransformError>(e),
        },
{
    let (w, h, px) = match decode_rgba(data) {
        Some(d) => d,
        None => return Err(TransformError::Decode),
    };
    proof {
        assert(0 <= (w as int) * (h as int) <= 0xffff_ffff * 0xffff_ffff) by (nonlinear_arith)
            requires
                0 <= w <= 0xffff_ffff,
                0 <= h <= 0xffff_ffff,
        ;
        assert(4 * w * h == (w * h) * 4) by (nonlinear_arith);
    }
    let size: u128 = (w as u128) * (h as u128) * (RGBA as u128);
    if size != px.len() as u128 {
        return Err(TransformError::Decode);
    }
    let rgb = descramble_to_rgb(&px, w, h);
    proof {
        assert(rgb@.len() == 3 * w * h) by (nonlinear_arith)
            requires
                rgb@.len() == (px@.len() / 4) * 3,
                px@.len() == 4 * w * h,
        ;
    }
    match encode_rgb(rgb.as_slice(), w, h, format) {
        Some(out) => Ok(out),
        None => Err(TransformError::Encode),
    }
}

} // verus!
