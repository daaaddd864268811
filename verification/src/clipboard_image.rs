//! Clipboard bitmaps for the assistant's input: a device-independent bitmap
//! (`CF_DIB`: a `BITMAPINFOHEADER` followed by the pixel rows, no file
//! header) becomes RGBA pixels, which `image` encodes as PNG; and what
//! pasting images into the assistant's input comes to.
use vstd::prelude::*;
use vstd::string::StringExecFns;

use crate::listing::{decimal, decimal_string};

verus! {

/// Size of a `BITMAPINFOHEADER`.
pub const DIB_HEADER_LEN: usize = 40;

/// Little-endian `u16` at `i`.
pub open spec fn le_u16(b: Seq<u8>, i: int) -> int {
    b[i] + 256 * b[i + 1]
}

/// Little-endian `u32` at `i`.
pub open spec fn le_u32(b: Seq<u8>, i: int) -> int {
    b[i] + 256 * b[i + 1] + 65536 * b[i + 2] + 16777216 * b[i + 3]
}

/// Little-endian two's-complement `i32` at `i`.
pub open spec fn le_i32(b: Seq<u8>, i: int) -> int {
    let u = le_u32(b, i);
    if u >= 0x8000_0000 {
        u - 0x1_0000_0000
    } else {
        u
    }
}

/// Width in pixels (`biWidth`).
pub open spec fn dib_width(d: Seq<u8>) -> int {
    le_i32(d, 4)
}

/// Signed height (`biHeight`): negative for top-down rows.
pub open spec fn dib_height_raw(d: Seq<u8>) -> int {
    le_i32(d, 8)
}

/// Number of pixel rows.
pub open spec fn dib_height(d: Seq<u8>) -> int {
    if dib_height_raw(d) < 0 {
        -dib_height_raw(d)
    } else {
        dib_height_raw(d)
    }
}

/// Bits per pixel (`biBitCount`).
pub open spec fn dib_bpp(d: Seq<u8>) -> int {
    le_u16(d, 14)
}

/// Bytes per pixel.
pub open spec fn dib_bytes_per_px(d: Seq<u8>) -> int {
    dib_bpp(d) / 8
}

/// Bytes per stored row: the pixel bytes rounded up to a multiple of four.
pub open spec fn dib_stride(d: Seq<u8>) -> int {
    (dib_width(d) * dib_bytes_per_px(d) + 3) / 4 * 4
}

/// The header describes what is handled: one plane, no compression, 24 or
/// 32 bits per pixel, positive width and non-zero height.
pub open spec fn dib_header_ok(d: Seq<u8>) -> bool {
    &&& d.len() >= DIB_HEADER_LEN
    &&& le_u16(d, 12) == 1
    &&& le_u32(d, 16) == 0
    &&& (dib_bpp(d) == 24 || dib_bpp(d) == 32)
    &&& dib_width(d) > 0
    &&& dib_height_raw(d) != 0
}

/// The bytes hold every row the header announces.
pub open spec fn dib_fits(d: Seq<u8>) -> bool {
    d.len() >= DIB_HEADER_LEN + dib_stride(d) * dib_height(d)
}

/// Offset of the pixel at output row `row`, column `col`: rows are stored
/// bottom-up unless the height is negative.
pub open spec fn dib_pixel_offset(d: Seq<u8>, row: int, col: int) -> int {
    let src_row = if dib_height_raw(d) < 0 {
        row
    } else {
        dib_height(d) - 1 - row
    };
    DIB_HEADER_LEN + src_row * dib_stride(d) + col * dib_bytes_per_px(d)
}

/// The RGBA bytes of a pixel (stored as BGR or BGRA; opaque without alpha).
pub open spec fn dib_pixel(d: Seq<u8>, row: int, col: int) -> Seq<u8> {
    let s = dib_pixel_offset(d, row, col);
    seq![d[s + 2], d[s + 1], d[s], if dib_bpp(d) == 32 {
        d[s + 3]
    } else {
        255u8
    }]
}

/// The RGBA bytes of the first `k` pixels of output row `row`.
pub open spec fn dib_row_prefix(d: Seq<u8>, row: int, k: int) -> Seq<u8>
    decreases k,
{
    if k <= 0 {
        Seq::empty()
    } else {
        dib_row_prefix(d, row, k - 1) + dib_pixel(d, row, k - 1)
    }
}

/// The RGBA bytes of the first `n` output rows, top row first.
pub open spec fn dib_rows(d: Seq<u8>, n: int) -> Seq<u8>
    decreases n,
{
    if n <= 0 {
        Seq::empty()
    } else {
        dib_rows(d, n - 1) + dib_row_prefix(d, n - 1, dib_width(d))
    }
}

/// The image a DIB holds: RGBA pixels row by row from the top, with its
/// width and height; `None` when the header is not handled or rows are missing.
pub open spec fn dib_rgba(d: Seq<u8>) -> Option<(Seq<u8>, u32, u32)> {
    if dib_header_ok(d) && dib_fits(d) {
        Some((dib_rows(d, dib_height(d)), dib_width(d) as u32, dib_height(d) as u32))
    } else {
        None
    }
}

/// The PNG encoding that `image` produces for `rgba` pixels of the given size.
pub uninterp spec fn png_encoding(rgba: Seq<u8>, width: u32, height: u32) -> Option<Seq<u8>>;

/// image: `ImageBuffer::<Rgba<u8>, Vec<u8>>::from_raw` then `write_to` with
/// the PNG format.  `from_raw` refuses a buffer shorter than four bytes per
/// pixel, so then there is no encoding; otherwise the result is the named
/// encoding (the encoder may still fail, which the name covers).
#[verifier::external_body]
fn encode_rgba_png(rgba: &[u8], width: u32, height: u32) -> (r: Option<Vec<u8>>)
    ensures
        rgba@.len() < 4 * width * height ==> r.is_none(),
        match r {
            Some(png) => png_encoding(rgba@, width, height) == Some(png@),
            None => png_encoding(rgba@, width, height).is_none(),
        },
{
    let img = image::ImageBuffer::<image::Rgba<u8>, Vec<u8>>::from_raw(width, height, rgba.to_vec())?;
    let mut out = Vec::new();
    img.write_to(&mut std::io::Cursor::new(&mut out), image::ImageOutputFormat::Png).ok()?;
    Some(out)
}

/// Little-endian `u16` at `i`.
fn read_le_u16(b: &[u8], i: usize) -> (r: u32)
    requires
        i + 2 <= b@.len(),
    ensures
        r == le_u16(b@, i as int),
{
    b[i] as u32 + 256 * (b[i + 1] as u32)
}

/// Little-endian `u32` at `i`.
fn read_le_u32(b: &[u8], i: usize) -> (r: u64)
    requires
        i + 4 <= b@.len(),
    ensures
        r == le_u32(b@, i as int),
{
    b[i] as u64 + 256 * (b[i + 1] as u64) + 65536 * (b[i + 2] as u64) + 16777216 * (b[i
        + 3] as u64)
}

/// Little-endian `i32` at `i`.
fn read_le_i32(b: &[u8], i: usize) -> (r: i64)
    requires
        i + 4 <= b@.len(),
    ensures
        r == le_i32(b@, i as int),
        -0x8000_0000 <= r < 0x8000_0000,
{
    let u = read_le_u32(b, i);
    if u >= 0x8000_0000 {
        u as i64 - 0x1_0000_0000
    } else {
        u as i64
    }
}

proof fn lemma_row_prefix_len(d: Seq<u8>, row: int, k: int)
    requires
        k >= 0,
    ensures
        dib_row_prefix(d, row, k).len() == 4 * k,
    decreases k,
{
    if k > 0 {
        lemma_row_prefix_len(d, row, k - 1);
    }
}

proof fn lemma_rows_len(d: Seq<u8>, n: int)
    requires
        n >= 0,
        dib_width(d) >= 0,
    ensures
        dib_rows(d, n).len() == 4 * dib_width(d) * n,
    decreases n,
{
    let w = dib_width(d);
    if n > 0 {
        lemma_rows_len(d, n - 1);
        lemma_row_prefix_len(d, n - 1, w);
        assert(dib_rows(d, n) == dib_rows(d, n - 1) + dib_row_prefix(d, n - 1, w));
        assert(4 * w * (n - 1) + 4 * w == 4 * w * n) by (nonlinear_arith);
    } else {
        assert(4 * w * n == 0) by (nonlinear_arith)
            requires
                n == 0,
        ;
    }
}

/// The pixels of a decoded bitmap fill its width and height exactly: four
/// bytes per pixel.
pub proof fn law_dib_pixels_fill_image(d: Seq<u8>)
    ensures
        match dib_rgba(d) {
            Some((px, w, h)) => px.len() == 4 * w * h,
            None => true,
        },
{
    if dib_header_ok(d) && dib_fits(d) {
        lemma_rows_len(d, dib_height(d));
    }
}

/// Decodes a `CF_DIB` bitmap into RGBA pixels (see `dib_rgba`).
pub fn dib_to_rgba(dib: &[u8]) -> (r: Option<(Vec<u8>, u32, u32)>)
    requires
        dib@.len() <= isize::MAX,
    ensures
        match r {
            Some((px, w, h)) => dib_rgba(dib@) == Some((px@, w, h)),
            None => dib_rgba(dib@).is_none(),
        },
{
    let ghost d = dib@;
    if dib.len() < DIB_HEADER_LEN {
        return None;
    }
    let width = read_le_i32(dib, 4);
    let height_raw = read_le_i32(dib, 8);
    let planes = read_le_u16(dib, 12);
    let bpp = read_le_u16(dib, 14);
    let compression = read_le_u32(dib, 16);
    if planes != 1 || compression != 0 || !(bpp == 24 || bpp == 32) {
        return None;
    }
    if width <= 0 || height_raw == 0 {
        return None;
    }
    let top_down = height_raw < 0;
    let h64: u64 = if top_down {
        (0 - height_raw) as u64
    } else {
        height_raw as u64
    };
    let bpx: u64 = if bpp == 32 {
        4
    } else {
        3
    };
    let w64 = width as u64;
    let stride64: u64 = (w64 * bpx + 3) / 4 * 4;
    proof {
        assert(dib_bytes_per_px(d) == bpx);
        assert(dib_stride(d) == stride64);
        assert(dib_height(d) == h64);
    }
    proof {
        assert(stride64 <= 0x4_0000_0000);
        assert((stride64 as int) * (h64 as int) <= 0x4_0000_0000 * 0x8000_0000) by (nonlinear_arith)
            requires
                stride64 <= 0x4_0000_0000,
                h64 <= 0x8000_0000,
        ;
    }
    let need: u128 = DIB_HEADER_LEN as u128 + (stride64 as u128) * (h64 as u128);
    if (dib.len() as u128) < need {
        return None;
    }
    proof {
        assert(stride64 <= stride64 * h64) by (nonlinear_arith)
            requires
                h64 >= 1,
        ;
        assert(w64 * 4 * h64 <= 4 * (w64 * bpx) * h64 / 3) by (nonlinear_arith)
            requires
                bpx >= 3,
                w64 >= 1,
                h64 >= 1,
        ;
        assert(w64 * bpx <= stride64);
        assert(4 * (w64 * bpx) * h64 <= 4 * stride64 * h64) by (nonlinear_arith)
            requires
                w64 * bpx <= stride64,
        ;
    }
    let w = w64 as usize;
    let h = h64 as usize;
    let stride = stride64 as usize;
    let bytes_per_px = bpx as usize;
    let mut out: Vec<u8> = Vec::new();
    let mut row: usize = 0;
    while row < h
        invariant
            d == dib@,
            d.len() <= isize::MAX,
            dib_header_ok(d),
            dib_fits(d),
            w == dib_width(d),
            h == dib_height(d),
            stride == dib_stride(d),
            bytes_per_px == dib_bytes_per_px(d),
            bytes_per_px == 3 || bytes_per_px == 4,
            w * bytes_per_px <= stride,
            top_down == (dib_height_raw(d) < 0),
            row <= h,
            out@ == dib_rows(d, row as int),
        decreases h - row,
    {
        let src_row = if top_down {
            row
        } else {
            h - 1 - row
        };
        proof {
            assert(src_row * stride + stride <= stride * h) by (nonlinear_arith)
                requires
                    src_row < h,
            ;
            assert(DIB_HEADER_LEN + stride * h <= d.len());
        }
        let src_off = DIB_HEADER_LEN + src_row * stride;
        let mut col: usize = 0;
        while col < w
            invariant
                d == dib@,
                d.len() <= isize::MAX,
                dib_header_ok(d),
                dib_fits(d),
                w == dib_width(d),
                h == dib_height(d),
                stride == dib_stride(d),
                bytes_per_px == dib_bytes_per_px(d),
                bytes_per_px == 3 || bytes_per_px == 4,
                w * bytes_per_px <= stride,
                top_down == (dib_height_raw(d) < 0),
                row < h,
                src_row == (if top_down {
                    row as int
                } else {
                    h - 1 - row
                }),
                src_off == DIB_HEADER_LEN + src_row * stride,
                src_off + stride <= d.len(),
                col <= w,
                out@ == dib_rows(d, row as int) + dib_row_prefix(d, row as int, col as int),
            decreases w - col,
        {
            proof {
                assert(col * bytes_per_px + bytes_per_px <= w * bytes_per_px) by (nonlinear_arith)
                    requires
                        col < w,
                ;
            }
            let s = src_off + col * bytes_per_px;
            proof {
                assert(s == dib_pixel_offset(d, row as int, col as int));
            }
            let a = if bytes_per_px == 4 {
                dib[s + 3]
            } else {
                255u8
            };
            out.push(dib[s + 2]);
            out.push(dib[s + 1]);
            out.push(dib[s]);
            out.push(a);
            proof {
                assert(out@ =~= dib_rows(d, row as int) + dib_row_prefix(
                    d,
                    row as int,
                    col + 1,
                ));
            }
            col = col + 1;
        }
        row = row + 1;
    }
    Some((out, w64 as u32, h64 as u32))
}

/// Converts a `CF_DIB` bitmap to PNG bytes: `None` when the bitmap is not
/// one that `dib_to_rgba` handles or when the encoder gives no PNG.
pub fn dib_bytes_to_png(dib: &[u8]) -> (r: Option<Vec<u8>>)
    requires
        dib@.len() <= isize::MAX,
    ensures
        match dib_rgba(dib@) {
            Some((px, w, h)) => match r {
                Some(png) => png_encoding(px, w, h) == Some(png@),
                None => png_encoding(px, w, h).is_none(),
            },
            None => r.is_none(),
        },
{
    match dib_to_rgba(dib) {
        Some((rgba, w, h)) => encode_rgba_png(rgba.as_slice(), w, h),
        None => None,
    }
}

/// ASCII lower-case of a byte.
pub open spec fn ascii_lower(b: u8) -> u8 {
    if 0x41 <= b <= 0x5a {
        (b + 0x20) as u8
    } else {
        b
    }
}

/// ASCII lower-case of bytes (`str::to_ascii_lowercase`).
pub open spec fn ascii_lower_bytes(s: Seq<u8>) -> Seq<u8> {
    Seq::new(s.len(), |i: int| ascii_lower(s[i]))
}

/// File extensions of the images the assistant accepts, lower-case.
pub open spec fn image_extensions() -> Seq<Seq<u8>> {
    seq![
        seq![0x6au8, 0x70u8, 0x67u8],
        seq![0x6au8, 0x70u8, 0x65u8, 0x67u8],
        seq![0x70u8, 0x6eu8, 0x67u8],
        seq![0x67u8, 0x69u8, 0x66u8],
        seq![0x77u8, 0x65u8, 0x62u8, 0x70u8],
        seq![0x62u8, 0x6du8, 0x70u8],
    ]
}

/// Whether `ext` (a file's extension, if it has one) names an image file:
/// `jpg`, `jpeg`, `png`, `gif`, `webp` or `bmp`, in any ASCII case.  The
/// file's content is checked again when it is attached.
pub open spec fn spec_is_image_ext(ext: Option<Seq<char>>) -> bool {
    match ext {
        Some(e) => image_extensions().contains(ascii_lower_bytes(vstd::utf8::encode_utf8(e))),
        None => false,
    }
}

/// `b` lower-cased equals `want`.
fn lower_equals(b: &[u8], want: &[u8]) -> (r: bool)
    ensures
        r == (ascii_lower_bytes(b@) == want@),
{
    if b.len() != want.len() {
        proof {
            assert(ascii_lower_bytes(b@).len() != want@.len());
        }
        return false;
    }
    let mut i: usize = 0;
    while i < b.len()
        invariant
            b@.len() == want@.len(),
            i <= b@.len(),
            forall|k: int| 0 <= k < i ==> ascii_lower(b@[k]) == want@[k],
        decreases b@.len() - i,
    {
        let c = b[i];
        let l = if 0x41 <= c && c <= 0x5a {
            c + 0x20
        } else {
            c
        };
        if l != want[i] {
            proof {
                assert(ascii_lower_bytes(b@)[i as int] != want@[i as int]);
            }
            return false;
        }
        i = i + 1;
    }
    proof {
        assert(ascii_lower_bytes(b@) =~= want@);
    }
    true
}

/// Whether a file with extension `extension` is taken for an image (see
/// `spec_is_image_ext`).
pub fn is_image_ext(extension: Option<&str>) -> (r: bool)
    ensures
        match extension {
            Some(e) => r == spec_is_image_ext(Some(e@)),
            None => !r,
        },
{
    match extension {
        None => false,
        Some(e) => {
            let b = e.as_bytes();
            let exts: Vec<Vec<u8>> = vec![
                vec![0x6au8, 0x70u8, 0x67u8],
                vec![0x6au8, 0x70u8, 0x65u8, 0x67u8],
                vec![0x70u8, 0x6eu8, 0x67u8],
                vec![0x67u8, 0x69u8, 0x66u8],
                vec![0x77u8, 0x65u8, 0x62u8, 0x70u8],
                vec![0x62u8, 0x6du8, 0x70u8],
            ];
            let ghost lower = ascii_lower_bytes(b@);
            let mut i: usize = 0;
            while i < exts.len()
                invariant
                    exts@.len() == 6,
                    forall|k: int| 0 <= k < 6 ==> #[trigger] exts@[k]@ == image_extensions()[k],
                    i <= 6,
                    forall|k: int| 0 <= k < i ==> image_extensions()[k] != lower,
                    lower == ascii_lower_bytes(b@),
                    b@ == vstd::utf8::encode_utf8(e@),
                    extension == Some(e),
                decreases 6 - i,
            {
                if lower_equals(b, exts[i].as_slice()) {
                    proof {
                        assert(image_extensions()[i as int] == lower);
                        assert(image_extensions().contains(lower));
                    }
                    return true;
                }
                i = i + 1;
            }
            proof {
                assert(!image_extensions().contains(lower)) by {
                    if image_extensions().contains(lower) {
                        let k = choose|k: int| 0 <= k < image_extensions().len() && image_extensions()[k] == lower;
                        assert(image_extensions()[k] != lower);
                    }
                }
            }
            false
        },
    }
}

/// What pasting into the assistant's input did with the clipboard.
#[derive(Clone, Copy, Debug, PartialEq, Eq, Structural)]
pub enum PasteImageOutcome {
    /// An image was taken (or a bitmap was there but could not be attached).
    Attached,
    /// No image: the caller pastes text instead.
    NoImage,
}

/// Number of successes among `rs`.
pub open spec fn ok_count(rs: Seq<Result<String, String>>) -> nat
    decreases rs.len(),
{
    if rs.len() == 0 {
        0
    } else {
        ok_count(rs.drop_last()) + if rs.last() is Ok {
            1nat
        } else {
            0nat
        }
    }
}

/// The message of the last failure among `rs`, if any.
pub open spec fn last_error(rs: Seq<Result<String, String>>) -> Option<Seq<char>>
    decreases rs.len(),
{
    if rs.len() == 0 {
        None
    } else {
        match rs.last() {
            Err(e) => Some(e@),
            Ok(_) => last_error(rs.drop_last()),
        }
    }
}

/// The outcome of a paste and the status message it leaves (if any), given
/// the outcome of attaching the clipboard's bitmap (`None`: there was no
/// bitmap; else the attached name or an error message) and, without a
/// bitmap, the outcomes of attaching each image file the clipboard names
/// (`None`: it names no files).
pub open spec fn paste_result(
    bitmap: Option<Result<String, String>>,
    files: Option<Seq<Result<String, String>>>,
) -> (PasteImageOutcome, Option<Seq<char>>) {
    match bitmap {
        Some(Ok(name)) => (
            PasteImageOutcome::Attached,
            Some("已附加剪贴板图片 "@ + name@ + "，将随下一条消息发送"@),
        ),
        Some(Err(msg)) => (PasteImageOutcome::Attached, Some(msg@)),
        None => match files {
            None => (PasteImageOutcome::NoImage, None),
            Some(rs) => if ok_count(rs) > 0 {
                (
                    PasteImageOutcome::Attached,
                    Some("已附加 "@ + decimal(ok_count(rs)) + " 张图片，将随下一条消息发送"@),
                )
            } else {
                (PasteImageOutcome::NoImage, last_error(rs))
            },
        },
    }
}

/// Decides what a paste into the assistant's input comes to (see
/// `paste_result`).
pub fn paste_image_outcome(
    bitmap: Option<Result<String, String>>,
    files: Option<Vec<Result<String, String>>>,
) -> (r: (PasteImageOutcome, Option<String>))
    ensures
        ({
            let expected = paste_result(
                bitmap,
                match files {
                    Some(v) => Some(v@),
                    None => None,
                },
            );
            &&& r.0 == expected.0
            &&& match (r.1, expected.1) {
                (Some(m), Some(e)) => m@ == e,
                (None, None) => true,
                _ => false,
            }
        }),
{
    match bitmap {
        Some(Ok(name)) => {
            let m = String::from_str("已附加剪贴板图片 ").concat(name.as_str()).concat(
                "，将随下一条消息发送",
            );
            return (PasteImageOutcome::Attached, Some(m));
        },
        Some(Err(msg)) => {
            return (PasteImageOutcome::Attached, Some(msg));
        },
        None => {},
    }
    let rs = match files {
        None => {
            return (PasteImageOutcome::NoImage, None);
        },
        Some(rs) => rs,
    };
    let mut attached: usize = 0;
    let mut last: Option<String> = None;
    let mut i: usize = 0;
    while i < rs.len()
        invariant
            i <= rs@.len(),
            attached == ok_count(rs@.subrange(0, i as int)),
            attached <= i,
            match (last, last_error(rs@.subrange(0, i as int))) {
                (Some(m), Some(e)) => m@ == e,
                (None, None) => true,
                _ => false,
            },
        decreases rs@.len() - i,
    {
        proof {
            assert(rs@.subrange(0, i + 1).drop_last() =~= rs@.subrange(0, i as int));
            assert(rs@.subrange(0, i + 1).last() == rs@[i as int]);
        }
        match &rs[i] {
            Ok(_) => {
                attached = attached + 1;
            },
            Err(msg) => {
                last = Some(msg.clone());
            },
        }
        i = i + 1;
    }
    proof {
        assert(rs@.subrange(0, rs@.len() as int) =~= rs@);
    }
    if attached > 0 {
        let n = decimal_string(attached as u64);
        let m = String::from_str("已附加 ").concat(n.as_str()).concat(" 张图片，将随下一条消息发送");
        (PasteImageOutcome::Attached, Some(m))
    } else {
        (PasteImageOutcome::NoImage, last)
    }
}

} // verus!
