//! Framebuffer pixel formats and the conversion to RGBA8888.
//!
//! A core rasterises in one of three formats; the frontend's renderer wants
//! RGBA8888.  The conversion widens each channel with the usual integer
//! scalings: a five-bit channel of 0RGB1555 is multiplied by eight, and the
//! channels of RGB565 use the rounding multiplies `(c*527+23) >> 6` and
//! `(c*259+33) >> 6`, which map the channel maxima exactly to 255.

use vstd::prelude::*;

verus! {

/// The framebuffer formats a core may choose.
#[derive(Debug, Clone, Copy, PartialEq, Eq, Structural)]
pub enum RetroPixelFormat {
    /// 0RGB1555, native endian; the top bit must be zero.
    Format0RGB1555,
    /// XRGB8888, native endian; the X byte is ignored.
    FormatXRGB8888,
    /// RGB565, native endian.
    FormatRGB565,
}

/// Bytes per pixel of each format.
pub open spec fn spec_pixel_size(f: RetroPixelFormat) -> int {
    match f {
        RetroPixelFormat::Format0RGB1555 => 2,
        RetroPixelFormat::FormatXRGB8888 => 4,
        RetroPixelFormat::FormatRGB565 => 2,
    }
}

/// The format a raw command value of the libretro API names.
pub open spec fn spec_format_from(format: u32) -> Option<RetroPixelFormat> {
    if format == 0 {
        Some(RetroPixelFormat::Format0RGB1555)
    } else if format == 1 {
        Some(RetroPixelFormat::FormatXRGB8888)
    } else if format == 2 {
        Some(RetroPixelFormat::FormatRGB565)
    } else {
        None
    }
}

/// The four RGBA bytes of one 0RGB1555 pixel.
pub open spec fn spec_pixel_1555(b0: u8, b1: u8) -> Seq<u8> {
    let d = ((b1 as u16) << 8) | (b0 as u16);
    seq![
        (((d >> 10) & 0x1f) * 8) as u8,
        (((d >> 5) & 0x1f) * 8) as u8,
        ((d & 0x1f) * 8) as u8,
        255u8,
    ]
}

/// The four RGBA bytes of one RGB565 pixel.
pub open spec fn spec_pixel_565(b0: u8, b1: u8) -> Seq<u8> {
    let d = ((b1 as u16) << 8) | (b0 as u16);
    seq![
        (((((d >> 11) & 0x1f) * 527 + 23) as u16 >> 6) as u8),
        (((((d >> 5) & 0x3f) * 259 + 33) as u16 >> 6) as u8),
        ((((d & 0x1f) * 527 + 23) as u16 >> 6) as u8),
        255u8,
    ]
}

/// The four RGBA bytes of one XRGB8888 pixel.
pub open spec fn spec_pixel_8888(b0: u8, b1: u8, b2: u8) -> Seq<u8> {
    seq![b2, b1, b0, 255u8]
}

/// The four RGBA bytes of pixel `p` of a frame in format `f`.
pub open spec fn spec_pixel(f: RetroPixelFormat, data: Seq<u8>, p: int) -> Seq<u8> {
    match f {
        RetroPixelFormat::Format0RGB1555 => spec_pixel_1555(data[2 * p], data[2 * p + 1]),
        RetroPixelFormat::FormatRGB565 => spec_pixel_565(data[2 * p], data[2 * p + 1]),
        RetroPixelFormat::FormatXRGB8888 => spec_pixel_8888(
            data[4 * p],
            data[4 * p + 1],
            data[4 * p + 2],
        ),
    }
}

/// The RGBA bytes of the first `n` pixels, in order.
pub open spec fn spec_convert(f: RetroPixelFormat, data: Seq<u8>, n: int) -> Seq<u8>
    decreases n,
{
    if n <= 0 {
        seq![]
    } else {
        spec_convert(f, data, n - 1) + spec_pixel(f, data, n - 1)
    }
}

/// The conversion yields four bytes per pixel.
pub proof fn lemma_spec_convert_len(f: RetroPixelFormat, data: Seq<u8>, n: int)
    requires
        n >= 0,
    ensures
        spec_convert(f, data, n).len() == 4 * n,
    decreases n,
{
    if n > 0 {
        lemma_spec_convert_len(f, data, n - 1);
        match f {
            RetroPixelFormat::Format0RGB1555 => {},
            RetroPixelFormat::FormatRGB565 => {},
            RetroPixelFormat::FormatXRGB8888 => {},
        }
    }
}

impl RetroPixelFormat {
    /// Returns the size of a pixel in bytes.
    pub fn get_pixel_size(&self) -> (r: usize)
        ensures
            r == spec_pixel_size(*self),
    {
        match self {
            RetroPixelFormat::Format0RGB1555 => 2,
            RetroPixelFormat::FormatXRGB8888 => 4,
            RetroPixelFormat::FormatRGB565 => 2,
        }
    }

    /// Converts from a raw integer format, as used by the libretro API.
    pub fn from(format: u32) -> (r: Option<RetroPixelFormat>)
        ensures
            r == spec_format_from(format),
    {
        if format == 0 {
            Some(RetroPixelFormat::Format0RGB1555)
        } else if format == 1 {
            Some(RetroPixelFormat::FormatXRGB8888)
        } else if format == 2 {
            Some(RetroPixelFormat::FormatRGB565)
        } else {
            None
        }
    }

    /// Converts a tightly packed frame in this format to RGBA8888.
    pub fn convert(&self, original_data: &[u8], width: usize, height: usize) -> (r: Vec<u8>)
        requires
            width * height * spec_pixel_size(*self) == original_data@.len(),
            width * height * 4 <= usize::MAX,
        ensures
            r@ == spec_convert(*self, original_data@, (width * height) as int),
            r@.len() == width * height * 4,
    {
        let data_len = original_data.len();
        let count = width * height;
        let mut result: Vec<u8> = Vec::new();
        let mut p: usize = 0;
        proof {
            lemma_spec_convert_len(*self, original_data@, count as int);
        }
        match self {
            RetroPixelFormat::Format0RGB1555 => {
                while p < count
                    invariant
                        0 <= p <= count,
                        2 * count == original_data@.len(),
                        original_data@.len() <= usize::MAX,
                        result@ == spec_convert(
                            RetroPixelFormat::Format0RGB1555,
                            original_data@,
                            p as int,
                        ),
                    decreases count - p,
                {
                    let pos = p * 2;
                    let d: u16 = ((original_data[pos + 1] as u16) << 8) | (original_data[pos]
                        as u16);
                    proof {
                        assert((d >> 10) & 0x1f < 32 && (d >> 5) & 0x1f < 32 && d & 0x1f < 32)
                            by (bit_vector);
                    }
                    result.push((((d >> 10) & 0x1f) * 8) as u8);
                    result.push((((d >> 5) & 0x1f) * 8) as u8);
                    result.push(((d & 0x1f) * 8) as u8);
                    result.push(255u8);
                    proof {
                        assert(result@ =~= spec_convert(
                            RetroPixelFormat::Format0RGB1555,
                            original_data@,
                            p + 1 as int,
                        ));
                    }
                    p = p + 1;
                }
            },
            RetroPixelFormat::FormatXRGB8888 => {
                while p < count
                    invariant
                        0 <= p <= count,
                        4 * count == original_data@.len(),
                        original_data@.len() <= usize::MAX,
                        result@ == spec_convert(
                            RetroPixelFormat::FormatXRGB8888,
                            original_data@,
                            p as int,
                        ),
                    decreases count - p,
                {
                    let pos = p * 4;
                    result.push(original_data[pos + 2]);
                    result.push(original_data[pos + 1]);
                    result.push(original_data[pos]);
                    result.push(255u8);
                    proof {
                        assert(result@ =~= spec_convert(
                            RetroPixelFormat::FormatXRGB8888,
                            original_data@,
                            p + 1 as int,
                        ));
                    }
                    p = p + 1;
                }
            },
            RetroPixelFormat::FormatRGB565 => {
                while p < count
                    invariant
                        0 <= p <= count,
                        2 * count == original_data@.len(),
                        original_data@.len() <= usize::MAX,
                        result@ == spec_convert(
                            RetroPixelFormat::FormatRGB565,
                            original_data@,
                            p as int,
                        ),
                    decreases count - p,
                {
                    let pos = p * 2;
                    let d: u16 = ((original_data[pos + 1] as u16) << 8) | (original_data[pos]
                        as u16);
                    proof {
                        assert((d >> 11) & 0x1f < 32 && (d >> 5) & 0x3f < 64 && d & 0x1f < 32)
                            by (bit_vector);
                        assert(((((d >> 11) & 0x1f) * 527 + 23) as u16 >> 6) < 256 && ((((d >> 5)
                            & 0x3f) * 259 + 33) as u16 >> 6) < 256 && (((d & 0x1f) * 527 + 23)
                            as u16 >> 6) < 256) by (bit_vector);
                    }
                    result.push(((((d >> 11) & 0x1f) * 527 + 23) >> 6) as u8);
                    result.push(((((d >> 5) & 0x3f) * 259 + 33) >> 6) as u8);
                    result.push((((d & 0x1f) * 527 + 23) >> 6) as u8);
                    result.push(255u8);
                    proof {
                        assert(result@ =~= spec_convert(
                            RetroPixelFormat::FormatRGB565,
                            original_data@,
                            p + 1 as int,
                        ));
                    }
                    p = p + 1;
                }
            },
        }
        result
    }
}

/// One row of a padded frame: the first `width_bytes` bytes of row `y`.
pub open spec fn spec_row(data: Seq<u8>, width_bytes: int, pitch: int, y: int) -> Seq<u8> {
    data.subrange(y * pitch, y * pitch + width_bytes)
}

/// The first `rows` rows of a padded frame with the padding removed.
pub open spec fn spec_depad(data: Seq<u8>, width_bytes: int, pitch: int, rows: int) -> Seq<u8>
    decreases rows,
{
    if rows <= 0 {
        seq![]
    } else {
        spec_depad(data, width_bytes, pitch, rows - 1) + spec_row(
            data,
            width_bytes,
            pitch,
            rows - 1,
        )
    }
}

/// Copies a padded frame (stride `pitch` bytes per row) into a tightly
/// packed buffer of `width * pixel_size` bytes per row.  Rejects a pitch
/// smaller than a row's worth of pixels, and a buffer that does not hold
/// `height` full rows.
pub fn depad_frame(data: &[u8], width: usize, height: usize, pitch: usize, format: RetroPixelFormat)
    -> (r: Option<Vec<u8>>)
    ensures
        match r {
            Some(v) => {
                &&& width * spec_pixel_size(format) <= pitch
                &&& pitch * height <= data@.len()
                &&& v@ == spec_depad(
                    data@,
                    width * spec_pixel_size(format),
                    pitch as int,
                    height as int,
                )
            },
            None => width * spec_pixel_size(format) > pitch || pitch * height > data@.len(),
        },
{
    let data_len = data.len();
    let pixel_size = format.get_pixel_size();
    let width_bytes = match width.checked_mul(pixel_size) {
        Some(v) => v,
        None => {
            proof {
                assert(width * spec_pixel_size(format) > pitch);
            }
            return None;
        },
    };
    if width_bytes > pitch {
        return None;
    }
    let total = match pitch.checked_mul(height) {
        Some(v) => v,
        None => {
            proof {
                assert(pitch * height > data@.len());
            }
            return None;
        },
    };
    if total > data.len() {
        return None;
    }
    let mut out: Vec<u8> = Vec::new();
    let mut y: usize = 0;
    while y < height
        invariant
            0 <= y <= height,
            width_bytes <= pitch,
            pitch * height <= data@.len(),
            data@.len() <= usize::MAX,
            width_bytes == width * spec_pixel_size(format),
            out@ == spec_depad(data@, width_bytes as int, pitch as int, y as int),
        decreases height - y,
    {
        proof {
            assert(y * pitch + pitch <= pitch * height) by (nonlinear_arith)
                requires
                    0 <= y < height,
                    pitch >= 0,
            ;
        }
        let row_start = y * pitch;
        let mut x: usize = 0;
        let ghost out_before = out@;
        while x < width_bytes
            invariant
                0 <= x <= width_bytes,
                row_start == y * pitch,
                row_start + width_bytes <= data@.len(),
                data@.len() <= usize::MAX,
                out@ == out_before + data@.subrange(row_start as int, row_start + x as int),
            decreases width_bytes - x,
        {
            out.push(data[row_start + x]);
            proof {
                assert(data@.subrange(row_start as int, row_start + x as int).push(
                    data@[row_start + x as int],
                ) =~= data@.subrange(row_start as int, row_start + (x + 1) as int));
            }
            x = x + 1;
        }
        proof {
            assert(out@ =~= spec_depad(data@, width_bytes as int, pitch as int, (y + 1) as int));
        }
        y = y + 1;
    }
    Some(out)
}

} // verus!
