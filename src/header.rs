use vstd::prelude::*;

use crate::cursor::{be_u32, read_be_u32_at};
use crate::error::DecodeError;

verus! {

/// The contents of an IHDR chunk.
#[derive(Debug, Clone, Copy, PartialEq, Eq, Structural)]
pub struct ImageHeader {
    pub width: u32,
    pub height: u32,
    pub bit_depth: u8,
    pub color_type: u8,
    pub interlace: u8,
}

/// Color types: grayscale, RGB, indexed, grayscale with alpha, RGB with alpha.
pub open spec fn color_type_known(ct: u8) -> bool {
    ct == 0 || ct == 2 || ct == 3 || ct == 4 || ct == 6
}

/// The bit depths that each color type allows.
pub open spec fn depth_allowed(ct: u8, d: u8) -> bool {
    if ct == 0 {
        d == 1 || d == 2 || d == 4 || d == 8 || d == 16
    } else if ct == 3 {
        d == 1 || d == 2 || d == 4 || d == 8
    } else {
        d == 8 || d == 16
    }
}

/// Samples per pixel of a color type, as stored in the stream.
pub open spec fn spec_channels(ct: u8) -> int {
    if ct == 2 {
        3
    } else if ct == 4 {
        2
    } else if ct == 6 {
        4
    } else {
        1
    }
}

impl ImageHeader {
    /// The header describes an image that this decoder can lay out.
    pub open spec fn valid(&self) -> bool {
        &&& self.width > 0
        &&& self.height > 0
        &&& color_type_known(self.color_type)
        &&& depth_allowed(self.color_type, self.bit_depth)
        &&& self.interlace <= 1
    }

    /// Bits in one pixel of the filtered stream.
    pub open spec fn spec_bits_per_pixel(&self) -> int {
        spec_channels(self.color_type) * self.bit_depth as int
    }

    /// Bytes in one scanline, filter byte excluded: the pixel bits rounded up to whole bytes.
    pub open spec fn spec_row_bytes(&self) -> int {
        (self.width as int * self.spec_bits_per_pixel() + 7) / 8
    }

    /// The distance in bytes to the corresponding byte of the pixel to the left
    /// (at least one, for bit depths under eight).
    pub open spec fn spec_filter_stride(&self) -> int {
        if self.spec_bits_per_pixel() < 8 {
            1
        } else {
            self.spec_bits_per_pixel() / 8
        }
    }

    /// Samples per pixel as stored.
    pub fn channels(&self) -> (r: u8)
        ensures
            r as int == spec_channels(self.color_type),
    {
        if self.color_type == 2 {
            3
        } else if self.color_type == 4 {
            2
        } else if self.color_type == 6 {
            4
        } else {
            1
        }
    }

    /// Bits per pixel as stored.
    pub fn bits_per_pixel(&self) -> (r: u8)
        requires
            self.valid(),
        ensures
            r as int == self.spec_bits_per_pixel(),
    {
        self.channels() * self.bit_depth
    }

    /// Byte distance between a byte and its left neighbour in the filters.
    pub fn filter_stride(&self) -> (r: usize)
        requires
            self.valid(),
        ensures
            r as int == self.spec_filter_stride(),
            1 <= r <= 8,
    {
        let bits = self.bits_per_pixel();
        if bits < 8 {
            1
        } else {
            (bits / 8) as usize
        }
    }

    /// Bytes in one scanline, filter byte excluded.
    pub fn row_bytes(&self) -> (r: u64)
        requires
            self.valid(),
        ensures
            r as int == self.spec_row_bytes(),
            r <= 0xffff_ffff * 8 + 1,
    {
        let bits = self.bits_per_pixel() as u64;
        assert(self.width as int * bits <= 0xffff_ffff * 64) by (nonlinear_arith)
            requires
                self.width <= 0xffff_ffff,
                bits <= 64,
        ;
        (self.width as u64 * bits + 7) / 8
    }
}

/// What parsing IHDR data gives.
pub open spec fn spec_parse_header(d: Seq<u8>) -> Result<ImageHeader, DecodeError> {
    if d.len() != 13 {
        Err(DecodeError::MissingHeader)
    } else {
        let h = ImageHeader {
            width: be_u32(d, 0) as u32,
            height: be_u32(d, 4) as u32,
            bit_depth: d[8],
            color_type: d[9],
            interlace: d[12],
        };
        if h.width == 0 || h.height == 0 || d[10] != 0 || d[11] != 0 || h.interlace > 1 {
            Err(DecodeError::MissingHeader)
        } else if !color_type_known(h.color_type) {
            Err(DecodeError::UnsupportedColorType)
        } else if !depth_allowed(h.color_type, h.bit_depth) {
            Err(DecodeError::UnsupportedBitDepth)
        } else {
            Ok(h)
        }
    }
}

/// Parses and validates the data of an IHDR chunk.
pub fn parse_header(d: &[u8]) -> (r: Result<ImageHeader, DecodeError>)
    ensures
        r == spec_parse_header(d@),
        r is Ok ==> r->Ok_0.valid(),
{
    if d.len() != 13 {
        return Err(DecodeError::MissingHeader);
    }
    let h = ImageHeader {
        width: read_be_u32_at(d, 0),
        height: read_be_u32_at(d, 4),
        bit_depth: d[8],
        color_type: d[9],
        interlace: d[12],
    };
    let ct = h.color_type;
    let bd = h.bit_depth;
    if h.width == 0 || h.height == 0 || d[10] != 0 || d[11] != 0 || h.interlace > 1 {
        Err(DecodeError::MissingHeader)
    } else if !(ct == 0 || ct == 2 || ct == 3 || ct == 4 || ct == 6) {
        Err(DecodeError::UnsupportedColorType)
    } else if !(if ct == 0 {
        bd == 1 || bd == 2 || bd == 4 || bd == 8 || bd == 16
    } else if ct == 3 {
        bd == 1 || bd == 2 || bd == 4 || bd == 8
    } else {
        bd == 8 || bd == 16
    }) {
        Err(DecodeError::UnsupportedBitDepth)
    } else {
        Ok(h)
    }
}

} // verus!
