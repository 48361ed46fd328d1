//! The target-shape model: a `Dimensions` value describes the tensor a
//! conversion must produce (rows, columns, channels and per-sample
//! precision), and the byte layout that shape implies.

use vstd::prelude::*;

verus! {

/// Per-sample numeric encoding of the output tensor. The enumeration is
/// closed: every other textual token is a parse failure.
#[derive(Debug, PartialEq, Eq, Clone, Copy, Structural)]
pub enum Precision {
    U8,
    FP32,
}

impl Precision {
    /// Size of one sample in bytes.
    pub open spec fn spec_len(&self) -> int {
        match self {
            Precision::U8 => 1,
            Precision::FP32 => 4,
        }
    }

    /// Returns the size in bytes of one sample of this precision.
    pub fn len(&self) -> (n: usize)
        ensures
            n == self.spec_len(),
    {
        match self {
            Precision::U8 => 1,
            Precision::FP32 => 4,
        }
    }
}

/// Element type codes of the pixel-buffer backend: three interleaved
/// unsigned 8-bit channels, and three interleaved 32-bit floating-point
/// channels. The values follow OpenCV's `CV_MAKETYPE(depth, channels)`
/// encoding (`depth + ((channels - 1) << 3)` with depth 0 for unsigned
/// 8-bit and 5 for 32-bit float), so `CV_8UC3` and `CV_32FC3`.
pub const NATIVE_TYPE_8UC3: i32 = 16;

/// See [`NATIVE_TYPE_8UC3`]; this is the 32-bit-float code, `CV_32FC3`.
pub const NATIVE_TYPE_32FC3: i32 = 21;

/// The target tensor shape: rows, columns, channels per pixel, and the
/// numeric precision of each sample. Constructed directly or parsed
/// from a textual descriptor; immutable afterwards. Construction does
/// not validate the fields: validation happens at the point of use
/// (`len` demands positive extents, `as_type` answers `None` for any
/// combination the backend has no element type for).
#[derive(Debug, PartialEq, Eq, Clone, Copy, Structural)]
pub struct Dimensions {
    pub height: i32,
    pub width: i32,
    pub channels: i32,
    pub precision: Precision,
}

impl Dimensions {
    /// All extents are positive, as the model demands of a shape that
    /// is actually used.
    pub open spec fn wf(&self) -> bool {
        0 < self.height && 0 < self.width && 0 < self.channels
    }

    /// Number of bytes a tensor of this shape occupies:
    /// `height * width * channels * sample size`.
    pub open spec fn spec_byte_len(&self) -> int {
        self.height * self.width * self.channels * self.precision.spec_len()
    }

    pub fn new(height: i32, width: i32, channels: i32, precision: Precision) -> (d: Dimensions)
        ensures
            d == (Dimensions { height, width, channels, precision }),
    {
        Dimensions { height, width, channels, precision }
    }

    /// Exact size in bytes of the output buffer this shape implies.
    pub fn len(&self) -> (n: usize)
        requires
            self.wf(),
            self.spec_byte_len() <= usize::MAX,
        ensures
            n == self.spec_byte_len(),
    {
        let h = self.height as usize;
        let w = self.width as usize;
        let c = self.channels as usize;
        let s = self.precision.len();
        proof {
            let total = self.spec_byte_len();
            assert(h * w * c * s == total) by (nonlinear_arith)
                requires
                    h == self.height,
                    w == self.width,
                    c == self.channels,
                    s == self.precision.spec_len(),
                    total == self.height * self.width * self.channels * self.precision.spec_len(),
            ;
            assert(h * w <= total && h * w * c <= total) by (nonlinear_arith)
                requires
                    0 < h && 0 < w && 0 < c && 0 < s,
                    h * w * c * s == total,
            ;
        }
        h * w * c * s
    }

    /// The backend element type that holds one pixel of this shape, or
    /// `None` where no supported type exists. Only the two three-channel
    /// layouts are defined; every other combination is a configuration
    /// error the caller must treat as fatal.
    pub fn as_type(&self) -> (t: Option<i32>)
        ensures
            t == (if self.precision is U8 && self.channels == 3 {
                Some(NATIVE_TYPE_8UC3)
            } else if self.precision is FP32 && self.channels == 3 {
                Some(NATIVE_TYPE_32FC3)
            } else {
                None::<i32>
            }),
    {
        match (self.precision, self.channels) {
            (Precision::U8, 3) => Some(NATIVE_TYPE_8UC3),
            (Precision::FP32, 3) => Some(NATIVE_TYPE_32FC3),
            _ => None,
        }
    }
}

} // verus!
