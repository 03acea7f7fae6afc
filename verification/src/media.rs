//! The media descriptor data model: one immutable record per probed input
//! file, plus the small value types its fields are built from.

use vstd::prelude::*;
use crate::numfmt::{dec_rep, u64_string};

verus! {

/// The kind of elementary media a probed file carries.
#[derive(Clone, Debug, PartialEq, Eq, Hash, Structural)]
pub enum MediaType {
    Audio,
    Video,
    Image,
}

/// Pixel dimensions of a video or image stream.
///
/// Resolutions are ranked by pixel area (`width * height`), not
/// lexicographically: a 720x400 frame outranks a 1200x90 one only if its
/// area is larger.
#[derive(Debug, PartialEq, Eq, Hash, Clone, Copy, PartialOrd, Ord, Structural)]
pub struct Resolution {
    pub width: u16,
    pub height: u16,
}

impl Resolution {
    /// Pixel area, the measure by which resolutions are ranked.
    pub open spec fn spec_area(self) -> int {
        self.width * self.height
    }

    pub fn area(&self) -> (r: u32)
        ensures
            r == self.spec_area(),
    {
        let w = self.width as u32;
        let h = self.height as u32;
        proof {
            assert(w as int * h as int <= 65535 * 65535) by (nonlinear_arith)
                requires
                    w <= 65535,
                    h <= 65535,
            ;
        }
        w * h
    }

    /// Renders the dimensions as `WIDTHxHEIGHT`.
    pub fn label(&self) -> (r: String)
        ensures
            r@ == dec_rep(self.width as nat) + "x"@ + dec_rep(self.height as nat),
    {
        u64_string(self.width as u64).concat("x").concat(u64_string(self.height as u64).as_str())
    }
}

/// A non-negative time span, held as whole microseconds so that threshold
/// comparisons near the similarity bound are exact.
#[derive(Debug, PartialEq, Eq, Hash, Clone, Copy, Structural)]
pub struct Duration {
    pub micros: u64,
}

impl Duration {
    /// Absolute difference between two spans, in microseconds.
    pub open spec fn spec_abs_diff(self, other: Duration) -> int {
        if self.micros >= other.micros {
            self.micros - other.micros
        } else {
            other.micros - self.micros
        }
    }

    pub fn abs_diff(&self, other: &Duration) -> (r: u64)
        ensures
            r == self.spec_abs_diff(*other),
    {
        if self.micros >= other.micros {
            self.micros - other.micros
        } else {
            other.micros - self.micros
        }
    }

    /// Whole seconds of the span.
    pub open spec fn spec_as_secs(self) -> int {
        (self.micros / 1_000_000) as int
    }

    pub fn as_secs(&self) -> (r: u64)
        ensures
            r == self.spec_as_secs(),
    {
        self.micros / 1_000_000
    }

    /// The millisecond part below one second.
    pub open spec fn spec_subsec_millis(self) -> int {
        ((self.micros % 1_000_000) / 1_000) as int
    }

    pub fn subsec_millis(&self) -> (r: u64)
        ensures
            r == self.spec_subsec_millis(),
    {
        (self.micros % 1_000_000) / 1_000
    }
}

/// A creation instant, held as whole nanoseconds relative to the Unix
/// epoch.
#[derive(Debug, PartialEq, Eq, Hash, Clone, Copy, Structural)]
pub struct Timestamp {
    pub nanos: i128,
}

/// The immutable record produced for one probed input file.
///
/// Invariant (see [`MediaInfo::wf`]): `resolution` is `None` exactly for
/// audio descriptors.
#[derive(Debug, Hash, PartialEq, Eq, Clone)]
pub struct MediaInfo {
    pub stream_count: u8,
    pub media: MediaType,
    pub path: String,
    pub codec: String,
    pub size: u64,
    pub duration: Duration,
    pub timestamp: Timestamp,
    pub resolution: Option<Resolution>,
    pub bit_rate: Option<u32>,
}

impl MediaInfo {
    /// Well-formedness: a descriptor has a resolution exactly when it is
    /// not audio.
    pub open spec fn wf(self) -> bool {
        self.resolution is None <==> self.media is Audio
    }

    pub fn is_audio(&self) -> (r: bool)
        ensures
            r == (self.media is Audio),
    {
        self.media == MediaType::Audio
    }

    pub fn is_video(&self) -> (r: bool)
        ensures
            r == (self.media is Video),
    {
        self.media == MediaType::Video
    }

    pub fn is_image(&self) -> (r: bool)
        ensures
            r == (self.media is Image),
    {
        self.media == MediaType::Image
    }
}

/// Executable equality of optional resolutions.
pub fn resolution_eq(a: &Option<Resolution>, b: &Option<Resolution>) -> (r: bool)
    ensures
        r == (a == b),
{
    match (a, b) {
        (Some(ra), Some(rb)) => ra == rb,
        (None, None) => true,
        _ => false,
    }
}

} // verus!
