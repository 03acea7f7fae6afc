//! The pure half of the probe adapter: turning the external analyzer's
//! report — plain strings and numbers — into a media descriptor, or a
//! structured error naming the field that cannot be read.
//!
//! Running the analyzer and decoding its output into [`ProbeReport`]
//! happens outside this crate; everything that decides what the report
//! means is here.

use vstd::prelude::*;
use crate::media::{Duration, MediaInfo, MediaType, Resolution, Timestamp};
use crate::parse::{
    all_digits, dec_val, duration_micros_of, duration_str_valid, parse_duration_secs, parse_u32,
    parse_u64, str_eq,
};

verus! {

/// One elementary stream as the analyzer reports it; numeric fields
/// arrive as decimal strings.
pub struct ProbeStream {
    pub codec_type: String,
    pub codec_name: String,
    pub width: Option<u16>,
    pub height: Option<u16>,
    pub bit_rate: Option<String>,
    pub duration: Option<String>,
}

/// The container-level fields of the analyzer's report.
pub struct ProbeFormat {
    pub size: String,
    pub nb_streams: u8,
    pub duration: Option<String>,
    pub bit_rate: Option<String>,
    pub creation_time: Option<String>,
}

/// A whole analyzer report: the container and its streams.
pub struct ProbeReport {
    pub format: ProbeFormat,
    pub streams: Vec<ProbeStream>,
}

/// Why a report cannot become a media descriptor.
#[derive(Debug, Clone, PartialEq, Eq, Structural)]
pub enum ProbeError {
    /// The report lists no streams.
    NoStreams,
    /// The container size is not an unsigned decimal that fits 64 bits.
    InvalidSize,
    /// The first stream's type names no known media kind.
    UnknownKind,
    /// A duration field is not a decimal-seconds value that fits.
    InvalidDuration,
    /// A bit-rate field is not an unsigned decimal that fits 32 bits.
    InvalidBitRate,
    /// The creation-time tag cannot be read as a timestamp.
    InvalidTimestamp,
    /// A video or image stream lacks its pixel dimensions.
    MissingResolution,
}

/// The instant, in nanoseconds since the Unix epoch, that a datetime
/// string denotes, or `None` where it denotes none: a name for what
/// jiff's Temporal parser returns. Such a string carries its own offset,
/// so the instant is a function of the characters alone.
pub uninterp spec fn parsed_timestamp_nanos(s: Seq<char>) -> Option<int>;

/// Relies on jiff's `DateTimeParser::parse_timestamp`, which reads a
/// Temporal/RFC 3339 datetime string with an offset, and on
/// `Timestamp::as_nanosecond`, which hands the parsed instant back
/// losslessly as nanoseconds since the Unix epoch.
#[verifier::external_body]
fn parse_creation_time(s: &str) -> (r: Option<i128>)
    ensures
        match r {
            Option::Some(n) => parsed_timestamp_nanos(s@) == Some(n as int),
            Option::None => parsed_timestamp_nanos(s@) is None,
        },
{
    jiff::fmt::temporal::DateTimeParser::new().parse_timestamp(s).ok().map(|t| t.as_nanosecond())
}

/// A string that reads as an unsigned 64-bit decimal.
pub open spec fn u64_str_ok(s: Seq<char>) -> bool {
    s.len() > 0 && all_digits(s) && dec_val(s) <= u64::MAX
}

/// A string that reads as an unsigned 32-bit decimal.
pub open spec fn u32_str_ok(s: Seq<char>) -> bool {
    s.len() > 0 && all_digits(s) && dec_val(s) <= u32::MAX
}

/// The media kind denoted by the first stream's type and codec: `audio`
/// is audio; `video` is an image for the still-frame codecs (`png`,
/// `mjpeg`) and a video otherwise; anything else is unknown.
pub open spec fn spec_kind_of(codec_type: Seq<char>, codec_name: Seq<char>) -> Option<MediaType> {
    if codec_type == "audio"@ {
        Some(MediaType::Audio)
    } else if codec_type == "video"@ {
        if codec_name == "png"@ || codec_name == "mjpeg"@ {
            Some(MediaType::Image)
        } else {
            Some(MediaType::Video)
        }
    } else {
        None
    }
}

/// The descriptor's duration: the first stream's own duration where the
/// stream carries one, else the container's, else zero.
pub open spec fn spec_duration_of(report: ProbeReport) -> Result<Duration, ProbeError> {
    match report.streams@[0].duration {
        Option::Some(s) => if duration_str_valid(s@) {
            Ok(Duration { micros: duration_micros_of(s@) as u64 })
        } else {
            Err(ProbeError::InvalidDuration)
        },
        Option::None => match report.format.duration {
            Option::Some(s) => if duration_str_valid(s@) {
                Ok(Duration { micros: duration_micros_of(s@) as u64 })
            } else {
                Err(ProbeError::InvalidDuration)
            },
            Option::None => Ok(Duration { micros: 0 }),
        },
    }
}

/// The descriptor's bit rate: the first stream's own where present, else
/// the container's, else none.
pub open spec fn spec_bit_rate_of(report: ProbeReport) -> Result<Option<u32>, ProbeError> {
    match report.streams@[0].bit_rate {
        Option::Some(s) => if u32_str_ok(s@) {
            Ok(Some(dec_val(s@) as u32))
        } else {
            Err(ProbeError::InvalidBitRate)
        },
        Option::None => match report.format.bit_rate {
            Option::Some(s) => if u32_str_ok(s@) {
                Ok(Some(dec_val(s@) as u32))
            } else {
                Err(ProbeError::InvalidBitRate)
            },
            Option::None => Ok(None),
        },
    }
}

/// The descriptor's creation instant: the parsed creation-time tag where
/// the container carries one, else the caller's fallback instant.
pub open spec fn spec_timestamp_of(report: ProbeReport, fallback_nanos: i128) -> Result<
    Timestamp,
    ProbeError,
> {
    match report.format.creation_time {
        Option::Some(s) => match parsed_timestamp_nanos(s@) {
            Option::Some(n) => Ok(Timestamp { nanos: n as i128 }),
            Option::None => Err(ProbeError::InvalidTimestamp),
        },
        Option::None => Ok(Timestamp { nanos: fallback_nanos }),
    }
}

/// The descriptor's resolution: absent for audio, the first stream's
/// pixel dimensions otherwise — which must then both be present.
pub open spec fn spec_resolution_of(kind: MediaType, stream: ProbeStream) -> Result<
    Option<Resolution>,
    ProbeError,
> {
    match kind {
        MediaType::Audio => Ok(None),
        _ => match (stream.width, stream.height) {
            (Option::Some(w), Option::Some(h)) => Ok(Some(Resolution { width: w, height: h })),
            _ => Err(ProbeError::MissingResolution),
        },
    }
}

/// Whether a report yields a descriptor, and of which media kind, or the
/// first error met, checking in order: streams present, size, kind,
/// duration, bit rate, creation time, resolution.
pub open spec fn identify_check(report: ProbeReport) -> Result<MediaType, ProbeError> {
    if report.streams@.len() == 0 {
        Err(ProbeError::NoStreams)
    } else if !u64_str_ok(report.format.size@) {
        Err(ProbeError::InvalidSize)
    } else {
        match spec_kind_of(report.streams@[0].codec_type@, report.streams@[0].codec_name@) {
            Option::None => Err(ProbeError::UnknownKind),
            Option::Some(kind) => match spec_duration_of(report) {
                Result::Err(e) => Err(e),
                Result::Ok(_) => match spec_bit_rate_of(report) {
                    Result::Err(e) => Err(e),
                    Result::Ok(_) => match report.format.creation_time {
                        Option::Some(s) => if parsed_timestamp_nanos(s@) is Some {
                            spec_resolution_check(kind, report.streams@[0])
                        } else {
                            Err(ProbeError::InvalidTimestamp)
                        },
                        Option::None => spec_resolution_check(kind, report.streams@[0]),
                    },
                },
            },
        }
    }
}

/// The tail of [`identify_check`]: the resolution requirement.
pub open spec fn spec_resolution_check(kind: MediaType, stream: ProbeStream) -> Result<
    MediaType,
    ProbeError,
> {
    match spec_resolution_of(kind, stream) {
        Result::Ok(_) => Ok(kind),
        Result::Err(e) => Err(e),
    }
}

/// Turns one analyzer report into the media descriptor it denotes.
///
/// `path` is the probed file's location, stored in the descriptor;
/// `fallback_nanos` is the instant to use when the container carries no
/// creation-time tag (the caller takes it from the file's metadata, or
/// from the clock). Succeeds exactly when [`identify_check`] does, with
/// the error it names; the descriptor's fields are fixed by the small
/// specifications above, and the descriptor is well-formed.
pub fn identify(path: &str, report: &ProbeReport, fallback_nanos: i128) -> (r: Result<
    MediaInfo,
    ProbeError,
>)
    ensures
        match r {
            Result::Ok(mi) => {
                &&& identify_check(*report) == Ok::<MediaType, ProbeError>(mi.media)
                &&& mi.path@ == path@
                &&& mi.stream_count == report.format.nb_streams
                &&& mi.codec@ == report.streams@[0].codec_name@
                &&& mi.size as int == dec_val(report.format.size@)
                &&& spec_duration_of(*report) == Ok::<Duration, ProbeError>(mi.duration)
                &&& spec_bit_rate_of(*report) == Ok::<Option<u32>, ProbeError>(mi.bit_rate)
                &&& spec_timestamp_of(*report, fallback_nanos) == Ok::<
                    Timestamp,
                    ProbeError,
                >(mi.timestamp)
                &&& spec_resolution_of(mi.media, report.streams@[0]) == Ok::<
                    Option<Resolution>,
                    ProbeError,
                >(mi.resolution)
                &&& mi.wf()
            },
            Result::Err(e) => identify_check(*report) == Err::<MediaType, ProbeError>(e),
        },
{
    if report.streams.len() == 0 {
        return Err(ProbeError::NoStreams);
    }
    let size = match parse_u64(report.format.size.as_str()) {
        Some(v) => v,
        None => {
            return Err(ProbeError::InvalidSize);
        },
    };
    let s0 = &report.streams[0];
    let kind = if str_eq(s0.codec_type.as_str(), "audio") {
        MediaType::Audio
    } else if str_eq(s0.codec_type.as_str(), "video") {
        if str_eq(s0.codec_name.as_str(), "png") || str_eq(s0.codec_name.as_str(), "mjpeg") {
            MediaType::Image
        } else {
            MediaType::Video
        }
    } else {
        return Err(ProbeError::UnknownKind);
    };
    let duration = match &s0.duration {
        Some(s) => match parse_duration_secs(s.as_str()) {
            Some(d) => d,
            None => {
                return Err(ProbeError::InvalidDuration);
            },
        },
        None => match &report.format.duration {
            Some(s) => match parse_duration_secs(s.as_str()) {
                Some(d) => d,
                None => {
                    return Err(ProbeError::InvalidDuration);
                },
            },
            None => Duration { micros: 0 },
        },
    };
    let bit_rate = match &s0.bit_rate {
        Some(s) => match parse_u32(s.as_str()) {
            Some(v) => Some(v),
            None => {
                return Err(ProbeError::InvalidBitRate);
            },
        },
        None => match &report.format.bit_rate {
            Some(s) => match parse_u32(s.as_str()) {
                Some(v) => Some(v),
                None => {
                    return Err(ProbeError::InvalidBitRate);
                },
            },
            None => None,
        },
    };
    let timestamp = match &report.format.creation_time {
        Some(s) => match parse_creation_time(s.as_str()) {
            Some(n) => Timestamp { nanos: n },
            None => {
                return Err(ProbeError::InvalidTimestamp);
            },
        },
        None => Timestamp { nanos: fallback_nanos },
    };
    let resolution: Option<Resolution> = match kind {
        MediaType::Audio => None,
        _ => match (s0.width, s0.height) {
            (Some(w), Some(h)) => Some(Resolution { width: w, height: h }),
            _ => {
                return Err(ProbeError::MissingResolution);
            },
        },
    };
    Ok(
        MediaInfo {
            stream_count: report.format.nb_streams,
            media: kind,
            path: path.to_owned(),
            codec: s0.codec_name.clone(),
            size,
            duration,
            timestamp,
            resolution,
            bit_rate,
        },
    )
}

} // verus!
