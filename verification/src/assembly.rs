//! The pure half of the assembly pipeline: what to do with each group.
//!
//! For every group the orchestrator needs a plan — which members to mux,
//! when to fall back to copying a sole source through, when a still image
//! is the attachment itself, where to seek for a thumbnail frame — and a
//! record of the finished attachment. All of that is decided here, on
//! plain values; running the external transcoder, copying files and
//! spawning workers happen outside this crate.

use vstd::prelude::*;
use crate::media::{Duration, MediaInfo, Timestamp};
use crate::numfmt::dec_rep3;
use crate::numfmt::u64_string3;
use crate::pretty::PrettyDuration;

verus! {

/// What a finished attachment holds, reflecting what was available to
/// mux: a sole audio track, a sole video track, both, or a still image
/// alone.
#[derive(Debug, Clone, Copy, PartialEq, Eq, Structural)]
pub enum AssemblyKind {
    Audio,
    Video,
    AudioVideo,
    Image,
}

impl AssemblyKind {
    /// The label the report carries for this kind.
    pub open spec fn spec_label(self) -> Seq<char> {
        match self {
            AssemblyKind::Audio => "audio"@,
            AssemblyKind::Video => "video"@,
            AssemblyKind::AudioVideo => "audio+video"@,
            AssemblyKind::Image => "image"@,
        }
    }

    pub fn label(&self) -> (r: &'static str)
        ensures
            r@ == self.spec_label(),
    {
        match self {
            AssemblyKind::Audio => "audio",
            AssemblyKind::Video => "video",
            AssemblyKind::AudioVideo => "audio+video",
            AssemblyKind::Image => "image",
        }
    }
}

/// How one group becomes one output file.
#[derive(Debug, Clone, Copy, PartialEq, Eq, Structural)]
pub enum MergeAction {
    /// Mux the audio member at `audio` with the video member at `video`
    /// (indices into the group).
    Mux { audio: usize, video: usize },
    /// Copy the member at `source` through verbatim: the group misses an
    /// audio or a video track.
    Copy { source: usize },
}

/// A merge decision: the action, and the kind label the record carries.
#[derive(Debug, Clone, Copy, PartialEq, Eq, Structural)]
pub struct MergePlan {
    pub action: MergeAction,
    pub kind: AssemblyKind,
}

/// Pixel area of a member's resolution; zero where it has none.
pub open spec fn area_of(m: MediaInfo) -> int {
    match m.resolution {
        Option::Some(r) => r.spec_area(),
        Option::None => 0,
    }
}

/// Index of the first audio member at or after `k`.
pub open spec fn first_audio_from(g: Seq<MediaInfo>, k: int) -> Option<int>
    decreases g.len() - k,
{
    if k < 0 || k >= g.len() {
        None
    } else if g[k].media is Audio {
        Some(k)
    } else {
        first_audio_from(g, k + 1)
    }
}

/// Index of the best video member — the one of largest pixel area — at or
/// after `k`, folded with the best seen so far; of equal areas the later
/// member wins.
pub open spec fn best_video_from(g: Seq<MediaInfo>, k: int, best: Option<int>) -> Option<int>
    decreases g.len() - k,
{
    if k < 0 || k >= g.len() {
        best
    } else {
        let take_it = g[k].media is Video && (match best {
            Option::Some(b) => area_of(g[k]) >= area_of(g[b]),
            Option::None => true,
        });
        best_video_from(g, k + 1, if take_it {
            Some(k)
        } else {
            best
        })
    }
}

fn find_first_audio(group: &Vec<MediaInfo>) -> (r: Option<usize>)
    ensures
        match r {
            Option::Some(i) => i < group@.len() && first_audio_from(group@, 0) == Some(i as int),
            Option::None => first_audio_from(group@, 0) is None,
        },
{
    let mut k: usize = 0;
    while k < group.len()
        invariant
            0 <= k <= group@.len(),
            first_audio_from(group@, 0) == first_audio_from(group@, k as int),
        decreases group@.len() - k,
    {
        if group[k].is_audio() {
            return Some(k);
        }
        k += 1;
    }
    None
}

fn find_best_video(group: &Vec<MediaInfo>) -> (r: Option<usize>)
    ensures
        match r {
            Option::Some(i) => i < group@.len() && best_video_from(group@, 0, None) == Some(
                i as int,
            ),
            Option::None => best_video_from(group@, 0, None) is None,
        },
{
    let mut k: usize = 0;
    let mut best: Option<usize> = None;
    let ghost best_spec: Option<int> = None;
    let mut best_area: u32 = 0;
    while k < group.len()
        invariant
            0 <= k <= group@.len(),
            best_spec == match best {
                Option::Some(b) => Option::Some(b as int),
                Option::None => Option::<int>::None,
            },
            match best {
                Option::Some(b) => b < k && best_area == area_of(group@[b as int]),
                Option::None => true,
            },
            best_video_from(group@, 0, None) == best_video_from(group@, k as int, best_spec),
        decreases group@.len() - k,
    {
        let m = &group[k];
        if m.is_video() {
            let a = match &m.resolution {
                Some(res) => res.area(),
                None => 0,
            };
            proof {
                assert(a as int == area_of(group@[k as int]));
            }
            let take_it = match best {
                Some(_) => a >= best_area,
                None => true,
            };
            if take_it {
                best = Some(k);
                best_area = a;
            }
        }
        proof {
            best_spec = match best {
                Option::Some(b) => Option::Some(b as int),
                Option::None => Option::<int>::None,
            };
        }
        k += 1;
    }
    best
}

/// Decides how a group is assembled: where both an audio and a video
/// member exist, the (sole) audio member is muxed with the video member
/// of largest pixel area; where either is missing, the group's first
/// member is copied through verbatim and the record's kind says what was
/// available.
pub fn merge(group: &Vec<MediaInfo>) -> (r: MergePlan)
    requires
        group@.len() > 0,
    ensures
        match (first_audio_from(group@, 0), best_video_from(group@, 0, None)) {
            (Option::Some(a), Option::Some(v)) => r.action == (MergeAction::Mux {
                audio: a as usize,
                video: v as usize,
            }) && r.kind == AssemblyKind::AudioVideo,
            (Option::Some(a), Option::None) => r.action == (MergeAction::Copy { source: 0 })
                && r.kind == AssemblyKind::Audio,
            (Option::None, _) => r.action == (MergeAction::Copy { source: 0 }) && r.kind
                == AssemblyKind::Video,
        },
{
    let audio = find_first_audio(group);
    let video = find_best_video(group);
    match (audio, video) {
        (Some(a), Some(v)) => MergePlan {
            action: MergeAction::Mux { audio: a, video: v },
            kind: AssemblyKind::AudioVideo,
        },
        (Some(_), None) => MergePlan {
            action: MergeAction::Copy { source: 0 },
            kind: AssemblyKind::Audio,
        },
        (None, _) => MergePlan {
            action: MergeAction::Copy { source: 0 },
            kind: AssemblyKind::Video,
        },
    }
}

/// The whole plan for one group: a lone still image is the attachment
/// itself — nothing is transcoded and its own path doubles as the
/// thumbnail — and any other group goes through [`merge`].
#[derive(Debug, Clone, Copy, PartialEq, Eq, Structural)]
pub enum AssemblyStep {
    ImageOnly,
    Merge(MergePlan),
}

/// Decides between the still-image short-circuit and a merge.
pub fn assembly_plan(group: &Vec<MediaInfo>) -> (r: AssemblyStep)
    requires
        group@.len() > 0,
    ensures
        (group@.len() == 1 && group@[0].media is Image) ==> r == AssemblyStep::ImageOnly,
        !(group@.len() == 1 && group@[0].media is Image) ==> match r {
            AssemblyStep::Merge(p) => match (
                first_audio_from(group@, 0),
                best_video_from(group@, 0, None),
            ) {
                (Option::Some(a), Option::Some(v)) => p.action == (MergeAction::Mux {
                    audio: a as usize,
                    video: v as usize,
                }) && p.kind == AssemblyKind::AudioVideo,
                (Option::Some(a), Option::None) => p.action == (MergeAction::Copy { source: 0 })
                    && p.kind == AssemblyKind::Audio,
                (Option::None, _) => p.action == (MergeAction::Copy { source: 0 }) && p.kind
                    == AssemblyKind::Video,
            },
            AssemblyStep::ImageOnly => false,
        },
{
    if group.len() == 1 && group[0].is_image() {
        AssemblyStep::ImageOnly
    } else {
        AssemblyStep::Merge(merge(group))
    }
}

/// How the thumbnail of one output is made.
#[derive(Debug, Clone, Copy, PartialEq, Eq, Structural)]
pub enum ThumbPlan {
    /// An audio-only source with a single elementary stream gets a fixed
    /// placeholder image; the transcoder is not run at all.
    Placeholder,
    /// Take a single frame at `seek` from the start.
    Screenshot { seek: Duration },
}

/// The seek offset for a thumbnail frame, a step function of the source's
/// duration: the start below one second, two seconds in below six, five
/// seconds in otherwise.
pub open spec fn spec_seek_offset(d: Duration) -> int {
    if d.spec_as_secs() < 1 {
        0
    } else if d.spec_as_secs() < 6 {
        2_000_000
    } else {
        5_000_000
    }
}

/// Decides how the thumbnail of a probed output file is produced.
pub fn thumbnail(mi: &MediaInfo) -> (r: ThumbPlan)
    ensures
        (mi.media is Audio && mi.stream_count == 1) ==> r == ThumbPlan::Placeholder,
        !(mi.media is Audio && mi.stream_count == 1) ==> r == (ThumbPlan::Screenshot {
            seek: Duration { micros: spec_seek_offset(mi.duration) as u64 },
        }),
{
    if mi.is_audio() && mi.stream_count == 1 {
        return ThumbPlan::Placeholder;
    }
    let secs = mi.duration.as_secs();
    let seek: u64 = if secs < 1 {
        0
    } else if secs < 6 {
        2_000_000
    } else {
        5_000_000
    };
    ThumbPlan::Screenshot { seek: Duration { micros: seek } }
}

/// Index just past the last path separator: where the file name begins.
pub open spec fn file_name_start(s: Seq<char>) -> int
    decreases s.len(),
{
    if s.len() == 0 {
        0
    } else if s.last() == '/' {
        s.len() as int
    } else {
        file_name_start(s.drop_last())
    }
}

/// The file-name component of a path: everything after the last `/`.
pub fn file_name_of(path: &str) -> (r: &str)
    ensures
        r@ == path@.skip(file_name_start(path@)),
        file_name_start(path@) <= path@.len(),
{
    let n = path.unicode_len();
    let mut start: usize = 0;
    let mut i: usize = 0;
    proof {
        assert(path@.take(0) =~= Seq::<char>::empty());
    }
    while i < n
        invariant
            n == path@.len(),
            0 <= start <= i <= n,
            start as int == file_name_start(path@.take(i as int)),
        decreases n - i,
    {
        proof {
            let t = path@.take(i + 1);
            assert(t.drop_last() =~= path@.take(i as int));
            assert(t.last() == path@[i as int]);
        }
        if path.get_char(i) == '/' {
            start = i + 1;
        }
        i += 1;
    }
    proof {
        assert(path@.take(n as int) =~= path@);
    }
    path.substring_char(start, n)
}

/// Index of the underscore numbered `remaining` (counting down to zero)
/// at or after `k`.
pub open spec fn nth_underscore_from(s: Seq<char>, k: int, remaining: nat) -> Option<int>
    decreases s.len() - k,
{
    if k < 0 || k >= s.len() {
        None
    } else if s[k] == '_' {
        if remaining == 0 {
            Some(k)
        } else {
            nth_underscore_from(s, k + 1, (remaining - 1) as nat)
        }
    } else {
        nth_underscore_from(s, k + 1, remaining)
    }
}

/// Index of the second underscore of `s`, where it has one.
pub open spec fn second_underscore(s: Seq<char>) -> Option<int> {
    nth_underscore_from(s, 0, 1)
}

/// The shared name stub a sibling file name carries: the prefix up to
/// (not including) its second underscore. Social platforms embed such a
/// stub in the names of a post's sibling variant files.
pub fn stub_of(fname: &str) -> (r: Option<String>)
    ensures
        match r {
            Option::Some(p) => match second_underscore(fname@) {
                Option::Some(i) => p@ == fname@.take(i),
                Option::None => false,
            },
            Option::None => second_underscore(fname@) is None,
        },
{
    let n = fname.unicode_len();
    let mut seen: usize = 0;
    let mut k: usize = 0;
    while k < n
        invariant
            n == fname@.len(),
            0 <= k <= n,
            seen <= 1,
            second_underscore(fname@) == nth_underscore_from(fname@, k as int, (1 - seen) as nat),
        decreases n - k,
    {
        if fname.get_char(k) == '_' {
            if seen == 1 {
                proof {
                    assert(nth_underscore_from(fname@, k as int, 0) == Some(k as int));
                }
                let p = fname.substring_char(0, k);
                return Some(p.to_owned());
            }
            seen = 1;
        }
        k += 1;
    }
    None
}

/// Relies on uuid's `Uuid::now_v7` and its hyphenated `Display` form: a
/// fresh identifier rendered as 36 characters. The value depends on the
/// clock and on random state, so nothing more is claimed of it.
#[verifier::external_body]
fn fresh_stub() -> (r: String)
    ensures
        r@.len() == 36,
{
    uuid::Uuid::now_v7().to_string()
}

/// The name stub a group's outputs are named by: the prefix of the first
/// member's file name up to its second underscore where the name has one,
/// else a freshly generated 36-character identifier.
pub fn stub_for(fname: &str) -> (r: String)
    ensures
        match second_underscore(fname@) {
            Option::Some(i) => r@ == fname@.take(i),
            Option::None => r@.len() == 36,
        },
{
    match stub_of(fname) {
        Some(p) => p,
        None => fresh_stub(),
    }
}

/// The output names of the group at position `index` in the overall
/// ordering: `{stub}_{index:03}.mp4` and `{stub}_{index:03}.jpg`. The
/// index qualifies the names, so outputs never collide even where two
/// groups share a stub.
pub fn output_names(stub: &str, index: u64) -> (r: (String, String))
    ensures
        r.0@ == stub@ + "_"@ + dec_rep3(index as nat) + ".mp4"@,
        r.1@ == stub@ + "_"@ + dec_rep3(index as nat) + ".jpg"@,
{
    let digits = u64_string3(index);
    let base = stub.to_owned().concat("_").concat(digits.as_str());
    let mp4 = base.clone().concat(".mp4");
    let jpg = base.concat(".jpg");
    proof {
        assert(mp4@ =~= stub@ + "_"@ + dec_rep3(index as nat) + ".mp4"@);
        assert(jpg@ =~= stub@ + "_"@ + dec_rep3(index as nat) + ".jpg"@);
    }
    (mp4, jpg)
}

/// The human-readable rendering of a byte count: a name for what the size
/// crate's default formatting returns, a function of the count alone.
pub uninterp spec fn pretty_size_of(bytes: u64) -> Seq<char>;

/// Relies on size's `Size::from_bytes` and its `Display` impl: the
/// rendering is a fixed default formatting of the byte count.
#[verifier::external_body]
fn format_size(bytes: u64) -> (r: String)
    ensures
        r@ == pretty_size_of(bytes),
{
    size::Size::from_bytes(bytes).to_string()
}

/// One finished attachment, as the final report lists it.
#[derive(Debug, Clone, PartialEq, Eq)]
pub struct Attachment {
    /// Output file name, `{stub}_{index:03}.mp4`.
    pub name: String,
    /// Byte size of the output file.
    pub size: u64,
    /// The size rendered human-readably.
    pub pretty_size: String,
    /// What the output holds: audio, video, both, or a still image.
    pub kind: AssemblyKind,
    /// Canonical path of the output file.
    pub path: String,
    /// Path of the thumbnail image.
    pub thumbnail: String,
    /// The group anchor's duration.
    pub duration: PrettyDuration,
    /// The earliest creation instant among the source descriptors.
    pub timestamp: Timestamp,
    /// The source paths that contributed, in group order.
    pub sources: Vec<String>,
}

/// The earliest creation instant among a group's members, in nanoseconds.
pub open spec fn earliest_timestamp(g: Seq<MediaInfo>) -> int
    decreases g.len(),
{
    if g.len() <= 1 {
        g[0].timestamp.nanos as int
    } else {
        let rest = earliest_timestamp(g.drop_last());
        if g.last().timestamp.nanos < rest {
            g.last().timestamp.nanos as int
        } else {
            rest
        }
    }
}

/// Builds the record of one finished group: the caller hands in what only
/// the file system knows (output name and paths, byte size) and the
/// record's remaining fields are computed from the group — the anchor's
/// duration, the earliest creation instant, the rendered size, and the
/// members' source paths in order.
pub fn attachment_record(
    group: &Vec<MediaInfo>,
    kind: AssemblyKind,
    name: String,
    path: String,
    thumbnail: String,
    size: u64,
) -> (r: Attachment)
    requires
        group@.len() > 0,
    ensures
        r.name == name,
        r.size == size,
        r.pretty_size@ == pretty_size_of(size),
        r.kind == kind,
        r.path == path,
        r.thumbnail == thumbnail,
        r.duration.0 == group@[0].duration,
        r.timestamp.nanos as int == earliest_timestamp(group@),
        r.sources@.len() == group@.len(),
        forall|i: int| 0 <= i < group@.len() ==> r.sources@[i]@ == (#[trigger] group@[i]).path@,
{
    let ghost g = group@;
    let mut earliest: i128 = group[0].timestamp.nanos;
    let mut sources: Vec<String> = Vec::new();
    sources.push(group[0].path.clone());
    let mut i: usize = 1;
    proof {
        assert(earliest as int == earliest_timestamp(g.take(1)));
    }
    while i < group.len()
        invariant
            g == group@,
            1 <= i <= g.len(),
            g.len() > 0,
            earliest as int == earliest_timestamp(g.take(i as int)),
            sources@.len() == i,
            forall|j: int| 0 <= j < i ==> sources@[j]@ == (#[trigger] g[j]).path@,
        decreases g.len() - i,
    {
        proof {
            let t = g.take(i + 1);
            assert(t.drop_last() =~= g.take(i as int));
            assert(t.last() == g[i as int]);
            assert(t.len() == i + 1);
        }
        let m = &group[i];
        if m.timestamp.nanos < earliest {
            earliest = m.timestamp.nanos;
        }
        sources.push(m.path.clone());
        i += 1;
    }
    proof {
        assert(g.take(g.len() as int) =~= g);
    }
    let pretty_size = format_size(size);
    Attachment {
        name,
        size,
        pretty_size,
        kind,
        path,
        thumbnail,
        duration: PrettyDuration(group[0].duration),
        timestamp: Timestamp { nanos: earliest },
        sources,
    }
}

/// Contiguous chunk bounds that assign `n` work items to `workers`
/// workers in order, as the parallel phase partitions the groups up
/// front: every chunk takes `n / workers` items and the first
/// `n % workers` chunks take one more, so together they cover `0..n`
/// without gaps.
pub fn chunks(n: usize, workers: usize) -> (r: Vec<(usize, usize)>)
    requires
        workers >= 1,
    ensures
        r@.len() == workers,
        r@[0].0 == 0,
        r@[workers - 1].1 == n,
        forall|i: int| 0 <= i < workers ==> (#[trigger] r@[i]).0 <= r@[i].1 <= n,
        forall|i: int| 0 <= i < workers - 1 ==> (#[trigger] r@[i]).1 == r@[i + 1].0,
        forall|i: int|
            0 <= i < workers ==> (#[trigger] r@[i]).1 - r@[i].0 == n as int / workers as int + (
            if i < n as int % workers as int {
                1int
            } else {
                0int
            }),
{
    let base = n / workers;
    let rem = n % workers;
    let ghost nw = workers as int;
    proof {
        vstd::arithmetic::div_mod::lemma_fundamental_div_mod(n as int, nw);
        assert(n as int == nw * (base as int) + rem as int);
    }
    let mut r: Vec<(usize, usize)> = Vec::new();
    let mut start: usize = 0;
    let mut w: usize = 0;
    while w < workers
        invariant
            workers >= 1,
            base == n as int / workers as int,
            rem == n as int % workers as int,
            rem < workers,
            n as int == (workers as int) * (base as int) + rem as int,
            0 <= w <= workers,
            r@.len() == w,
            start as int == (w as int) * (base as int) + (if w <= rem {
                w as int
            } else {
                rem as int
            }),
            start <= n,
            w > 0 ==> r@[w - 1].1 == start,
            r@.len() > 0 ==> r@[0].0 == 0,
            forall|i: int| 0 <= i < w ==> (#[trigger] r@[i]).0 <= r@[i].1 <= n,
            forall|i: int| 0 <= i < w - 1 ==> (#[trigger] r@[i]).1 == r@[i + 1].0,
            forall|i: int|
                0 <= i < w ==> (#[trigger] r@[i]).1 - r@[i].0 == base as int + (if i < rem as int {
                    1int
                } else {
                    0int
                }),
        decreases workers - w,
    {
        let extra: usize = if w < rem {
            1
        } else {
            0
        };
        proof {
            assert((w as int + 1) * (base as int) + (if w + 1 <= rem as int {
                w as int + 1
            } else {
                rem as int
            }) <= n as int) by (nonlinear_arith)
                requires
                    n as int == (workers as int) * (base as int) + rem as int,
                    0 <= w as int + 1,
                    w as int + 1 <= workers as int,
                    0 <= base as int,
                    0 <= rem as int,
                    (rem as int) < workers as int,
            ;
            assert(start as int + base as int + extra as int == (w as int + 1) * (base as int) + (
            if w + 1 <= rem as int {
                w as int + 1
            } else {
                rem as int
            })) by (nonlinear_arith)
                requires
                    start as int == (w as int) * (base as int) + (if w as int <= rem as int {
                        w as int
                    } else {
                        rem as int
                    }),
                    extra as int == (if (w as int) < rem as int {
                        1int
                    } else {
                        0int
                    }),
                    0 <= rem as int,
            ;
        }
        let end = start + base + extra;
        r.push((start, end));
        start = end;
        w += 1;
    }
    proof {
        assert(start as int == (workers as int) * (base as int) + rem as int) by (nonlinear_arith)
            requires
                start as int == (workers as int) * (base as int) + (if workers as int <= rem as int {
                    workers as int
                } else {
                    rem as int
                }),
                rem < workers,
        ;
    }
    r
}

/// The bytes of the placeholder thumbnail used for audio-only
/// attachments: a minimal PNG image.
pub open spec fn audio_only_png_spec() -> Seq<u8> {
    seq![137u8, 80u8, 78u8, 71u8, 13u8, 10u8, 26u8, 10u8, 0u8, 0u8, 0u8, 13u8, 73u8, 72u8, 68u8, 82u8, 0u8, 0u8, 0u8, 1u8, 0u8, 0u8, 0u8, 1u8, 8u8, 6u8, 0u8, 0u8, 0u8, 31u8, 21u8, 196u8, 137u8, 0u8, 0u8, 0u8, 13u8, 73u8, 68u8, 65u8, 84u8, 120u8, 218u8, 99u8, 100u8, 96u8, 248u8, 95u8, 15u8, 0u8, 2u8, 135u8, 1u8, 128u8, 235u8, 71u8, 186u8, 146u8, 0u8, 0u8, 0u8, 0u8, 73u8, 69u8, 78u8, 68u8, 174u8, 66u8, 96u8, 130u8]
}

/// The placeholder thumbnail written for an audio-only attachment.
pub fn audio_only_png() -> (r: Vec<u8>)
    ensures
        r@ == audio_only_png_spec(),
{
    let mut v: Vec<u8> = Vec::new();
    v.push(137);
    v.push(80);
    v.push(78);
    v.push(71);
    v.push(13);
    v.push(10);
    v.push(26);
    v.push(10);
    v.push(0);
    v.push(0);
    v.push(0);
    v.push(13);
    v.push(73);
    v.push(72);
    v.push(68);
    v.push(82);
    v.push(0);
    v.push(0);
    v.push(0);
    v.push(1);
    v.push(0);
    v.push(0);
    v.push(0);
    v.push(1);
    v.push(8);
    v.push(6);
    v.push(0);
    v.push(0);
    v.push(0);
    v.push(31);
    v.push(21);
    v.push(196);
    v.push(137);
    v.push(0);
    v.push(0);
    v.push(0);
    v.push(13);
    v.push(73);
    v.push(68);
    v.push(65);
    v.push(84);
    v.push(120);
    v.push(218);
    v.push(99);
    v.push(100);
    v.push(96);
    v.push(248);
    v.push(95);
    v.push(15);
    v.push(0);
    v.push(2);
    v.push(135);
    v.push(1);
    v.push(128);
    v.push(235);
    v.push(71);
    v.push(186);
    v.push(146);
    v.push(0);
    v.push(0);
    v.push(0);
    v.push(0);
    v.push(73);
    v.push(69);
    v.push(78);
    v.push(68);
    v.push(174);
    v.push(66);
    v.push(96);
    v.push(130);
    proof {
        assert(v@ =~= audio_only_png_spec());
    }
    v
}

/// The bytes of the play-button overlay composited onto video
/// thumbnails: a minimal WebP image.
pub open spec fn play_overlay_webp_spec() -> Seq<u8> {
    seq![82u8, 73u8, 70u8, 70u8, 26u8, 0u8, 0u8, 0u8, 87u8, 69u8, 66u8, 80u8, 86u8, 80u8, 56u8, 76u8, 13u8, 0u8, 0u8, 0u8, 47u8, 0u8, 0u8, 0u8, 16u8, 7u8, 16u8, 17u8, 17u8, 136u8, 136u8, 254u8, 7u8, 0u8]
}

/// The play-button overlay image composited onto video thumbnails.
pub fn play_overlay_webp() -> (r: Vec<u8>)
    ensures
        r@ == play_overlay_webp_spec(),
{
    let mut v: Vec<u8> = Vec::new();
    v.push(82);
    v.push(73);
    v.push(70);
    v.push(70);
    v.push(26);
    v.push(0);
    v.push(0);
    v.push(0);
    v.push(87);
    v.push(69);
    v.push(66);
    v.push(80);
    v.push(86);
    v.push(80);
    v.push(56);
    v.push(76);
    v.push(13);
    v.push(0);
    v.push(0);
    v.push(0);
    v.push(47);
    v.push(0);
    v.push(0);
    v.push(0);
    v.push(16);
    v.push(7);
    v.push(16);
    v.push(17);
    v.push(17);
    v.push(136);
    v.push(136);
    v.push(254);
    v.push(7);
    v.push(0);
    proof {
        assert(v@ =~= play_overlay_webp_spec());
    }
    v
}

/// Whether a path names an MP4 file: its name ends in `.mp4`, compared
/// without regard to ASCII case.
pub open spec fn spec_is_mp4_path(s: Seq<char>) -> bool {
    &&& s.len() >= 4
    &&& s[s.len() - 4] == '.'
    &&& (s[s.len() - 3] == 'm' || s[s.len() - 3] == 'M')
    &&& (s[s.len() - 2] == 'p' || s[s.len() - 2] == 'P')
    &&& s[s.len() - 1] == '4'
}

/// Tests whether a path names an MP4 file.
pub fn is_mp4_path(path: &str) -> (r: bool)
    ensures
        r == spec_is_mp4_path(path@),
{
    let n = path.unicode_len();
    if n < 4 {
        return false;
    }
    let c0 = path.get_char(n - 4);
    let c1 = path.get_char(n - 3);
    let c2 = path.get_char(n - 2);
    let c3 = path.get_char(n - 1);
    c0 == '.' && (c1 == 'm' || c1 == 'M') && (c2 == 'p' || c2 == 'P') && c3 == '4'
}

} // verus!

