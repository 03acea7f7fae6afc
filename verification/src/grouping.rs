//! The grouping engine: a greedy clustering pass that partitions media
//! descriptors into groups believed to originate from the same attachment.
//!
//! Descriptors are processed in order of decreasing duration, so that each
//! group's first member — its *anchor* — is its largest-duration member.
//! An audio or video descriptor joins the compatible group whose anchor
//! duration is nearest to its own, provided the difference stays within
//! the similarity threshold; an image joins the first compatible group
//! holding a member of the same resolution. A descriptor no group can take
//! starts a new singleton group.

use vstd::prelude::*;
use vstd::multiset::Multiset;
use crate::media::{MediaInfo, MediaType};

verus! {

/// Largest duration difference, in microseconds, allowed between two
/// encodes of the same original media.
pub const SIMILARITY_THRESHOLD_MICROS: u64 = 700_000;

/// Whether a member already in a group makes the group ineligible for a
/// new descriptor `m`: a second audio, a second image, or a second video
/// of the same resolution.
pub open spec fn blocks(other: MediaInfo, m: MediaInfo) -> bool {
    match m.media {
        MediaType::Audio => other.media is Audio,
        MediaType::Image => other.media is Image,
        MediaType::Video => other.media is Video && other.resolution == m.resolution,
    }
}

/// A group may take `m` when none of its members blocks `m`.
pub open spec fn eligible(g: Seq<MediaInfo>, m: MediaInfo) -> bool {
    forall|k: int| 0 <= k < g.len() ==> !blocks(#[trigger] g[k], m)
}

/// Whether some member of the group shares `m`'s resolution.
pub open spec fn has_resolution(g: Seq<MediaInfo>, m: MediaInfo) -> bool {
    exists|k: int| 0 <= k < g.len() && (#[trigger] g[k]).resolution == m.resolution
}

/// Distance, in microseconds, between `m`'s duration and the duration of
/// the group's anchor (its first member).
pub open spec fn anchor_delta(g: Seq<MediaInfo>, m: MediaInfo) -> int {
    m.duration.spec_abs_diff(g[0].duration)
}

/// The group an image descriptor is assigned to: the first (in creation
/// order) eligible group with a member of the same resolution. Durations
/// play no part for a still frame.
pub open spec fn image_target_from(gs: Seq<Seq<MediaInfo>>, m: MediaInfo, k: int) -> Option<int>
    decreases gs.len() - k,
{
    if k < 0 || k >= gs.len() {
        None
    } else if eligible(gs[k], m) && has_resolution(gs[k], m) {
        Some(k)
    } else {
        image_target_from(gs, m, k + 1)
    }
}

/// The group an audio or video descriptor is assigned to, scanning from
/// index `k` with the best candidate seen so far (index and delta):
/// among eligible groups whose anchor delta stays within the similarity
/// threshold, the one with the smallest delta; ties keep the
/// earliest-created candidate.
pub open spec fn av_target_from(
    gs: Seq<Seq<MediaInfo>>,
    m: MediaInfo,
    k: int,
    best: Option<(int, int)>,
) -> Option<(int, int)>
    decreases gs.len() - k,
{
    if k < 0 || k >= gs.len() {
        best
    } else {
        let d = anchor_delta(gs[k], m);
        let candidate = eligible(gs[k], m) && d <= SIMILARITY_THRESHOLD_MICROS;
        let improves = match best {
            Option::Some(p) => d < p.1,
            Option::None => true,
        };
        let next = if candidate && improves {
            Some((k, d))
        } else {
            best
        };
        av_target_from(gs, m, k + 1, next)
    }
}

/// Index of the group that takes `m`, or `None` when `m` must start a new
/// group.
pub open spec fn place_target(gs: Seq<Seq<MediaInfo>>, m: MediaInfo) -> Option<int> {
    if m.media is Image {
        image_target_from(gs, m, 0)
    } else {
        match av_target_from(gs, m, 0, None) {
            Option::Some(p) => Some(p.0),
            Option::None => None,
        }
    }
}

/// One step of the clustering pass: appends `m` to its target group, or
/// opens a new singleton group.
pub open spec fn place(gs: Seq<Seq<MediaInfo>>, m: MediaInfo) -> Seq<Seq<MediaInfo>> {
    match place_target(gs, m) {
        Option::Some(i) => gs.update(i, gs[i].push(m)),
        Option::None => gs.push(seq![m]),
    }
}

/// The clustering pass over a whole descriptor sequence, in order.
pub open spec fn place_all(gs: Seq<Seq<MediaInfo>>, s: Seq<MediaInfo>) -> Seq<Seq<MediaInfo>>
    decreases s.len(),
{
    if s.len() == 0 {
        gs
    } else {
        place_all(place(gs, s[0]), s.drop_first())
    }
}

/// Stable insertion of `m` into a sequence sorted by non-increasing
/// duration: `m` goes after every element whose duration is at least its
/// own.
pub open spec fn insert_desc(s: Seq<MediaInfo>, m: MediaInfo) -> Seq<MediaInfo>
    decreases s.len(),
{
    if s.len() == 0 {
        seq![m]
    } else if s[0].duration.micros >= m.duration.micros {
        seq![s[0]] + insert_desc(s.drop_first(), m)
    } else {
        seq![m] + s
    }
}

/// Stable sort by non-increasing duration: descriptors of equal duration
/// keep their input order.
pub open spec fn sort_desc(s: Seq<MediaInfo>) -> Seq<MediaInfo>
    decreases s.len(),
{
    if s.len() == 0 {
        Seq::empty()
    } else {
        insert_desc(sort_desc(s.drop_last()), s.last())
    }
}

/// What `group` returns: the clustering pass run over the duration-sorted
/// input, starting from no groups.
pub open spec fn group_spec(s: Seq<MediaInfo>) -> Seq<Seq<MediaInfo>> {
    place_all(Seq::empty(), sort_desc(s))
}

/// The member sequences of a vector of groups.
pub open spec fn views_of(gs: Seq<Vec<MediaInfo>>) -> Seq<Seq<MediaInfo>> {
    Seq::new(gs.len(), |i: int| gs[i]@)
}

/// Splits a stable descending insertion at the insertion point: `m` lands
/// exactly before the first element of smaller duration.
proof fn lemma_insert_desc_split(s: Seq<MediaInfo>, m: MediaInfo, j: int)
    requires
        0 <= j <= s.len(),
        forall|i: int| 0 <= i < j ==> (#[trigger] s[i]).duration.micros >= m.duration.micros,
        j < s.len() ==> s[j].duration.micros < m.duration.micros,
    ensures
        insert_desc(s, m) == s.take(j) + seq![m] + s.skip(j),
    decreases j,
{
    if j == 0 {
        if s.len() == 0 {
            assert(insert_desc(s, m) =~= s.take(0) + seq![m] + s.skip(0));
        } else {
            assert(insert_desc(s, m) =~= s.take(0) + seq![m] + s.skip(0));
        }
    } else {
        let t = s.drop_first();
        assert(s[0].duration.micros >= m.duration.micros);
        assert(forall|i: int| 0 <= i < j - 1 ==> (#[trigger] t[i]).duration.micros
            >= m.duration.micros) by {
            assert(forall|i: int| 0 <= i < j - 1 ==> t[i] == s[i + 1]);
        }
        assert(j - 1 < t.len() ==> t[j - 1].duration.micros < m.duration.micros);
        lemma_insert_desc_split(t, m, j - 1);
        assert(seq![s[0]] + (t.take(j - 1) + seq![m] + t.skip(j - 1)) =~= s.take(j) + seq![m]
            + s.skip(j));
    }
}

/// Sorts descriptors by non-increasing duration; descriptors of equal
/// duration keep their relative input order.
pub fn sort_by_duration_desc(v: Vec<MediaInfo>) -> (r: Vec<MediaInfo>)
    ensures
        r@ == sort_desc(v@),
{
    let mut input = v;
    let ghost orig: Seq<MediaInfo> = input@;
    let mut out: Vec<MediaInfo> = Vec::new();
    let ghost mut k: int = 0;
    proof {
        assert(input@ =~= orig.skip(0));
        assert(out@ =~= sort_desc(orig.take(0)));
    }
    while input.len() > 0
        invariant
            0 <= k <= orig.len(),
            input@ == orig.skip(k),
            out@ == sort_desc(orig.take(k)),
        decreases input@.len(),
    {
        proof {
            assert(input@.len() == orig.len() - k);
        }
        let m = input.remove(0);
        proof {
            assert(m == orig[k]);
            assert(input@ =~= orig.skip(k + 1));
        }
        let ghost out_before: Seq<MediaInfo> = out@;
        let mut j: usize = 0;
        while j < out.len() && out[j].duration.micros >= m.duration.micros
            invariant
                0 <= j <= out@.len(),
                out@ == out_before,
                forall|i: int| 0 <= i < j ==> (#[trigger] out@[i]).duration.micros
                    >= m.duration.micros,
            decreases out@.len() - j,
        {
            j += 1;
        }
        out.insert(j, m);
        proof {
            lemma_insert_desc_split(out_before, m, j as int);
            assert(out@ =~= out_before.take(j as int) + seq![m] + out_before.skip(j as int));
            assert(out@ == insert_desc(out_before, m));
            let taken = orig.take(k + 1);
            assert(taken.drop_last() =~= orig.take(k));
            assert(taken.last() == orig[k]);
            assert(sort_desc(taken) == insert_desc(sort_desc(orig.take(k)), orig[k]));
            k = k + 1;
        }
    }
    proof {
        assert(orig.take(k) =~= orig);
    }
    out
}

/// Checks group eligibility for `m`: no member may block it.
fn eligible_exec(g: &Vec<MediaInfo>, m: &MediaInfo) -> (r: bool)
    ensures
        r == eligible(g@, *m),
{
    let mut k: usize = 0;
    while k < g.len()
        invariant
            0 <= k <= g@.len(),
            forall|i: int| 0 <= i < k ==> !blocks(#[trigger] g@[i], *m),
        decreases g@.len() - k,
    {
        let other = &g[k];
        let hit = match m.media {
            MediaType::Audio => other.is_audio(),
            MediaType::Image => other.is_image(),
            MediaType::Video => other.is_video() && crate::media::resolution_eq(
                &other.resolution,
                &m.resolution,
            ),
        };
        if hit {
            assert(blocks(g@[k as int], *m));
            return false;
        }
        k += 1;
    }
    true
}

/// Whether some member of the group shares `m`'s resolution.
fn has_resolution_exec(g: &Vec<MediaInfo>, m: &MediaInfo) -> (r: bool)
    ensures
        r == has_resolution(g@, *m),
{
    let mut k: usize = 0;
    while k < g.len()
        invariant
            0 <= k <= g@.len(),
            forall|i: int| 0 <= i < k ==> (#[trigger] g@[i]).resolution != m.resolution,
        decreases g@.len() - k,
    {
        if crate::media::resolution_eq(&g[k].resolution, &m.resolution) {
            assert(g@[k as int].resolution == m.resolution);
            return true;
        }
        k += 1;
    }
    false
}

/// Finds the group an image descriptor joins: the first eligible group
/// with a member of the same resolution.
fn find_image_target(groups: &Vec<Vec<MediaInfo>>, m: &MediaInfo) -> (r: Option<usize>)
    ensures
        match r {
            Option::Some(i) => i < groups@.len() && image_target_from(views_of(groups@), *m, 0)
                == Some(i as int),
            Option::None => image_target_from(views_of(groups@), *m, 0) is None,
        },
{
    let ghost vs = views_of(groups@);
    let mut k: usize = 0;
    while k < groups.len()
        invariant
            vs == views_of(groups@),
            0 <= k <= groups@.len(),
            vs.len() == groups@.len(),
            image_target_from(vs, *m, 0) == image_target_from(vs, *m, k as int),
        decreases groups@.len() - k,
    {
        let g = &groups[k];
        proof {
            assert(vs[k as int] == g@);
        }
        if eligible_exec(g, m) && has_resolution_exec(g, m) {
            assert(image_target_from(vs, *m, k as int) == Some(k as int));
            return Some(k);
        }
        proof {
            assert(image_target_from(vs, *m, k as int) == image_target_from(vs, *m, k + 1));
        }
        k += 1;
    }
    assert(image_target_from(vs, *m, k as int) is None);
    None
}

/// Finds the group an audio or video descriptor joins: the eligible group
/// with the smallest anchor-duration delta within the similarity
/// threshold, earliest first on ties.
fn find_av_target(groups: &Vec<Vec<MediaInfo>>, m: &MediaInfo) -> (r: Option<usize>)
    requires
        forall|i: int| 0 <= i < groups@.len() ==> (#[trigger] groups@[i])@.len() > 0,
    ensures
        match r {
            Option::Some(i) => i < groups@.len() && match av_target_from(
                views_of(groups@),
                *m,
                0,
                None,
            ) {
                Option::Some(p) => p.0 == i as int,
                Option::None => false,
            },
            Option::None => av_target_from(views_of(groups@), *m, 0, None) is None,
        },
{
    let ghost vs = views_of(groups@);
    let mut k: usize = 0;
    let mut best: Option<(usize, u64)> = None;
    let ghost mut best_spec: Option<(int, int)> = None;
    while k < groups.len()
        invariant
            vs == views_of(groups@),
            0 <= k <= groups@.len(),
            vs.len() == groups@.len(),
            forall|i: int| 0 <= i < groups@.len() ==> (#[trigger] groups@[i])@.len() > 0,
            best_spec == match best {
                Option::Some(p) => Option::Some((p.0 as int, p.1 as int)),
                Option::None => Option::<(int, int)>::None,
            },
            match best {
                Option::Some(p) => p.0 < k,
                Option::None => true,
            },
            av_target_from(vs, *m, 0, None) == av_target_from(vs, *m, k as int, best_spec),
        decreases groups@.len() - k,
    {
        let g = &groups[k];
        proof {
            assert(vs[k as int] == g@);
        }
        let d = m.duration.abs_diff(&g[0].duration);
        let is_candidate = eligible_exec(g, m) && d <= SIMILARITY_THRESHOLD_MICROS;
        let improves = match best {
            Option::Some(p) => d < p.1,
            Option::None => true,
        };
        proof {
            assert(d as int == anchor_delta(vs[k as int], *m));
        }
        if is_candidate && improves {
            best = Some((k, d));
        }
        proof {
            best_spec = match best {
                Option::Some(p) => Option::Some((p.0 as int, p.1 as int)),
                Option::None => Option::<(int, int)>::None,
            };
        }
        k += 1;
    }
    proof {
        assert(av_target_from(vs, *m, k as int, best_spec) == best_spec);
    }
    match best {
        Some(p) => Some(p.0),
        None => None,
    }
}

/// Partitions descriptors into attachment groups.
///
/// The result is exactly [`group_spec`] applied to the input: descriptors
/// are sorted by non-increasing duration (stably) and then clustered
/// greedily, so the pass is deterministic in the input sequence.
pub fn group(descriptors: Vec<MediaInfo>) -> (groups: Vec<Vec<MediaInfo>>)
    ensures
        views_of(groups@) == group_spec(descriptors@),
        members(views_of(groups@)) == descriptors@.to_multiset(),
        forall|i: int| 0 <= i < groups@.len() ==> (#[trigger] groups@[i])@.len() > 0,
        forall|i: int| 0 <= i < groups@.len() ==> group_compatible((#[trigger] groups@[i])@),
        forall|i: int| 0 <= i < groups@.len() ==> group_anchored((#[trigger] groups@[i])@),
        forall|i: int| 0 <= i < groups@.len() ==> anchor_is_max((#[trigger] groups@[i])@),
{
    let mut remaining = sort_by_duration_desc(descriptors);
    let ghost s_all: Seq<MediaInfo> = remaining@;
    let mut groups: Vec<Vec<MediaInfo>> = Vec::new();
    proof {
        assert(views_of(groups@) =~= Seq::<Seq<MediaInfo>>::empty());
    }
    while remaining.len() > 0
        invariant
            place_all(views_of(groups@), remaining@) == place_all(
                Seq::<Seq<MediaInfo>>::empty(),
                s_all,
            ),
            forall|i: int| 0 <= i < groups@.len() ==> (#[trigger] groups@[i])@.len() > 0,
        decreases remaining@.len(),
    {
        let ghost vs = views_of(groups@);
        let ghost rem = remaining@;
        let m = remaining.remove(0);
        proof {
            assert(m == rem[0]);
            assert(remaining@ =~= rem.drop_first());
            assert(place_all(vs, rem) == place_all(place(vs, m), rem.drop_first()));
        }
        let target: Option<usize> = if m.is_image() {
            find_image_target(&groups, &m)
        } else {
            find_av_target(&groups, &m)
        };
        proof {
            match target {
                Option::Some(i) => {
                    assert(place_target(vs, m) == Some(i as int));
                },
                Option::None => {
                    assert(place_target(vs, m) is None);
                },
            }
        }
        match target {
            Some(i) => {
                let g = groups.remove(i);
                let ghost gv = g@;
                let mut g = g;
                g.push(m);
                groups.insert(i, g);
                proof {
                    assert(groups@[i as int]@ =~= vs[i as int].push(m));
                    assert(views_of(groups@) =~= place(vs, m));
                }
            },
            None => {
                let mut fresh: Vec<MediaInfo> = Vec::new();
                fresh.push(m);
                groups.push(fresh);
                proof {
                    assert(views_of(groups@) =~= place(vs, m));
                }
            },
        }
    }
    proof {
        assert(place_all(views_of(groups@), remaining@) == views_of(groups@));
        lemma_group_partition(descriptors@);
        lemma_group_compatibility(descriptors@);
        lemma_group_threshold(descriptors@);
        lemma_group_anchor_largest(descriptors@);
        assert(forall|i: int| 0 <= i < groups@.len() ==> views_of(groups@)[i] == (
        #[trigger] groups@[i])@);
    }
    groups
}

/// A pair of descriptors that may share a group: not two audio tracks,
/// not two images, and not two videos of equal resolution.
pub open spec fn compatible_pair(a: MediaInfo, b: MediaInfo) -> bool {
    &&& !(a.media is Audio && b.media is Audio)
    &&& !(a.media is Image && b.media is Image)
    &&& !(a.media is Video && b.media is Video && a.resolution == b.resolution)
}

/// A group whose members are pairwise compatible.
pub open spec fn group_compatible(g: Seq<MediaInfo>) -> bool {
    forall|j: int, k: int|
        0 <= j < k < g.len() ==> compatible_pair(#[trigger] g[j], #[trigger] g[k])
}

/// Every non-image member after the first stays within the similarity
/// threshold of the group's anchor duration.
pub open spec fn group_anchored(g: Seq<MediaInfo>) -> bool {
    forall|j: int|
        1 <= j < g.len() && !((#[trigger] g[j]).media is Image)
            ==> g[j].duration.spec_abs_diff(g[0].duration) <= SIMILARITY_THRESHOLD_MICROS
}

/// The standing invariant of the clustering pass: every group is
/// non-empty, pairwise compatible, and anchored within the threshold.
pub open spec fn groups_wf(gs: Seq<Seq<MediaInfo>>) -> bool {
    forall|i: int|
        0 <= i < gs.len() ==> (#[trigger] gs[i]).len() > 0 && group_compatible(gs[i])
            && group_anchored(gs[i])
}

/// The multiset of all members over a sequence of groups.
pub open spec fn members(gs: Seq<Seq<MediaInfo>>) -> Multiset<MediaInfo>
    decreases gs.len(),
{
    if gs.len() == 0 {
        Multiset::empty()
    } else {
        members(gs.drop_last()).add(gs.last().to_multiset())
    }
}

/// An image target is in range, eligible, and shares a resolution.
proof fn lemma_image_target_sound(gs: Seq<Seq<MediaInfo>>, m: MediaInfo, k: int)
    ensures
        match image_target_from(gs, m, k) {
            Option::Some(i) => k <= i < gs.len() && eligible(gs[i], m) && has_resolution(gs[i], m),
            Option::None => true,
        },
    decreases gs.len() - k,
{
    if k < 0 || k >= gs.len() {
    } else if eligible(gs[k], m) && has_resolution(gs[k], m) {
    } else {
        lemma_image_target_sound(gs, m, k + 1);
    }
}

/// An audio/video target is in range, eligible, and within the threshold.
proof fn lemma_av_target_sound(
    gs: Seq<Seq<MediaInfo>>,
    m: MediaInfo,
    k: int,
    best: Option<(int, int)>,
)
    requires
        match best {
            Option::Some(p) => 0 <= p.0 < gs.len() && eligible(gs[p.0], m) && p.1 == anchor_delta(
                gs[p.0],
                m,
            ) && p.1 <= SIMILARITY_THRESHOLD_MICROS,
            Option::None => true,
        },
    ensures
        match av_target_from(gs, m, k, best) {
            Option::Some(p) => 0 <= p.0 < gs.len() && eligible(gs[p.0], m) && p.1 == anchor_delta(
                gs[p.0],
                m,
            ) && p.1 <= SIMILARITY_THRESHOLD_MICROS,
            Option::None => true,
        },
    decreases gs.len() - k,
{
    if k < 0 || k >= gs.len() {
    } else {
        let d = anchor_delta(gs[k], m);
        let candidate = eligible(gs[k], m) && d <= SIMILARITY_THRESHOLD_MICROS;
        let improves = match best {
            Option::Some(p) => d < p.1,
            Option::None => true,
        };
        let next = if candidate && improves {
            Some((k, d))
        } else {
            best
        };
        lemma_av_target_sound(gs, m, k + 1, next);
    }
}

/// The chosen target group can take `m`: it is in range and eligible, and
/// for audio/video its anchor delta stays within the threshold.
proof fn lemma_place_target_sound(gs: Seq<Seq<MediaInfo>>, m: MediaInfo)
    ensures
        match place_target(gs, m) {
            Option::Some(i) => 0 <= i < gs.len() && eligible(gs[i], m) && (!(m.media is Image)
                ==> anchor_delta(gs[i], m) <= SIMILARITY_THRESHOLD_MICROS),
            Option::None => true,
        },
{
    if m.media is Image {
        lemma_image_target_sound(gs, m, 0);
    } else {
        lemma_av_target_sound(gs, m, 0, None);
    }
}

proof fn lemma_members_update_push(gs: Seq<Seq<MediaInfo>>, i: int, m: MediaInfo)
    requires
        0 <= i < gs.len(),
    ensures
        members(gs.update(i, gs[i].push(m))) =~= members(gs).insert(m),
    decreases gs.len(),
{
    broadcast use vstd::seq_lib::group_to_multiset_ensures;
    broadcast use vstd::multiset::group_multiset_axioms;

    let gs2 = gs.update(i, gs[i].push(m));
    if i == gs.len() - 1 {
        assert(gs2.drop_last() =~= gs.drop_last());
        assert(gs2.last() == gs.last().push(m));
        assert(gs2.last().to_multiset() =~= gs.last().to_multiset().insert(m));
        assert(members(gs.drop_last()).add(gs.last().to_multiset().insert(m)) =~= members(
            gs,
        ).insert(m));
    } else {
        let dl = gs.drop_last();
        assert(gs2.drop_last() =~= dl.update(i, dl[i].push(m)));
        assert(gs2.last() == gs.last());
        lemma_members_update_push(dl, i, m);
        assert(members(dl).insert(m).add(gs.last().to_multiset()) =~= members(gs).insert(m));
    }
}

proof fn lemma_singleton_multiset(m: MediaInfo)
    ensures
        seq![m].to_multiset() =~= Multiset::<MediaInfo>::empty().insert(m),
{
    broadcast use vstd::seq_lib::group_to_multiset_ensures;
    broadcast use vstd::multiset::group_multiset_axioms;

    let e = Seq::<MediaInfo>::empty();
    assert(e.to_multiset().len() == 0);
    vstd::multiset::lemma_multiset_empty_len(e.to_multiset());
    assert(e.to_multiset() =~= Multiset::<MediaInfo>::empty());
    assert(seq![m] =~= e.push(m));
    assert(e.push(m).to_multiset() =~= e.to_multiset().insert(m));
}

proof fn lemma_members_push_singleton(gs: Seq<Seq<MediaInfo>>, m: MediaInfo)
    ensures
        members(gs.push(seq![m])) =~= members(gs).insert(m),
{
    broadcast use vstd::multiset::group_multiset_axioms;

    let gs2 = gs.push(seq![m]);
    assert(gs2.drop_last() =~= gs);
    assert(gs2.last() == seq![m]);
    lemma_singleton_multiset(m);
    assert(members(gs).add(Multiset::<MediaInfo>::empty().insert(m)) =~= members(gs).insert(m));
}

/// One clustering step adds exactly the placed descriptor to the members.
proof fn lemma_place_members(gs: Seq<Seq<MediaInfo>>, m: MediaInfo)
    ensures
        members(place(gs, m)) =~= members(gs).insert(m),
{
    lemma_place_target_sound(gs, m);
    match place_target(gs, m) {
        Option::Some(i) => {
            lemma_members_update_push(gs, i, m);
        },
        Option::None => {
            lemma_members_push_singleton(gs, m);
        },
    }
}

proof fn lemma_place_all_members(gs: Seq<Seq<MediaInfo>>, s: Seq<MediaInfo>)
    ensures
        members(place_all(gs, s)) =~= members(gs).add(s.to_multiset()),
    decreases s.len(),
{
    broadcast use vstd::seq_lib::group_to_multiset_ensures;
    broadcast use vstd::multiset::group_multiset_axioms;

    if s.len() == 0 {
        vstd::multiset::lemma_multiset_empty_len(s.to_multiset());
        assert(s.to_multiset() =~= Multiset::<MediaInfo>::empty());
        assert(members(gs).add(s.to_multiset()) =~= members(gs));
    } else {
        lemma_place_members(gs, s[0]);
        lemma_place_all_members(place(gs, s[0]), s.drop_first());
        assert(s =~= seq![s[0]] + s.drop_first());
        vstd::seq_lib::lemma_multiset_commutative(seq![s[0]], s.drop_first());
        lemma_singleton_multiset(s[0]);
        assert(members(gs).insert(s[0]).add(s.drop_first().to_multiset()) =~= members(gs).add(
            s.to_multiset(),
        ));
    }
}

proof fn lemma_insert_desc_multiset(s: Seq<MediaInfo>, m: MediaInfo)
    ensures
        insert_desc(s, m).to_multiset() =~= s.to_multiset().insert(m),
    decreases s.len(),
{
    broadcast use vstd::seq_lib::group_to_multiset_ensures;
    broadcast use vstd::multiset::group_multiset_axioms;

    if s.len() == 0 {
        lemma_singleton_multiset(m);
        vstd::multiset::lemma_multiset_empty_len(s.to_multiset());
        assert(s.to_multiset() =~= Multiset::<MediaInfo>::empty());
    } else if s[0].duration.micros >= m.duration.micros {
        lemma_insert_desc_multiset(s.drop_first(), m);
        vstd::seq_lib::lemma_multiset_commutative(seq![s[0]], insert_desc(s.drop_first(), m));
        vstd::seq_lib::lemma_multiset_commutative(seq![s[0]], s.drop_first());
        lemma_singleton_multiset(s[0]);
        assert(s =~= seq![s[0]] + s.drop_first());
        assert(insert_desc(s, m).to_multiset() =~= s.to_multiset().insert(m));
    } else {
        vstd::seq_lib::lemma_multiset_commutative(seq![m], s);
        lemma_singleton_multiset(m);
        assert(insert_desc(s, m).to_multiset() =~= s.to_multiset().insert(m));
    }
}

proof fn lemma_sort_desc_multiset(s: Seq<MediaInfo>)
    ensures
        sort_desc(s).to_multiset() =~= s.to_multiset(),
    decreases s.len(),
{
    broadcast use vstd::seq_lib::group_to_multiset_ensures;
    broadcast use vstd::multiset::group_multiset_axioms;

    if s.len() == 0 {
    } else {
        lemma_sort_desc_multiset(s.drop_last());
        lemma_insert_desc_multiset(sort_desc(s.drop_last()), s.last());
        assert(s =~= s.drop_last().push(s.last()));
        assert(s.drop_last().push(s.last()).to_multiset() =~= s.drop_last().to_multiset().insert(
            s.last(),
        ));
    }
}

/// One clustering step preserves the group invariants.
proof fn lemma_place_wf(gs: Seq<Seq<MediaInfo>>, m: MediaInfo)
    requires
        groups_wf(gs),
    ensures
        groups_wf(place(gs, m)),
{
    lemma_place_target_sound(gs, m);
    match place_target(gs, m) {
        Option::Some(i) => {
            let g = gs[i];
            let g2 = g.push(m);
            assert(g2[0] == g[0]);
            assert forall|j: int, k: int| 0 <= j < k < g2.len() implies compatible_pair(
                #[trigger] g2[j],
                #[trigger] g2[k],
            ) by {
                if k < g.len() {
                    assert(compatible_pair(g[j], g[k]));
                } else {
                    assert(g2[k] == m);
                    assert(!blocks(g[j], m));
                }
            }
            assert forall|j: int|
                1 <= j < g2.len() && !((#[trigger] g2[j]).media is Image) implies g2[j].duration.spec_abs_diff(
                g2[0].duration,
            ) <= SIMILARITY_THRESHOLD_MICROS by {
                if j < g.len() {
                    assert(group_anchored(g));
                } else {
                    assert(g2[j] == m);
                    assert(anchor_delta(g, m) <= SIMILARITY_THRESHOLD_MICROS);
                }
            }
            assert(group_compatible(g2));
            assert(group_anchored(g2));
            assert forall|n: int| 0 <= n < place(gs, m).len() implies (#[trigger] place(gs, m)[n]).len()
                > 0 && group_compatible(place(gs, m)[n]) && group_anchored(place(gs, m)[n]) by {
                if n != i {
                    assert(place(gs, m)[n] == gs[n]);
                }
            }
        },
        Option::None => {
            let g2 = seq![m];
            assert(group_compatible(g2));
            assert(group_anchored(g2));
            assert forall|n: int| 0 <= n < place(gs, m).len() implies (#[trigger] place(gs, m)[n]).len()
                > 0 && group_compatible(place(gs, m)[n]) && group_anchored(place(gs, m)[n]) by {
                if n < gs.len() {
                    assert(place(gs, m)[n] == gs[n]);
                } else {
                    assert(place(gs, m)[n] == g2);
                }
            }
        },
    }
}

proof fn lemma_place_all_wf(gs: Seq<Seq<MediaInfo>>, s: Seq<MediaInfo>)
    requires
        groups_wf(gs),
    ensures
        groups_wf(place_all(gs, s)),
    decreases s.len(),
{
    if s.len() == 0 {
    } else {
        lemma_place_wf(gs, s[0]);
        lemma_place_all_wf(place(gs, s[0]), s.drop_first());
    }
}

/// Partition law: the clustering pass returns a partition of its input.
/// Counted with multiplicity, the members of all groups together are
/// exactly the input descriptors, and no group is empty.
pub proof fn lemma_group_partition(s: Seq<MediaInfo>)
    ensures
        members(group_spec(s)) == s.to_multiset(),
        forall|i: int| 0 <= i < group_spec(s).len() ==> (#[trigger] group_spec(s)[i]).len() > 0,
{
    broadcast use vstd::multiset::group_multiset_axioms;

    lemma_sort_desc_multiset(s);
    lemma_place_all_members(Seq::empty(), sort_desc(s));
    assert(members(Seq::<Seq<MediaInfo>>::empty()).add(sort_desc(s).to_multiset())
        =~= s.to_multiset());
    lemma_place_all_wf(Seq::empty(), sort_desc(s));
}

/// Compatibility law: no group of the partition holds two audio tracks,
/// two images, or two videos of equal resolution.
pub proof fn lemma_group_compatibility(s: Seq<MediaInfo>)
    ensures
        forall|i: int| 0 <= i < group_spec(s).len() ==> group_compatible(
            #[trigger] group_spec(s)[i],
        ),
{
    lemma_place_all_wf(Seq::empty(), sort_desc(s));
}

/// Threshold law: every non-image descriptor placed after a group's
/// anchor lies within the similarity threshold of the anchor's duration.
pub proof fn lemma_group_threshold(s: Seq<MediaInfo>)
    ensures
        forall|i: int| 0 <= i < group_spec(s).len() ==> group_anchored(
            #[trigger] group_spec(s)[i],
        ),
{
    lemma_place_all_wf(Seq::empty(), sort_desc(s));
}

/// Largest and smallest duration, in microseconds, among a group's
/// non-image members; `None` when the group has no such member.
pub open spec fn ni_extremes(g: Seq<MediaInfo>) -> Option<(int, int)>
    decreases g.len(),
{
    if g.len() == 0 {
        None
    } else {
        let rest = ni_extremes(g.drop_last());
        let l = g.last();
        if l.media is Image {
            rest
        } else {
            match rest {
                Option::Some(p) => Some(
                    (
                        if l.duration.micros > p.0 {
                            l.duration.micros as int
                        } else {
                            p.0
                        },
                        if l.duration.micros < p.1 {
                            l.duration.micros as int
                        } else {
                            p.1
                        },
                    ),
                ),
                Option::None => Some((l.duration.micros as int, l.duration.micros as int)),
            }
        }
    }
}

/// Duration divergence within one group: the duration of its longest
/// non-image member minus that of its shortest, zero with fewer than two
/// non-image members.
pub open spec fn group_divergence(g: Seq<MediaInfo>) -> int {
    match ni_extremes(g) {
        Option::Some(p) => p.0 - p.1,
        Option::None => 0,
    }
}

/// Largest divergence over the groups from index `k` on, folded with the
/// best value seen so far.
pub open spec fn max_divergence_from(gs: Seq<Seq<MediaInfo>>, k: int, best: int) -> int
    decreases gs.len() - k,
{
    if k < 0 || k >= gs.len() {
        best
    } else {
        max_divergence_from(
            gs,
            k + 1,
            if group_divergence(gs[k]) > best {
                group_divergence(gs[k])
            } else {
                best
            },
        )
    }
}

/// Reports the maximum duration divergence observed within any single
/// group — diagnostic output, not a correctness check. `None` only when
/// there are no groups.
pub fn max_divergence(groups: &Vec<Vec<MediaInfo>>) -> (r: Option<crate::media::Duration>)
    ensures
        match r {
            Option::Some(d) => groups@.len() > 0 && d.micros as int == max_divergence_from(
                views_of(groups@),
                0,
                0,
            ),
            Option::None => groups@.len() == 0,
        },
{
    let ghost vs = views_of(groups@);
    if groups.len() == 0 {
        return None;
    }
    let mut best: u64 = 0;
    let mut k: usize = 0;
    while k < groups.len()
        invariant
            vs == views_of(groups@),
            0 <= k <= groups@.len(),
            vs.len() == groups@.len(),
            max_divergence_from(vs, 0, 0) == max_divergence_from(vs, k as int, best as int),
        decreases groups@.len() - k,
    {
        let g = &groups[k];
        proof {
            assert(vs[k as int] == g@);
        }
        let ghost gv = g@;
        let mut extremes: Option<(u64, u64)> = None;
        let mut j: usize = 0;
        proof {
            assert(gv.take(0) =~= Seq::<MediaInfo>::empty());
        }
        while j < g.len()
            invariant
                gv == g@,
                0 <= j <= gv.len(),
                ni_extremes(gv.take(j as int)) == match extremes {
                    Option::Some(p) => Option::Some((p.0 as int, p.1 as int)),
                    Option::None => Option::<(int, int)>::None,
                },
                match extremes {
                    Option::Some(p) => p.0 >= p.1,
                    Option::None => true,
                },
            decreases gv.len() - j,
        {
            let m = &g[j];
            proof {
                let t = gv.take(j + 1);
                assert(t.drop_last() =~= gv.take(j as int));
                assert(t.last() == gv[j as int]);
            }
            if !m.is_image() {
                let d = m.duration.micros;
                extremes = match extremes {
                    Some(p) => Some(
                        (if d > p.0 { d } else { p.0 }, if d < p.1 { d } else { p.1 }),
                    ),
                    None => Some((d, d)),
                };
            }
            j += 1;
        }
        proof {
            assert(gv.take(gv.len() as int) =~= gv);
        }
        let div: u64 = match extremes {
            Some(p) => p.0 - p.1,
            None => 0,
        };
        proof {
            assert(div as int == group_divergence(gv));
        }
        if div > best {
            best = div;
        }
        k += 1;
    }
    Some(crate::media::Duration { micros: best })
}

/// A sequence of descriptors in non-increasing duration order.
pub open spec fn sorted_desc_seq(s: Seq<MediaInfo>) -> bool {
    forall|i: int, j: int|
        0 <= i <= j < s.len() ==> (#[trigger] s[i]).duration.micros >= (
        #[trigger] s[j]).duration.micros
}

/// Every member of the group has the duration of its first member — the
/// anchor — as an upper bound.
pub open spec fn anchor_is_max(g: Seq<MediaInfo>) -> bool {
    forall|j: int|
        0 <= j < g.len() ==> (#[trigger] g[j]).duration.micros <= g[0].duration.micros
}

/// Every member of the group lasts at least `d` microseconds.
pub open spec fn all_at_least(g: Seq<MediaInfo>, d: u64) -> bool {
    forall|j: int| 0 <= j < g.len() ==> (#[trigger] g[j]).duration.micros >= d
}

proof fn lemma_insert_desc_sorted(s: Seq<MediaInfo>, m: MediaInfo)
    requires
        sorted_desc_seq(s),
    ensures
        sorted_desc_seq(insert_desc(s, m)),
        forall|i: int|
            0 <= i < insert_desc(s, m).len() ==> ((#[trigger] insert_desc(s, m)[i]) == m
                || exists|j: int| 0 <= j < s.len() && insert_desc(s, m)[i] == s[j]),
    decreases s.len(),
{
    if s.len() == 0 {
    } else if s[0].duration.micros >= m.duration.micros {
        let t = s.drop_first();
        assert(sorted_desc_seq(t)) by {
            assert(forall|i: int| 0 <= i < t.len() ==> t[i] == s[i + 1]);
        }
        lemma_insert_desc_sorted(t, m);
        let r = insert_desc(s, m);
        let ri = insert_desc(t, m);
        assert(r == seq![s[0]] + ri);
        assert forall|i: int| 0 <= i < r.len() implies ((#[trigger] r[i]) == m || exists|j: int|
            0 <= j < s.len() && r[i] == s[j]) by {
            if i == 0 {
                assert(r[0] == s[0]);
            } else {
                assert(r[i] == ri[i - 1]);
                if ri[i - 1] == m {
                } else {
                    let j = choose|j: int| 0 <= j < t.len() && ri[i - 1] == t[j];
                    assert(r[i] == s[j + 1]);
                }
            }
        }
        assert forall|i: int, j: int|
            0 <= i <= j < r.len() implies (#[trigger] r[i]).duration.micros >= (
        #[trigger] r[j]).duration.micros by {
            if i == 0 && j > 0 {
                assert(r[j] == ri[j - 1]);
                if ri[j - 1] == m {
                } else {
                    let jj = choose|jj: int| 0 <= jj < t.len() && ri[j - 1] == t[jj];
                    assert(t[jj] == s[jj + 1]);
                }
            } else if i > 0 {
                assert(r[i] == ri[i - 1]);
                assert(r[j] == ri[j - 1]);
            }
        }
    } else {
        let r = insert_desc(s, m);
        assert(r == seq![m] + s);
        assert forall|i: int, j: int|
            0 <= i <= j < r.len() implies (#[trigger] r[i]).duration.micros >= (
        #[trigger] r[j]).duration.micros by {
            if i == 0 && j > 0 {
                assert(r[j] == s[j - 1]);
                assert(s[0].duration.micros >= s[j - 1].duration.micros);
            } else if i > 0 {
                assert(r[i] == s[i - 1]);
                assert(r[j] == s[j - 1]);
            }
        }
    }
}

/// The duration sort really sorts: its result is non-increasing.
pub proof fn lemma_sort_desc_sorted(s: Seq<MediaInfo>)
    ensures
        sorted_desc_seq(sort_desc(s)),
    decreases s.len(),
{
    if s.len() > 0 {
        lemma_sort_desc_sorted(s.drop_last());
        lemma_insert_desc_sorted(sort_desc(s.drop_last()), s.last());
    }
}

proof fn lemma_place_all_anchor_max(gs: Seq<Seq<MediaInfo>>, s: Seq<MediaInfo>)
    requires
        sorted_desc_seq(s),
        forall|i: int| 0 <= i < gs.len() ==> anchor_is_max(#[trigger] gs[i]),
        forall|i: int|
            0 <= i < gs.len() && s.len() > 0 ==> all_at_least(
                #[trigger] gs[i],
                s[0].duration.micros,
            ),
    ensures
        forall|i: int|
            0 <= i < place_all(gs, s).len() ==> anchor_is_max(#[trigger] place_all(gs, s)[i]),
    decreases s.len(),
{
    if s.len() == 0 {
    } else {
        let m = s[0];
        let gs2 = place(gs, m);
        let rest = s.drop_first();
        assert(sorted_desc_seq(rest)) by {
            assert(forall|i: int| 0 <= i < rest.len() ==> rest[i] == s[i + 1]);
        }
        lemma_place_target_sound(gs, m);
        assert forall|i: int| 0 <= i < gs2.len() implies anchor_is_max(#[trigger] gs2[i])
            && (rest.len() > 0 ==> all_at_least(gs2[i], rest[0].duration.micros)) by {
            if rest.len() > 0 {
                assert(rest[0] == s[1]);
                assert(m.duration.micros >= s[1].duration.micros);
            }
            match place_target(gs, m) {
                Option::Some(t) => {
                    if i == t {
                        assert(gs2[i] == gs[t].push(m));
                        assert(all_at_least(gs[t], m.duration.micros));
                        assert(gs[t].len() > 0 ==> gs[t][0].duration.micros >= m.duration.micros);
                        assert forall|j: int|
                            0 <= j < gs2[i].len() implies (#[trigger] gs2[i][j]).duration.micros
                            <= gs2[i][0].duration.micros by {
                            if j < gs[t].len() {
                                assert(anchor_is_max(gs[t]));
                            } else {
                                assert(gs2[i][j] == m);
                            }
                        }
                    } else {
                        assert(gs2[i] == gs[i]);
                    }
                },
                Option::None => {
                    if i < gs.len() {
                        assert(gs2[i] == gs[i]);
                    } else {
                        assert(gs2[i] == seq![m]);
                    }
                },
            }
        }
        lemma_place_all_anchor_max(gs2, rest);
        assert(place_all(gs, s) == place_all(gs2, rest));
    }
}

/// Anchor law: the first member of every group — its anchor — is the
/// group's largest-duration member, because descriptors are clustered in
/// non-increasing duration order and the anchor is never replaced.
pub proof fn lemma_group_anchor_largest(s: Seq<MediaInfo>)
    ensures
        forall|i: int|
            0 <= i < group_spec(s).len() ==> anchor_is_max(#[trigger] group_spec(s)[i]),
{
    lemma_sort_desc_sorted(s);
    lemma_place_all_anchor_max(Seq::empty(), sort_desc(s));
}

/// Determinism law: the partition is a function of the input sequence
/// alone — equal inputs give equal partitions in equal order.
pub proof fn lemma_group_deterministic(s1: Seq<MediaInfo>, s2: Seq<MediaInfo>)
    requires
        s1 == s2,
    ensures
        group_spec(s1) == group_spec(s2),
{
}

} // verus!
