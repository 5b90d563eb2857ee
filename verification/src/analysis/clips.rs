//! What the lists of menu clips and of unreferenced clips hold.
use vstd::prelude::*;
use vstd::string::*;

use super::{
    clip_size, coding_name, ig_clips_in, ig_clips_of, ig_streams_in, partials_of, refers,
    unreferenced_in, unreferenced_of, IgClip, IgStream, PartiallyUsedClip, UnreferencedClip,
};
use crate::clpi::{AttrsModel, ClipModel, ClipStreamModel};
use crate::mpls::PlaylistModel;

verus! {

/// The size of a clip is 192 bytes for each of its packets.
pub proof fn law_clip_sizes(packets: u32)
    ensures
        clip_size(packets) == 192 * packets,
{
}

/// Whether a playlist uses a clip: for a play item or for one of its angles.
pub open spec fn uses(p: PlaylistModel, clip_id: Seq<char>) -> bool {
    exists|i: int|
        0 <= i < p.items.len() && ((#[trigger] p.items[i]).clip_id == clip_id || exists|j: int|
            0 <= j < p.items[i].angle_clip_ids.len() && #[trigger] p.items[i].angle_clip_ids[j]
                == clip_id)
}

/// A clip is referenced exactly if one of the playlists uses it.
pub proof fn law_references(all: Seq<PlaylistModel>, clip_id: Seq<char>)
    ensures
        refers(all, clip_id) <==> exists|i: int|
            0 <= i < all.len() && uses(#[trigger] all[i], clip_id),
{
    assert forall|p: PlaylistModel| #[trigger]
        uses(p, clip_id) <==> super::playlist_refers(p, clip_id) by {
        if uses(p, clip_id) {
            let i = choose|i: int|
                0 <= i < p.items.len() && ((#[trigger] p.items[i]).clip_id == clip_id || exists|
                    j: int,
                |
                    0 <= j < p.items[i].angle_clip_ids.len()
                        && #[trigger] p.items[i].angle_clip_ids[j] == clip_id);
            assert(super::item_refers(p.items[i], clip_id));
        }
        if super::playlist_refers(p, clip_id) {
            let i = choose|i: int|
                0 <= i < p.items.len() && super::item_refers(#[trigger] p.items[i], clip_id);
            if p.items[i].clip_id != clip_id {
                let j = choose|j: int|
                    0 <= j < p.items[i].angle_clip_ids.len() && p.items[i].angle_clip_ids[j]
                        == clip_id;
                assert(p.items[i].angle_clip_ids[j] == clip_id);
            }
        }
    }
    if refers(all, clip_id) {
        let i = choose|i: int|
            0 <= i < all.len() && super::playlist_refers(#[trigger] all[i], clip_id);
        assert(uses(all[i], clip_id));
    }
}

/// The unreferenced clips are, in order, the clips that no playlist uses. Each
/// is listed with its identifier, its size, whether one of its streams has
/// coding type 0x91, and the names of the coding types of all its streams.
pub proof fn law_unreferenced_clips(
    clips: Seq<ClipModel>,
    all: Seq<PlaylistModel>,
    n: int,
) -> (from: Seq<int>)
    requires
        0 <= n <= clips.len(),
    ensures
        from.len() == unreferenced_in(clips, all, n).len(),
        forall|i: int, j: int| 0 <= i < j < from.len() ==> #[trigger] from[i] < #[trigger] from[j],
        forall|k: int|
            0 <= k < n && !refers(all, (#[trigger] clips[k]).clip_id) ==> from.contains(k),
        forall|i: int|
            0 <= i < from.len() ==> {
                let clip = clips[#[trigger] from[i]];
                let e = unreferenced_in(clips, all, n)[i];
                &&& 0 <= from[i] < n
                &&& !refers(all, clip.clip_id)
                &&& e.clip_id == clip.clip_id
                &&& e.file_size == 192 * clip.num_source_packets
                &&& e.has_ig <==> exists|s: int|
                    0 <= s < clip.streams.len() && (#[trigger] clip.streams[s]).coding_type == 0x91
                &&& e.streams.len() == clip.streams.len()
                &&& forall|s: int|
                    0 <= s < clip.streams.len() ==> #[trigger] e.streams[s] == coding_name(
                        clip.streams[s].coding_type,
                    )
            },
    decreases n,
{
    if n == 0 {
        seq![]
    } else {
        let before = law_unreferenced_clips(clips, all, n - 1);
        if refers(all, clips[n - 1].clip_id) {
            before
        } else {
            let from = before.push(n - 1);
            assert forall|k: int| 0 <= k < n && !refers(
                all,
                (#[trigger] clips[k]).clip_id,
            ) implies from.contains(k) by {
                if k == n - 1 {
                    assert(from[before.len() as int] == k);
                } else {
                    let i = choose|i: int| 0 <= i < before.len() && before[i] == k;
                    assert(from[i] == k);
                }
            }
            from
        }
    }
}

/// The interactive graphics streams of a clip are, in order, those of coding
/// type 0x91, with their packet identifiers and languages.
pub proof fn law_graphics_streams(streams: Seq<ClipStreamModel>, n: int) -> (from: Seq<int>)
    requires
        0 <= n <= streams.len(),
    ensures
        from.len() == ig_streams_in(streams, n).len(),
        forall|i: int, j: int| 0 <= i < j < from.len() ==> #[trigger] from[i] < #[trigger] from[j],
        forall|k: int|
            0 <= k < n && (#[trigger] streams[k]).coding_type == 0x91 ==> from.contains(k),
        forall|i: int|
            0 <= i < from.len() ==> {
                let s = streams[#[trigger] from[i]];
                let e = ig_streams_in(streams, n)[i];
                &&& 0 <= from[i] < n
                &&& s.coding_type == 0x91
                &&& e.0 == s.pid
                &&& s.attrs matches AttrsModel::Ig { language } ==> e.1 == language
                &&& !(s.attrs is Ig) ==> e.1.len() == 0
            },
    decreases n,
{
    if n == 0 {
        seq![]
    } else {
        let before = law_graphics_streams(streams, n - 1);
        if streams[n - 1].coding_type != 0x91 {
            before
        } else {
            let from = before.push(n - 1);
            assert forall|k: int|
                0 <= k < n && (#[trigger] streams[k]).coding_type == 0x91 implies from.contains(
                k,
            ) by {
                if k == n - 1 {
                    assert(from[before.len() as int] == k);
                } else {
                    let i = choose|i: int| 0 <= i < before.len() && before[i] == k;
                    assert(from[i] == k);
                }
            }
            from
        }
    }
}

/// The menu clips are, in order, the clips with interactive graphics, each
/// with its identifier, application type, size and streams of that kind.
pub proof fn law_menu_clips(clips: Seq<ClipModel>, n: int) -> (from: Seq<int>)
    requires
        0 <= n <= clips.len(),
    ensures
        from.len() == ig_clips_in(clips, n).len(),
        forall|i: int, j: int| 0 <= i < j < from.len() ==> #[trigger] from[i] < #[trigger] from[j],
        forall|k: int|
            0 <= k < n && (exists|s: int|
                0 <= s < (#[trigger] clips[k]).streams.len() && (
                #[trigger] clips[k].streams[s]).coding_type == 0x91) ==> from.contains(k),
        forall|i: int|
            0 <= i < from.len() ==> {
                let clip = clips[#[trigger] from[i]];
                let e = ig_clips_in(clips, n)[i];
                &&& 0 <= from[i] < n
                &&& e.clip_id == clip.clip_id
                &&& e.application_type == clip.application_type
                &&& e.file_size == 192 * clip.num_source_packets
                &&& e.ig_streams == ig_streams_in(clip.streams, clip.streams.len() as int)
                &&& e.ig_streams.len() > 0
            },
    decreases n,
{
    if n == 0 {
        seq![]
    } else {
        let before = law_menu_clips(clips, n - 1);
        let clip = clips[n - 1];
        let found = ig_streams_in(clip.streams, clip.streams.len() as int);
        let places = law_graphics_streams(clip.streams, clip.streams.len() as int);
        if found.len() == 0 {
            assert forall|k: int|
                0 <= k < n && (exists|s: int|
                    0 <= s < (#[trigger] clips[k]).streams.len() && (
                    #[trigger] clips[k].streams[s]).coding_type == 0x91) implies before.contains(
                k,
            ) by {
                if k == n - 1 {
                    let s = choose|s: int|
                        0 <= s < clips[k].streams.len() && (
                        #[trigger] clips[k].streams[s]).coding_type == 0x91;
                    assert(clip.streams[s].coding_type == 0x91);
                    assert(places.contains(s));
                }
            }
            before
        } else {
            let from = before.push(n - 1);
            assert forall|k: int|
                0 <= k < n && (exists|s: int|
                    0 <= s < (#[trigger] clips[k]).streams.len() && (
                    #[trigger] clips[k].streams[s]).coding_type == 0x91) implies from.contains(
                k,
            ) by {
                if k == n - 1 {
                    assert(from[before.len() as int] == k);
                } else {
                    assert(before.contains(k));
                    let i = choose|i: int| 0 <= i < before.len() && before[i] == k;
                    assert(from[i] == k);
                }
            }
            from
        }
    }
}

/// The names of the coding types, number by number.
pub proof fn law_coding_names(t: u8)
    ensures
        coding_name(0x01) == "MPEG-1"@,
        coding_name(0x02) == "MPEG-2"@,
        coding_name(0x03) == "MPEG Audio"@,
        coding_name(0x04) == "MPEG Audio"@,
        coding_name(0x1B) == "H.264"@,
        coding_name(0x24) == "HEVC"@,
        coding_name(0xEA) == "VC-1"@,
        coding_name(0x80) == "LPCM"@,
        coding_name(0x81) == "AC-3"@,
        coding_name(0x82) == "DTS"@,
        coding_name(0x83) == "TrueHD"@,
        coding_name(0x84) == "E-AC-3"@,
        coding_name(0x85) == "DTS-HD HR"@,
        coding_name(0x86) == "DTS-HD MA"@,
        coding_name(0x90) == "PGS"@,
        coding_name(0x91) == "IG"@,
        coding_name(0x92) == "Text"@,
        coding_name(0xA1) == "E-AC-3 2nd"@,
        coding_name(0xA2) == "DTS-HD 2nd"@,
        !(0x01 <= t <= 0x04 || t == 0x1B || t == 0x24 || t == 0xEA || 0x80 <= t <= 0x86 || 0x90
            <= t <= 0x92 || t == 0xA1 || t == 0xA2) ==> coding_name(t) == "Unknown"@,
{
}

/// What a menu clip and an unreferenced clip hold is what their contents say.
pub proof fn law_clip_contents(c: IgClip, s: IgStream, u: UnreferencedClip)
    ensures
        c@.clip_id == c.clip_id@,
        c@.application_type == c.application_type,
        c@.file_size == c.file_size,
        c@.ig_streams.len() == c.ig_streams@.len(),
        forall|i: int|
            0 <= i < c.ig_streams@.len() ==> #[trigger] c@.ig_streams[i] == c.ig_streams@[i]@,
        s@.0 == s.pid,
        s@.1 == s.language@,
        u@.clip_id == u.clip_id@,
        u@.has_ig == u.has_ig,
        u@.file_size == u.file_size,
        u@.streams.len() == u.streams@.len(),
        forall|i: int| 0 <= i < u.streams@.len() ==> #[trigger] u@.streams[i] == u.streams@[i]@,
{
}

/// What a clip that is used in part holds is what its contents say, and lists
/// have the contents of each clip in order.
pub proof fn law_lists_of_clips(
    p: PartiallyUsedClip,
    parts: Seq<PartiallyUsedClip>,
    menus: Seq<IgClip>,
    unused: Seq<UnreferencedClip>,
    i: int,
)
    ensures
        p@.clip_id == p.clip_id@,
        p@.estimated_duration == p.estimated_duration,
        p@.used_duration == p.used_duration,
        p@.playlist == p.playlist,
        p@.in_time == p.in_time,
        p@.out_time == p.out_time,
        partials_of(parts).len() == parts.len(),
        0 <= i < parts.len() ==> partials_of(parts)[i] == parts[i]@,
        ig_clips_of(menus).len() == menus.len(),
        0 <= i < menus.len() ==> ig_clips_of(menus)[i] == menus[i]@,
        unreferenced_of(unused).len() == unused.len(),
        0 <= i < unused.len() ==> unreferenced_of(unused)[i] == unused[i]@,
{
}

} // verus!
