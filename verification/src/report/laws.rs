//! What the report says.
use vstd::prelude::*;
use vstd::string::*;

use super::{
    all_playlist_lines, block, clip_warning_line, contained, duration_text, ig_line, lines,
    main_line, member_line, member_lines, nearest_double, number_is, playlist_line, report_text,
    rounded, segment_lines, size_text, spacing, streams_text, unreferenced_line, warning_line,
};
use crate::analysis::{
    texts_of_languages, AnalyzedPlaylist, ClipWarning, CompositeMember, IgClip, PlaylistWarning,
    Segment, SummaryModel, UnreferencedClip,
};
use crate::disc::BdmvAnalysis;
use crate::seqs::{last_where, law_last_comes_last};
use crate::text::{decimal, joined, padded_left, texts};

verus! {

/// Lengths read as hours, minutes and seconds: 45000 ticks are a second, sixty
/// seconds a minute and sixty minutes an hour. What is left of a second does
/// not count. Each part has two digits at least.
pub proof fn law_durations_read(hours: nat, minutes: nat, seconds: nat, rest: nat)
    requires
        minutes < 60,
        seconds < 60,
        rest < 45_000,
        45_000 * (3600 * hours + 60 * minutes + seconds) + rest <= u64::MAX,
    ensures
        duration_text((45_000 * (3600 * hours + 60 * minutes + seconds) + rest) as u64)
            == padded_left(decimal(hours), 2, '0') + ":"@ + padded_left(decimal(minutes), 2, '0')
            + ":"@ + padded_left(decimal(seconds), 2, '0'),
{
    let total = 3600 * hours + 60 * minutes + seconds;
    let ticks = (45_000 * total + rest) as u64;
    assert(ticks / 45_000u64 == total);
    assert(total / 3600 == hours);
    assert(total % 3600 / 60 == minutes);
    assert(total % 60 == seconds);
}

/// Rounding gives the nearest integer, and the even one of two equally near.
pub proof fn law_rounding(n: nat, d: nat)
    requires
        d > 0,
    ensures
        2 * (rounded(n, d) * d - n) <= d,
        2 * (n - rounded(n, d) * d) <= d,
        2 * (rounded(n, d) * d - n) == d || 2 * (n - rounded(n, d) * d) == d ==> rounded(n, d) % 2
            == 0,
{
    let q = n / d;
    let r = n % d;
    vstd::arithmetic::div_mod::lemma_fundamental_div_mod(n as int, d as int);
    vstd::arithmetic::mul::lemma_mul_is_commutative(d as int, q as int);
    vstd::arithmetic::mul::lemma_mul_is_distributive_add_other_way(d as int, q as int, 1);
    assert(r < d) by {
        vstd::arithmetic::div_mod::lemma_mod_bound(n as int, d as int);
    }
}

/// Sizes below 2^53 bytes are taken as they are.
pub proof fn law_small_sizes_are_exact(n: nat)
    requires
        n < 0x20_0000_0000_0000,
    ensures
        nearest_double(n) == n,
{
    assert(spacing(n, 1) == 1);
}

/// Sizes read in gigabytes from 2^30 bytes on, in megabytes from 2^20 on, and
/// else in kilobytes, rounded to a tenth.
pub proof fn law_sizes_read(bytes: u64)
    requires
        bytes < 0x20_0000_0000_0000,
    ensures
        bytes >= 0x4000_0000 ==> size_text(bytes) == decimal(
            rounded(10 * bytes as nat, 0x4000_0000) / 10,
        ) + "."@ + decimal(rounded(10 * bytes as nat, 0x4000_0000) % 10) + " GB"@,
        0x10_0000 <= bytes < 0x4000_0000 ==> size_text(bytes) == decimal(
            rounded(10 * bytes as nat, 0x10_0000) / 10,
        ) + "."@ + decimal(rounded(10 * bytes as nat, 0x10_0000) % 10) + " MB"@,
        bytes < 0x10_0000 ==> size_text(bytes) == decimal(rounded(10 * bytes as nat, 0x400) / 10)
            + "."@ + decimal(rounded(10 * bytes as nat, 0x400) % 10) + " KB"@,
{
    law_small_sizes_are_exact(bytes as nat);
}

/// Streams read on one line: each video stream, then all audio streams, then
/// all subtitles behind a word, with bars between.
pub proof fn law_streams_read(s: SummaryModel)
    ensures
        ({
            let audio = joined(s.audio, ", "@);
            let subtitles = "subs: "@ + joined(s.subtitles, ", "@);
            let text = streams_text(s);
            let bar = " | "@;
            &&& s.audio.len() > 0 && s.subtitles.len() > 0 ==> text == joined(
                s.video.push(audio).push(subtitles),
                bar,
            )
            &&& s.audio.len() > 0 && s.subtitles.len() == 0 ==> text == joined(
                s.video.push(audio),
                bar,
            )
            &&& s.audio.len() == 0 && s.subtitles.len() > 0 ==> text == joined(
                s.video.push(subtitles),
                bar,
            )
            &&& s.audio.len() == 0 && s.subtitles.len() == 0 ==> text == joined(s.video, bar)
        }),
{
    let audio = joined(s.audio, ", "@);
    let subtitles = "subs: "@ + joined(s.subtitles, ", "@);
    assert(s.video + seq![audio] + seq![subtitles] =~= s.video.push(audio).push(subtitles));
    assert(s.video + seq![audio] + seq![] =~= s.video.push(audio));
    assert(s.video + seq![] + seq![subtitles] =~= s.video.push(subtitles));
    assert(s.video + Seq::<Seq<char>>::empty() + Seq::<Seq<char>>::empty() =~= s.video);
}

/// A playlist is contained exactly if one of the playlists has it as a member.
pub proof fn law_containment(all: Seq<AnalyzedPlaylist>, number: u32)
    ensures
        contained(all, number) <==> exists|i: int, k: int|
            0 <= i < all.len() && 0 <= k < all[i].members@.len() && (
            #[trigger] all[i].members@[k]).playlist == number,
{
    if contained(all, number) {
        let i = choose|i: int| 0 <= i < all.len() && super::lists(#[trigger] all[i], number);
        let k = choose|k: int|
            0 <= k < all[i].members@.len() && (#[trigger] all[i].members@[k]).playlist == number;
        assert(all[i].members@[k].playlist == number);
    }
    if exists|i: int, k: int|
        0 <= i < all.len() && 0 <= k < all[i].members@.len() && (
        #[trigger] all[i].members@[k]).playlist == number {
        let (i, k) = choose|i: int, k: int|
            0 <= i < all.len() && 0 <= k < all[i].members@.len() && (
            #[trigger] all[i].members@[k]).playlist == number;
        assert(super::lists(all[i], number));
    }
}

/// Playlists are reported in order, but for those that are contained in
/// another one. Each has a line; its members follow if it has any, and else
/// its segments if it has several.
pub proof fn law_playlists_reported(all: Seq<AnalyzedPlaylist>, main: Option<u32>, n: int)
    requires
        0 < n <= all.len(),
    ensures
        ({
            let before = all_playlist_lines(all, main, n - 1);
            let now = all_playlist_lines(all, main, n);
            let p = all[n - 1];
            let members = p.members@;
            let segments = p.segments@;
            &&& all_playlist_lines(all, main, 0).len() == 0
            &&& contained(all, p.number) ==> now == before
            &&& !contained(all, p.number) && members.len() > 0 ==> now == before + (playlist_line(
                p,
                main,
            ) + member_lines(all, members, members.len() as int))
            &&& !contained(all, p.number) && members.len() == 0 && segments.len() > 1 ==> now
                == before + (playlist_line(p, main) + segment_lines(
                segments,
                segments.len() as int,
            ))
            &&& !contained(all, p.number) && members.len() == 0 && segments.len() <= 1 ==> now
                == before + playlist_line(p, main)
        }),
{
    let before = all_playlist_lines(all, main, n - 1);
    let p = all[n - 1];
    assert(before + Seq::<char>::empty() =~= before);
    assert(playlist_line(p, main) + Seq::<char>::empty() =~= playlist_line(p, main));
}

/// The line of a playlist: number, length, number of chapters and streams, and
/// a star for the main title.
pub proof fn law_playlist_lines(p: AnalyzedPlaylist, main: Option<u32>)
    ensures
        ({
            let start = "MPLS "@ + padded_left(decimal(p.number as nat), 5, '0') + "  "@
                + padded_left(duration_text(p.duration), 10, ' ') + "  "@ + padded_left(
                decimal(p.chapters as nat),
                3,
                ' ',
            ) + " ch  "@ + streams_text(p.streams@);
            &&& main == Some(p.number) ==> playlist_line(p, main) == start + " *"@ + "\n"@
            &&& main != Some(p.number) ==> playlist_line(p, main) == start + ""@ + "\n"@
        }),
{
}

/// The lines of members are in order. Each has the number of the segment, that
/// of the playlist, the length and the chapters of the last playlist with that
/// number, and the part in use; question marks stand for a playlist that is
/// not there.
pub proof fn law_member_lines(
    all: Seq<AnalyzedPlaylist>,
    members: Seq<CompositeMember>,
    n: int,
    k: int,
)
    requires
        0 < n <= members.len(),
        0 <= k < all.len(),
        all[k].number == members[n - 1].playlist,
        forall|j: int| k < j < all.len() ==> (#[trigger] all[j]).number != all[k].number,
    ensures
        ({
            let m = members[n - 1];
            &&& member_lines(all, members, 0).len() == 0
            &&& member_lines(all, members, n) == member_lines(all, members, n - 1) + ("  "@
                + padded_left(decimal(m.segment_index as nat), 2, '0') + ": MPLS "@ + padded_left(
                decimal(m.playlist as nat),
                5,
                '0',
            ) + "  "@ + padded_left(duration_text(all[k].duration), 10, ' ') + "  "@ + padded_left(
                decimal(all[k].chapters as nat),
                3,
                ' ',
            ) + " ch  "@ + duration_text(m.range_start) + "\u{2013}"@ + duration_text(m.range_end)
                + "\n"@)
        }),
{
    let m = members[n - 1];
    let p = number_is(m.playlist);
    law_last_comes_last(all, p);
    assert(p(all[k]));
    let found = last_where(all, p);
    assert(found is Some);
    let i = choose|i: int|
        0 <= i < all.len() && #[trigger] all[i] == found->0 && p(found->0) && forall|j: int|
            i < j < all.len() ==> !p(#[trigger] all[j]);
    if i < k {
        assert(!p(all[k]));
    }
    if k < i {
        assert(all[i].number != all[k].number);
    }
}

/// The lines of segments are in order, counted from one, with their clips and
/// their lengths.
pub proof fn law_segment_lines(segments: Seq<Segment>, n: int)
    requires
        0 < n <= segments.len(),
    ensures
        segment_lines(segments, 0).len() == 0,
        segment_lines(segments, n) == segment_lines(segments, n - 1) + ("  segment "@ + decimal(
            n as nat,
        ) + ": "@ + joined(texts(segments[n - 1].clips@), " + "@) + " ("@ + duration_text(
            segments[n - 1].duration,
        ) + ")\n"@),
{
}

/// The lines of clips and warnings.
pub proof fn law_other_lines(
    c: IgClip,
    u: UnreferencedClip,
    w: PlaylistWarning,
    v: ClipWarning,
    n: u32,
)
    ensures
        ig_line(c) == "IG "@ + padded_left(c.clip_id@, 5, ' ') + "  app_type="@ + decimal(
            c.application_type as nat,
        ) + " "@ + padded_left(size_text(c.file_size), 8, ' ') + "  "@ + joined(
            texts_of_languages(c.ig_streams@),
            ", "@,
        ) + "\n"@,
        u.has_ig ==> unreferenced_line(u) == "unreferenced "@ + padded_left(u.clip_id@, 5, ' ')
            + "  "@ + padded_left(size_text(u.file_size), 8, ' ') + "  "@ + joined(
            texts(u.streams@),
            ", "@,
        ) + " [IG]"@ + "\n"@,
        !u.has_ig ==> unreferenced_line(u) == "unreferenced "@ + padded_left(u.clip_id@, 5, ' ')
            + "  "@ + padded_left(size_text(u.file_size), 8, ' ') + "  "@ + joined(
            texts(u.streams@),
            ", "@,
        ) + ""@ + "\n"@,
        warning_line(w) == "warning: MPLS "@ + padded_left(decimal(w.playlist as nat), 5, '0')
            + ": "@ + w.message@ + "\n"@,
        clip_warning_line(v) == "warning: CLPI "@ + v.clip_id@ + ": "@ + v.message@ + "\n"@,
        main_line(Some(n)) == "\n* main title: "@ + padded_left(decimal(n as nat), 5, '0')
            + "\n"@,
        main_line(None).len() == 0,
{
}

/// Lists are reported line by line, behind an empty line if they have one.
pub proof fn law_lists_reported<T>(list: Seq<T>, line: spec_fn(T) -> Seq<char>, n: int)
    requires
        0 < n <= list.len(),
    ensures
        lines(list, line, 0).len() == 0,
        lines(list, line, n) == lines(list, line, n - 1) + line(list[n - 1]),
        block(Seq::<T>::empty(), line).len() == 0,
        block(list, line) == "\n"@ + lines(list, line, list.len() as int),
{
}

/// The report has the playlists, the main title, the menu clips, the
/// unreferenced clips, and the warnings about playlists and about clips, in
/// this order.
pub proof fn law_parts_of_the_report(a: BdmvAnalysis)
    ensures
        ({
            let menus = |c: IgClip| ig_line(c);
            let unused = |c: UnreferencedClip| unreferenced_line(c);
            let about_playlists = |w: PlaylistWarning| warning_line(w);
            let about_clips = |w: ClipWarning| clip_warning_line(w);
            report_text(a) == all_playlist_lines(
                a.playlists@,
                a.main_title,
                a.playlists@.len() as int,
            ) + main_line(a.main_title) + block(a.ig_clips@, menus) + block(
                a.unreferenced_clips@,
                unused,
            ) + lines(a.warnings@, about_playlists, a.warnings@.len() as int) + lines(
                a.clip_warnings@,
                about_clips,
                a.clip_warnings@.len() as int,
            )
        }),
{
}

/// The line of a member that is no playlist has question marks for its length
/// and its chapters.
pub proof fn law_lines_of_missing_members(all: Seq<AnalyzedPlaylist>, m: CompositeMember)
    requires
        forall|j: int| 0 <= j < all.len() ==> (#[trigger] all[j]).number != m.playlist,
    ensures
        member_line(all, m) == "  "@ + padded_left(decimal(m.segment_index as nat), 2, '0')
            + ": MPLS "@ + padded_left(decimal(m.playlist as nat), 5, '0') + "  "@ + padded_left(
            "?"@,
            10,
            ' ',
        ) + "  "@ + padded_left("?"@, 3, ' ') + " ch  "@ + duration_text(m.range_start)
            + "\u{2013}"@ + duration_text(m.range_end) + "\n"@,
{
    law_last_comes_last(all, number_is(m.playlist));
    if let Some(p) = last_where(all, number_is(m.playlist)) {
        let k = choose|k: int| 0 <= k < all.len() && #[trigger] all[k] == p;
        assert(all[k].number != m.playlist);
    }
}

} // verus!
