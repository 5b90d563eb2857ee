//! The analysis of a disc as text.
use vstd::prelude::*;
use vstd::string::*;

use crate::analysis::{
    texts_of_languages, AnalyzedPlaylist, ClipWarning, CompositeMember, IgClip, PlaylistWarning,
    Segment, StreamSummary, SummaryModel, UnreferencedClip,
};
use crate::disc::BdmvAnalysis;
use crate::mpls::PTS_CLOCK_HZ;
use crate::seqs::{last_where, lemma_last_where_take};
use crate::text::{
    concat3, decimal, join, joined, padded_left, space_padded, texts, to_decimal, zero_padded,
};

pub mod laws;

verus! {

// ---------------------------------------------------------------------------
// Lengths, sizes and streams
// ---------------------------------------------------------------------------

/// A length in ticks as hours, minutes and seconds, of two digits at least.
pub open spec fn duration_text(ticks: u64) -> Seq<char> {
    let seconds = (ticks / PTS_CLOCK_HZ as u64) as nat;
    padded_left(decimal(seconds / 3600), 2, '0') + ":"@ + padded_left(
        decimal(seconds % 3600 / 60),
        2,
        '0',
    ) + ":"@ + padded_left(decimal(seconds % 60), 2, '0')
}

/// Writes a length in ticks as `HH:MM:SS`.
pub fn format_duration(ticks: u64) -> (text: String)
    ensures
        text@ == duration_text(ticks),
{
    let seconds: u64 = ticks / PTS_CLOCK_HZ as u64;
    let mut text: String = concat3(
        zero_padded(seconds / 3600, 2).as_str(),
        ":",
        zero_padded(seconds % 3600 / 60, 2).as_str(),
    );
    text.append(":");
    text.append(zero_padded(seconds % 60, 2).as_str());
    text
}

/// `n / d` rounded to the nearest integer, and to the even one of two equally
/// near.
pub open spec fn rounded(n: nat, d: nat) -> nat {
    let q = n / d;
    let r = n % d;
    if 2 * r > d || (2 * r == d && q % 2 == 1) {
        q + 1
    } else {
        q
    }
}

/// The distance between binary64 numbers of the magnitude of `n`, from `unit`
/// on: the least power of two by which `n` has at most 53 binary digits.
pub open spec fn spacing(n: nat, unit: nat) -> nat
    decreases n / unit,
    when unit > 0
{
    if n / unit < 0x20_0000_0000_0000 {
        unit
    } else {
        proof {
            vstd::arithmetic::div_mod::lemma_div_denominator(n as int, unit as int, 2);
        }
        spacing(n, unit * 2)
    }
}

/// The binary64 number nearest to `n`.
pub open spec fn nearest_double(n: nat) -> nat {
    let unit = spacing(n, 1);
    rounded(n, unit) * unit
}

/// A size in bytes as kilobytes, megabytes or gigabytes with one decimal. The
/// size is first taken to the nearest binary64 number, which is itself below
/// 2^53.
pub open spec fn size_text(bytes: u64) -> Seq<char> {
    let (divisor, unit) = if bytes >= 0x4000_0000 {
        (0x4000_0000nat, " GB"@)
    } else if bytes >= 0x10_0000 {
        (0x10_0000nat, " MB"@)
    } else {
        (0x400nat, " KB"@)
    };
    let tenths = rounded(nearest_double(bytes as nat) * 10, divisor);
    decimal(tenths / 10) + "."@ + decimal(tenths % 10) + unit
}

fn round_div(n: u128, d: u128) -> (q: u128)
    requires
        0 < d <= 0x4000_0000_0000_0000,
    ensures
        q == rounded(n as nat, d as nat),
        q <= n / d + 1,
{
    let whole: u128 = n / d;
    let rest: u128 = n % d;
    if 2 * rest > d || (2 * rest == d && whole % 2 == 1) {
        assert(whole < u128::MAX) by {
            if whole == u128::MAX {
                assert(d == 1) by (nonlinear_arith)
                    requires
                        n / d == u128::MAX,
                        d >= 1,
                        n <= u128::MAX,
                ;
                assert(rest == 0);
            }
        }
        whole + 1
    } else {
        whole
    }
}

fn round_to_double(n: u64) -> (x: u128)
    ensures
        x == nearest_double(n as nat),
        x <= 2 * 0x1_0000_0000_0000_0000,
{
    let wide: u128 = n as u128;
    let mut unit: u128 = 1;
    while wide / unit >= 0x20_0000_0000_0000
        invariant
            wide == n,
            1 <= unit <= 0x1000,
            spacing(n as nat, unit as nat) == spacing(n as nat, 1),
        decreases 0x1000 - unit,
    {
        proof {
            assert(unit < 0x1000) by (nonlinear_arith)
                requires
                    wide / unit >= 0x20_0000_0000_0000,
                    wide <= 0xFFFF_FFFF_FFFF_FFFF,
                    unit >= 1,
            ;
            assert(unit * 2 <= 0x1000) by {
                assert(unit <= 0x7FF) by (nonlinear_arith)
                    requires
                        wide / unit >= 0x20_0000_0000_0000,
                        wide <= 0xFFFF_FFFF_FFFF_FFFF,
                        unit >= 1,
                ;
            }
        }
        unit = unit * 2;
    }
    let q: u128 = round_div(wide, unit);
    proof {
        assert(q * unit <= wide + unit) by (nonlinear_arith)
            requires
                q <= wide / unit + 1,
                unit >= 1,
        ;
    }
    q * unit
}

/// Writes a size in bytes.
pub fn format_file_size(bytes: u64) -> (text: String)
    ensures
        text@ == size_text(bytes),
{
    let size: u128 = round_to_double(bytes);
    let divisor: u128 = if bytes >= 0x4000_0000 {
        0x4000_0000
    } else if bytes >= 0x10_0000 {
        0x10_0000
    } else {
        0x400
    };
    let tenths: u128 = round_div(size * 10, divisor);
    proof {
        assert(size * 10 / (divisor as int) <= 0x1_0000_0000_0000_0000) by (nonlinear_arith)
            requires
                size <= 2 * 0x1_0000_0000_0000_0000,
                divisor >= 0x400,
        ;
        assert(tenths / 10 <= u64::MAX) by (nonlinear_arith)
            requires
                tenths <= 0x1_0000_0000_0000_0000 + 1,
        ;
    }
    let mut text: String = concat3(
        to_decimal((tenths / 10) as u64).as_str(),
        ".",
        to_decimal((tenths % 10) as u64).as_str(),
    );
    text.append(
        if bytes >= 0x4000_0000 {
            " GB"
        } else if bytes >= 0x10_0000 {
            " MB"
        } else {
            " KB"
        },
    );
    text
}

/// Streams on one line: video, audio and subtitles, separated by bars.
pub open spec fn streams_text(s: SummaryModel) -> Seq<char> {
    let audio = if s.audio.len() == 0 {
        seq![]
    } else {
        seq![joined(s.audio, ", "@)]
    };
    let subtitles = if s.subtitles.len() == 0 {
        seq![]
    } else {
        seq!["subs: "@ + joined(s.subtitles, ", "@)]
    };
    joined(s.video + audio + subtitles, " | "@)
}

/// Writes streams on one line.
pub fn format_streams(s: &StreamSummary) -> (text: String)
    ensures
        text@ == streams_text(s@),
{
    let mut parts: Vec<String> = crate::mpls::copy_strings(&s.video);
    let ghost mut list = s@.video;
    if !s.audio.is_empty() {
        let audio: String = join(&s.audio, ", ");
        parts.push(audio);
        proof {
            assert(texts(parts@) =~= list + seq![audio@]);
            list = list + seq![audio@];
        }
    } else {
        proof {
            assert(list + Seq::<Seq<char>>::empty() =~= list);
        }
    }
    if !s.subtitles.is_empty() {
        let mut subtitles: String = String::from_str("subs: ");
        subtitles.append(join(&s.subtitles, ", ").as_str());
        parts.push(subtitles);
        proof {
            assert(texts(parts@) =~= list + seq![subtitles@]);
        }
    } else {
        proof {
            assert(list + Seq::<Seq<char>>::empty() =~= list);
        }
    }
    join(&parts, " | ")
}

// ---------------------------------------------------------------------------
// Playlists
// ---------------------------------------------------------------------------

/// Whether a playlist lists another one as contained.
pub open spec fn lists(p: AnalyzedPlaylist, number: u32) -> bool {
    exists|k: int| 0 <= k < p.members@.len() && (#[trigger] p.members@[k]).playlist == number
}

/// Whether a playlist is contained in one of the playlists.
pub open spec fn contained(all: Seq<AnalyzedPlaylist>, number: u32) -> bool {
    exists|i: int| 0 <= i < all.len() && lists(#[trigger] all[i], number)
}

/// A playlist with the given number.
pub open spec fn number_is(number: u32) -> spec_fn(AnalyzedPlaylist) -> bool {
    |p: AnalyzedPlaylist| p.number == number
}

/// The line of a contained playlist.
pub open spec fn member_line(all: Seq<AnalyzedPlaylist>, m: CompositeMember) -> Seq<char> {
    let (length, chapters) = match last_where(all, number_is(m.playlist)) {
        Some(p) => (duration_text(p.duration), decimal(p.chapters as nat)),
        None => ("?"@, "?"@),
    };
    "  "@ + padded_left(decimal(m.segment_index as nat), 2, '0') + ": MPLS "@ + padded_left(
        decimal(m.playlist as nat),
        5,
        '0',
    ) + "  "@ + padded_left(length, 10, ' ') + "  "@ + padded_left(chapters, 3, ' ') + " ch  "@
        + duration_text(m.range_start) + "\u{2013}"@ + duration_text(m.range_end) + "\n"@
}

/// The lines of the first `n` contained playlists.
pub open spec fn member_lines(
    all: Seq<AnalyzedPlaylist>,
    members: Seq<CompositeMember>,
    n: int,
) -> Seq<char>
    decreases n,
{
    if n <= 0 {
        seq![]
    } else {
        member_lines(all, members, n - 1) + member_line(all, members[n - 1])
    }
}

/// The line of the `i`th segment.
pub open spec fn segment_line(s: Segment, i: int) -> Seq<char> {
    "  segment "@ + decimal((i + 1) as nat) + ": "@ + joined(texts(s.clips@), " + "@) + " ("@
        + duration_text(s.duration) + ")\n"@
}

/// The lines of the first `n` segments.
pub open spec fn segment_lines(segments: Seq<Segment>, n: int) -> Seq<char>
    decreases n,
{
    if n <= 0 {
        seq![]
    } else {
        segment_lines(segments, n - 1) + segment_line(segments[n - 1], n - 1)
    }
}

/// The line of a playlist, which marks the main title.
pub open spec fn playlist_line(p: AnalyzedPlaylist, main: Option<u32>) -> Seq<char> {
    "MPLS "@ + padded_left(decimal(p.number as nat), 5, '0') + "  "@ + padded_left(
        duration_text(p.duration),
        10,
        ' ',
    ) + "  "@ + padded_left(decimal(p.chapters as nat), 3, ' ') + " ch  "@ + streams_text(
        p.streams@,
    ) + (if main == Some(p.number) {
        " *"@
    } else {
        ""@
    }) + "\n"@
}

/// A playlist with what it contains, or its segments if there are several.
pub open spec fn playlist_lines(
    all: Seq<AnalyzedPlaylist>,
    p: AnalyzedPlaylist,
    main: Option<u32>,
) -> Seq<char> {
    playlist_line(p, main) + (if p.members@.len() > 0 {
        member_lines(all, p.members@, p.members@.len() as int)
    } else if p.segments@.len() > 1 {
        segment_lines(p.segments@, p.segments@.len() as int)
    } else {
        seq![]
    })
}

/// The first `n` playlists without those that others contain.
pub open spec fn all_playlist_lines(
    all: Seq<AnalyzedPlaylist>,
    main: Option<u32>,
    n: int,
) -> Seq<char>
    decreases n,
{
    if n <= 0 {
        seq![]
    } else {
        all_playlist_lines(all, main, n - 1) + (if contained(all, all[n - 1].number) {
            seq![]
        } else {
            playlist_lines(all, all[n - 1], main)
        })
    }
}

fn is_contained(all: &Vec<AnalyzedPlaylist>, number: u32) -> (yes: bool)
    ensures
        yes == contained(all@, number),
{
    let mut i: usize = 0;
    while i < all.len()
        invariant
            i <= all.len(),
            forall|j: int| 0 <= j < i ==> !lists(#[trigger] all@[j], number),
        decreases all.len() - i,
    {
        let p: &AnalyzedPlaylist = &all[i];
        let mut k: usize = 0;
        while k < p.members.len()
            invariant
                k <= p.members.len(),
                i < all.len(),
                *p == all@[i as int],
                forall|j: int| 0 <= j < k ==> (#[trigger] p.members@[j]).playlist != number,
            decreases p.members.len() - k,
        {
            if p.members[k].playlist == number {
                assert(p.members@[k as int].playlist == number);
                assert(lists(all@[i as int], number));
                return true;
            }
            k = k + 1;
        }
        i = i + 1;
    }
    false
}

fn format_member(all: &Vec<AnalyzedPlaylist>, m: &CompositeMember) -> (text: String)
    ensures
        text@ == member_line(all@, *m),
{
    let ghost wanted = number_is(m.playlist);
    let mut found: Option<usize> = None;
    let mut i: usize = all.len();
    while found.is_none() && i > 0
        invariant
            i <= all.len(),
            wanted == number_is(m.playlist),
            match found {
                Some(k) => k < all.len() && last_where(all@, wanted) == Some(all@[k as int]),
                None => forall|j: int| i <= j < all.len() ==> !wanted(#[trigger] all@[j]),
            },
        decreases i,
    {
        i = i - 1;
        if all[i].number == m.playlist {
            proof {
                lemma_last_where_take(all@, wanted, i + 1);
                assert(all@.take(i + 1).last() == all@[i as int]);
            }
            found = Some(i);
        }
    }
    let (length, chapters) = match found {
        Some(k) => (format_duration(all[k].duration), to_decimal(all[k].chapters as u64)),
        None => {
            proof {
                lemma_last_where_take(all@, wanted, 0);
                assert(all@.take(0).len() == 0);
            }
            (String::from_str("?"), String::from_str("?"))
        },
    };
    let mut text: String = concat3(
        "  ",
        zero_padded(m.segment_index as u64, 2).as_str(),
        ": MPLS ",
    );
    text.append(zero_padded(m.playlist as u64, 5).as_str());
    text.append("  ");
    text.append(space_padded(length.as_str(), 10).as_str());
    text.append("  ");
    text.append(space_padded(chapters.as_str(), 3).as_str());
    text.append(" ch  ");
    text.append(format_duration(m.range_start).as_str());
    text.append("\u{2013}");
    text.append(format_duration(m.range_end).as_str());
    text.append("\n");
    text
}

fn format_segment(s: &Segment, i: usize) -> (text: String)
    requires
        i < usize::MAX,
    ensures
        text@ == segment_line(*s, i as int),
{
    let mut text: String = concat3("  segment ", to_decimal((i + 1) as u64).as_str(), ": ");
    text.append(join(&s.clips, " + ").as_str());
    text.append(" (");
    text.append(format_duration(s.duration).as_str());
    text.append(")\n");
    text
}

fn format_playlist(all: &Vec<AnalyzedPlaylist>, p: &AnalyzedPlaylist, main: Option<u32>) -> (text:
    String)
    ensures
        text@ == playlist_lines(all@, *p, main),
{
    let mut text: String = concat3("MPLS ", zero_padded(p.number as u64, 5).as_str(), "  ");
    text.append(space_padded(format_duration(p.duration).as_str(), 10).as_str());
    text.append("  ");
    text.append(space_padded(to_decimal(p.chapters as u64).as_str(), 3).as_str());
    text.append(" ch  ");
    text.append(format_streams(&p.streams).as_str());
    let is_main: bool = match main {
        Some(n) => n == p.number,
        None => false,
    };
    text.append(
        if is_main {
            " *"
        } else {
            ""
        },
    );
    text.append("\n");
    let ghost first = playlist_line(*p, main);
    assert(text@ =~= first + Seq::<char>::empty());
    let mut i: usize = 0;
    if p.members.len() > 0 {
        while i < p.members.len()
            invariant
                i <= p.members.len(),
                text@ == first + member_lines(all@, p.members@, i as int),
            decreases p.members.len() - i,
        {
            let ghost done = member_lines(all@, p.members@, i as int);
            let line: String = format_member(all, &p.members[i]);
            text.append(line.as_str());
            proof {
                assert(first + done + line@ =~= first + (done + line@));
            }
            i = i + 1;
        }
    } else if p.segments.len() > 1 {
        while i < p.segments.len()
            invariant
                i <= p.segments.len(),
                text@ == first + segment_lines(p.segments@, i as int),
            decreases p.segments.len() - i,
        {
            let ghost done = segment_lines(p.segments@, i as int);
            let line: String = format_segment(&p.segments[i], i);
            text.append(line.as_str());
            proof {
                assert(first + done + line@ =~= first + (done + line@));
            }
            i = i + 1;
        }
    }
    text
}

// ---------------------------------------------------------------------------
// Clips and warnings
// ---------------------------------------------------------------------------

/// The line of a clip with interactive graphics.
pub open spec fn ig_line(c: IgClip) -> Seq<char> {
    "IG "@ + padded_left(c.clip_id@, 5, ' ') + "  app_type="@ + decimal(c.application_type as nat)
        + " "@ + padded_left(size_text(c.file_size), 8, ' ') + "  "@ + joined(
        texts_of_languages(c.ig_streams@),
        ", "@,
    ) + "\n"@
}

/// The line of a clip that no playlist refers to.
pub open spec fn unreferenced_line(c: UnreferencedClip) -> Seq<char> {
    "unreferenced "@ + padded_left(c.clip_id@, 5, ' ') + "  "@ + padded_left(
        size_text(c.file_size),
        8,
        ' ',
    ) + "  "@ + joined(texts(c.streams@), ", "@) + (if c.has_ig {
        " [IG]"@
    } else {
        ""@
    }) + "\n"@
}

/// The line of a warning about a playlist.
pub open spec fn warning_line(w: PlaylistWarning) -> Seq<char> {
    "warning: MPLS "@ + padded_left(decimal(w.playlist as nat), 5, '0') + ": "@ + w.message@
        + "\n"@
}

/// The line of a warning about a clip.
pub open spec fn clip_warning_line(w: ClipWarning) -> Seq<char> {
    "warning: CLPI "@ + w.clip_id@ + ": "@ + w.message@ + "\n"@
}

/// The first `n` lines of a list.
pub open spec fn lines<T>(list: Seq<T>, line: spec_fn(T) -> Seq<char>, n: int) -> Seq<char>
    decreases n,
{
    if n <= 0 {
        seq![]
    } else {
        lines(list, line, n - 1) + line(list[n - 1])
    }
}

/// A list behind an empty line, nothing if it is empty.
pub open spec fn block<T>(list: Seq<T>, line: spec_fn(T) -> Seq<char>) -> Seq<char> {
    if list.len() == 0 {
        seq![]
    } else {
        "\n"@ + lines(list, line, list.len() as int)
    }
}

/// The line that names the main title.
pub open spec fn main_line(main: Option<u32>) -> Seq<char> {
    match main {
        Some(n) => "\n* main title: "@ + padded_left(decimal(n as nat), 5, '0') + "\n"@,
        None => seq![],
    }
}

/// An analysis as text.
pub open spec fn report_text(a: BdmvAnalysis) -> Seq<char> {
    all_playlist_lines(a.playlists@, a.main_title, a.playlists@.len() as int) + main_line(
        a.main_title,
    ) + block(a.ig_clips@, |c: IgClip| ig_line(c)) + block(
        a.unreferenced_clips@,
        |c: UnreferencedClip| unreferenced_line(c),
    ) + lines(a.warnings@, |w: PlaylistWarning| warning_line(w), a.warnings@.len() as int) + lines(
        a.clip_warnings@,
        |w: ClipWarning| clip_warning_line(w),
        a.clip_warnings@.len() as int,
    )
}

fn format_ig(c: &IgClip) -> (text: String)
    ensures
        text@ == ig_line(*c),
{
    let mut languages: Vec<String> = Vec::new();
    let mut i: usize = 0;
    while i < c.ig_streams.len()
        invariant
            i <= c.ig_streams.len(),
            languages@.len() == i,
            forall|j: int|
                0 <= j < i ==> (#[trigger] languages@[j])@ == c.ig_streams@[j].language@,
        decreases c.ig_streams.len() - i,
    {
        languages.push(c.ig_streams[i].language.clone());
        i = i + 1;
    }
    proof {
        assert(texts(languages@) =~= texts_of_languages(c.ig_streams@));
    }
    let mut text: String = concat3(
        "IG ",
        space_padded(c.clip_id.as_str(), 5).as_str(),
        "  app_type=",
    );
    text.append(to_decimal(c.application_type as u64).as_str());
    text.append(" ");
    text.append(space_padded(format_file_size(c.file_size).as_str(), 8).as_str());
    text.append("  ");
    text.append(join(&languages, ", ").as_str());
    text.append("\n");
    text
}

fn format_unreferenced(c: &UnreferencedClip) -> (text: String)
    ensures
        text@ == unreferenced_line(*c),
{
    let mut text: String = concat3(
        "unreferenced ",
        space_padded(c.clip_id.as_str(), 5).as_str(),
        "  ",
    );
    text.append(space_padded(format_file_size(c.file_size).as_str(), 8).as_str());
    text.append("  ");
    text.append(join(&c.streams, ", ").as_str());
    text.append(
        if c.has_ig {
            " [IG]"
        } else {
            ""
        },
    );
    text.append("\n");
    text
}

impl BdmvAnalysis {
    fn playlists_text(&self) -> (text: String)
        ensures
            text@ == all_playlist_lines(
                self.playlists@,
                self.main_title,
                self.playlists@.len() as int,
            ),
    {
        let mut text: String = String::new();
        let mut i: usize = 0;
        while i < self.playlists.len()
            invariant
                i <= self.playlists.len(),
                text@ == all_playlist_lines(self.playlists@, self.main_title, i as int),
            decreases self.playlists.len() - i,
        {
            let p: &AnalyzedPlaylist = &self.playlists[i];
            let ghost done = text@;
            if !is_contained(&self.playlists, p.number) {
                text.append(format_playlist(&self.playlists, p, self.main_title).as_str());
            } else {
                proof {
                    assert(done + Seq::<char>::empty() =~= done);
                }
            }
            i = i + 1;
        }
        text
    }

    fn ig_text(&self) -> (text: String)
        ensures
            text@ == block(self.ig_clips@, |c: IgClip| ig_line(c)),
    {
        if self.ig_clips.is_empty() {
            return String::new();
        }
        let ghost line = |c: IgClip| ig_line(c);
        let mut text: String = String::from_str("\n");
        let mut i: usize = 0;
        assert("\n"@ + lines(self.ig_clips@, line, 0) =~= "\n"@);
        while i < self.ig_clips.len()
            invariant
                i <= self.ig_clips.len(),
                line == (|c: IgClip| ig_line(c)),
                text@ == "\n"@ + lines(self.ig_clips@, line, i as int),
            decreases self.ig_clips.len() - i,
        {
            let ghost done = lines(self.ig_clips@, line, i as int);
            let next: String = format_ig(&self.ig_clips[i]);
            text.append(next.as_str());
            proof {
                assert("\n"@ + done + next@ =~= "\n"@ + (done + next@));
            }
            i = i + 1;
        }
        text
    }

    fn unreferenced_text(&self) -> (text: String)
        ensures
            text@ == block(
                self.unreferenced_clips@,
                |c: UnreferencedClip| unreferenced_line(c),
            ),
    {
        if self.unreferenced_clips.is_empty() {
            return String::new();
        }
        let ghost line = |c: UnreferencedClip| unreferenced_line(c);
        let mut text: String = String::from_str("\n");
        let mut i: usize = 0;
        assert("\n"@ + lines(self.unreferenced_clips@, line, 0) =~= "\n"@);
        while i < self.unreferenced_clips.len()
            invariant
                i <= self.unreferenced_clips.len(),
                line == (|c: UnreferencedClip| unreferenced_line(c)),
                text@ == "\n"@ + lines(self.unreferenced_clips@, line, i as int),
            decreases self.unreferenced_clips.len() - i,
        {
            let ghost done = lines(self.unreferenced_clips@, line, i as int);
            let next: String = format_unreferenced(&self.unreferenced_clips[i]);
            text.append(next.as_str());
            proof {
                assert("\n"@ + done + next@ =~= "\n"@ + (done + next@));
            }
            i = i + 1;
        }
        text
    }

    fn warnings_text(&self) -> (text: String)
        ensures
            text@ == lines(
                self.warnings@,
                |w: PlaylistWarning| warning_line(w),
                self.warnings@.len() as int,
            ),
    {
        let ghost line = |w: PlaylistWarning| warning_line(w);
        let mut text: String = String::new();
        let mut i: usize = 0;
        while i < self.warnings.len()
            invariant
                i <= self.warnings.len(),
                line == (|w: PlaylistWarning| warning_line(w)),
                text@ == lines(self.warnings@, line, i as int),
            decreases self.warnings.len() - i,
        {
            let w: &PlaylistWarning = &self.warnings[i];
            let mut next: String = concat3(
                "warning: MPLS ",
                zero_padded(w.playlist as u64, 5).as_str(),
                ": ",
            );
            next.append(w.message.as_str());
            next.append("\n");
            assert(next@ == warning_line(self.warnings@[i as int]));
            text.append(next.as_str());
            i = i + 1;
        }
        text
    }

    fn clip_warnings_text(&self) -> (text: String)
        ensures
            text@ == lines(
                self.clip_warnings@,
                |w: ClipWarning| clip_warning_line(w),
                self.clip_warnings@.len() as int,
            ),
    {
        let ghost line = |w: ClipWarning| clip_warning_line(w);
        let mut text: String = String::new();
        let mut i: usize = 0;
        while i < self.clip_warnings.len()
            invariant
                i <= self.clip_warnings.len(),
                line == (|w: ClipWarning| clip_warning_line(w)),
                text@ == lines(self.clip_warnings@, line, i as int),
            decreases self.clip_warnings.len() - i,
        {
            let w: &ClipWarning = &self.clip_warnings[i];
            let mut next: String = concat3("warning: CLPI ", w.clip_id.as_str(), ": ");
            next.append(w.message.as_str());
            next.append("\n");
            assert(next@ == clip_warning_line(self.clip_warnings@[i as int]));
            text.append(next.as_str());
            i = i + 1;
        }
        text
    }

    /// Writes the analysis as text.
    pub fn report(&self) -> (text: String)
        ensures
            text@ == report_text(*self),
    {
        let mut text: String = self.playlists_text();
        match self.main_title {
            Some(n) => {
                let line: String = concat3(
                    "\n* main title: ",
                    zero_padded(n as u64, 5).as_str(),
                    "\n",
                );
                text.append(line.as_str());
            },
            None => {
                proof {
                    assert(text@ + Seq::<char>::empty() =~= text@);
                }
            },
        }
        text.append(self.ig_text().as_str());
        text.append(self.unreferenced_text().as_str());
        text.append(self.warnings_text().as_str());
        text.append(self.clip_warnings_text().as_str());
        text
    }
}

} // verus!
