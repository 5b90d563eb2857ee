//! An analysis as text.
use std::collections::HashSet;

use reliquary_bdmv::analysis::{
    AnalyzedPlaylist, ClipWarning, CompositeMember, IgClip, IgStream, PlaylistWarning, Segment,
    StreamSummary, UnreferencedClip,
};
use reliquary_bdmv::disc::BdmvAnalysis;
use reliquary_bdmv::report::{format_duration, format_file_size, format_streams};

const SECOND: u64 = 45_000;

/// A size as floating point arithmetic writes it.
fn size_by_floats(bytes: u64) -> String {
    let b = bytes as f64;
    if bytes >= 1_073_741_824 {
        format!("{:.1} GB", b / 1_073_741_824.0)
    } else if bytes >= 1_048_576 {
        format!("{:.1} MB", b / 1_048_576.0)
    } else {
        format!("{:.1} KB", b / 1024.0)
    }
}

fn streams(video: &[&str], audio: &[&str], subtitles: &[&str]) -> StreamSummary {
    StreamSummary {
        video: video.iter().map(|s| s.to_string()).collect(),
        audio: audio.iter().map(|s| s.to_string()).collect(),
        subtitles: subtitles.iter().map(|s| s.to_string()).collect(),
    }
}

fn playlist(number: u32, seconds: u64, chapters: u32) -> AnalyzedPlaylist {
    AnalyzedPlaylist {
        number,
        duration: seconds * SECOND,
        chapters,
        segments: vec![Segment { clips: vec![format!("{number:05}")], duration: seconds * SECOND }],
        streams: streams(&["H.264 1080p 23.976"], &["AC-3 5.1 eng"], &[]),
        members: vec![],
    }
}

fn empty() -> BdmvAnalysis {
    BdmvAnalysis {
        playlists: vec![],
        main_title: None,
        ig_clips: vec![],
        unreferenced_clips: vec![],
        partially_used_clips: vec![],
        warnings: vec![],
        clip_warnings: vec![],
        title_playlists: HashSet::new(),
    }
}

#[test]
fn durations_in_hours_minutes_seconds() {
    assert_eq!(format_duration(0), "00:00:00");
    assert_eq!(format_duration(59 * SECOND), "00:00:59");
    assert_eq!(format_duration(60 * SECOND), "00:01:00");
    assert_eq!(format_duration(8476 * SECOND), "02:21:16");
    assert_eq!(format_duration(8476 * SECOND + 44_999), "02:21:16");
    assert_eq!(format_duration(360_000 * SECOND), "100:00:00");
}

#[test]
fn sizes_agree_with_floats() {
    let mut sizes = vec![
        0,
        1,
        51,
        52,
        153,
        154,
        1023,
        1024,
        1_048_575,
        1_048_576,
        1_073_741_823,
        1_073_741_824,
        u64::MAX,
        u64::MAX - 1,
        (1 << 53) + 1,
        (1 << 53) + 3,
        (1 << 54) + 2,
        96_000,
        25_769_803_776,
    ];
    // Sizes that lie halfway between two tenths.
    for k in 0..200u64 {
        sizes.push(k * 256);
        sizes.push(k * 262_144);
        sizes.push(k * 268_435_456);
        sizes.push(k * 53_687_091 + 7);
    }
    // Sizes of all magnitudes.
    let mut x: u64 = 1;
    for k in 0..64u64 {
        sizes.push(x);
        sizes.push(x.wrapping_mul(3).wrapping_add(k));
        sizes.push(x.wrapping_sub(1));
        x = x.wrapping_mul(2);
    }
    for bytes in sizes {
        assert_eq!(format_file_size(bytes), size_by_floats(bytes), "{bytes} bytes");
    }
}

#[test]
fn sizes_have_one_decimal() {
    assert_eq!(format_file_size(0), "0.0 KB");
    assert_eq!(format_file_size(96_000), "93.8 KB");
    assert_eq!(format_file_size(1_048_576), "1.0 MB");
    assert_eq!(format_file_size(1_610_612_736), "1.5 GB");
}

#[test]
fn streams_on_one_line() {
    assert_eq!(format_streams(&streams(&[], &[], &[])), "");
    assert_eq!(format_streams(&streams(&["V"], &[], &[])), "V");
    assert_eq!(format_streams(&streams(&[], &["A", "B"], &[])), "A, B");
    assert_eq!(
        format_streams(&streams(&["V", "W"], &["A", "B"], &["S", "T"])),
        "V | W | A, B | subs: S, T"
    );
}

#[test]
fn empty_analysis_has_no_lines() {
    assert_eq!(empty().report(), "");
}

#[test]
fn whole_report() {
    let mut analysis = empty();
    let mut play_all = playlist(14, 1425, 6);
    play_all.members = vec![
        CompositeMember {
            playlist: 4,
            segment_index: 1,
            range_start: 0,
            range_end: 712 * SECOND,
        },
        CompositeMember {
            playlist: 99,
            segment_index: 2,
            range_start: 10 * SECOND,
            range_end: 20 * SECOND,
        },
    ];
    let mut split = playlist(20, 66, 1);
    split.segments = vec![
        Segment { clips: vec!["00010".into(), "00011".into()], duration: 60 * SECOND },
        Segment { clips: vec!["00012".into()], duration: 6 * SECOND },
    ];
    analysis.playlists = vec![playlist(4, 712, 3), play_all, split];
    analysis.main_title = Some(14);
    analysis.ig_clips = vec![IgClip {
        clip_id: "00291".into(),
        application_type: 5,
        file_size: 96_000,
        ig_streams: vec![
            IgStream { pid: 0x1400, language: "eng".into() },
            IgStream { pid: 0x1401, language: "fra".into() },
        ],
    }];
    analysis.unreferenced_clips = vec![
        UnreferencedClip {
            clip_id: "00291".into(),
            has_ig: true,
            streams: vec!["IG".into()],
            file_size: 96_000,
        },
        UnreferencedClip {
            clip_id: "7".into(),
            has_ig: false,
            streams: vec!["H.264".into(), "AC-3".into()],
            file_size: 1_073_741_824,
        },
    ];
    analysis.warnings = vec![PlaylistWarning { playlist: 99, message: "bad magic".into() }];
    analysis.clip_warnings = vec![ClipWarning { clip_id: "00300".into(), message: "gone".into() }];
    let expected = "\
MPLS 00014    00:23:45    6 ch  H.264 1080p 23.976 | AC-3 5.1 eng *
  01: MPLS 00004    00:11:52    3 ch  00:00:00\u{2013}00:11:52
  02: MPLS 00099           ?    ? ch  00:00:10\u{2013}00:00:20
MPLS 00020    00:01:06    1 ch  H.264 1080p 23.976 | AC-3 5.1 eng
  segment 1: 00010 + 00011 (00:01:00)
  segment 2: 00012 (00:00:06)

* main title: 00014

IG 00291  app_type=5  93.8 KB  eng, fra

unreferenced 00291   93.8 KB  IG [IG]
unreferenced     7    1.0 GB  H.264, AC-3
warning: MPLS 00099: bad magic
warning: CLPI 00300: gone
";
    assert_eq!(analysis.report(), expected);
}
