//! Analysis of whole discs.
use reliquary_bdmv::analysis::identify_ig_clips;
use reliquary_bdmv::clpi::{ClipInfo, ClipStream, StreamAttrs};
use reliquary_bdmv::disc::{
    analyze, clip_dir, clip_id_from_name, clip_names, playlist_dir, playlist_names,
    playlist_number, read_clips, BdmvAnalysis, BdmvError, ClipFile, PlaylistFile, PlaylistOutcome,
};
use reliquary_bdmv::mpls::{
    AudioStream, Mark, PlayItem, Playlist, StnTable, SubtitleStream, VideoStream,
};
use reliquary_bdmv::reader::ReaderError;

fn item(clip: &str, in_time: u32, out_time: u32) -> PlayItem {
    PlayItem {
        clip_id: clip.to_string(),
        in_time,
        out_time,
        connection_condition: 1,
        angle_clip_ids: vec![],
        streams: StnTable { video: vec![], audio: vec![], subtitles: vec![] },
    }
}

fn playlist(number: u32, items: Vec<PlayItem>) -> Playlist {
    Playlist { number, play_items: items, marks: vec![] }
}

fn parsed(name: &str, playlist: Playlist) -> PlaylistFile {
    PlaylistFile { name: name.to_string(), outcome: PlaylistOutcome::Parsed(playlist) }
}

/// A clip information file with ten packets and one stream.
fn clip_data(coding_type: u8, attrs: &[u8]) -> Vec<u8> {
    let mut data = b"HDMV0200".to_vec();
    data.extend_from_slice(&[0; 4]);
    data.extend_from_slice(&60u32.to_be_bytes());
    data.extend_from_slice(&[0; 24]);
    data.extend_from_slice(&[0, 0, 0, 0, 0, 0, 1, 3]);
    data.extend_from_slice(&[0; 8]);
    data.extend_from_slice(&10u32.to_be_bytes());
    data.extend_from_slice(&[0, 0, 0, 0, 0, 1]);
    data.extend_from_slice(&[0, 0, 0, 0, 0, 0, 1, 0]);
    data.extend_from_slice(&[0x14, 0x00, 1 + attrs.len() as u8, coding_type]);
    data.extend_from_slice(attrs);
    data
}

fn clip_file(name: &str, data: Vec<u8>) -> ClipFile {
    ClipFile { name: name.to_string(), read: Ok(data) }
}

fn numbers(analysis: &BdmvAnalysis) -> Vec<u32> {
    analysis.playlists.iter().map(|p| p.number).collect()
}

#[test]
fn names_are_picked_and_sorted() {
    let names: Vec<String> = ["00002.mpls", "b.clpi", "00001.MPLS", "00010.mpls", "a.CLPI", "x.txt"]
        .iter()
        .map(|s| s.to_string())
        .collect();
    assert_eq!(playlist_names(&names), vec!["00001.MPLS", "00002.mpls", "00010.mpls"]);
    assert_eq!(clip_names(&names), vec!["a.CLPI", "b.clpi"]);
}

#[test]
fn numbers_come_from_names() {
    assert_eq!(playlist_number("00850.mpls"), 850);
    assert_eq!(playlist_number("00850.MPLS"), 850);
    assert_eq!(playlist_number("+7.mpls"), 7);
    assert_eq!(playlist_number("4294967295.mpls"), u32::MAX);
    assert_eq!(playlist_number("4294967296.mpls"), 0, "does not fit");
    assert_eq!(playlist_number("00850.Mpls"), 0, "mixed case");
    assert_eq!(playlist_number("title.mpls"), 0);
    assert_eq!(playlist_number(".mpls"), 0);
    assert_eq!(clip_id_from_name("00291.clpi"), "00291");
    assert_eq!(clip_id_from_name("00291.CLPI"), "00291");
    assert_eq!(clip_id_from_name("00291.Clpi"), "00291.Clpi");
}

#[test]
fn unreadable_directory_is_fatal() {
    let error = ReaderError::NotFound { path: "PLAYLIST".into() };
    let err = analyze("PLAYLIST", Err(error), None).expect_err("should fail");
    assert!(matches!(err, BdmvError::PlaylistDir(ReaderError::NotFound { .. })));
    assert_eq!(err.message(), "failed to read playlist directory: not found: PLAYLIST");
}

#[test]
fn disc_without_playlists_is_refused() {
    let err = analyze("PLAYLIST", Ok(vec![]), None).expect_err("should fail");
    assert!(matches!(err, BdmvError::NoPlaylists));
    assert_eq!(err.message(), "no valid playlists found after filtering");
    let looping = playlist(1, vec![item("00001", 0, 9), item("00001", 0, 9), item("00001", 0, 9)]);
    let err = analyze("PLAYLIST", Ok(vec![parsed("00001.mpls", looping)]), None);
    assert!(matches!(err, Err(BdmvError::NoPlaylists)), "only a looping menu");
    let broken = || PlaylistFile {
        name: "00002.mpls".into(),
        outcome: PlaylistOutcome::Malformed("bad".into()),
    };
    let err = analyze("PLAYLIST", Ok(vec![broken()]), None);
    assert!(matches!(err, Err(BdmvError::NoPlaylists)), "only a broken file");
    let menu = playlist(1, vec![item("00001", 0, 9), item("00001", 0, 9), item("00001", 0, 9)]);
    let err = analyze("PLAYLIST", Ok(vec![parsed("00001.mpls", menu), broken()]), None);
    assert!(matches!(err, Err(BdmvError::NoPlaylists)), "a looping menu and a broken file");
}

#[test]
fn broken_files_become_warnings() {
    let files = vec![
        PlaylistFile {
            name: "00003.mpls".into(),
            outcome: PlaylistOutcome::Unreadable(ReaderError::Failed { message: "gone".into() }),
        },
        PlaylistFile {
            name: "00004.mpls".into(),
            outcome: PlaylistOutcome::Malformed("bad".into()),
        },
        parsed("00007.mpls", playlist(7, vec![item("00001", 0, 45_000)])),
    ];
    let clips = vec![
        clip_file("00005.clpi", b"HDMV0900".to_vec()),
        ClipFile {
            name: "00006.CLPI".into(),
            read: Err(ReaderError::NotFound { path: "x".into() }),
        },
    ];
    let analysis =
        analyze("PLAYLIST", Ok(files), Some(("CLIPINF".into(), clips))).expect("has a playlist");
    assert_eq!(numbers(&analysis), vec![7]);
    assert_eq!(analysis.main_title, Some(7));
    assert_eq!((analysis.warnings.len(), analysis.clip_warnings.len()), (2, 2));
    assert!(analysis.report().ends_with(
        "\nwarning: MPLS 00003: failed to read PLAYLIST/00003.mpls: gone\n\
         warning: MPLS 00004: failed to parse PLAYLIST/00004.mpls: bad\n\
         warning: CLPI 00005: failed to parse CLIPINF/00005.clpi: \
         unsupported version: [48, 57, 48, 48]\n\
         warning: CLPI 00006: failed to read CLIPINF/00006.CLPI: not found: x\n"
    ));
}

#[test]
fn offered_playlists_are_distinct_and_sorted() {
    let mut marked = playlist(30, vec![item("00001", 0, 45_000)]);
    marked.marks = vec![Mark { mark_type: 1, play_item: 0, timestamp: 0 }];
    let files = vec![
        parsed("a", playlist(20, vec![item("00001", 0, 45_000)])),
        parsed("b", marked),
        parsed("c", playlist(7, vec![item("00002", 0, 90_000), item("00003", 0, 90_000)])),
        parsed("d", playlist(8, vec![item("00009", 0, 1); 3])),
        parsed("e", playlist(2, vec![item("00002", 0, 90_000)])),
    ];
    let analysis = analyze("PLAYLIST", Ok(files), None).expect("should analyse");
    assert_eq!(numbers(&analysis), vec![2, 7, 30]);
    assert_eq!(analysis.main_title, Some(7), "most play items");
    assert_eq!(analysis.playlists[1].members.len(), 1, "playlist 2 is a segment of 7");
    assert_eq!(analysis.playlists[1].members[0].playlist, 2);
    assert_eq!(analysis.playlists[1].members[0].segment_index, 1);
    assert_eq!(analysis.playlists[1].members[0].range_end, 90_000);
    assert_eq!(analysis.playlists[2].chapters, 1);
}

#[test]
fn duplicates_are_ranked_by_marks_streams_and_number() {
    let plain = |number: u32| playlist(number, vec![item("00001", 0, 45_000)]);
    let kept = |list: Vec<Playlist>| {
        let files = list.into_iter().map(|p| parsed("x", p)).collect();
        numbers(&analyze("PLAYLIST", Ok(files), None).expect("should analyse"))
    };
    assert_eq!(kept(vec![plain(9), plain(4), plain(6)]), vec![4], "lowest number");
    let mut voiced = plain(12);
    voiced.play_items[0].streams.audio =
        vec![AudioStream { codec: "AC-3".into(), channels: "5.1".into(), language: "eng".into() }];
    assert_eq!(kept(vec![plain(4), voiced.clone()]), vec![12], "most streams");
    let mut marked = plain(15);
    marked.marks = vec![Mark { mark_type: 2, play_item: 0, timestamp: 0 }];
    assert_eq!(kept(vec![voiced, marked, plain(4)]), vec![15], "most marks");
}

#[test]
fn segments_cover_the_playlist() {
    let mut items: Vec<PlayItem> =
        (0..6).map(|i| item(&format!("{i:05}"), 0, 45_000 + i)).collect();
    items[1].connection_condition = 5;
    items[2].connection_condition = 6;
    items[4].connection_condition = 5;
    let files = vec![parsed("a", playlist(1, items.clone()))];
    let analysis = analyze("PLAYLIST", Ok(files), None).expect("should analyse");
    let p = &analysis.playlists[0];
    let sizes: Vec<usize> = p.segments.iter().map(|s| s.clips.len()).collect();
    assert_eq!(sizes, vec![3, 2, 1]);
    let clips: Vec<&String> = p.segments.iter().flat_map(|s| s.clips.iter()).collect();
    let expected: Vec<&String> = items.iter().map(|i| &i.clip_id).collect();
    assert_eq!(clips, expected);
    assert_eq!(p.segments.iter().map(|s| s.duration).sum::<u64>(), p.duration);
    assert_eq!(p.duration, 6 * 45_000 + 15);
}

#[test]
fn play_item_that_ends_before_it_starts_has_no_length() {
    let files = vec![parsed("a", playlist(1, vec![item("00001", 9, 5), item("00002", 5, 9)]))];
    let analysis = analyze("PLAYLIST", Ok(files), None).expect("should analyse");
    assert_eq!(analysis.playlists[0].duration, 4);
}

#[test]
fn main_title_is_the_longest_of_those_with_most_items() {
    let files = vec![
        parsed("a", playlist(1, vec![item("00001", 0, 900_000)])),
        parsed("b", playlist(2, vec![item("00002", 0, 5), item("00003", 0, 5)])),
        parsed("c", playlist(3, vec![item("00004", 0, 5), item("00005", 0, 9)])),
        parsed("d", playlist(4, vec![item("00006", 0, 7), item("00007", 0, 7)])),
    ];
    let analysis = analyze("PLAYLIST", Ok(files), None).expect("should analyse");
    assert_eq!(analysis.main_title, Some(4), "the last of two equally long ones");
}

#[test]
fn streams_of_the_first_item_are_described() {
    let mut first = item("00001", 0, 45_000);
    first.streams = StnTable {
        video: vec![VideoStream {
            codec: "H.264".into(),
            resolution: "1080p".into(),
            frame_rate: "23.976".into(),
        }],
        audio: vec![AudioStream {
            codec: "DTS-HD MA".into(),
            channels: "5.1".into(),
            language: "eng".into(),
        }],
        subtitles: vec![
            SubtitleStream { coding_type: 0x90, language: "eng".into() },
            SubtitleStream { coding_type: 0x92, language: "jpn".into() },
        ],
    };
    let files = vec![parsed("a", playlist(1, vec![first]))];
    let analysis = analyze("PLAYLIST", Ok(files), None).expect("should analyse");
    let s = &analysis.playlists[0].streams;
    assert_eq!(s.video, vec!["H.264 1080p 23.976"]);
    assert_eq!(s.audio, vec!["DTS-HD MA 5.1 eng"]);
    assert_eq!(s.subtitles, vec!["PGS eng", "Text jpn"]);
}

#[test]
fn clips_are_sorted_into_menus_and_unreferenced_ones() {
    let mut angled = item("00001", 0, 45_000);
    angled.angle_clip_ids = vec!["00002".into()];
    let files = vec![parsed("a", playlist(1, vec![angled]))];
    let clip_files = vec![
        clip_file("00001.clpi", clip_data(0x1B, &[0x61])),
        clip_file("00002.clpi", clip_data(0x81, &[0x31, b'e', b'n', b'g'])),
        clip_file("00003.CLPI", clip_data(0x91, b"deu")),
        clip_file("00004.clpi", clip_data(0x42, &[])),
    ];
    let analysis =
        analyze("PLAYLIST", Ok(files), Some(("CLIPINF".into(), clip_files))).expect("analysed");
    let menus: Vec<&String> = analysis.ig_clips.iter().map(|c| &c.clip_id).collect();
    assert_eq!(menus, vec!["00003"]);
    assert_eq!(analysis.ig_clips[0].application_type, 3);
    assert_eq!(analysis.ig_clips[0].file_size, 1920);
    assert_eq!(analysis.ig_clips[0].ig_streams[0].pid, 0x1400);
    assert_eq!(analysis.ig_clips[0].ig_streams[0].language, "deu");
    let unreferenced: Vec<(&str, bool, &str)> = analysis
        .unreferenced_clips
        .iter()
        .map(|c| (c.clip_id.as_str(), c.has_ig, c.streams[0].as_str()))
        .collect();
    assert_eq!(unreferenced, vec![("00003", true, "IG"), ("00004", false, "Unknown")]);
}

#[test]
fn clips_of_menus_and_duplicates_are_referenced() {
    let mut angled = item("00001", 0, 45_000);
    angled.angle_clip_ids = vec!["00003".into()];
    let files = vec![
        parsed("a", playlist(1, vec![item("00001", 0, 45_000)])),
        parsed("b", playlist(2, vec![angled])),
        parsed("c", playlist(3, vec![item("00002", 0, 9); 3])),
    ];
    let clip_files: Vec<ClipFile> = ["00001", "00002", "00003", "00004"]
        .iter()
        .map(|id| clip_file(&format!("{id}.clpi"), clip_data(0x1B, &[0x61])))
        .collect();
    let analysis =
        analyze("PLAYLIST", Ok(files), Some(("CLIPINF".into(), clip_files))).expect("analysed");
    assert_eq!(numbers(&analysis), vec![1], "a duplicate and a looping menu are left out");
    let unreferenced: Vec<&String> =
        analysis.unreferenced_clips.iter().map(|c| &c.clip_id).collect();
    assert_eq!(unreferenced, vec!["00004"]);
}

#[test]
fn clips_are_parsed_or_warned_about() {
    let files = vec![
        clip_file("00001.clpi", clip_data(0x1B, &[0x61])),
        clip_file("00002.clpi", clip_data(0x1B, &[])),
        clip_file("00003.clpi", b"MPLS".to_vec()),
    ];
    let (clips, warnings) = read_clips("BDMV/CLIPINF", &files);
    assert_eq!(clips.len(), 1);
    assert_eq!(clips[0].clip_id, "00001");
    assert_eq!(clips[0].num_source_packets, 10);
    let texts: Vec<(&str, &str)> =
        warnings.iter().map(|w| (w.clip_id.as_str(), w.message.as_str())).collect();
    assert_eq!(
        texts,
        vec![
            (
                "00002",
                "failed to parse BDMV/CLIPINF/00002.clpi: unexpected end of data at offset 78 \
                 (need 1 bytes, have 0)"
            ),
            (
                "00003",
                "failed to parse BDMV/CLIPINF/00003.clpi: invalid magic: expected \"HDMV\", got \
                 [77, 80, 76, 83]"
            ),
        ]
    );
}

#[test]
fn graphics_without_attributes_have_no_language() {
    let clip = ClipInfo {
        clip_id: "00001".into(),
        application_type: 1,
        ts_recording_rate: 0,
        num_source_packets: 10,
        streams: vec![ClipStream { pid: 0x1400, coding_type: 0x91, attrs: StreamAttrs::Other }],
    };
    let menus = identify_ig_clips(&[clip]);
    assert_eq!(menus[0].ig_streams[0].language, "");
}

#[test]
fn whole_members_are_used_from_start_to_end() {
    let files = vec![
        parsed("a", playlist(1, vec![item("00001", 500, 900), item("00002", 70, 90)])),
        parsed("b", playlist(2, vec![item("00001", 500, 900)])),
        parsed("c", playlist(3, vec![item("00002", 50, 95)])),
    ];
    let analysis = analyze("PLAYLIST", Ok(files), None).expect("should analyse");
    let members = &analysis.playlists[0].members;
    assert_eq!((members[0].range_start, members[0].range_end), (0, 400), "all of playlist 2");
    assert_eq!((members[1].range_start, members[1].range_end), (20, 40), "a part of playlist 3");
}

#[test]
fn directories_are_looked_for_in_two_places() {
    assert_eq!(playlist_dir(true), "PLAYLIST");
    assert_eq!(playlist_dir(false), "BDMV/PLAYLIST");
    assert_eq!(clip_dir(true, true), Some("CLIPINF"));
    assert_eq!(clip_dir(false, true), Some("BDMV/CLIPINF"));
    assert_eq!(clip_dir(false, false), None);
}
