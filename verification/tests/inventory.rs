//! The inventory of a disc.
use std::collections::HashSet;

use reliquary_bdmv::analysis::{
    AnalyzedPlaylist, CompositeMember, PartiallyUsedClip, Segment, StreamSummary, UnreferencedClip,
};
use reliquary_bdmv::disc::BdmvAnalysis;
use reliquary_bdmv::inventory::{build_inventory, MenuButton};
use reliquary_bdmv::mobj::BreadcrumbStep;

/// Ticks of the playlist clock in a number of seconds.
fn ticks(seconds: u64) -> u64 {
    seconds * 45_000
}

/// Creates a minimal `AnalyzedPlaylist` for testing.
fn test_playlist(number: u32, duration_secs: u64, chapters: u32) -> AnalyzedPlaylist {
    AnalyzedPlaylist {
        number,
        duration: ticks(duration_secs),
        chapters,
        segments: vec![Segment {
            clips: vec![format!("{number:05}")],
            duration: ticks(duration_secs),
        }],
        streams: StreamSummary {
            video: vec!["H.264 1080p 23.976".to_string()],
            audio: vec!["AC-3 5.1 eng".to_string()],
            subtitles: vec![],
        },
        members: vec![],
    }
}

/// Creates a minimal `MenuButton` for testing.
fn test_button(playlist: u16, clip_index: usize, page_id: u8, button_id: u16) -> MenuButton {
    MenuButton {
        playlist,
        branch_opt: 0,
        mark_or_pi: 0,
        clip_index,
        page_id,
        button_id,
        breadcrumb: Vec::new(),
        orphan: false,
    }
}

/// Creates a minimal `BdmvAnalysis` with the given playlists.
fn test_analysis(playlists: Vec<AnalyzedPlaylist>) -> BdmvAnalysis {
    let title_playlists = playlists.iter().map(|p| p.number).collect();
    BdmvAnalysis {
        playlists,
        main_title: None,
        ig_clips: vec![],
        unreferenced_clips: vec![],
        partially_used_clips: vec![],
        warnings: vec![],
        clip_warnings: vec![],
        title_playlists,
    }
}

#[test]
fn basic_inventory() {
    let analysis = test_analysis(vec![
        test_playlist(100, 8476, 13),
        test_playlist(201, 600, 1),
        test_playlist(202, 300, 1),
    ]);

    let buttons = vec![
        test_button(100, 0, 0, 1),
        test_button(201, 0, 0, 2),
        test_button(202, 0, 0, 3),
    ];

    let inv = build_inventory(&analysis, &buttons);

    assert_eq!(
        inv.navigable.len(),
        3,
        "all three playlists should be navigable"
    );
    let pl100 = inv
        .navigable
        .iter()
        .find(|n| n.playlist == 100)
        .expect("pl 100 should be present");
    assert_eq!(pl100.chapters, 13, "pl 100 should have 13 chapters");
    assert_eq!(
        pl100.duration,
        ticks(8476),
        "pl 100 duration should match"
    );
}

#[test]
fn composite_parents_suppressed() {
    let mut pl100 = test_playlist(100, 8476, 13);
    pl100.members = vec![CompositeMember {
        playlist: 201,
        segment_index: 1,
        range_start: 0,
        range_end: ticks(600),
    }];

    let analysis = test_analysis(vec![pl100, test_playlist(201, 600, 1)]);

    let buttons = vec![test_button(100, 0, 0, 1), test_button(201, 0, 1, 2)];

    let inv = build_inventory(&analysis, &buttons);

    assert_eq!(
        inv.navigable.len(),
        1,
        "composite parent pl 100 should be suppressed"
    );
    assert_eq!(
        inv.navigable[0].playlist, 201,
        "only the member playlist should remain"
    );
}

#[test]
fn title_table_filter() {
    let analysis = {
        let mut a = test_analysis(vec![
            test_playlist(100, 8476, 13),
            test_playlist(201, 600, 1),
        ]);
        // Only pl 100 is in the title table
        a.title_playlists = std::iter::once(100).collect();
        a
    };

    let buttons = vec![test_button(100, 0, 0, 1), test_button(201, 0, 1, 2)];

    let inv = build_inventory(&analysis, &buttons);

    assert_eq!(
        inv.navigable.len(),
        1,
        "only title-table playlists should be navigable"
    );
    assert_eq!(
        inv.navigable[0].playlist, 100,
        "pl 100 is in the title table"
    );
}

#[test]
fn dedup_by_playlist() {
    let analysis = test_analysis(vec![test_playlist(100, 8476, 13)]);

    let buttons = vec![test_button(100, 0, 0, 1), test_button(100, 1, 0, 5)];

    let inv = build_inventory(&analysis, &buttons);

    assert_eq!(
        inv.navigable.len(),
        1,
        "duplicate playlist should be deduped"
    );
}

#[test]
fn prefer_breadcrumb_in_dedup() {
    let analysis = test_analysis(vec![test_playlist(100, 8476, 13)]);

    // Button without breadcrumb (direct PlayPl)
    let btn_no_bc = test_button(100, 0, 0, 1);

    // Button with breadcrumb (resolved via MOBJ)
    let mut btn_with_bc = test_button(100, 1, 2, 5);
    btn_with_bc.breadcrumb = vec![
        BreadcrumbStep {
            clip_index: 0,
            page_id: 0,
            button_id: 3,
        },
        BreadcrumbStep {
            clip_index: 1,
            page_id: 2,
            button_id: 5,
        },
    ];

    // Order: no-breadcrumb first, but dedup should prefer breadcrumb
    let buttons = vec![btn_no_bc, btn_with_bc];

    let inv = build_inventory(&analysis, &buttons);

    assert_eq!(inv.navigable.len(), 1, "duplicate should be deduped");
    assert_eq!(
        inv.navigable[0].snapshot.clip_index, 1,
        "breadcrumb-having resolution should win"
    );
}

#[test]
fn prefer_page_with_more_siblings() {
    let analysis = test_analysis(vec![
        test_playlist(100, 8476, 13),
        test_playlist(201, 600, 1),
        test_playlist(202, 300, 1),
    ]);

    // Page (0, 0): only pl 100
    // Page (0, 1): pl 100, pl 201, pl 202 — more siblings
    let buttons = vec![
        test_button(100, 0, 0, 1),
        test_button(100, 0, 1, 4),
        test_button(201, 0, 1, 5),
        test_button(202, 0, 1, 6),
    ];

    let inv = build_inventory(&analysis, &buttons);

    assert_eq!(inv.navigable.len(), 3, "three unique playlists");
    let pl100 = inv
        .navigable
        .iter()
        .find(|n| n.playlist == 100)
        .expect("pl 100 should be present");
    assert_eq!(
        pl100.snapshot.page_id, 1,
        "page with more siblings should win for pl 100"
    );
}

#[test]
fn snapshot_meta_breadcrumb_guaranteed_nonempty() {
    let analysis = test_analysis(vec![test_playlist(100, 8476, 13)]);
    let buttons = vec![test_button(100, 0, 3, 7)];

    let inv = build_inventory(&analysis, &buttons);

    assert_eq!(inv.navigable.len(), 1, "one navigable item");
    let snap = &inv.navigable[0].snapshot;
    assert!(
        !snap.breadcrumb.is_empty(),
        "breadcrumb should be non-empty even for direct PlayPl"
    );
    assert_eq!(
        snap.breadcrumb[0].clip_index, 0,
        "synthetic breadcrumb clip_index"
    );
    assert_eq!(
        snap.breadcrumb[0].page_id, 3,
        "synthetic breadcrumb page_id"
    );
    assert_eq!(
        snap.breadcrumb[0].button_id, 7,
        "synthetic breadcrumb button_id"
    );
}

#[test]
fn orphaned_and_partially_used_passed_through() {
    let mut analysis = test_analysis(vec![test_playlist(100, 8476, 13)]);
    analysis.unreferenced_clips = vec![UnreferencedClip {
        clip_id: "00999".to_string(),
        has_ig: false,
        streams: vec!["H.264".to_string()],
        file_size: 1_000_000,
    }];
    analysis.partially_used_clips = vec![PartiallyUsedClip {
        clip_id: "00100".to_string(),
        estimated_duration: ticks(7200),
        used_duration: ticks(3600),
        playlist: 100,
        in_time: 0,
        out_time: 162_000_000,
    }];

    let buttons = vec![test_button(100, 0, 0, 1)];
    let inv = build_inventory(&analysis, &buttons);

    assert_eq!(inv.orphaned.len(), 1, "orphaned clips should pass through");
    assert_eq!(
        inv.orphaned[0].clip_id, "00999",
        "orphaned clip ID should match"
    );
    assert_eq!(
        inv.partially_used.len(),
        1,
        "partially used clips should pass through"
    );
}

#[test]
fn invalid_playlist_filtered() {
    let analysis = test_analysis(vec![test_playlist(100, 8476, 13)]);

    // Button targeting a playlist that doesn't exist in the analysis
    let buttons = vec![test_button(100, 0, 0, 1), test_button(999, 0, 0, 2)];

    let inv = build_inventory(&analysis, &buttons);

    assert_eq!(
        inv.navigable.len(),
        1,
        "invalid playlist should be filtered"
    );
    assert_eq!(
        inv.navigable[0].playlist, 100,
        "only valid playlist remains"
    );
}

#[test]
fn empty_title_table_skips_filter() {
    let mut analysis = test_analysis(vec![
        test_playlist(100, 8476, 13),
        test_playlist(201, 600, 1),
    ]);
    // Empty title table = no title filter applied
    analysis.title_playlists = HashSet::new();

    let buttons = vec![test_button(100, 0, 0, 1), test_button(201, 0, 1, 2)];

    let inv = build_inventory(&analysis, &buttons);

    assert_eq!(
        inv.navigable.len(),
        2,
        "both playlists should pass when title table is empty"
    );
}

#[test]
fn branch_opt_preserved() {
    let analysis = test_analysis(vec![test_playlist(100, 8476, 13)]);

    let mut btn = test_button(100, 0, 0, 1);
    btn.branch_opt = 1;
    btn.mark_or_pi = 5;

    let buttons = vec![btn];
    let inv = build_inventory(&analysis, &buttons);

    assert_eq!(inv.navigable.len(), 1, "one navigable item");
    assert_eq!(
        inv.navigable[0].branch_opt, 1,
        "branch_opt should be preserved"
    );
    assert_eq!(
        inv.navigable[0].mark_or_pi, 5,
        "mark_or_pi should be preserved"
    );
}

#[test]
fn different_branch_opts_not_deduped() {
    let analysis = test_analysis(vec![test_playlist(100, 8476, 13)]);

    let btn_start = test_button(100, 0, 0, 1);
    let mut btn_mark = test_button(100, 0, 0, 2);
    btn_mark.branch_opt = 1;
    btn_mark.mark_or_pi = 3;

    let buttons = vec![btn_start, btn_mark];
    let inv = build_inventory(&analysis, &buttons);

    assert_eq!(
        inv.navigable.len(),
        2,
        "same playlist with different branch_opt should not be deduped"
    );
}
