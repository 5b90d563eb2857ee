//! What the menu search lists, and by which presses.
use std::collections::HashSet;

use reliquary_bdmv::mobj::anchors::{button_shown_for, find_visible_button_for_nop};
use reliquary_bdmv::mobj::{
    every_page, resolve_via_execution, BreadcrumbStep, DispatchTable, MovieObject,
    MovieObjectFile, NavClipInput, PlayTarget,
};
use reliquary_bdmv::nav::{Button, NavigationCommand, Page};

fn button(id: u16, commands: Vec<NavigationCommand>) -> Button {
    Button {
        button_id: id,
        x: 0,
        y: 0,
        upper_button_id: id,
        lower_button_id: id,
        left_button_id: id,
        right_button_id: id,
        normal_object_id: 0,
        selected_object_id: 0,
        commands,
        bog_id: 0,
    }
}

/// A button that selects `button` on page `page`.
fn opener(id: u16, select: u32, page: u32) -> Button {
    button(
        id,
        vec![
            NavigationCommand::SetGpr { register: 50, value: select },
            NavigationCommand::SetGpr { register: 51, value: page },
            NavigationCommand::Other { opcode: 0x5100_0003, dst: 50, src: 51 },
        ],
    )
}

/// A button that plays a playlist from a register.
fn player(id: u16, playlist: u32) -> Button {
    button(
        id,
        vec![
            NavigationCommand::SetGpr { register: 60, value: playlist },
            NavigationCommand::Other { opcode: 0x2200_0000, dst: 60, src: 0 },
        ],
    )
}

fn page(page_id: u8, buttons: Vec<Button>) -> Page {
    Page { page_id, buttons }
}

fn no_objects() -> MovieObjectFile {
    MovieObjectFile { objects: vec![MovieObject { instructions: vec![] }] }
}

fn clip<'a>(pages: &[&'a Page]) -> NavClipInput<'a> {
    NavClipInput { ig_pid: 0x1400, pages: pages.to_vec() }
}

fn step(clip_index: usize, page_id: u8, button_id: u16) -> BreadcrumbStep {
    BreadcrumbStep { clip_index, page_id, button_id }
}

fn target(playlist: u16) -> PlayTarget {
    PlayTarget { playlist, branch_opt: 0, mark_or_pi: 0 }
}

#[test]
fn fewest_presses_win() {
    // Playlist 7 is three presses away by pages 1 and 2, two by page 2 alone.
    let root = page(0, vec![opener(1, 0, 1), opener(2, 0, 2)]);
    let first = page(1, vec![opener(3, 0, 2)]);
    let second = page(2, vec![player(4, 7)]);
    let list = resolve_via_execution(
        &[clip(&[&root, &first, &second])],
        &no_objects(),
        None,
        &HashSet::new(),
    );
    assert_eq!(list.len(), 1);
    assert_eq!(list[0].breadcrumb, vec![step(0, 0, 2), step(0, 2, 4)]);
    assert_eq!(list[0].target, target(7));
    assert!(!list[0].orphan);
}

#[test]
fn every_clip_lists_a_target_once() {
    let root = page(0, vec![player(1, 7), player(2, 7), player(3, 8)]);
    let list = resolve_via_execution(
        &[clip(&[&root]), clip(&[&root])],
        &no_objects(),
        None,
        &HashSet::new(),
    );
    let found: Vec<(usize, u16, u16)> = list
        .iter()
        .map(|r| (r.breadcrumb[0].clip_index, r.breadcrumb[0].button_id, r.target.playlist))
        .collect();
    assert_eq!(found, vec![(0, 1, 7), (0, 3, 8), (1, 1, 7), (1, 3, 8)]);
}

#[test]
fn unreachable_pages_are_marked() {
    let root = page(3, vec![player(1, 7)]);
    let lost = page(9, vec![player(2, 8), player(3, 7)]);
    let list = resolve_via_execution(
        &[clip(&[&lost, &root])],
        &no_objects(),
        None,
        &HashSet::new(),
    );
    assert_eq!(list.len(), 2, "playlist 7 is known already");
    assert!(!list[0].orphan);
    assert_eq!(list[1].breadcrumb, vec![step(0, 9, 2)]);
    assert!(list[1].orphan);
}

#[test]
fn dispatch_case_named_by_a_button() {
    let root = page(0, vec![opener(4, 21, 99)]);
    let table = DispatchTable { mobj_index: 5, dispatch_register: 1, cases: vec![(21, 300)] };
    let clips = [clip(&[&root])];
    let list = resolve_via_execution(&clips, &no_objects(), Some(&table), &HashSet::new());
    assert_eq!(list.len(), 1);
    assert_eq!(list[0].breadcrumb, vec![step(0, 0, 4)]);
    assert_eq!(list[0].target, target(300));
    let others = HashSet::from([301]);
    assert!(resolve_via_execution(&clips, &no_objects(), Some(&table), &others).is_empty());
    let pairs = every_page::resolve_via_execution(&clips, &no_objects(), Some(&table), &others);
    assert_eq!(pairs.len(), 1);
    assert_eq!((pairs[0].button_id, pairs[0].target), (4, target(300)));
}

#[test]
fn anchors_play_only_by_the_table() {
    let root = page(0, vec![button(21, vec![])]);
    let clips = [clip(&[&root])];
    assert!(resolve_via_execution(&clips, &no_objects(), None, &HashSet::new()).is_empty());
    let table = DispatchTable { mobj_index: 0, dispatch_register: 1, cases: vec![(21, 300)] };
    let list = resolve_via_execution(&clips, &no_objects(), Some(&table), &HashSet::new());
    assert_eq!(list[0].breadcrumb, vec![step(0, 0, 21)], "no other button can be shown");
}

#[test]
fn pairs_are_listed_once() {
    let root = page(0, vec![player(1, 7), opener(2, 0, 0), player(1, 7)]);
    let pairs = every_page::resolve_via_execution(
        &[clip(&[&root]), clip(&[&root])],
        &no_objects(),
        None,
        &HashSet::new(),
    );
    assert_eq!(pairs.len(), 1);
}

#[test]
fn nearest_button_stands_for_an_anchor() {
    let place = |mut b: Button, x: u16, y: u16| {
        b.x = x;
        b.y = y;
        b
    };
    let anchor = place(button(9, vec![]), 100, 100);
    let p = page(
        0,
        vec![
            anchor.clone(),
            place(player(1, 5), 160, 100),
            place(player(2, 5), 100, 60),
            place(player(3, 5), 140, 100),
        ],
    );
    let gprs = std::collections::HashMap::new();
    assert_eq!(find_visible_button_for_nop(&p, &anchor, 0, 0, &gprs), None);
    assert_eq!(button_shown_for(&p, &anchor, 0, 0, &gprs), 2, "the first of two equally near");
    let alone = page(0, vec![anchor.clone()]);
    assert_eq!(button_shown_for(&alone, &anchor, 0, 0, &gprs), 9);
}

#[test]
fn anchors_are_found_two_moves_away_either_way() {
    let gprs = std::collections::HashMap::new();
    let anchor = button(20, vec![]);
    let mut between = button(21, vec![]);
    let mut far = player(5, 100);
    between.left_button_id = 20;
    far.right_button_id = 21;
    let linked = page(0, vec![anchor.clone(), between.clone(), far.clone()]);
    assert_eq!(find_visible_button_for_nop(&linked, &anchor, 0, 0, &gprs), Some(5));
    between.left_button_id = 21;
    let unlinked = page(0, vec![anchor.clone(), between.clone(), far]);
    assert_eq!(find_visible_button_for_nop(&unlinked, &anchor, 0, 0, &gprs), None);
    let mut start = button(20, vec![]);
    start.upper_button_id = 21;
    between.left_button_id = 5;
    let forward = page(0, vec![start.clone(), between, player(5, 100)]);
    assert_eq!(find_visible_button_for_nop(&forward, &start, 0, 0, &gprs), Some(5));
}
