use chess5dtools::info::{Info, TimelineInfo};

fn tl(index: isize, last: isize) -> TimelineInfo {
    TimelineInfo::new(index, if index == 0 { None } else { Some((0, 0)) }, last, if index == 0 { 0 } else { 1 })
}

#[test]
fn present_of_a_single_timeline() {
    let info = Info::new(false, vec![tl(0, 3)], vec![]);
    assert_eq!(info.present, 3);
    assert!(!info.active_player);
}

#[test]
fn present_is_the_earliest_considered_last_board() {
    let info = Info::new(false, vec![tl(0, 6), tl(1, 4)], vec![tl(-1, 5)]);
    assert_eq!(info.present, 4);
    assert!(info.active_player);
}

#[test]
fn present_ignores_inactive_timelines() {
    // width = min(3, 0) = 0: timelines 0 and 1 are considered, 2 and 3 are not.
    let info = Info::new(false, vec![tl(0, 6), tl(1, 5), tl(2, 2), tl(3, 1)], vec![]);
    assert_eq!(info.present, 5);
    assert!(!info.active_player);
}

#[test]
fn present_with_even_timelines() {
    let info = Info::new(true, vec![tl(0, 2)], vec![tl(-1, 1)]);
    assert_eq!(info.present, 1);
    assert!(!info.active_player);
}

#[test]
fn recalculate_present_after_change() {
    let mut info = Info::new(false, vec![tl(0, 2)], vec![]);
    assert_eq!(info.present, 2);
    info.timelines_white[0].last_board = 3;
    assert_eq!(info.recalculate_present(), 3);
    assert_eq!(info.present, 3);
    assert!(!info.active_player);
}

#[test]
fn timeline_lookup() {
    let mut info = Info::new(false, vec![tl(0, 2), tl(1, 3)], vec![tl(-1, 4)]);
    assert_eq!(info.get_timeline(1).map(|t| t.last_board), Some(3));
    assert_eq!(info.get_timeline(-1).map(|t| t.last_board), Some(4));
    assert!(info.get_timeline(2).is_none());
    assert!(info.get_timeline(-2).is_none());
    if let Some(t) = info.get_timeline_mut(-1) {
        t.last_board = 7;
    }
    assert_eq!(info.timelines_black[0].last_board, 7);
    assert!(info.get_timeline_mut(5).is_none());
    assert_eq!(info.len_timelines(), 3);
    assert_eq!(info.min_timeline(), -1);
    assert_eq!(info.max_timeline(), 1);
}

#[test]
fn timeline_activeness() {
    let info = Info::new(false, vec![tl(0, 1), tl(1, 1), tl(2, 1), tl(3, 1)], vec![tl(-1, 1)]);
    assert!(info.is_active(0));
    assert!(info.is_active(2));
    assert!(!info.is_active(3));
    assert!(info.is_active(-1));
    assert!(info.is_active(-2));
    assert!(!info.is_active(-3));
    let even = Info::new(true, vec![tl(0, 1)], vec![tl(-1, 1)]);
    assert!(even.is_active(1));
    assert!(even.is_active(-2));
    assert!(!even.is_active(2));
    assert!(!even.is_active(-3));
}

#[test]
fn timeline_advantage_and_debt() {
    let info = Info::new(false, vec![tl(0, 1), tl(1, 1), tl(2, 1)], vec![tl(-1, 1)]);
    assert_eq!(info.timeline_advantage(true), 0);
    assert_eq!(info.timeline_debt(true), 0);
    assert_eq!(info.timeline_advantage(false), 2);
    assert_eq!(info.timeline_debt(false), 0);
    let info = Info::new(false, vec![tl(0, 1), tl(1, 1), tl(2, 1), tl(3, 1)], vec![]);
    assert_eq!(info.timeline_debt(true), 2);
    assert_eq!(info.timeline_advantage(true), 0);
    assert_eq!(info.timeline_advantage(false), 4);
    assert_eq!(info.timeline_debt(false), 0);
    // advantage - debt adds up to 2 over both players
    assert_eq!(0 - 2 + 4 - 0, 2);
}

#[test]
fn info_clone_keeps_everything() {
    let info = Info::new(true, vec![tl(0, 2)], vec![tl(-1, 3)]);
    let copy = info.clone();
    assert_eq!(copy, info);
}
