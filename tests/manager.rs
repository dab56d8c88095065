use window_manager::window_manager::WindowManager;

fn three_windows() -> WindowManager<&'static str> {
    let mut m = WindowManager::new();
    m.insert(3, 30, "three", 7, false);
    m.insert(1, 10, "one", 8, true);
    m.insert(2, 20, "two", 9, false);
    m
}

#[test]
fn new_manager_is_empty() {
    let m: WindowManager<u8> = WindowManager::new();
    assert!(m.is_empty());
    assert!(m.first().is_none());
    assert!(m.last_monitor().is_none());
    assert!(m.ids().is_empty());
    let d: WindowManager<u8> = WindowManager::default();
    assert!(d.is_empty());
}

#[test]
fn insert_returns_fresh_entry() {
    let mut m = WindowManager::new();
    let w = m.insert(5, 50, "five", 3, true);
    assert_eq!(w.raw, "five");
    assert_eq!(w.viewport_version, 3);
    assert!(w.exit_on_close_request);
    assert_eq!(w.prev_dnd_destination_rectangles_count, 0);
    assert!(!w.resize_enabled);
    assert!(!w.redraw_requested);
    w.resize_enabled = true;
    assert!(!m.is_empty());
    assert!(m.get(5).unwrap().resize_enabled);
}

#[test]
fn iter_mut_yields_ascending_ids() {
    let mut m = three_windows();
    let (ids, windows) = m.iter_mut();
    assert_eq!(ids, vec![1, 2, 3]);
    let names: Vec<&str> = windows.iter().map(|w| w.raw).collect();
    assert_eq!(names, vec!["one", "two", "three"]);
    for w in windows.iter_mut() {
        w.viewport_version += 100;
    }
    assert_eq!(m.get(1).unwrap().viewport_version, 108);
    assert_eq!(m.get(3).unwrap().viewport_version, 107);
    assert_eq!(m.ids(), vec![1, 2, 3]);
}

#[test]
fn first_and_last_follow_id_order() {
    let m = three_windows();
    assert_eq!(m.first().unwrap().raw, "one");
    assert_eq!(m.last_monitor().unwrap().raw, "three");
}

#[test]
fn lookup_by_id() {
    let mut m = three_windows();
    assert_eq!(m.get(2).unwrap().raw, "two");
    assert!(m.get(4).is_none());
    m.get_mut(2).unwrap().exit_on_close_request = true;
    assert!(m.get(2).unwrap().exit_on_close_request);
    assert!(m.get_mut(9).is_none());
}

#[test]
fn handles_resolve_to_their_ids() {
    let mut m = three_windows();
    for (id, handle) in [(1u64, 10u64), (2, 20), (3, 30)] {
        let (found, w) = m.get_mut_alias(handle).unwrap();
        assert_eq!(found, id);
        w.prev_dnd_destination_rectangles_count = id as usize;
    }
    assert_eq!(m.get(3).unwrap().prev_dnd_destination_rectangles_count, 3);
    assert!(m.get_mut_alias(40).is_none());
}

#[test]
fn removed_window_handle_no_longer_resolves() {
    let mut m = three_windows();
    let removed = m.remove(2).unwrap();
    assert_eq!(removed.raw, "two");
    assert!(m.get_mut_alias(20).is_none());
    assert!(m.get(2).is_none());
    assert_eq!(m.ids(), vec![1, 3]);
    assert_eq!(m.get_mut_alias(30).unwrap().0, 3);
}

#[test]
fn removing_absent_id_changes_nothing() {
    let mut m = three_windows();
    assert!(m.remove(7).is_none());
    assert_eq!(m.ids(), vec![1, 2, 3]);
    for (id, handle) in [(1u64, 10u64), (2, 20), (3, 30)] {
        assert_eq!(m.get_mut_alias(handle).unwrap().0, id);
    }
    assert!(m.remove(2).is_some());
    assert!(m.remove(2).is_none());
    assert_eq!(m.ids(), vec![1, 3]);
}

#[test]
fn reinserting_an_id_replaces_entry_and_handle() {
    let mut m = three_windows();
    m.insert(2, 25, "two again", 1, true);
    assert_eq!(m.ids(), vec![1, 2, 3]);
    assert_eq!(m.get(2).unwrap().raw, "two again");
    assert!(m.get_mut_alias(20).is_none());
    assert_eq!(m.get_mut_alias(25).unwrap().0, 2);
}

#[test]
fn redraw_burst_issues_one_native_request() {
    let mut m = three_windows();
    let w = m.get_mut(1).unwrap();
    let issued: Vec<bool> = (0..5).map(|_| w.request_redraw()).collect();
    assert_eq!(issued.iter().filter(|b| **b).count(), 1);
    assert!(issued[0]);
    assert!(w.redraw_requested);
    w.redraw_requested = false;
    assert!(w.request_redraw());
    assert!(!w.request_redraw());
}
