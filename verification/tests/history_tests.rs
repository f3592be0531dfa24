use smetana::history::History;

#[test]
fn snapshot_undo_redo_round_trip() {
    let mut h: History<u32> = History::new();
    let mut doc = 1u32;
    assert!(!h.can_undo() && !h.can_redo());
    h.snapshot(doc);
    doc = 2;
    h.snapshot(doc);
    doc = 3;
    assert_eq!(h.version, 2);
    assert!(h.undo(&mut doc));
    assert_eq!(doc, 2);
    assert!(h.undo(&mut doc));
    assert_eq!(doc, 1);
    assert!(!h.undo(&mut doc));
    assert_eq!(doc, 1);
    assert!(h.redo(&mut doc));
    assert_eq!(doc, 2);
    assert!(h.redo(&mut doc));
    assert_eq!(doc, 3);
    assert!(!h.redo(&mut doc));
    assert_eq!(h.version, 6);
}

#[test]
fn snapshot_forgets_redo() {
    let mut h: History<u32> = History::new();
    let mut doc = 1u32;
    h.snapshot(doc);
    doc = 2;
    assert!(h.undo(&mut doc));
    assert!(h.can_redo());
    h.snapshot(doc);
    assert!(!h.can_redo());
}

#[test]
fn history_keeps_at_most_one_hundred_snapshots() {
    let mut h: History<u32> = History::new();
    for i in 0..150u32 {
        h.snapshot(i);
    }
    let mut doc = 150u32;
    let mut undone = 0;
    while h.undo(&mut doc) {
        undone += 1;
    }
    assert_eq!(undone, 100);
    assert_eq!(doc, 50);
}

#[test]
fn mark_dirty_bumps_the_version_only() {
    let mut h: History<u32> = History::new();
    h.mark_dirty();
    assert_eq!(h.version, 1);
    assert_eq!(h.version(), 1);
    assert!(!h.can_undo());
}

#[test]
fn full_history_drops_the_oldest_snapshot() {
    let mut h: History<u32> = History::new();
    for i in 0..100u32 {
        h.snapshot(i);
    }
    h.snapshot(100);
    let mut doc = 101u32;
    assert!(h.undo(&mut doc));
    assert_eq!(doc, 100);
    let mut n = 1;
    while h.undo(&mut doc) {
        n += 1;
    }
    assert_eq!(n, 100);
    assert_eq!(doc, 1);
}
