use organizer::history::{
    add_history_entry, find_undo_index, get_entry, make_entry_id, position_of, record_entry,
    undo_entry, HistoryEntry, HISTORY_LIMIT,
};
use organizer::scheduler::{deletion_time, schedule_deletion, sweep_deletions, ScheduledDeletion};

fn add(history: &mut Vec<HistoryEntry>, name: &str, t: u64) {
    add_history_entry(
        history,
        name.to_string(),
        format!("/dl/{}", name),
        format!("/sorted/{}", name),
        t,
    );
}

#[test]
fn entry_ids_are_time_and_name() {
    assert_eq!(make_entry_id(1700000000, "report.pdf"), "1700000000-report.pdf");
    assert_eq!(make_entry_id(0, "a"), "0-a");
    assert_eq!(make_entry_id(u64::MAX, ""), "18446744073709551615-");
}

#[test]
fn newest_entry_comes_first() {
    let mut h = Vec::new();
    add(&mut h, "a.txt", 10);
    add(&mut h, "b.txt", 20);
    assert_eq!(h.len(), 2);
    assert_eq!(h[0].id, "20-b.txt");
    assert_eq!(h[0].original_path, "/dl/b.txt");
    assert_eq!(h[0].target_path, "/sorted/b.txt");
    assert_eq!(h[0].timestamp, 20);
    assert_eq!(h[1].id, "10-a.txt");
}

#[test]
fn history_keeps_at_most_the_limit() {
    let mut h = Vec::new();
    for t in 0..150u64 {
        add(&mut h, "f", t);
    }
    assert_eq!(h.len(), HISTORY_LIMIT);
    assert_eq!(h[0].timestamp, 149);
    assert_eq!(h[HISTORY_LIMIT - 1].timestamp, 50);
}

#[test]
fn lookup_finds_the_first_entry_with_the_id() {
    let mut h = Vec::new();
    add(&mut h, "a.txt", 10);
    add(&mut h, "b.txt", 20);
    assert_eq!(position_of(&h, "10-a.txt"), Some(1));
    assert_eq!(get_entry(&h, "20-b.txt").unwrap(), h[0]);
    assert_eq!(get_entry(&h, "nope"), None);
    let e = h[0].clone();
    record_entry(&mut h, e.clone());
    assert_eq!(position_of(&h, "20-b.txt"), Some(0));
}

#[test]
fn undo_of_unknown_entry_is_refused() {
    let h: Vec<HistoryEntry> = Vec::new();
    assert_eq!(find_undo_index(&h, "x"), Err("Entry not found".to_string()));
}

#[test]
fn undo_removes_the_entry_only_after_a_move_back() {
    let mut h = Vec::new();
    add(&mut h, "a.txt", 10);
    add(&mut h, "b.txt", 20);
    let before = h.clone();
    let i = find_undo_index(&h, "10-a.txt").unwrap();
    assert_eq!(i, 1);

    assert_eq!(
        undo_entry(&mut h, i, false, Ok(())),
        Err("File no longer exists at target location".to_string())
    );
    assert_eq!(h, before);

    assert_eq!(
        undo_entry(&mut h, i, true, Err("denied".to_string())),
        Err("Failed to move file back: denied".to_string())
    );
    assert_eq!(h, before);

    assert_eq!(undo_entry(&mut h, i, true, Ok(())), Ok(()));
    assert_eq!(h, vec![before[0].clone()]);
}

#[test]
fn undoing_the_newest_entry_restores_the_history() {
    let mut h = Vec::new();
    add(&mut h, "a.txt", 10);
    let before = h.clone();
    add(&mut h, "b.txt", 20);
    assert_eq!(undo_entry(&mut h, 0, true, Ok(())), Ok(()));
    assert_eq!(h, before);
}

#[test]
fn deletions_fall_due_after_whole_days() {
    assert_eq!(deletion_time(1000, 0), 1000);
    assert_eq!(deletion_time(1000, 2), 1000 + 2 * 86400);
    let mut reg = Vec::new();
    schedule_deletion(&mut reg, "/a".to_string(), 1000, 1);
    schedule_deletion(&mut reg, "/b".to_string(), 1000, 0);
    assert_eq!(reg.len(), 2);
    assert_eq!(reg[0], ScheduledDeletion { file_path: "/a".to_string(), delete_at: 87400 });
    assert_eq!(reg[1].delete_at, 1000);
}

#[test]
fn sweep_splits_due_from_waiting() {
    let mut reg = vec![
        ScheduledDeletion { file_path: "/a".to_string(), delete_at: 50 },
        ScheduledDeletion { file_path: "/b".to_string(), delete_at: 200 },
        ScheduledDeletion { file_path: "/c".to_string(), delete_at: 100 },
    ];
    let due = sweep_deletions(&mut reg, 100);
    assert_eq!(due.iter().map(|d| d.file_path.as_str()).collect::<Vec<_>>(), vec!["/a", "/c"]);
    assert_eq!(reg, vec![ScheduledDeletion { file_path: "/b".to_string(), delete_at: 200 }]);
    let again = sweep_deletions(&mut reg, 100);
    assert!(again.is_empty());
    assert_eq!(reg.len(), 1);
    let later = sweep_deletions(&mut reg, 200);
    assert_eq!(later.len(), 1);
    assert!(reg.is_empty());
}
