use organizer::path_map::PathEntry;
use organizer::rules::{Action, Condition, MatchLogic, Rule, StringOp};
use organizer::watcher::{
    after_action, decide_file, elapsed_nanos, plan_action, retry_delay_nanos, ActionOutcome,
    ActionPlan, AppState, FileDecision, IgnoreList, NextStep, Pending, PendingFiles,
};

const MS: u64 = 1_000_000;

#[test]
fn back_off_delays() {
    assert_eq!(retry_delay_nanos(0), 1500 * MS);
    assert_eq!(retry_delay_nanos(1), 5000 * MS);
    assert_eq!(retry_delay_nanos(2), 30000 * MS);
    assert_eq!(retry_delay_nanos(3), 300000 * MS);
    assert_eq!(retry_delay_nanos(u32::MAX), 300000 * MS);
    for r in 0..10u32 {
        assert!(retry_delay_nanos(r) <= retry_delay_nanos(r + 1));
    }
}

#[test]
fn elapsed_saturates() {
    assert_eq!(elapsed_nanos(10, 3), 7);
    assert_eq!(elapsed_nanos(3, 10), 0);
}

#[test]
fn files_wait_until_quiet() {
    let mut p = PendingFiles::new();
    p.record_event("/dl/a".to_string(), 0);
    p.record_event("/dl/b".to_string(), 1000 * MS);
    assert_eq!(p.len(), 2);
    assert!(p.take_ready(1500 * MS).is_empty());
    let ready = p.take_ready(1500 * MS + 1);
    assert_eq!(
        ready,
        vec![PathEntry { path: "/dl/a".to_string(), value: Pending { last_event: 0, retries: 0 } }]
    );
    assert_eq!(p.len(), 1);
    let ready = p.take_ready(3000 * MS);
    assert_eq!(ready.len(), 1);
    assert_eq!(ready[0].path, "/dl/b");
    assert_eq!(p.len(), 0);
}

#[test]
fn a_new_event_restarts_the_wait_but_keeps_the_retries() {
    let mut p = PendingFiles::new();
    p.insert("/dl/a".to_string(), Pending { last_event: 0, retries: 2 });
    p.record_event("/dl/a".to_string(), 10_000 * MS);
    assert_eq!(p.len(), 1);
    assert_eq!(p.entries()[0].value, Pending { last_event: 10_000 * MS, retries: 2 });
    assert!(p.take_ready(40_000 * MS).is_empty());
    assert_eq!(p.take_ready(40_000 * MS + 1).len(), 1);
}

#[test]
fn paths_are_keys_by_their_components() {
    let mut p = PendingFiles::new();
    p.record_event("/dl/a.pdf".to_string(), 5);
    p.record_event("/dl//./a.pdf".to_string(), 7);
    p.record_event("/dl/a.pdf/".to_string(), 9);
    assert_eq!(p.len(), 1);
    assert_eq!(p.entries()[0].path, "/dl/a.pdf");
    assert_eq!(p.entries()[0].value.last_event, 9);
    p.record_event("dl/a.pdf".to_string(), 11);
    assert_eq!(p.len(), 2);
}

#[test]
fn requeue_overwrites() {
    let mut p = PendingFiles::new();
    p.record_event("/dl/a".to_string(), 5);
    p.insert("/dl/a".to_string(), Pending { last_event: 7, retries: 1 });
    assert_eq!(p.len(), 1);
    assert_eq!(p.entries()[0].value, Pending { last_event: 7, retries: 1 });
    assert_eq!(p.get("/dl/a"), Some(Pending { last_event: 7, retries: 1 }));
    assert_eq!(p.get("/dl/b"), None);
}

#[test]
fn undone_files_are_ignored_for_five_seconds() {
    let mut state = AppState::new();
    state.ignore_list.remember("/dl/a.pdf".to_string(), 1000 * MS);
    assert!(state.ignore_list.contains("/dl/a.pdf"));
    assert!(state.ignore_list.contains("/dl/./a.pdf"));
    state.ignore_list.prune(5999 * MS);
    assert!(state.ignore_list.contains("/dl/a.pdf"));
    state.ignore_list.prune(6000 * MS);
    assert!(!state.ignore_list.contains("/dl/a.pdf"));
}

#[test]
fn ignore_list_holds_each_path_once() {
    let mut l = IgnoreList::new();
    l.remember("/a".to_string(), 1);
    l.remember("/b".to_string(), 2);
    l.remember("/a".to_string(), 3);
    assert_eq!(l.len(), 2);
    l.prune(5_000_000_002);
    assert!(l.contains("/a"));
    assert!(!l.contains("/b"));
}

fn pdf_rule() -> Rule {
    Rule {
        id: "pdf".to_string(),
        name: "PDFs".to_string(),
        active: true,
        match_type: MatchLogic::All,
        conditions: vec![Condition::Extension { operator: StringOp::Is, text: "pdf".to_string() }],
        actions: vec![Action::Move { target_folder: "/docs".to_string() }],
    }
}

#[test]
fn file_decisions() {
    let rules = vec![pdf_rule()];
    let mut ignore = IgnoreList::new();
    assert_eq!(decide_file("/dl/a.pdf", 10, &ignore, &rules), FileDecision::Apply(pdf_rule()));
    assert_eq!(decide_file("/dl/a.png", 10, &ignore, &rules), FileDecision::NoRule);
    assert_eq!(
        decide_file("/dl/a.pdf.crdownload", 10, &ignore, &rules),
        FileDecision::PartialDownload
    );
    assert_eq!(decide_file("/dl/a.part", 10, &ignore, &rules), FileDecision::PartialDownload);
    ignore.remember("/dl/a.pdf".to_string(), 0);
    assert_eq!(decide_file("/dl/./a.pdf", 10, &ignore, &rules), FileDecision::RecentlyUndone);
    assert_eq!(decide_file("/dl/b.pdf", 10, &ignore, &rules), FileDecision::Apply(pdf_rule()));
    assert_eq!(decide_file("/dl/..", 10, &ignore, &rules), FileDecision::NoRule);
}

#[test]
fn action_plans() {
    assert_eq!(
        plan_action(&Action::Move { target_folder: "/x".to_string() }),
        ActionPlan::MoveTo { target_folder: "/x".to_string() }
    );
    assert_eq!(
        plan_action(&Action::Rename { pattern: "{filename}".to_string() }),
        ActionPlan::RenameWith { pattern: "{filename}".to_string() }
    );
    assert_eq!(plan_action(&Action::Delete { delay_days: 0 }), ActionPlan::DeleteNow);
    assert_eq!(
        plan_action(&Action::Delete { delay_days: 7 }),
        ActionPlan::ArchiveAndSchedule { delay_days: 7 }
    );
}

#[test]
fn steps_after_actions() {
    let mv = Action::Move { target_folder: "/x".to_string() };
    let rn = Action::Rename { pattern: "p".to_string() };
    let del = Action::Delete { delay_days: 0 };
    let later = Action::Delete { delay_days: 3 };
    assert_eq!(after_action(&mv, 0, ActionOutcome::Done, 0), NextStep::Continue(1));
    assert_eq!(after_action(&mv, 0, ActionOutcome::Skipped, 0), NextStep::Continue(1));
    assert_eq!(after_action(&mv, 0, ActionOutcome::Failed, 2), NextStep::Requeue(3));
    assert_eq!(after_action(&rn, 1, ActionOutcome::Done, 0), NextStep::Continue(2));
    assert_eq!(after_action(&rn, 1, ActionOutcome::Failed, 0), NextStep::Requeue(1));
    assert_eq!(after_action(&del, 2, ActionOutcome::Done, 0), NextStep::Stop);
    assert_eq!(after_action(&del, 2, ActionOutcome::Failed, 0), NextStep::Requeue(1));
    assert_eq!(after_action(&later, 2, ActionOutcome::Done, 0), NextStep::Stop);
    assert_eq!(after_action(&later, 2, ActionOutcome::Skipped, 0), NextStep::Stop);
    assert_eq!(after_action(&later, 2, ActionOutcome::Failed, 1), NextStep::Requeue(2));
}
