use mj_tui::batch::{BatchJob, BatchKind, BatchUndo, ChapterId, Scope, SnapshotId, Trigger};

fn ids(n: usize) -> Vec<ChapterId> {
    (0..n).map(|i| ChapterId(format!("ch_{i}"))).collect()
}

fn job(n: usize) -> BatchJob {
    BatchJob::new(BatchKind::Format, Scope::Book, ids(n))
}

fn snap(s: &str) -> SnapshotId {
    SnapshotId(s.to_string())
}

#[test]
fn processes_chapters_in_order() {
    let ids = ids(3);
    let mut j = BatchJob::new(BatchKind::Format, Scope::Book, ids.clone());
    for want in &ids {
        assert_eq!(j.next_chapter().as_ref(), Some(want), "应按原顺序处理");
    }
    assert!(j.next_chapter().is_none());
    assert!(j.is_done());
}

#[test]
fn progress_advances() {
    let mut j = job(4);
    assert_eq!(j.done(), 0);
    j.next_chapter();
    j.next_chapter();
    assert_eq!(j.done(), 2);
    assert_eq!(j.total(), 4);
}

#[test]
fn cancel_stops_dispatch_but_keeps_done_work() {
    let mut j = job(10);
    let a = j.next_chapter().unwrap();
    j.record_change(a, snap("旧"));
    let b = j.next_chapter().unwrap();
    j.record_change(b, snap("旧2"));
    j.cancel();
    assert!(j.next_chapter().is_none(), "取消后不再派发");
    assert!(j.is_done());
    assert!(j.is_cancelled());
    assert_eq!(j.changed_count(), 2, "已完成的两章必须保留");
    assert!(j.summary().contains("已中断"), "{}", j.summary());
    assert!(j.summary().contains("保留"), "{}", j.summary());
}

#[test]
fn empty_job_is_immediately_done() {
    let j = job(0);
    assert!(j.is_done());
    assert_eq!(j.progress_line(4), "[████] 0/0 章", "空作业算 100%，别显示成 0%");
}

#[test]
fn failures_are_recorded_not_fatal() {
    let mut j = job(3);
    let a = j.next_chapter().unwrap();
    j.record_failure(a, "front matter 损坏".into());
    let b = j.next_chapter().unwrap();
    j.record_change(b, snap("x"));
    assert_eq!(j.failed().len(), 1);
    assert_eq!(j.changed_count(), 1, "别的章照常处理");
    assert!(j.summary().contains("出错已跳过"), "{}", j.summary());
}

#[test]
fn summary_mentions_unchanged_chapters() {
    let mut j = job(2);
    j.next_chapter();
    j.record_unchanged();
    j.next_chapter();
    j.record_unchanged();
    assert!(j.summary().contains("无需改动"), "{}", j.summary());
    assert_eq!(j.summary(), "排版完成：改动 0 章，2 章无需改动");
}

#[test]
fn progress_bar_is_proportional() {
    let mut j = job(4);
    assert_eq!(j.progress_line(4), "[░░░░] 0/4 章");
    j.next_chapter();
    j.next_chapter();
    assert_eq!(j.progress_line(4), "[██░░] 2/4 章");
    j.next_chapter();
    j.next_chapter();
    assert_eq!(j.progress_line(4), "[████] 4/4 章");
}

#[test]
fn undo_record_captures_touched_chapters() {
    let mut j = job(3);
    let a = j.next_chapter().unwrap();
    j.record_change(a.clone(), snap("旧A"));
    let b = j.next_chapter().unwrap();
    j.record_change(b, snap("旧B"));
    let u = BatchUndo::from_job(&j).unwrap();
    assert_eq!(u.entries.len(), 2);
    assert_eq!(u.entries[0].0, a);
    assert_eq!(u.entries[0].1, snap("旧A"));
    assert!(u.describe().contains("2 章"), "{}", u.describe());
    assert_eq!(u.describe(), "撤销本次排版（全书，2 章）");
}

#[test]
fn no_undo_record_when_nothing_changed() {
    let mut j = job(2);
    j.next_chapter();
    j.record_unchanged();
    assert!(BatchUndo::from_job(&j).is_none());
}

#[test]
fn cancelled_job_is_still_undoable() {
    let mut j = job(10);
    let a = j.next_chapter().unwrap();
    j.record_change(a, snap("旧"));
    j.cancel();
    let u = BatchUndo::from_job(&j).unwrap();
    assert_eq!(u.entries.len(), 1, "中断前改的那章也该能退回去");
    assert_eq!(j.summary(), "已中断：排版了 1 章（已完成的保留）。Alt+U 可整体撤销");
}

#[test]
fn scope_cycles_and_flags_wide_scopes() {
    assert_eq!(Scope::Chapter.next(), Scope::Volume);
    assert_eq!(Scope::Volume.next(), Scope::Book);
    assert_eq!(Scope::Book.next(), Scope::Chapter);
    assert!(!Scope::Chapter.is_wide());
    assert!(Scope::Volume.is_wide(), "动到当前章以外就该多问一句");
    assert!(Scope::Book.is_wide());
    assert_eq!(Scope::Volume.label(), "当前卷");
}

#[test]
fn replace_kind_is_labelled() {
    let k = BatchKind::Replace { pattern: "甲".into(), to: "乙".into() };
    assert_eq!(k.label(), "替换");
    let mut j = BatchJob::new(k, Scope::Volume, ids(3));
    assert_eq!(j.progress_line(3), "[░░░] 0/3 章");
    j.next_chapter();
    assert_eq!(j.progress_line(3), "[█░░] 1/3 章");
}

#[test]
fn snapshots_before_a_job_name_its_kind() {
    assert_eq!(BatchKind::Format.trigger(), Trigger::BeforeFormat);
    let r = BatchKind::Replace { pattern: "雪".into(), to: "风".into() };
    assert_eq!(r.trigger(), Trigger::BeforeReplace);
}
