use mj_tui::editor::autosave::{Action, AutoSave};
use std::time::{Duration, Instant};

fn at(base: Instant, ms: u64) -> Instant {
    base + Duration::from_millis(ms)
}

#[test]
fn clean_buffer_does_nothing() {
    let mut a = AutoSave::new(3000, 200);
    let t = Instant::now();
    a.on_edit(t);
    assert_eq!(a.poll(at(t, 5000), false, 0), Action::Idle, "未改动就不该存");
}

#[test]
fn saves_after_idle_timeout() {
    let mut a = AutoSave::new(3000, 200);
    let t = Instant::now();
    a.on_edit(t);
    assert_ne!(a.poll(at(t, 2999), true, 5), Action::Save, "未到 3 秒不该存");
    assert_eq!(a.poll(at(t, 3000), true, 5), Action::Save, "满 3 秒应存");
}

#[test]
fn saves_on_word_threshold_without_idling() {
    let mut a = AutoSave::new(3000, 200);
    let t = Instant::now();
    a.on_edit(t);
    assert_eq!(a.poll(at(t, 100), true, 200), Action::Save, "满 200 字应立刻存");
}

#[test]
fn below_threshold_and_still_typing_writes_swap() {
    let mut a = AutoSave::new(3000, 200);
    let t = Instant::now();
    a.on_edit(t);
    assert_eq!(a.poll(at(t, 100), true, 10), Action::WriteSwap, "打字中应写 swp");
}

#[test]
fn swap_is_throttled() {
    let mut a = AutoSave::new(3000, 200);
    let t = Instant::now();
    a.on_edit(t);
    assert_eq!(a.poll(at(t, 10), true, 1), Action::WriteSwap);
    assert_eq!(a.poll(at(t, 20), true, 2), Action::Idle, "500ms 内不重复写");
    assert_eq!(a.poll(at(t, 520), true, 3), Action::WriteSwap, "过了间隔再写");
}

#[test]
fn saving_resets_the_clock() {
    let mut a = AutoSave::new(3000, 200);
    let t = Instant::now();
    a.on_edit(t);
    assert_eq!(a.poll(at(t, 3000), true, 5), Action::Save);
    a.on_saved();
    assert_eq!(a.poll(at(t, 9000), false, 0), Action::Idle, "存过之后应安静");
}

#[test]
fn resumes_after_save() {
    let mut a = AutoSave::new(3000, 200);
    let t = Instant::now();
    a.on_edit(t);
    a.poll(at(t, 3000), true, 5);
    a.on_saved();
    a.on_edit(at(t, 4000));
    assert_ne!(a.poll(at(t, 5000), true, 1), Action::Save, "新一轮未到时限");
    assert_eq!(a.poll(at(t, 7000), true, 1), Action::Save, "新一轮满 3 秒");
}

#[test]
fn zero_idle_is_not_pathological() {
    let mut a = AutoSave::new(0, 200);
    let t = Instant::now();
    a.on_edit(t);
    assert_eq!(a.poll(t, true, 1), Action::Save);
    assert_eq!(a.poll(t, false, 0), Action::Idle);
}

#[test]
fn decide_on_given_elapsed_times() {
    let t = Instant::now();
    let mut a = AutoSave::new(3000, 200);
    assert_eq!(a.decide(t, true, 1, 10_000, None), Action::Idle, "no edit yet");
    a.on_edit(t);
    assert_eq!(a.decide(t, true, 1, 2999, Some(499)), Action::Idle);
    assert_eq!(a.decide(t, true, 1, 2999, Some(500)), Action::WriteSwap);
    assert_eq!(a.decide(t, true, 1, 3000, Some(0)), Action::Save);
    assert_eq!(a.decide(t, true, 200, 0, Some(0)), Action::Save);
}
