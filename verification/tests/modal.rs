use mj_tui::screens::modal::{ModalKind, ModalStack};

fn stack() -> ModalStack<&'static str> {
    ModalStack::new()
}

#[test]
fn empty_stack_has_no_top() {
    let s = stack();
    assert!(s.is_empty());
    assert!(s.top().is_none());
    assert!(s.top_kind().is_none());
}

#[test]
fn top_is_the_last_pushed() {
    let mut s = stack();
    s.push(ModalKind::Search, "search");
    assert!(s.top_is(ModalKind::Search));
    s.push(ModalKind::Confirm, "confirm");
    assert!(s.top_is(ModalKind::Confirm), "确认框叠上来后由它吃键");
    assert_eq!(s.len(), 2);
}

#[test]
fn pop_reveals_the_layer_below() {
    let mut s = stack();
    s.push(ModalKind::Search, "search");
    s.push(ModalKind::Confirm, "confirm");
    s.pop();
    assert!(s.top_is(ModalKind::Search), "弹掉确认框后回到查找面板");
    s.pop();
    assert!(s.is_empty());
}

#[test]
fn accessor_finds_layer_below_the_top() {
    let mut s = stack();
    s.push(ModalKind::Search, "search");
    s.push(ModalKind::Confirm, "confirm");
    assert_eq!(s.find(ModalKind::Search), Some(&"search"), "确认框之下的查找面板仍可读");
    assert!(s.find(ModalKind::Confirm).is_some());
    assert!(s.find(ModalKind::Diff).is_none());
}

#[test]
fn close_kind_removes_from_middle() {
    let mut s = stack();
    s.push(ModalKind::Search, "search");
    s.push(ModalKind::Confirm, "confirm");
    assert_eq!(s.close_kind(ModalKind::Search), Some((ModalKind::Search, "search")));
    assert_eq!(s.len(), 1);
    assert!(s.top_is(ModalKind::Confirm), "上层不受影响");
    assert!(s.find(ModalKind::Search).is_none());
}

#[test]
fn close_kind_takes_the_topmost() {
    let mut s = stack();
    s.push(ModalKind::Help, "a");
    s.push(ModalKind::Stats, "b");
    s.push(ModalKind::Help, "c");
    assert_eq!(s.close_kind(ModalKind::Help), Some((ModalKind::Help, "c")));
    assert_eq!(s.kinds(), vec![ModalKind::Help, ModalKind::Stats]);
    assert!(s.close_kind(ModalKind::Diff).is_none());
}

#[test]
fn contains_checks_whole_stack() {
    let mut s = stack();
    s.push(ModalKind::Search, "search");
    s.push(ModalKind::Confirm, "confirm");
    assert!(s.contains(ModalKind::Search));
    assert!(!s.contains(ModalKind::Diff));
}

#[test]
fn clear_drops_everything() {
    let mut s = stack();
    s.push(ModalKind::Search, "search");
    s.push(ModalKind::Confirm, "confirm");
    s.clear();
    assert!(s.is_empty());
}

#[test]
fn pop_on_empty_is_safe() {
    let mut s = stack();
    assert!(s.pop().is_none());
}
