use mj_tui::keymap::KeyCode;
use mj_tui::screens::proof_panel::{Issue, ProofAction, ProofPanel, Row, Severity};
use std::ops::Range;

const FOLD_BELOW: f32 = 0.6;

fn issue(rule: &str, sev: Severity, conf: f32, range: Range<usize>) -> Issue {
    Issue {
        range,
        severity: sev,
        category: "错别字".into(),
        rule_id: rule.into(),
        message: format!("问题 {rule}"),
        suggestions: vec!["建议".into()],
        low_confidence: conf < FOLD_BELOW,
    }
}

fn sample() -> Vec<Issue> {
    vec![
        issue("typo.confusion", Severity::Warning, 0.9, 10..14),
        issue("punct.unpaired", Severity::Warning, 0.85, 2..3),
        issue("typo.de_di_de", Severity::Hint, 0.5, 20..21),
        issue("style.long_sentence", Severity::Hint, 0.5, 0..30),
    ]
}

#[test]
fn low_confidence_folded_by_default() {
    let p = ProofPanel::new(sample());
    assert_eq!(p.total(), 4);
    assert_eq!(p.visible_count(), 2, "the two low-confidence hints start folded");
    assert_eq!(p.fold_hint(), Some((2, false)));
}

#[test]
fn toggle_reveals_folded() {
    let mut p = ProofPanel::new(sample());
    p.toggle_folded();
    assert_eq!(p.visible_count(), 4);
    assert_eq!(p.fold_hint(), Some((2, true)));
}

#[test]
fn sorted_by_severity_then_position() {
    let p = ProofPanel::new(sample());
    let v = p.visible();
    assert_eq!(v[0].range.start, 2);
    assert_eq!(v[1].range.start, 10);
}

#[test]
fn rows_have_group_headers() {
    let mut p = ProofPanel::new(sample());
    p.toggle_folded();
    let rows = p.rows();
    let headers: Vec<_> = rows
        .iter()
        .filter_map(|r| match r {
            Row::Header(s, n) => Some((*s, *n)),
            _ => None,
        })
        .collect();
    assert_eq!(headers, vec![(Severity::Warning, 2), (Severity::Hint, 2)]);
}

#[test]
fn proof_panel_navigation_clamps() {
    let mut p = ProofPanel::new(sample());
    p.move_up();
    assert_eq!(p.cursor(), 0, "stays at the top");
    p.move_down();
    p.move_down();
    p.move_down();
    assert_eq!(p.cursor(), 1, "two visible issues: the highlight stops on the last");
}

#[test]
fn remove_current_drops_the_right_issue() {
    let mut p = ProofPanel::new(sample());
    let removed = p.remove_current().unwrap();
    assert_eq!(removed.range.start, 2, "removes the highlighted (first warning)");
    assert_eq!(p.visible_count(), 1);
    assert_eq!(p.total(), 3);
}

#[test]
fn proof_panel_empty_panel_is_safe() {
    let mut p = ProofPanel::new(vec![]);
    assert!(p.is_empty());
    assert!(p.current().is_none());
    assert!(p.remove_current().is_none());
    p.move_down();
    assert_eq!(p.cursor(), 0);
}

#[test]
fn errors_come_before_warnings_and_ties_keep_order() {
    let p = ProofPanel::new(vec![
        issue("b", Severity::Warning, 0.9, 5..6),
        issue("a", Severity::Error, 0.9, 9..10),
        issue("c", Severity::Warning, 0.9, 5..7),
    ]);
    let rules: Vec<&str> = p.visible().iter().map(|i| i.rule_id.as_str()).collect();
    assert_eq!(rules, vec!["a", "b", "c"]);
}

#[test]
fn no_fold_hint_without_low_confidence_and_toggle_is_noop() {
    let mut p = ProofPanel::new(vec![issue("a", Severity::Error, 0.9, 0..1)]);
    assert_eq!(p.fold_hint(), None);
    p.toggle_folded();
    assert!(!p.show_folded());
}

#[test]
fn rows_mark_the_selected_issue() {
    let mut p = ProofPanel::new(sample());
    p.move_down();
    let rows = p.rows();
    assert_eq!(rows.len(), 3);
    match &rows[2] {
        Row::Issue { index, issue, selected } => {
            assert_eq!(*index, 1);
            assert_eq!(issue.range.start, 10);
            assert!(*selected);
        }
        _ => panic!("an issue row"),
    }
    let cur = p.current().unwrap();
    assert_eq!(cur.message, "问题 typo.confusion");
    assert_eq!(cur.suggestions, vec!["建议".to_string()]);
}

#[test]
fn removing_last_visible_moves_cursor_back() {
    let mut p = ProofPanel::new(sample());
    p.move_down();
    let removed = p.remove_current().unwrap();
    assert_eq!(removed.rule_id, "typo.confusion");
    assert_eq!(p.cursor(), 0);
    p.set_height(1);
    assert_eq!(p.scroll(), 0);
}

#[test]
fn proof_keys_move_ignore_and_jump() {
    let mut p = ProofPanel::new(sample());
    assert!(matches!(p.on_key(KeyCode::Char('j')), ProofAction::Nothing));
    assert_eq!(p.cursor(), 1);
    match p.on_key(KeyCode::Enter) {
        ProofAction::Jump(at) => assert_eq!(at, 10),
        other => panic!("Enter 应跳到问题处：{other:?}"),
    }
    match p.on_key(KeyCode::Char('i')) {
        ProofAction::IgnoredOnce(x) => assert_eq!(x.rule_id, "typo.confusion"),
        other => panic!("i 应摘掉当前问题：{other:?}"),
    }
    assert_eq!(p.total(), 3);
    assert!(matches!(p.on_key(KeyCode::Char('f')), ProofAction::Nothing));
    assert_eq!(p.visible_count(), 3, "展开折叠的低置信度问题");
    assert!(matches!(p.on_key(KeyCode::Char('a')), ProofAction::ApplySuggestion));
    assert!(matches!(p.on_key(KeyCode::Char('I')), ProofAction::IgnoreForever));
    assert!(matches!(p.on_key(KeyCode::F(7)), ProofAction::Close));
}
