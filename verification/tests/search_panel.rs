use mj_tui::batch::Scope;
use mj_tui::keymap::{KeyCode, KeyModifiers};
use mj_tui::screens::search_panel::{Field, HitContext, MatchMode, SearchAction, SearchPanel};

/// Literal hits of `needle` in `text`, each with its line and the line as context.
fn literal_hits(text: &str, needle: &str) -> Vec<HitContext> {
    let mut out = Vec::new();
    let mut line_start = 0;
    for (n, line) in text.split('\n').enumerate() {
        let mut from = 0;
        while let Some(i) = line[from..].find(needle) {
            let at = from + i;
            out.push(HitContext {
                range: line_start + at..line_start + at + needle.len(),
                line: n + 1,
                context: line.to_string(),
                highlight: at..at + needle.len(),
            });
            from = at + needle.len();
        }
        line_start += line.len() + 1;
    }
    out
}

fn panel(query: &str, text: &str) -> SearchPanel {
    let mut p = SearchPanel::new(true);
    p.query = query.into();
    p.refresh_with(Ok(literal_hits(text, query)));
    p
}

#[test]
fn finds_and_selects_all_by_default() {
    let p = panel("雪", "雪落了。雪停了。");
    assert_eq!(p.hits().len(), 2);
    assert_eq!(p.checked_count(), 2, "all hits start checked");
    assert!(p.error().is_none());
}

#[test]
fn empty_query_finds_nothing() {
    let mut p = SearchPanel::new(true);
    p.refresh_with(Ok(literal_hits("雪落了", "雪")));
    assert!(p.hits().is_empty());
    assert!(p.error().is_none(), "an empty query is no error");
    assert_eq!(p.summary(), "输入要查找的内容");
}

#[test]
fn no_match_says_so() {
    let p = panel("风", "雪落了");
    assert!(p.hits().is_empty());
    assert_eq!(p.summary(), "没有找到");
}

#[test]
fn invalid_pattern_shows_error_not_panic() {
    let mut p = SearchPanel::new(false);
    p.query = "[unclosed".into();
    p.mode = MatchMode::Regex;
    p.refresh_with(Err("unclosed character class".into()));
    assert!(p.error().is_some());
    assert!(p.hits().is_empty());
    assert!(p.summary().starts_with('⚠'), "{}", p.summary());
    assert_eq!(p.summary(), "⚠ unclosed character class");
    p.query = "雪".into();
    p.refresh_with(Ok(literal_hits("雪落了", "雪")));
    assert!(p.error().is_none(), "fixed: the error goes away");
    assert_eq!(p.hits().len(), 1);
}

#[test]
fn toggle_check_excludes_a_hit() {
    let mut p = panel("雪", "雪落。雪停。");
    p.toggle_check();
    assert_eq!(p.checked_count(), 1);
    assert!(!p.is_checked(0));
    assert!(p.is_checked(1));
    assert_eq!(p.checked_edits().len(), 1, "the unchecked hit is left out");
}

#[test]
fn checked_edits_are_sorted_by_start() {
    let p = panel("雪", "雪落。雪停。雪化。");
    let edits = p.checked_edits();
    assert_eq!(edits.len(), 3);
    for w in edits.windows(2) {
        assert!(w[0].0.start < w[1].0.start, "ascending by start");
    }
}

#[test]
fn checked_edits_sort_hits_given_out_of_order() {
    let mut p = SearchPanel::new(true);
    p.query = "x".into();
    p.replace_with = "y".into();
    let mut hits = literal_hits("x x x", "x");
    hits.reverse();
    p.refresh_with(Ok(hits));
    let edits = p.checked_edits();
    let starts: Vec<usize> = edits.iter().map(|e| e.0.start).collect();
    assert_eq!(starts, vec![0, 2, 4]);
    assert!(edits.iter().all(|e| e.1 == "y"));
}

#[test]
fn current_edit_targets_the_highlighted_hit() {
    let mut p = panel("雪", "雪落。雪停。");
    p.replace_with = "风".into();
    p.move_down();
    let (range, to) = p.current_edit().unwrap();
    assert_eq!(range, p.hits()[1].range, "the second hit");
    assert_eq!(to, "风");
}

#[test]
fn search_panel_cursor_stops_at_ends() {
    let mut p = panel("雪", "雪落。雪停。");
    p.move_up();
    assert_eq!(p.cursor(), 0);
    for _ in 0..10 {
        p.move_down();
    }
    assert_eq!(p.cursor(), 1);
}

#[test]
fn navigation_on_empty_results_is_safe() {
    let mut p = panel("风", "雪落了");
    p.move_down();
    p.move_up();
    p.toggle_check();
    assert!(p.current_edit().is_none());
    assert!(p.checked_edits().is_empty());
}

#[test]
fn typing_in_query_triggers_refresh() {
    let mut p = SearchPanel::new(true);
    assert!(p.input_char('雪'), "editing the query searches again");
    assert_eq!(p.query, "雪");
}

#[test]
fn typing_in_replace_does_not_trigger_refresh() {
    let mut p = SearchPanel::new(true);
    p.next_field();
    assert_eq!(p.field(), Field::Replace);
    assert!(!p.input_char('风'), "the replacement does not change the hits");
    assert_eq!(p.replace_with, "风");
}

#[test]
fn backspace_edits_the_focused_field() {
    let mut p = SearchPanel::new(true);
    p.query = "雪落".into();
    assert!(p.backspace());
    assert_eq!(p.query, "雪", "by character, not by byte");
}

#[test]
fn backspace_removes_whole_cjk_char() {
    let mut p = SearchPanel::new(false);
    p.query = "雪".into();
    p.backspace();
    assert_eq!(p.query, "");
}

#[test]
fn tab_cycles_fields_in_replace_mode() {
    let mut p = SearchPanel::new(true);
    assert_eq!(p.field(), Field::Query);
    p.next_field();
    assert_eq!(p.field(), Field::Replace);
    p.next_field();
    assert_eq!(p.field(), Field::Results);
    p.next_field();
    assert_eq!(p.field(), Field::Query);
}

#[test]
fn tab_skips_replace_field_in_find_mode() {
    let mut p = SearchPanel::new(false);
    p.next_field();
    assert_eq!(p.field(), Field::Results, "no replacement field when only finding");
}

#[test]
fn cycle_mode_goes_through_all_modes() {
    let mut p = SearchPanel::new(false);
    assert_eq!(p.mode, MatchMode::Literal);
    p.cycle_mode();
    assert_eq!(p.mode, MatchMode::WholeWord);
    p.cycle_mode();
    assert_eq!(p.mode, MatchMode::Regex);
    assert!(!p.flags.extended);
    p.cycle_mode();
    assert_eq!(p.mode, MatchMode::Regex);
    assert!(p.flags.extended, "once more turns on extended syntax");
    p.cycle_mode();
    assert_eq!(p.mode, MatchMode::Literal, "back to literal");
    assert!(!p.flags.extended);
}

#[test]
fn options_line_reflects_flags() {
    let mut p = SearchPanel::new(false);
    assert!(p.options_line().contains("普通"));
    p.flags.fold_width = true;
    assert!(p.options_line().contains("[✓]全半角"), "{}", p.options_line());
}

#[test]
fn options_line_exact_text() {
    let mut p = SearchPanel::new(false);
    p.scope = Scope::Book;
    p.mode = MatchMode::Regex;
    p.flags.extended = true;
    p.flags.ignore_case = true;
    assert_eq!(
        p.options_line(),
        "范围:全书(F4) 模式:正则+扩展(F2) [✓]大小写(F6) [ ]全半角(F7) [ ]中文标点(F8)"
    );
}

#[test]
fn hits_carry_context_and_line() {
    let p = panel("风", "第一行\n第二行有风。");
    assert_eq!(p.hits().len(), 1);
    assert_eq!(p.hits()[0].line, 2);
    assert!(p.hits()[0].context.contains('风'));
}

#[test]
fn summary_counts_hits_and_checked() {
    let mut p = panel("雪", "雪落。雪停。雪化。");
    p.toggle_check();
    assert_eq!(p.summary(), "3 处命中，已选 2 处");
    p.set_height(1);
    p.move_down();
    p.move_down();
    assert_eq!(p.scroll(), 2);
    assert_eq!(p.current_hit().unwrap().range.start, 18);
}


#[test]
fn keys_type_into_the_query_and_ask_for_a_new_search() {
    let mut p = SearchPanel::new(true);
    assert_eq!(p.on_key(KeyCode::Char('雪'), KeyModifiers::NONE()), SearchAction::Refresh);
    assert_eq!(p.query, "雪");
    assert_eq!(p.on_key(KeyCode::Tab, KeyModifiers::NONE()), SearchAction::Nothing);
    assert_eq!(p.field(), Field::Replace);
    assert_eq!(p.on_key(KeyCode::Char('风'), KeyModifiers::NONE()), SearchAction::Nothing, "替换框不触发重查");
    assert_eq!(p.replace_with, "风");
    assert_eq!(p.on_key(KeyCode::Backspace, KeyModifiers::NONE()), SearchAction::Nothing);
    assert_eq!(p.replace_with, "");
}

#[test]
fn function_keys_switch_options() {
    let mut p = SearchPanel::new(false);
    assert_eq!(p.on_key(KeyCode::F(2), KeyModifiers::NONE()), SearchAction::Refresh);
    assert_eq!(p.mode, MatchMode::WholeWord);
    assert_eq!(p.on_key(KeyCode::F(6), KeyModifiers::NONE()), SearchAction::Refresh);
    assert!(p.flags.ignore_case);
    assert_eq!(p.on_key(KeyCode::F(4), KeyModifiers::NONE()), SearchAction::Nothing);
    assert_eq!(p.scope, Scope::Volume);
}

#[test]
fn enter_jumps_to_the_highlighted_hit() {
    let mut p = panel("雪", "雪落了。雪停了。");
    p.on_key(KeyCode::Down, KeyModifiers::NONE());
    assert_eq!(p.on_key(KeyCode::Enter, KeyModifiers::NONE()), SearchAction::Jump(12));
    assert_eq!(p.on_key(KeyCode::Esc, KeyModifiers::NONE()), SearchAction::Close);
    assert_eq!(p.on_key(KeyCode::Char('r'), KeyModifiers::ALT()), SearchAction::ReplaceOne);
    assert_eq!(p.on_key(KeyCode::Char('a'), KeyModifiers::ALT()), SearchAction::ReplaceChecked);
}

#[test]
fn space_on_the_results_unchecks_a_hit() {
    let mut p = panel("雪", "雪落了。雪停了。");
    p.on_key(KeyCode::Tab, KeyModifiers::NONE());
    p.on_key(KeyCode::Tab, KeyModifiers::NONE());
    assert_eq!(p.field(), Field::Results);
    p.on_key(KeyCode::Char(' '), KeyModifiers::NONE());
    assert!(!p.is_checked(0));
    assert_eq!(p.query, "雪", "空格在结果列表里不该打进查询框");
}
