use mj_tui::doctor::Report;
use mj_tui::font::EnvProbe;

fn blank() -> EnvProbe {
    EnvProbe {
        term: None,
        term_program: None,
        kitty_window_id: None,
        wezterm_pane: None,
        wt_session: None,
        colorterm: None,
    }
}

fn env(term: Option<&str>, prog: Option<&str>, colorterm: Option<&str>) -> EnvProbe {
    EnvProbe {
        term: term.map(|s| s.into()),
        term_program: prog.map(|s| s.into()),
        colorterm: colorterm.map(|s| s.into()),
        ..blank()
    }
}

#[test]
fn reports_the_detected_terminal() {
    let e = EnvProbe { kitty_window_id: Some("1".into()), ..blank() };
    let r = Report::build(&e, "Source Han Serif", "14");
    let text = r.render();
    assert!(text.contains("kitty"), "{text}");
    assert!(text.contains("KITTY_WINDOW_ID"), "要说清判定依据：{text}");
}

#[test]
fn truecolor_reported_from_colorterm() {
    let r = Report::build(&env(None, None, Some("truecolor")), "X", "14");
    let text = r.render();
    assert!(text.contains("支持"), "{text}");
}

#[test]
fn ansi256_tells_user_how_to_fix_it() {
    let r = Report::build(&env(Some("xterm-256color"), None, None), "X", "14");
    let text = r.render();
    assert!(text.contains("256"), "{text}");
    assert!(text.contains("COLORTERM=truecolor"), "要告诉用户怎么开：{text}");
}

#[test]
fn unsupported_font_yields_a_config_snippet() {
    let e = EnvProbe { wt_session: Some("x".into()), ..blank() };
    let r = Report::build(&e, "等距更纱黑体", "14");
    assert!(r.snippet.is_some(), "Windows Terminal 该给配置片段");
    let text = r.render();
    assert!(text.contains("等距更纱黑体"), "{text}");
    assert!(text.contains("重启终端"), "要说明贴完需要重启：{text}");
}

#[test]
fn capable_terminal_gets_no_snippet() {
    let e = EnvProbe { kitty_window_id: Some("1".into()), ..blank() };
    let r = Report::build(&e, "X", "14");
    assert!(r.snippet.is_none());
}

#[test]
fn hedges_where_we_cannot_be_sure() {
    let e = EnvProbe { kitty_window_id: Some("1".into()), ..blank() };
    let text = Report::build(&e, "X", "14").render();
    assert!(text.contains("推断"), "字体能力是推断出来的，要说清：{text}");
    assert!(text.contains("allow_remote_control"), "要点出前置条件：{text}");
}

#[test]
fn explains_the_unreachable_keys() {
    let text = Report::build(&blank(), "X", "14").render();
    assert!(text.contains("Ctrl+Shift+S"), "{text}");
    assert!(text.contains("F9"), "要给出实际可用的替代键：{text}");
}

#[test]
fn report_covers_all_four_areas() {
    let text = Report::build(&blank(), "X", "14").render();
    for item in ["真彩色", "字体", "键盘协议", "剪贴板"] {
        assert!(text.contains(item), "报告漏了「{item}」：{text}");
    }
}

#[test]
fn renders_without_env() {
    let text = Report::build(&blank(), "X", "14").render();
    assert!(text.contains("未知终端"), "{text}");
    assert!(text.contains("没有可用于判定的环境变量"), "{text}");
}

#[test]
fn evidence_lists_every_variable_used() {
    let e = env(Some("xterm"), Some("vscode"), None);
    let r = Report::build(&e, "X", "14");
    assert_eq!(r.findings[0].note, "依据：TERM_PROGRAM=vscode，TERM=xterm");
    assert_eq!(r.findings.len(), 6);
}

#[test]
fn snippet_lines_are_indented() {
    let e = EnvProbe { wt_session: Some("x".into()), ..blank() };
    let text = Report::build(&e, "F", "14").render();
    assert!(text.contains("\n    \"font\": {\n"), "{text}");
    assert!(text.ends_with("    }\n"), "{text}");
}

#[test]
fn items_are_padded_to_one_column() {
    let text = Report::build(&blank(), "X", "14").render();
    // The widest item is 「字体·字体族」 (11 columns); 「终端」 takes 4.
    assert!(text.contains("终端         未知终端\n"), "{text}");
}
