use mj_tui::font::{backend_for, config_snippet, Backend, EnvProbe, FontCap, KittyFont, NoopFont, Osc50Font, TerminalKind};

fn blank() -> EnvProbe {
    EnvProbe { term: None, term_program: None, kitty_window_id: None, wezterm_pane: None, wt_session: None, colorterm: None }
}

fn env(term: Option<&str>, prog: Option<&str>) -> EnvProbe {
    EnvProbe { term: term.map(|s| s.into()), term_program: prog.map(|s| s.into()), ..blank() }
}

#[test]
fn kitty_detected_by_its_own_var() {
    let e = EnvProbe { kitty_window_id: Some("1".into()), term: Some("xterm-256color".into()), ..blank() };
    assert_eq!(TerminalKind::from_env(&e), TerminalKind::Kitty);
}

#[test]
fn wezterm_and_wt_detected_by_their_vars() {
    let e = EnvProbe { wezterm_pane: Some("0".into()), ..blank() };
    assert_eq!(TerminalKind::from_env(&e), TerminalKind::WezTerm);
    let e = EnvProbe { wt_session: Some("abc".into()), ..blank() };
    assert_eq!(TerminalKind::from_env(&e), TerminalKind::WindowsTerminal);
}

#[test]
fn terminal_specific_vars_beat_term() {
    let e = EnvProbe {
        kitty_window_id: Some("7".into()),
        term: Some("xterm-256color".into()),
        term_program: Some("WezTerm".into()),
        ..blank()
    };
    assert_eq!(TerminalKind::from_env(&e), TerminalKind::Kitty, "KITTY_WINDOW_ID 最硬");
}

#[test]
fn detects_by_term_program() {
    assert_eq!(TerminalKind::from_env(&env(None, Some("iTerm.app"))), TerminalKind::ITerm2);
    assert_eq!(TerminalKind::from_env(&env(None, Some("vscode"))), TerminalKind::VsCode);
    assert_eq!(TerminalKind::from_env(&env(None, Some("Apple_Terminal"))), TerminalKind::AppleTerminal);
}

#[test]
fn detects_xterm_family_by_term() {
    assert_eq!(TerminalKind::from_env(&env(Some("xterm-256color"), None)), TerminalKind::XtermLike);
    assert_eq!(TerminalKind::from_env(&env(Some("rxvt-unicode"), None)), TerminalKind::XtermLike);
}

#[test]
fn unknown_when_nothing_matches() {
    assert_eq!(TerminalKind::from_env(&blank()), TerminalKind::Unknown);
    assert_eq!(TerminalKind::from_env(&env(Some("dumb"), None)), TerminalKind::Unknown);
}

#[test]
fn unsupported_terminals_report_no_caps() {
    for k in [
        TerminalKind::Alacritty,
        TerminalKind::WindowsTerminal,
        TerminalKind::VsCode,
        TerminalKind::AppleTerminal,
        TerminalKind::Unknown,
    ] {
        assert!(k.expected_caps().is_empty(), "{k:?} 不该声称有字体能力");
    }
}

#[test]
fn kitty_only_claims_size() {
    let c = TerminalKind::Kitty.expected_caps();
    assert!(c.contains(FontCap::SET_SIZE()));
    assert!(!c.contains(FontCap::SET_FAMILY()), "kitty 改不了字体族");
}

#[test]
fn xterm_only_claims_family() {
    let c = TerminalKind::XtermLike.expected_caps();
    assert!(c.contains(FontCap::SET_FAMILY()));
    assert!(!c.contains(FontCap::SET_SIZE()));
}

#[test]
fn unsupported_reason_names_the_terminal() {
    let r = TerminalKind::Alacritty.unsupported_reason();
    assert!(r.contains("Alacritty"), "{r}");
    let r = TerminalKind::WindowsTerminal.unsupported_reason();
    assert!(r.contains("Windows Terminal"), "{r}");
    assert_eq!(TerminalKind::Alacritty.unsupported_reason(), "当前终端（Alacritty）不支持运行时更改字体");
}

#[test]
fn noop_backend_refuses_but_reset_is_safe() {
    let mut f = NoopFont::new(TerminalKind::Alacritty);
    assert!(f.caps().is_empty());
    let e = f.set_family("Source Han Serif").unwrap_err();
    assert!(e.contains("Alacritty"), "报错要说清为什么：{e}");
    assert!(f.set_size_text("14").is_err());
    assert!(f.reset().is_ok(), "reset 应总是安全的");
}

#[test]
fn for_kind_picks_the_right_backend() {
    assert_eq!(backend_for(TerminalKind::Kitty), Backend::Kitty);
    assert_eq!(backend_for(TerminalKind::XtermLike), Backend::Osc50);
    assert_eq!(backend_for(TerminalKind::Alacritty), Backend::Noop);
    assert_eq!(backend_for(TerminalKind::WezTerm), Backend::Noop);
    assert_eq!(KittyFont.id(), "kitty");
    assert_eq!(Osc50Font.id(), "osc50");
    assert_eq!(NoopFont::new(TerminalKind::Unknown).id(), "noop");
    assert_eq!(Osc50Font::sequence(""), "\x1b]50;\x07");
}

#[test]
fn kitty_snippet_has_both_fields() {
    let s = config_snippet(TerminalKind::Kitty, "Source Han Serif", "14").unwrap();
    assert!(s.contains("font_family Source Han Serif"), "{s}");
    assert!(s.contains("font_size 14"), "{s}");
    assert!(s.contains("kitty.conf"), "要告诉用户贴到哪个文件：{s}");
}

#[test]
fn alacritty_snippet_is_valid_toml() {
    let s = config_snippet(TerminalKind::Alacritty, "Source Han Serif", "13.5").unwrap();
    let stripped: String = s.lines().filter(|l| !l.starts_with('#')).collect::<Vec<_>>().join("\n");
    let v: toml::Value = toml::from_str(&stripped).expect("alacritty 片段应是合法 TOML");
    assert_eq!(v["font"]["normal"]["family"].as_str(), Some("Source Han Serif"));
    assert!(s.contains("13.5"), "带小数的字号要保留小数：{s}");
}

#[test]
fn wezterm_snippet_is_lua() {
    let s = config_snippet(TerminalKind::WezTerm, "Source Han Serif", "14").unwrap();
    assert!(s.contains("wezterm.font(\"Source Han Serif\")"), "{s}");
    assert!(s.contains("config.font_size = 14"), "{s}");
}

#[test]
fn windows_terminal_snippet_mentions_profile() {
    let s = config_snippet(TerminalKind::WindowsTerminal, "等距更纱黑体", "14").unwrap();
    assert!(s.contains("\"face\": \"等距更纱黑体\""), "{s}");
    assert!(s.contains("profile"), "要说明贴进哪个 profile：{s}");
}

#[test]
fn no_snippet_when_we_dont_know_the_format() {
    assert!(config_snippet(TerminalKind::Unknown, "X", "14").is_none());
    assert!(config_snippet(TerminalKind::AppleTerminal, "X", "14").is_none());
}

#[test]
fn config_file_hint_matches_snippet_targets() {
    for k in [
        TerminalKind::Kitty,
        TerminalKind::WezTerm,
        TerminalKind::Alacritty,
        TerminalKind::WindowsTerminal,
        TerminalKind::VsCode,
    ] {
        assert!(config_snippet(k, "X", "14").is_some(), "{k:?} 该有片段");
        assert!(k.config_file_hint().is_some(), "{k:?} 该有配置文件名");
    }
}
