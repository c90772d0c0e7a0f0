use mj_tui::theme::{builtin, builtin_names, Builtin, Color, ColorDepth, Rgb, Theme, ThemeSpec};

#[test]
fn colorterm_truecolor_detected() {
    assert_eq!(ColorDepth::from_env(Some("truecolor"), None, None), ColorDepth::TrueColor);
    assert_eq!(ColorDepth::from_env(Some("24bit"), None, None), ColorDepth::TrueColor);
}

#[test]
fn plain_term_falls_back_to_256() {
    assert_eq!(ColorDepth::from_env(None, Some("xterm-256color"), None), ColorDepth::Ansi256, "拿不准要降级，不要上探");
    assert_eq!(ColorDepth::from_env(None, None, None), ColorDepth::Ansi256);
}

#[test]
fn kitty_and_wezterm_detected_without_colorterm() {
    assert_eq!(ColorDepth::from_env(None, Some("xterm-kitty"), None), ColorDepth::TrueColor);
    assert_eq!(ColorDepth::from_env(None, None, Some("WezTerm")), ColorDepth::TrueColor);
}

#[test]
fn parses_hex_with_and_without_hash() {
    assert_eq!(Rgb::parse("#ff8000"), Some(Rgb(255, 128, 0)));
    assert_eq!(Rgb::parse("FF8000"), Some(Rgb(255, 128, 0)));
}

#[test]
fn rejects_bad_hex() {
    assert_eq!(Rgb::parse("#fff"), None, "三位简写不收");
    assert_eq!(Rgb::parse("#gggggg"), None);
    assert_eq!(Rgb::parse(""), None);
}

#[test]
fn truecolor_passes_rgb_through() {
    assert_eq!(Rgb(18, 52, 86).to_color(ColorDepth::TrueColor), Color::Rgb(18, 52, 86));
}

#[test]
fn pure_colors_map_to_cube_corners() {
    assert_eq!(Rgb(0, 0, 0).to_ansi256(), 16);
    assert_eq!(Rgb(255, 255, 255).to_ansi256(), 231);
    assert_eq!(Rgb(255, 0, 0).to_ansi256(), 196);
}

#[test]
fn grays_prefer_the_gray_ramp() {
    let idx = Rgb(128, 128, 128).to_ansi256();
    assert!((232..=255).contains(&idx), "中灰应走灰阶，实际 {idx}");
}

#[test]
fn downgrade_never_uses_terminal_base_16() {
    for r in (0..=255u8).step_by(17) {
        for g in (0..=255u8).step_by(17) {
            for b in (0..=255u8).step_by(17) {
                let idx = Rgb(r, g, b).to_ansi256();
                assert!(idx >= 16, "#{r:02x}{g:02x}{b:02x} 落到了基础色 {idx}");
            }
        }
    }
}

#[test]
fn downgrade_is_close_enough() {
    const LEVELS: [u8; 6] = [0, 95, 135, 175, 215, 255];
    for r in (0..=255u8).step_by(23) {
        for g in (0..=255u8).step_by(23) {
            for b in (0..=255u8).step_by(23) {
                let want = Rgb(r, g, b);
                let idx = want.to_ansi256();
                let got = if idx >= 232 {
                    let v = 8 + 10 * (idx - 232);
                    Rgb(v, v, v)
                } else {
                    let i = idx - 16;
                    Rgb(LEVELS[(i / 36) as usize], LEVELS[((i % 36) / 6) as usize], LEVELS[(i % 6) as usize])
                };
                assert!(want.dist2(got) <= 3 * 60 * 60, "#{r:02x}{g:02x}{b:02x} → {idx} 偏差过大");
            }
        }
    }
}

#[test]
fn gray_ramp_rounds_half_up_and_clamps() {
    assert_eq!(Rgb(13, 13, 13).nearest_gray(), (233, Rgb(18, 18, 18)));
    assert_eq!(Rgb(12, 12, 12).nearest_gray(), (232, Rgb(8, 8, 8)));
    assert_eq!(Rgb(0, 0, 0).nearest_gray(), (232, Rgb(8, 8, 8)));
    assert_eq!(Rgb(255, 255, 255).nearest_gray(), (255, Rgb(238, 238, 238)));
    assert_eq!(Rgb(115, 116, 255).nearest_cube(), (16 + 36 + 12 + 5, Rgb(95, 135, 255)));
}

#[test]
fn builtin_names_resolve() {
    for n in builtin_names() {
        assert!(builtin(n).is_some(), "{n}");
    }
    assert_eq!(builtin("sepia"), Some(Builtin::Sepia));
    assert_eq!(builtin("查无此主题"), None);
}

#[test]
fn missing_and_bad_slots_fall_back() {
    let fb = Theme::fallback_dark();
    let spec = ThemeSpec { name: "我的".into(), accent: Some("#ff0000".into()), fg: Some("不是颜色".into()), ..ThemeSpec::default() };
    let t = Theme::from_spec(&spec, ColorDepth::TrueColor, &fb);
    assert_eq!(t.accent, Color::Rgb(255, 0, 0), "改了的生效");
    assert_eq!(t.fg, fb.fg, "非法颜色回落");
    assert_eq!(t.error, fb.error, "没改的继承");
    let t = Theme::from_spec(&spec, ColorDepth::Ansi256, &fb);
    assert_eq!(t.accent, Color::Indexed(196), "256 色下不该下发 RGB");
}
