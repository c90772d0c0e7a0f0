use mj_tui::screens::Consent;
use mj_tui::keymap::KeyCode;
use mj_tui::screens::consent::{declined_toast, ConsentAnswer};

fn consent() -> Consent {
    Consent::new(
        "https://api.anthropic.com/v1/messages".into(),
        "opus-writer-4".into(),
        "ANTHROPIC_API_KEY".into(),
    )
}

#[test]
fn defaults_to_no() {
    assert!(!consent().is_yes());
}

#[test]
fn toggles() {
    let mut c = consent();
    c.toggle();
    assert!(c.is_yes());
    c.toggle();
    assert!(!c.is_yes());
}

#[test]
fn spells_out_where_the_text_goes() {
    let text = consent().lines().join("\n");
    assert!(text.contains("api.anthropic.com"), "要写明地址：{text}");
    assert!(text.contains("opus-writer-4"), "要写明模型：{text}");
    assert!(text.contains("ANTHROPIC_API_KEY"), "要写明密钥来源：{text}");
    assert!(text.contains("不会自动扫描全书"), "要说清发送范围：{text}");
    assert!(text.contains("enabled"), "要告诉用户怎么关掉：{text}");
}

#[test]
fn title_asks_for_confirmation() {
    assert_eq!(consent().title(), "开启模型校对前，请先确认");
}

#[test]
fn key_line_names_the_variable() {
    let lines = consent().lines();
    assert_eq!(lines[4], "  密钥：从环境变量 ANTHROPIC_API_KEY 读取");
    assert_eq!(lines.len(), 11);
}

#[test]
fn consent_needs_an_explicit_yes() {
    let mut c = consent();
    assert_eq!(c.on_key(KeyCode::Enter), ConsentAnswer::Declined, "默认停在「不同意」");
    assert_eq!(c.on_key(KeyCode::Right), ConsentAnswer::Pending);
    assert!(c.is_yes());
    assert_eq!(c.on_key(KeyCode::Enter), ConsentAnswer::Agreed);
    assert_eq!(c.on_key(KeyCode::Char('N')), ConsentAnswer::Declined);
    assert_eq!(c.on_key(KeyCode::Char('Y')), ConsentAnswer::Agreed);
    assert_eq!(c.on_key(KeyCode::Char('x')), ConsentAnswer::Pending);
    assert_eq!(declined_toast(), "已取消，正文没有发出去");
}
