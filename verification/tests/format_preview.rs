use mj_tui::screens::format_preview::visible;

#[test]
fn whitespace_is_made_visible() {
    assert_eq!(visible(" "), "「·」");
    assert_eq!(visible("\n"), "「⏎」");
    assert_eq!(visible("\t"), "「⇥」");
    assert_eq!(visible("\u{3000}"), "「□」");
}

#[test]
fn empty_string_is_labeled() {
    assert_eq!(visible(""), "（空）");
}

#[test]
fn ordinary_text_is_quoted_unchanged() {
    assert_eq!(visible("雪a"), "「雪a」");
    assert_eq!(visible("a b"), "「a·b」");
}
