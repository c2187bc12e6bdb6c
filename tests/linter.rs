use aozora_parser::linter::check_text_patterns;
use aozora_parser::{lint, parse, parse_aozora, parse_blocks, LintWarning, LintWarningKind, Severity, Span};

fn lint_text(text: &str) -> Vec<LintWarning> {
    let tokens = parse_aozora(text.to_string()).unwrap();
    let doc = parse(tokens).unwrap();
    let root = parse_blocks(doc.items).unwrap();
    lint(root, text).warnings
}

#[test]
fn test_punctuation_before_quote() {
    let text = "タイトル\n著者\nこれは文章です。」と言った。";
    let mut warnings = Vec::new();
    check_text_patterns(text, &mut warnings);

    assert_eq!(warnings.len(), 1);
    assert!(matches!(warnings[0].kind, LintWarningKind::PunctuationBeforeQuote));
}

#[test]
fn test_odd_ellipsis() {
    let text = "タイトル\n著者\nこれは…途中";
    let mut warnings = Vec::new();
    check_text_patterns(text, &mut warnings);

    assert_eq!(warnings.len(), 1);
    assert!(matches!(warnings[0].kind, LintWarningKind::OddEllipsisCount));
}

#[test]
fn test_even_ellipsis_ok() {
    let text = "これは……途中";
    let mut warnings = Vec::new();
    check_text_patterns(text, &mut warnings);

    let ellipsis_warnings: Vec<_> = warnings
        .iter()
        .filter(|w| matches!(w.kind, LintWarningKind::OddEllipsisCount))
        .collect();
    assert!(ellipsis_warnings.is_empty());
}

#[test]
fn test_invalid_char_after_exclamation() {
    let text = "びっくり！だね";
    let mut warnings = Vec::new();
    check_text_patterns(text, &mut warnings);

    assert_eq!(warnings.len(), 1);
    assert!(matches!(warnings[0].kind, LintWarningKind::InvalidCharAfterExclamation));
}

#[test]
fn test_valid_after_exclamation() {
    let text = "びっくり！\u{3000}続き";
    let mut warnings = Vec::new();
    check_text_patterns(text, &mut warnings);

    let excl_warnings: Vec<_> = warnings
        .iter()
        .filter(|w| matches!(w.kind, LintWarningKind::InvalidCharAfterExclamation))
        .collect();
    assert!(excl_warnings.is_empty());
}

#[test]
fn odd_ellipsis_spans_the_run() {
    let mut warnings = Vec::new();
    check_text_patterns("これは…途中", &mut warnings);
    assert_eq!(warnings.len(), 1);
    assert_eq!(warnings[0].span, Span::new(3, 4));
    assert_eq!(warnings[0].severity, Severity::Warning);
    assert_eq!(warnings[0].message, "三点リーダは偶数個（2個）で使用することが推奨されます");
}

#[test]
fn odd_dash_run_of_three() {
    let mut warnings = Vec::new();
    check_text_patterns("あ―――い", &mut warnings);
    assert_eq!(warnings.len(), 1);
    assert!(matches!(warnings[0].kind, LintWarningKind::OddEllipsisCount));
    assert_eq!(warnings[0].span, Span::new(1, 4));
    assert_eq!(warnings[0].message, "ダッシュは偶数個（2個）で使用することが推奨されます");
}

#[test]
fn exclamation_warning_spans_two_chars() {
    let mut warnings = Vec::new();
    check_text_patterns("びっくり！だね", &mut warnings);
    assert_eq!(warnings[0].span, Span::new(4, 6));
    assert_eq!(warnings[0].message, "！？の後には空白または閉じ括弧が必要です");
}

#[test]
fn question_then_closing_bracket_is_fine() {
    let mut warnings = Vec::new();
    check_text_patterns("「本当？」", &mut warnings);
    assert!(warnings.is_empty());
}

#[test]
fn missing_paragraph_indent() {
    let warnings = lint_text("T\nA\nはじめに\n　字下げ済み\n「会話」\n");
    let indent: Vec<_> = warnings
        .iter()
        .filter(|w| matches!(w.kind, LintWarningKind::MissingParagraphIndent))
        .collect();
    assert_eq!(indent.len(), 1);
    assert_eq!(indent[0].span, Span::new(4, 8));
    assert_eq!(indent[0].message, "段落の先頭には全角スペースまたは字下げが必要です");
}

#[test]
fn command_at_line_start_keeps_paragraph_start() {
    let warnings = lint_text("T\nA\n［＃改ページ］本文\n");
    assert_eq!(warnings.len(), 1);
    assert!(matches!(warnings[0].kind, LintWarningKind::MissingParagraphIndent));
    assert_eq!(warnings[0].span, Span::new(11, 13));
}

#[test]
fn text_after_command_after_newline_is_checked() {
    let text = "はじめ\n　次\n［＃改ページ］本文";
    let warnings = lint_text(&format!("T\nA\n{}", text));
    let spans: Vec<Span> = warnings
        .iter()
        .filter(|w| matches!(w.kind, LintWarningKind::MissingParagraphIndent))
        .map(|w| w.span)
        .collect();
    assert_eq!(spans, vec![Span::new(4, 7), Span::new(18, 20)]);
}

#[test]
fn indented_text_after_command_passes() {
    let warnings = lint_text("T\nA\n［＃改ページ］　本文\n");
    assert!(warnings.is_empty());
}

#[test]
fn warning_constructors_set_severity() {
    let e = LintWarning::error(LintWarningKind::MismatchedBlockTags, Span::new(1, 2), "e");
    let w = LintWarning::warning(LintWarningKind::RubyWithoutText, Span::new(1, 2), "w");
    let i = LintWarning::info(LintWarningKind::UnknownCommand("x".to_string()), Span::new(1, 2), "i");
    let n = LintWarning::new(LintWarningKind::OddEllipsisCount, Span::new(3, 4), Severity::Info, "n");
    assert_eq!(e.severity, Severity::Error);
    assert_eq!(w.severity, Severity::Warning);
    assert_eq!(i.severity, Severity::Info);
    assert_eq!(n.severity, Severity::Info);
    assert_eq!(n.message, "n");
    assert_eq!(n.span, Span::new(3, 4));
}
