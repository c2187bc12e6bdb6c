use aozora_parser::command::{CommandBegin, MidashiSize, MidashiType};
use aozora_parser::linter::check_text_patterns;
use aozora_parser::{
    parse, parse_aozora, parse_blocks, text_to_xhtml, text_to_xhtml_with_lint, BlockElement,
    ConversionError, LintWarningKind, ParsedItem, Span, TokenizeError,
};

#[test]
fn ruby_after_kanji() {
    let doc = parse(parse_aozora("Title\nAuthor\n漢字《かんじ》".to_string()).unwrap()).unwrap();
    assert_eq!(doc.metadata.title, "Title");
    assert_eq!(doc.metadata.author, "Author");
    assert_eq!(doc.items.len(), 1);
    match &doc.items[0] {
        ParsedItem::Text(t) => {
            assert_eq!(t.text, "漢字");
            assert_eq!(t.ruby, Some("かんじ".to_string()));
        }
        _ => panic!("Expected Text"),
    }
}

#[test]
fn ranged_ruby_after_bar() {
    let doc = parse(parse_aozora("T\nA\n｜青空文庫《あおぞらぶんこ》".to_string()).unwrap()).unwrap();
    assert_eq!(doc.items.len(), 1);
    match &doc.items[0] {
        ParsedItem::Text(t) => {
            assert_eq!(t.text, "青空文庫");
            assert_eq!(t.ruby, Some("あおぞらぶんこ".to_string()));
            assert_eq!(t.span, Span::new(4, 18));
        }
        _ => panic!("Expected Text"),
    }
}

#[test]
fn block_heading_tree_and_xhtml() {
    let text = "T\nA\n［＃大見出し］序章［＃大見出し終わり］";
    let doc = parse(parse_aozora(text.to_string()).unwrap()).unwrap();
    let root = parse_blocks(doc.items).unwrap();
    assert_eq!(root.decoration, None);
    assert_eq!(root.elements.len(), 1);
    match &root.elements[0] {
        BlockElement::Block(b) => {
            match b.decoration {
                Some(CommandBegin::Midashi(m)) => {
                    assert_eq!(m.size, MidashiSize::Large);
                    assert_eq!(m.kind, MidashiType::Normal);
                }
                _ => panic!("Expected heading"),
            }
            assert_eq!(b.elements.len(), 1);
            match &b.elements[0] {
                BlockElement::Item(ParsedItem::Text(t)) => assert_eq!(t.text, "序章"),
                _ => panic!("Expected text"),
            }
        }
        _ => panic!("Expected block"),
    }
    let out = text_to_xhtml(text.to_string()).unwrap();
    assert!(out.xhtml.contains("<h2 id=\"midashi-1\">序章</h2>"));
    assert!(!out.xhtml.contains("<p>序章</p>"));
}

#[test]
fn bibliographic_comment_is_skipped() {
    let rule = "-".repeat(55);
    let text = format!("T\nA\n{}\n注記の説明\n{}\n本文です", rule, rule);
    let doc = parse(parse_aozora(text.clone()).unwrap()).unwrap();
    assert_eq!(doc.items.len(), 1);
    match &doc.items[0] {
        ParsedItem::Text(t) => assert_eq!(t.text, "本文です"),
        _ => panic!("Expected Text"),
    }
    let out = text_to_xhtml(text).unwrap();
    assert!(!out.xhtml.contains("注記の説明"));
    assert!(out.xhtml.contains("本文です"));
}

#[test]
fn even_and_odd_ellipsis() {
    let mut w = Vec::new();
    check_text_patterns("これは……途中", &mut w);
    assert_eq!(w.iter().filter(|x| matches!(x.kind, LintWarningKind::OddEllipsisCount)).count(), 0);
    let mut w = Vec::new();
    check_text_patterns("これは…途中", &mut w);
    assert_eq!(w.len(), 1);
    assert!(matches!(w[0].kind, LintWarningKind::OddEllipsisCount));
    assert_eq!(w[0].span, Span::new(3, 4));
}

#[test]
fn exclamation_followed_by_kana() {
    let mut w = Vec::new();
    check_text_patterns("びっくり！だね", &mut w);
    assert_eq!(w.len(), 1);
    assert!(matches!(w[0].kind, LintWarningKind::InvalidCharAfterExclamation));
    assert_eq!(w[0].span, Span::new(4, 6));
    let mut w = Vec::new();
    check_text_patterns("びっくり！　続き", &mut w);
    assert_eq!(w.len(), 0);
}

#[test]
fn unclosed_command_fails_conversion() {
    match text_to_xhtml("T\nA\n［＃改ページ".to_string()) {
        Err(ConversionError::Tokenize(TokenizeError::UnclosedCommand(s))) => assert_eq!(s, Span::new(4, 10)),
        _ => panic!("Expected a tokenize error"),
    }
}

#[test]
fn stray_end_fails_conversion() {
    assert!(matches!(
        text_to_xhtml("T\nA\n［＃ここで字下げ終わり］".to_string()),
        Err(ConversionError::BlockParse(_))
    ));
}

#[test]
fn conversion_with_lint_reports_warnings() {
    let out = text_to_xhtml_with_lint("T\nA\nびっくり！だね\n".to_string()).unwrap();
    assert_eq!(out.metadata.title, "T");
    assert!(out.xhtml.contains("<p>びっくり！だね</p>"));
    let kinds: Vec<_> = out.warnings.iter().map(|w| w.kind.clone()).collect();
    assert_eq!(kinds, vec![LintWarningKind::MissingParagraphIndent, LintWarningKind::InvalidCharAfterExclamation]);
}
