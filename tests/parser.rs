use aozora_parser::command::{Command, CommandBegin, CommandEnd, MidashiSize, MidashiType};
use aozora_parser::{parse, parse_aozora, AozoraToken, ParsedItem, Span, TextKind, TextToken};

fn with_metadata(tokens: Vec<AozoraToken>) -> Vec<AozoraToken> {
    let mut t = vec![
        AozoraToken::Text(TextToken { content: "Title".to_string(), kind: TextKind::Other, span: Span::new(0, 5) }),
        AozoraToken::Newline(Span::new(5, 6)),
        AozoraToken::Text(TextToken { content: "Author".to_string(), kind: TextKind::Other, span: Span::new(6, 12) }),
        AozoraToken::Newline(Span::new(12, 13)),
    ];
    t.extend(tokens);
    t
}

fn with_metadata_plain(tokens: Vec<AozoraToken>) -> Vec<AozoraToken> {
    let mut t = vec![
        AozoraToken::Text(TextToken { content: "Title".to_string(), kind: TextKind::Other, span: Span::default() }),
        AozoraToken::Newline(Span::default()),
        AozoraToken::Text(TextToken { content: "Author".to_string(), kind: TextKind::Other, span: Span::default() }),
        AozoraToken::Newline(Span::default()),
    ];
    t.extend(tokens);
    t
}

#[test]
fn tests_test_simple_text() {
    let tokens = vec![
        AozoraToken::Text(TextToken { content: "こんにちは".to_string(), kind: TextKind::Hiragana, span: Span::new(13, 18) }),
    ];
    let doc = parse(with_metadata(tokens)).unwrap();
    assert_eq!(doc.metadata.title, "Title");
    assert_eq!(doc.metadata.author, "Author");
    assert_eq!(doc.items.len(), 1);
    if let ParsedItem::Text(t) = &doc.items[0] {
        assert_eq!(t.text, "こんにちは");
        assert_eq!(t.ruby, None);
    } else {
        panic!("Expected Text");
    }
}

#[test]
fn tests_test_ruby_no_separator() {
    let tokens = vec![
        AozoraToken::Text(TextToken { content: "漢字".to_string(), kind: TextKind::Kanji, span: Span::new(13, 15) }),
        AozoraToken::Ruby { content: "かんじ".to_string(), span: Span::new(15, 20) },
    ];
    let doc = parse(with_metadata(tokens)).unwrap();
    assert_eq!(doc.items.len(), 1);
    if let ParsedItem::Text(t) = &doc.items[0] {
        assert_eq!(t.text, "漢字");
        assert_eq!(t.ruby, Some("かんじ".to_string()));
    } else {
        panic!("Expected Text");
    }
}

#[test]
fn tests_test_ruby_with_separator() {
    let tokens = vec![
        AozoraToken::RubySeparator(Span::new(13, 14)),
        AozoraToken::Text(TextToken { content: "ロンドン".to_string(), kind: TextKind::Katakana, span: Span::new(14, 18) }),
        AozoraToken::Text(TextToken { content: "警視庁".to_string(), kind: TextKind::Kanji, span: Span::new(18, 21) }),
        AozoraToken::Ruby { content: "スコットランドヤード".to_string(), span: Span::new(21, 33) },
    ];
    let doc = parse(with_metadata(tokens)).unwrap();
    assert_eq!(doc.items.len(), 1);
    if let ParsedItem::Text(t) = &doc.items[0] {
        assert_eq!(t.text, "ロンドン警視庁");
        assert_eq!(t.ruby, Some("スコットランドヤード".to_string()));
    } else {
        panic!("Expected Text");
    }
}

#[test]
fn tests_test_ruby_with_separator_multiple_text() {
    let tokens = vec![
        AozoraToken::RubySeparator(Span::new(13, 14)),
        AozoraToken::Text(TextToken { content: "青空".to_string(), kind: TextKind::Kanji, span: Span::new(14, 16) }),
        AozoraToken::Text(TextToken { content: "文庫".to_string(), kind: TextKind::Kanji, span: Span::new(16, 18) }),
        AozoraToken::Ruby { content: "あおぞらぶんこ".to_string(), span: Span::new(18, 27) },
    ];
    let doc = parse(with_metadata(tokens)).unwrap();
    assert_eq!(doc.items.len(), 1);
    if let ParsedItem::Text(t) = &doc.items[0] {
        assert_eq!(t.text, "青空文庫");
        assert_eq!(t.ruby, Some("あおぞらぶんこ".to_string()));
    } else {
        panic!("Expected Text");
    }
}

#[test]
fn tests_test_mixed_text_flushing() {
    let tokens = vec![
        AozoraToken::Text(TextToken { content: "こんにちは".to_string(), kind: TextKind::Hiragana, span: Span::new(13, 18) }),
        AozoraToken::Text(TextToken { content: "世界".to_string(), kind: TextKind::Kanji, span: Span::new(18, 20) }),
    ];
    let doc = parse(with_metadata(tokens)).unwrap();
    assert_eq!(doc.items.len(), 1);
    if let ParsedItem::Text(t) = &doc.items[0] {
        assert_eq!(t.text, "こんにちは世界");
        assert_eq!(t.ruby, None);
    } else {
        panic!("Expected Text");
    }
}

#[test]
fn tests_test_comment_block_skipping() {
    let tokens = vec![
        AozoraToken::Text(TextToken { content: "Title".to_string(), kind: TextKind::Other, span: Span::new(0, 5) }),
        AozoraToken::Newline(Span::new(5, 6)),
        AozoraToken::Text(TextToken { content: "Author".to_string(), kind: TextKind::Other, span: Span::new(6, 12) }),
        AozoraToken::Newline(Span::new(12, 13)),
        AozoraToken::Text(TextToken { content: "-------------------------------------------------------".to_string(), kind: TextKind::Other, span: Span::new(13, 68) }),
        AozoraToken::Newline(Span::new(68, 69)),
        AozoraToken::Text(TextToken { content: "Comment Content".to_string(), kind: TextKind::Other, span: Span::new(69, 84) }),
        AozoraToken::Newline(Span::new(84, 85)),
        AozoraToken::Text(TextToken { content: "-------------------------------------------------------".to_string(), kind: TextKind::Other, span: Span::new(85, 140) }),
        AozoraToken::Newline(Span::new(140, 141)),
        AozoraToken::Text(TextToken { content: "Body Content".to_string(), kind: TextKind::Other, span: Span::new(141, 153) }),
    ];
    let doc = parse(tokens).unwrap();

    assert_eq!(doc.metadata.title, "Title");
    assert_eq!(doc.metadata.author, "Author");
    assert_eq!(doc.items.len(), 1);
    if let ParsedItem::Text(t) = &doc.items[0] {
        assert_eq!(t.text, "Body Content");
    } else {
        panic!("Expected Body Content, got {:?}", doc.items);
    }
}

#[test]
fn parser_test_simple_text() {
    let tokens = vec![
        AozoraToken::Text(TextToken { content: "こんにちは".to_string(), kind: TextKind::Hiragana, span: Span::default() }),
    ];
    let doc = parse(with_metadata_plain(tokens)).unwrap();
    assert_eq!(doc.metadata.title, "Title");
    assert_eq!(doc.metadata.author, "Author");
    assert_eq!(doc.items.len(), 1);
    if let ParsedItem::Text(t) = &doc.items[0] {
        assert_eq!(t.text, "こんにちは");
        assert_eq!(t.ruby, None);
    } else {
        panic!("Expected Text");
    }
}

#[test]
fn parser_test_ruby_no_separator() {
    let tokens = vec![
        AozoraToken::Text(TextToken { content: "漢字".to_string(), kind: TextKind::Kanji, span: Span::default() }),
        AozoraToken::Ruby { content: "かんじ".to_string(), span: Span::default() },
    ];
    let doc = parse(with_metadata_plain(tokens)).unwrap();
    assert_eq!(doc.items.len(), 1);
    if let ParsedItem::Text(t) = &doc.items[0] {
        assert_eq!(t.text, "漢字");
        assert_eq!(t.ruby, Some("かんじ".to_string()));
    } else {
        panic!("Expected Text");
    }
}

#[test]
fn parser_test_ruby_with_separator() {
    let tokens = vec![
        AozoraToken::RubySeparator(Span::default()),
        AozoraToken::Text(TextToken { content: "ロンドン".to_string(), kind: TextKind::Katakana, span: Span::default() }),
        AozoraToken::Text(TextToken { content: "警視庁".to_string(), kind: TextKind::Kanji, span: Span::default() }),
        AozoraToken::Ruby { content: "スコットランドヤード".to_string(), span: Span::default() },
    ];
    let doc = parse(with_metadata_plain(tokens)).unwrap();
    assert_eq!(doc.items.len(), 1);
    if let ParsedItem::Text(t) = &doc.items[0] {
        assert_eq!(t.text, "ロンドン警視庁");
        assert_eq!(t.ruby, Some("スコットランドヤード".to_string()));
    } else {
        panic!("Expected Text");
    }
}

#[test]
fn parser_test_ruby_with_separator_multiple_text() {
    let tokens = vec![
        AozoraToken::RubySeparator(Span::default()),
        AozoraToken::Text(TextToken { content: "青空".to_string(), kind: TextKind::Kanji, span: Span::default() }),
        AozoraToken::Text(TextToken { content: "文庫".to_string(), kind: TextKind::Kanji, span: Span::default() }),
        AozoraToken::Ruby { content: "あおぞらぶんこ".to_string(), span: Span::default() },
    ];
    let doc = parse(with_metadata_plain(tokens)).unwrap();
    assert_eq!(doc.items.len(), 1);
    if let ParsedItem::Text(t) = &doc.items[0] {
        assert_eq!(t.text, "青空文庫");
        assert_eq!(t.ruby, Some("あおぞらぶんこ".to_string()));
    } else {
        panic!("Expected Text");
    }
}

#[test]
fn parser_test_mixed_text_flushing() {
    let tokens = vec![
        AozoraToken::Text(TextToken { content: "こんにちは".to_string(), kind: TextKind::Hiragana, span: Span::default() }),
        AozoraToken::Text(TextToken { content: "世界".to_string(), kind: TextKind::Kanji, span: Span::default() }),
    ];
    let doc = parse(with_metadata_plain(tokens)).unwrap();
    assert_eq!(doc.items.len(), 1);
    if let ParsedItem::Text(t) = &doc.items[0] {
        assert_eq!(t.text, "こんにちは世界");
        assert_eq!(t.ruby, None);
    } else {
        panic!("Expected Text");
    }
}

#[test]
fn parser_test_comment_block_skipping() {
    let tokens = vec![
        AozoraToken::Text(TextToken { content: "Title".to_string(), kind: TextKind::Other, span: Span::default() }),
        AozoraToken::Newline(Span::default()),
        AozoraToken::Text(TextToken { content: "Author".to_string(), kind: TextKind::Other, span: Span::default() }),
        AozoraToken::Newline(Span::default()),
        AozoraToken::Text(TextToken { content: "-------------------------------------------------------".to_string(), kind: TextKind::Other, span: Span::default() }),
        AozoraToken::Newline(Span::default()),
        AozoraToken::Text(TextToken { content: "Comment Content".to_string(), kind: TextKind::Other, span: Span::default() }),
        AozoraToken::Newline(Span::default()),
        AozoraToken::Text(TextToken { content: "-------------------------------------------------------".to_string(), kind: TextKind::Other, span: Span::default() }),
        AozoraToken::Newline(Span::default()),
        AozoraToken::Text(TextToken { content: "Body Content".to_string(), kind: TextKind::Other, span: Span::default() }),
    ];
    let doc = parse(tokens).unwrap();

    assert_eq!(doc.metadata.title, "Title");
    assert_eq!(doc.metadata.author, "Author");
    assert_eq!(doc.items.len(), 1);
    if let ParsedItem::Text(t) = &doc.items[0] {
        assert_eq!(t.text, "Body Content");
    } else {
        panic!("Expected Body Content, got {:?}", doc.items);
    }
}

#[test]
fn stray_bar_stays_plain_text() {
    let doc = parse(parse_aozora("T\nA\n｜青空\n".to_string()).unwrap()).unwrap();
    assert_eq!(doc.items.len(), 3);
    match (&doc.items[0], &doc.items[1], &doc.items[2]) {
        (ParsedItem::Text(a), ParsedItem::Text(b), ParsedItem::Newline(_)) => {
            assert_eq!(a.text, "｜");
            assert_eq!(b.text, "青空");
            assert_eq!(b.ruby, None);
        }
        _ => panic!("Expected bar, text, newline"),
    }
}

#[test]
fn gloss_without_text_is_dropped() {
    let doc = parse(parse_aozora("T\nA\n《よみ》本".to_string()).unwrap()).unwrap();
    assert_eq!(doc.items.len(), 1);
    match &doc.items[0] {
        ParsedItem::Text(t) => assert_eq!(t.text, "本"),
        _ => panic!("Expected Text"),
    }
}

#[test]
fn gloss_attaches_to_last_text_only() {
    let doc = parse(parse_aozora("T\nA\nこれは漢字《かんじ》".to_string()).unwrap()).unwrap();
    assert_eq!(doc.items.len(), 2);
    match (&doc.items[0], &doc.items[1]) {
        (ParsedItem::Text(a), ParsedItem::Text(b)) => {
            assert_eq!(a.text, "これは");
            assert_eq!(a.ruby, None);
            assert_eq!(b.text, "漢字");
            assert_eq!(b.ruby, Some("かんじ".to_string()));
            assert_eq!(b.span, Span::new(7, 14));
        }
        _ => panic!("Expected two texts"),
    }
}

#[test]
fn reference_heading_becomes_block() {
    let doc = parse(parse_aozora("T\nA\n序章［＃「序章」は大見出し］".to_string()).unwrap()).unwrap();
    assert_eq!(doc.items.len(), 3);
    match &doc.items[0] {
        ParsedItem::Command { cmd: Command::CommandBegin(CommandBegin::Midashi(m)), span } => {
            assert_eq!(m.size, MidashiSize::Large);
            assert_eq!(m.kind, MidashiType::Normal);
            assert_eq!(*span, Span::new(4, 6));
        }
        _ => panic!("Expected begin"),
    }
    match &doc.items[2] {
        ParsedItem::Command { cmd: Command::CommandEnd(CommandEnd::Midashi(_)), span } => {
            assert_eq!(*span, Span::new(6, 18));
        }
        _ => panic!("Expected end"),
    }
}

#[test]
fn unknown_command_is_kept() {
    let doc = parse(parse_aozora("T\nA\n［＃傍点］".to_string()).unwrap()).unwrap();
    assert_eq!(doc.items.len(), 1);
    match &doc.items[0] {
        ParsedItem::Command { cmd: Command::Unknown(raw), .. } => assert_eq!(raw, "傍点"),
        _ => panic!("Expected Unknown"),
    }
}

#[test]
fn header_drops_glosses_and_commands() {
    let doc = parse(parse_aozora("題《だい》名［＃改ページ］\n著者".to_string()).unwrap()).unwrap();
    assert_eq!(doc.metadata.title, "題名");
    assert_eq!(doc.metadata.author, "著者");
    assert_eq!(doc.items.len(), 0);
}
