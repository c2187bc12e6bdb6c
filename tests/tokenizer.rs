use aozora_parser::{parse_aozora, AozoraToken, TextKind, TokenizeError};

#[test]
fn tokenizer_test_hiragana() {
    let input = "あいうえお".to_string();
    let tokens = parse_aozora(input).unwrap();
    assert_eq!(tokens.len(), 1);
    match &tokens[0] {
        AozoraToken::Text(t) => {
            assert_eq!(t.content, "あいうえお");
            assert_eq!(t.kind, TextKind::Hiragana);
        }
        _ => panic!("Expected Text token"),
    }
}

#[test]
fn tokenizer_test_mixed_text() {
    let input = "漢字ひらがなカタカナ".to_string();
    let tokens = parse_aozora(input).unwrap();
    assert_eq!(tokens.len(), 3);

    match &tokens[0] {
        AozoraToken::Text(t) => {
            assert_eq!(t.content, "漢字");
            assert_eq!(t.kind, TextKind::Kanji);
        }
        _ => panic!("Expected Kanji"),
    }
    match &tokens[1] {
        AozoraToken::Text(t) => {
            assert_eq!(t.content, "ひらがな");
            assert_eq!(t.kind, TextKind::Hiragana);
        }
        _ => panic!("Expected Hiragana"),
    }
    match &tokens[2] {
        AozoraToken::Text(t) => {
            assert_eq!(t.content, "カタカナ");
            assert_eq!(t.kind, TextKind::Katakana);
        }
        _ => panic!("Expected Katana"),
    }
}

#[test]
fn tokenizer_test_ruby() {
    let input = "漢字《かんじ》".to_string();
    let tokens = parse_aozora(input).unwrap();
    assert_eq!(tokens.len(), 2);
    match &tokens[0] {
        AozoraToken::Text(t) => {
            assert_eq!(t.content, "漢字");
        }
        _ => panic!("Expected Kanji"),
    }
    match &tokens[1] {
        AozoraToken::Ruby { content, span } => {
            assert_eq!(content, "かんじ");
            assert_eq!(span.start, 2);
            assert_eq!(span.end, 7);
        }
        _ => panic!("Expected Ruby"),
    }
}

#[test]
fn tokenizer_test_command() {
    let input = "［＃改ページ］".to_string();
    let tokens = parse_aozora(input).unwrap();
    assert_eq!(tokens.len(), 1);
    match &tokens[0] {
        AozoraToken::Command(c) => {
            assert_eq!(c.content, "改ページ");
        }
        _ => panic!("Expected Command"),
    }
}

#[test]
fn tokenizer_test_odoriji() {
    let input = "／＼".to_string();
    let tokens = parse_aozora(input).unwrap();
    assert_eq!(tokens.len(), 1);
    assert!(matches!(tokens[0], AozoraToken::Odoriji(_)));
}

#[test]
fn tokenizer_test_dakuten_odoriji() {
    let input = "／″＼".to_string();
    let tokens = parse_aozora(input).unwrap();
    assert_eq!(tokens.len(), 1);
    assert!(matches!(tokens[0], AozoraToken::DakutenOdoriji(_)));
}

#[test]
fn command_span_includes_closing_bracket() {
    let tokens = parse_aozora("あ［＃改ページ］い".to_string()).unwrap();
    assert_eq!(tokens.len(), 3);
    match &tokens[1] {
        AozoraToken::Command(c) => {
            assert_eq!(c.span.start, 1);
            assert_eq!(c.span.end, 8);
        }
        _ => panic!("Expected Command"),
    }
}

#[test]
fn unclosed_command_at_end_of_input() {
    match parse_aozora("あ［＃改ページ".to_string()) {
        Err(TokenizeError::UnclosedCommand(s)) => {
            assert_eq!(s.start, 1);
            assert_eq!(s.end, 7);
        }
        Ok(_) => panic!("Expected an error"),
    }
}

#[test]
fn unclosed_command_at_whitespace() {
    match parse_aozora("［＃改　ページ］".to_string()) {
        Err(TokenizeError::UnclosedCommand(s)) => {
            assert_eq!(s.start, 0);
            assert_eq!(s.end, 3);
        }
        Ok(_) => panic!("Expected an error"),
    }
}

#[test]
fn spans_tile_the_input() {
    let text = "Title\n漢字《かんじ》／＼／″＼｜青空［＃改ページ］end";
    let n = text.chars().count();
    let tokens = parse_aozora(text.to_string()).unwrap();
    let spans: Vec<(usize, usize)> = tokens
        .iter()
        .map(|t| match t {
            AozoraToken::Text(x) => (x.span.start, x.span.end),
            AozoraToken::Ruby { span, .. } => (span.start, span.end),
            AozoraToken::RubySeparator(s) => (s.start, s.end),
            AozoraToken::Command(c) => (c.span.start, c.span.end),
            AozoraToken::Newline(s) => (s.start, s.end),
            AozoraToken::Odoriji(s) => (s.start, s.end),
            AozoraToken::DakutenOdoriji(s) => (s.start, s.end),
        })
        .collect();
    assert_eq!(spans[0].0, 0);
    assert_eq!(spans[spans.len() - 1].1, n);
    for i in 0..spans.len() {
        assert!(spans[i].0 < spans[i].1);
        if i + 1 < spans.len() {
            assert_eq!(spans[i].1, spans[i + 1].0);
        }
    }
}

#[test]
fn lone_slash_starts_other_run() {
    let tokens = parse_aozora("／ab".to_string()).unwrap();
    assert_eq!(tokens.len(), 1);
    match &tokens[0] {
        AozoraToken::Text(t) => {
            assert_eq!(t.content, "／ab");
            assert_eq!(t.kind, TextKind::Other);
        }
        _ => panic!("Expected Text"),
    }
}

#[test]
fn unterminated_gloss_runs_to_end() {
    let tokens = parse_aozora("字《かな".to_string()).unwrap();
    assert_eq!(tokens.len(), 2);
    match &tokens[1] {
        AozoraToken::Ruby { content, span } => {
            assert_eq!(content, "かな");
            assert_eq!(span.start, 1);
            assert_eq!(span.end, 4);
        }
        _ => panic!("Expected Ruby"),
    }
}
