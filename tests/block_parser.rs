use aozora_parser::command::{Alignment, Command, CommandBegin, CommandEnd};
use aozora_parser::{parse_blocks, BlockElement, BlockParseError, DecoratedText, ParsedItem, Span};

fn make_text(s: &str) -> ParsedItem {
    ParsedItem::Text(DecoratedText { text: s.to_string(), ruby: None, span: Span::default() })
}

fn text_at(s: &str, a: usize, b: usize) -> ParsedItem {
    ParsedItem::Text(DecoratedText { text: s.to_string(), ruby: None, span: Span::new(a, b) })
}

#[test]
fn block_parser_test_simple_items() {
    let items = vec![make_text("abc"), make_text("def")];
    let root = parse_blocks(items).unwrap();

    assert_eq!(root.decoration, None);
    assert_eq!(root.elements.len(), 2);
    if let BlockElement::Item(ParsedItem::Text(t)) = &root.elements[0] {
        assert_eq!(t.text, "abc");
    } else {
        panic!("Expected item");
    }
}

#[test]
fn block_parser_test_nested_block() {
    let items = vec![
        ParsedItem::Command { cmd: Command::CommandBegin(CommandBegin::Alignment(Alignment { is_upper: true, space: 1 })), span: Span::new(0, 10) },
        make_text("indented"),
        ParsedItem::Command { cmd: Command::CommandEnd(CommandEnd::Alignment), span: Span::new(18, 28) },
    ];

    let root = parse_blocks(items).unwrap();
    assert_eq!(root.elements.len(), 1);

    if let BlockElement::Block(b) = &root.elements[0] {
        assert!(matches!(b.decoration, Some(CommandBegin::Alignment(_))));
        assert_eq!(b.elements.len(), 1);
        if let BlockElement::Item(ParsedItem::Text(t)) = &b.elements[0] {
            assert_eq!(t.text, "indented");
        }
    } else {
        panic!("Expected block");
    }
}

#[test]
fn block_parser_test_deep_nesting() {
    let items = vec![
        ParsedItem::Command { cmd: Command::CommandBegin(CommandBegin::Yokogumi), span: Span::new(0, 5) },
        ParsedItem::Command { cmd: Command::CommandBegin(CommandBegin::Kakomikei), span: Span::new(5, 10) },
        make_text("Deep"),
        ParsedItem::Command { cmd: Command::CommandEnd(CommandEnd::Kakomikei), span: Span::new(14, 20) },
        ParsedItem::Command { cmd: Command::CommandEnd(CommandEnd::Yokogumi), span: Span::new(20, 25) },
    ];

    let root = parse_blocks(items).unwrap();
    if let BlockElement::Block(b1) = &root.elements[0] {
        assert!(matches!(b1.decoration, Some(CommandBegin::Yokogumi)));
        if let BlockElement::Block(b2) = &b1.elements[0] {
            assert!(matches!(b2.decoration, Some(CommandBegin::Kakomikei)));
            if let BlockElement::Item(ParsedItem::Text(t)) = &b2.elements[0] {
                assert_eq!(t.text, "Deep");
            }
        }
    }
}

#[test]
fn test_unclosed_auto_close() {
    let items = vec![
        ParsedItem::Command { cmd: Command::CommandBegin(CommandBegin::Yokogumi), span: Span::new(0, 5) },
        make_text("oops"),
    ];
    let root = parse_blocks(items).unwrap();
    assert_eq!(root.elements.len(), 1);
    if let BlockElement::Block(b) = &root.elements[0] {
        assert!(matches!(b.decoration, Some(CommandBegin::Yokogumi)));
        assert_eq!(b.elements.len(), 1);
    } else {
        panic!("Expected block");
    }
}

#[test]
fn block_parser_test_unexpected_end_error() {
    let items = vec![
        ParsedItem::Command { cmd: Command::CommandEnd(CommandEnd::Yokogumi), span: Span::default() },
    ];
    let res = parse_blocks(items);
    assert!(matches!(res, Err(BlockParseError::UnexpectedEnd { .. })));
}

#[test]
fn block_spans_cover_children() {
    let items = vec![
        text_at("a", 0, 1),
        ParsedItem::Command { cmd: Command::CommandBegin(CommandBegin::Kakomikei), span: Span::new(1, 5) },
        text_at("b", 5, 6),
        ParsedItem::Command { cmd: Command::CommandEnd(CommandEnd::Kakomikei), span: Span::new(6, 11) },
        ParsedItem::Command { cmd: Command::CommandBegin(CommandBegin::Yokogumi), span: Span::new(11, 16) },
        text_at("c", 16, 17),
    ];
    let root = parse_blocks(items).unwrap();
    assert_eq!(root.span, Span::new(0, 17));
    assert_eq!(root.elements.len(), 3);
    match (&root.elements[1], &root.elements[2]) {
        (BlockElement::Block(b1), BlockElement::Block(b2)) => {
            assert_eq!(b1.span, Span::new(1, 11));
            assert_eq!(b2.span, Span::new(11, 17));
        }
        _ => panic!("Expected two blocks"),
    }
}

#[test]
fn mismatched_end_closes_innermost() {
    let items = vec![
        ParsedItem::Command { cmd: Command::CommandBegin(CommandBegin::Yokogumi), span: Span::new(0, 5) },
        make_text("x"),
        ParsedItem::Command { cmd: Command::CommandEnd(CommandEnd::Kakomikei), span: Span::new(6, 9) },
        make_text("y"),
    ];
    let root = parse_blocks(items).unwrap();
    assert_eq!(root.elements.len(), 2);
    assert!(matches!(&root.elements[0], BlockElement::Block(_)));
    assert!(matches!(&root.elements[1], BlockElement::Item(ParsedItem::Text(_))));
}

#[test]
fn empty_items_give_empty_root() {
    let root = parse_blocks(Vec::new()).unwrap();
    assert_eq!(root.elements.len(), 0);
    assert_eq!(root.span, Span::default());
}

#[test]
fn stray_end_reports_its_span() {
    let items = vec![
        make_text("a"),
        ParsedItem::Command { cmd: Command::CommandEnd(CommandEnd::Alignment), span: Span::new(3, 9) },
    ];
    match parse_blocks(items) {
        Err(BlockParseError::UnexpectedEnd { end, span }) => {
            assert_eq!(end, CommandEnd::Alignment);
            assert_eq!(span, Span::new(3, 9));
        }
        _ => panic!("Expected UnexpectedEnd"),
    }
}
