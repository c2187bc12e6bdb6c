use aozora_parser::command::{
    full_width_digit_to_u32, parse_command, Command, CommandBegin, CommandEnd, MidashiSize,
    MidashiType, SingleCommand,
};
use aozora_parser::{CommandToken, Span};

fn token(s: &str) -> CommandToken {
    CommandToken { content: s.to_string(), span: Span::default() }
}

#[test]
fn test_midashi_ref() {
    let cmd = parse_command(token("「独り寝の別れ」は大見出し")).unwrap();
    match cmd {
        Command::SingleCommand(SingleCommand::Midashi((m, c))) => {
            assert_eq!(m.size, MidashiSize::Large);
            assert_eq!(m.kind, MidashiType::Normal);
            assert_eq!(c, "独り寝の別れ");
        }
        _ => panic!("Expected Midashi SingleCommand"),
    }

    let cmd = parse_command(token("「入藏を思ひ立ツた原因」は同行中見出し")).unwrap();
    match cmd {
        Command::SingleCommand(SingleCommand::Midashi((m, c))) => {
            assert_eq!(m.size, MidashiSize::Middle);
            assert_eq!(m.kind, MidashiType::Dogyo);
            assert_eq!(c, "入藏を思ひ立ツた原因");
        }
        _ => panic!("Expected Midashi SingleCommand"),
    }

    let cmd = parse_command(token("「青空文庫」は窓中見出し")).unwrap();
    match cmd {
        Command::SingleCommand(SingleCommand::Midashi((m, c))) => {
            assert_eq!(m.size, MidashiSize::Middle);
            assert_eq!(m.kind, MidashiType::Mado);
            assert_eq!(c, "青空文庫");
        }
        _ => panic!("Expected Midashi SingleCommand"),
    }
}

#[test]
fn test_midashi_begin() {
    let cmd = parse_command(token("大見出し")).unwrap();
    match cmd {
        Command::CommandBegin(CommandBegin::Midashi(m)) => {
            assert_eq!(m.size, MidashiSize::Large);
            assert_eq!(m.kind, MidashiType::Normal);
        }
        _ => panic!("Expected Midashi CommandBegin"),
    }

    let cmd = parse_command(token("同行小見出し")).unwrap();
    match cmd {
        Command::CommandBegin(CommandBegin::Midashi(m)) => {
            assert_eq!(m.size, MidashiSize::Small);
            assert_eq!(m.kind, MidashiType::Dogyo);
        }
        _ => panic!("Expected Midashi CommandBegin"),
    }

    let cmd = parse_command(token("ここから窓中見出し")).unwrap();
    match cmd {
        Command::CommandBegin(CommandBegin::Midashi(m)) => {
            assert_eq!(m.size, MidashiSize::Middle);
            assert_eq!(m.kind, MidashiType::Mado);
        }
        _ => panic!("Expected Midashi CommandBegin"),
    }
}

#[test]
fn test_midashi_end() {
    let cmd = parse_command(token("大見出し終わり")).unwrap();
    match cmd {
        Command::CommandEnd(CommandEnd::Midashi(m)) => {
            assert_eq!(m.size, MidashiSize::Large);
            assert_eq!(m.kind, MidashiType::Normal);
        }
        _ => panic!("Expected Midashi CommandEnd"),
    }

    let cmd = parse_command(token("ここで窓中見出し終わり")).unwrap();
    match cmd {
        Command::CommandEnd(CommandEnd::Midashi(m)) => {
            assert_eq!(m.size, MidashiSize::Middle);
            assert_eq!(m.kind, MidashiType::Mado);
        }
        _ => panic!("Expected Midashi CommandEnd"),
    }
}

#[test]
fn test_jisage() {
    let cmd = parse_command(token("１字下げ")).unwrap();
    match cmd {
        Command::SingleCommand(SingleCommand::Alignment(a)) => {
            assert_eq!(a.space, 1);
            assert!(a.is_upper);
        }
        _ => panic!("Expected Alignment SingleCommand"),
    }

    let cmd = parse_command(token("ここから１０字下げ")).unwrap();
    match cmd {
        Command::CommandBegin(CommandBegin::Alignment(a)) => {
            assert_eq!(a.space, 10);
            assert!(a.is_upper);
        }
        _ => panic!("Expected Alignment CommandBegin"),
    }
}

#[test]
fn page_break_literals_and_indent_end() {
    assert!(matches!(parse_command(token("改丁")), Some(Command::SingleCommand(SingleCommand::Kaicho))));
    assert!(matches!(parse_command(token("改ページ")), Some(Command::SingleCommand(SingleCommand::Kaipage))));
    assert!(matches!(parse_command(token("改見開き")), Some(Command::SingleCommand(SingleCommand::Kaimihiraki))));
    assert!(matches!(parse_command(token("改段")), Some(Command::SingleCommand(SingleCommand::Kaidan))));
    assert!(matches!(parse_command(token("ここで字下げ終わり")), Some(Command::CommandEnd(CommandEnd::Alignment))));
}

fn assert_unknown(body: &str) {
    match parse_command(token(body)) {
        Some(Command::Unknown(raw)) => assert_eq!(raw, body),
        _ => panic!("Expected Unknown"),
    }
}

#[test]
fn unrecognised_bodies() {
    assert_unknown("ほげ");
    assert_unknown("傍点");
    assert_unknown("特大見出し");
    assert_unknown("「」は大見出し");
    assert_unknown("９９９９９９９９９９９字下げ");
}

#[test]
fn reference_heading_takes_shortest_content() {
    let cmd = parse_command(token("「あ」は「い」は小見出し")).unwrap();
    match cmd {
        Command::SingleCommand(SingleCommand::Midashi((m, c))) => {
            assert_eq!(m.size, MidashiSize::Small);
            assert_eq!(c, "あ」は「い");
        }
        _ => panic!("Expected Midashi SingleCommand"),
    }
}

#[test]
fn full_width_digits() {
    assert_eq!(full_width_digit_to_u32("１２３"), Some(123));
    assert_eq!(full_width_digit_to_u32("０"), Some(0));
    assert_eq!(full_width_digit_to_u32("４２９４９６７２９５"), Some(4294967295));
    assert_eq!(full_width_digit_to_u32("４２９４９６７２９６"), None);
    assert_eq!(full_width_digit_to_u32(""), None);
    assert_eq!(full_width_digit_to_u32("１a"), None);
    assert_eq!(full_width_digit_to_u32("+７"), Some(7));
}
