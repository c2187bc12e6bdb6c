use aozora_parser::decoration::{
    decorations_from_lint, decorations_from_tokens, merge_decorations, render_to_html,
    split_into_segments, DecoratedSegment, Decoration, DecorationType,
};
use aozora_parser::{parse_aozora, LintWarning, LintWarningKind, Span};

#[test]
fn test_decoration_css_class() {
    assert_eq!(DecorationType::Command.css_class(), "deco-command");
    assert_eq!(DecorationType::LintError.css_class(), "deco-lint-error");
}

#[test]
fn test_split_into_segments() {
    let text = "漢字《かんじ》";
    let decorations = vec![
        Decoration::new(0, 2, DecorationType::Kanji),
        Decoration::new(2, 7, DecorationType::Ruby),
    ];

    let segments = split_into_segments(text, &decorations);
    assert_eq!(segments.len(), 2);
    assert_eq!(segments[0].text, "漢字");
    assert!(segments[0].classes.contains(&"deco-kanji".to_string()));
    assert_eq!(segments[1].text, "《かんじ》");
    assert!(segments[1].classes.contains(&"deco-ruby".to_string()));
}

#[test]
fn test_render_to_html() {
    let segments = vec![
        DecoratedSegment {
            text: "Hello".to_string(),
            classes: vec!["deco-command".to_string()],
            hover_message: None,
        },
        DecoratedSegment {
            text: " World".to_string(),
            classes: vec![],
            hover_message: None,
        },
    ];

    let html = render_to_html(&segments);
    assert_eq!(html, "<span class=\"deco-command\">Hello</span> World");
}

#[test]
fn decorations_follow_tokens() {
    let tokens = parse_aozora("漢字《かんじ》ab｜カナ［＃改ページ］".to_string()).unwrap();
    let decos = decorations_from_tokens(&tokens);
    let kinds: Vec<DecorationType> = decos.iter().map(|d| d.decoration_type).collect();
    assert_eq!(
        kinds,
        vec![DecorationType::Kanji, DecorationType::Ruby, DecorationType::RubySeparator, DecorationType::Katakana, DecorationType::Command]
    );
    assert_eq!((decos[4].start, decos[4].end), (12, 19));
}

#[test]
fn lint_decorations_carry_messages() {
    let warnings = vec![
        LintWarning::error(LintWarningKind::MismatchedBlockTags, Span::new(1, 3), "bad"),
        LintWarning::info(LintWarningKind::RubyWithoutText, Span::new(4, 5), "note"),
    ];
    let decos = decorations_from_lint(&warnings);
    assert_eq!(decos.len(), 2);
    assert_eq!(decos[0], Decoration::with_message(1, 3, DecorationType::LintError, "bad"));
    assert_eq!(decos[1].decoration_type, DecorationType::LintInfo);
    assert_eq!(decos[1].hover_message, Some("note".to_string()));
}

#[test]
fn merge_sorts_by_start_then_longer_first() {
    let decos = vec![
        Decoration::new(5, 6, DecorationType::Kanji),
        Decoration::new(0, 2, DecorationType::Hiragana),
        Decoration::new(0, 4, DecorationType::Command),
        Decoration::with_message(0, 2, DecorationType::LintWarning, "w"),
    ];
    let merged = merge_decorations(decos);
    let order: Vec<(usize, usize, DecorationType)> = merged.iter().map(|d| (d.start, d.end, d.decoration_type)).collect();
    assert_eq!(
        order,
        vec![
            (0, 4, DecorationType::Command),
            (0, 2, DecorationType::Hiragana),
            (0, 2, DecorationType::LintWarning),
            (5, 6, DecorationType::Kanji),
        ]
    );
}

#[test]
fn overlapping_decorations_split_and_hover() {
    let text = "abcdef";
    let decos = vec![
        Decoration::new(0, 4, DecorationType::Command),
        Decoration::with_message(2, 6, DecorationType::LintWarning, "say \"hi\""),
    ];
    let segments = split_into_segments(text, &decos);
    let texts: Vec<&str> = segments.iter().map(|s| s.text.as_str()).collect();
    assert_eq!(texts, vec!["ab", "cd", "ef"]);
    assert_eq!(segments[1].classes, vec!["deco-command".to_string(), "deco-lint-warning".to_string()]);
    assert_eq!(segments[0].hover_message, None);
    assert_eq!(segments[2].hover_message, Some("say \"hi\"".to_string()));
    let html = render_to_html(&segments);
    assert_eq!(
        html,
        "<span class=\"deco-command\">ab</span><span class=\"deco-command deco-lint-warning\" title=\"say &quot;hi&quot;\">cd</span><span class=\"deco-lint-warning\" title=\"say &quot;hi&quot;\">ef</span>"
    );
}

#[test]
fn empty_text_has_no_segments() {
    let decos = vec![Decoration::new(0, 3, DecorationType::Command)];
    assert!(split_into_segments("", &decos).is_empty());
}

#[test]
fn plain_segment_escapes_and_breaks_lines() {
    let segments = vec![DecoratedSegment { text: "a<b>&\r\nc".to_string(), classes: vec![], hover_message: None }];
    assert_eq!(render_to_html(&segments), "a&lt;b&gt;&amp;<br>c");
}

#[test]
fn editor_lint_decorations() {
    let empty = aozora_parser::lint_decorations("").unwrap();
    assert!(empty.is_empty());
    let decos = aozora_parser::lint_decorations("T\nA\n　びっくり！だね\n").unwrap();
    assert_eq!(decos.len(), 1);
    assert_eq!(decos[0].decoration_type, DecorationType::LintWarning);
    assert_eq!((decos[0].start, decos[0].end), (9, 11));
    assert!(aozora_parser::lint_decorations("T\nA\n［＃改").is_none());
}
