use aozora_parser::command::{Command, CommandBegin, CommandEnd, Midashi, MidashiSize, MidashiType, SingleCommand};
use aozora_parser::xhtml_generator::escape_html;
use aozora_parser::{parse_blocks, text_to_xhtml, DecoratedText, ParsedItem, Span, XhtmlGenerator};

#[test]
fn xhtml_generator_test_simple_html_generation() {
    let items = vec![ParsedItem::Text(DecoratedText {
        text: "Hello".to_string(),
        ruby: None,
        span: Span::default(),
    })];
    let root = parse_blocks(items).unwrap();
    let (html, _) = XhtmlGenerator::generate(&root, "Test");
    assert!(html.contains("Hello"));
}

#[test]
fn test_midashi_html_structure() {
    let items = vec![
        ParsedItem::Command {
            cmd: Command::CommandBegin(CommandBegin::Midashi(Midashi { size: MidashiSize::Large, kind: MidashiType::Normal })),
            span: Span::new(0, 8),
        },
        ParsedItem::Text(DecoratedText { text: "見出し".to_string(), ruby: None, span: Span::new(8, 11) }),
        ParsedItem::Command {
            cmd: Command::CommandEnd(CommandEnd::Midashi(Midashi { size: MidashiSize::Large, kind: MidashiType::Normal })),
            span: Span::new(11, 22),
        },
    ];
    let root = parse_blocks(items).unwrap();
    let (html, toc) = XhtmlGenerator::generate(&root, "Test");
    println!("Generated HTML: {}", html);

    assert!(html.contains("<h2 id=\"midashi-1\">見出し</h2>"));
    assert!(!html.contains("<p>見出し</p>"));

    assert_eq!(toc.len(), 1);
    assert_eq!(toc[0].text, "見出し");
    assert_eq!(toc[0].level, 2);
    assert_eq!(toc[0].id, "midashi-1");
}

#[test]
fn escape_replaces_five_characters() {
    assert_eq!(escape_html("a&b<c>d\"e'f"), "a&amp;b&lt;c&gt;d&quot;e&apos;f");
    assert_eq!(escape_html("漢字"), "漢字");
}

#[test]
fn escaped_text_decodes_back() {
    let s = "<tag a=\"1\" b='2'>&amp;</tag>";
    let e = escape_html(s);
    let back = e
        .replace("&lt;", "<")
        .replace("&gt;", ">")
        .replace("&quot;", "\"")
        .replace("&apos;", "'")
        .replace("&amp;", "&");
    assert_eq!(back, s);
}

#[test]
fn body_of_a_small_document() {
    let out = text_to_xhtml("T\nA\n漢字《かんじ》と／＼\n\n［＃改ページ］".to_string()).unwrap();
    assert!(out.xhtml.contains(
        "<div class=\"main\">\n<div><p><ruby>漢字<rt>かんじ</rt></ruby>と／＼</p><p><br/></p><p><div class=\"page-break\"></div></p></div>\n</div>"
    ));
    assert!(out.xhtml.starts_with("<?xml version=\"1.0\" encoding=\"UTF-8\"?>"));
    assert!(out.xhtml.contains("<title>T</title>"));
    assert!(out.xhtml.contains("href=\"../style/book-style.css\""));
}

#[test]
fn indent_and_inline_heading_rendering() {
    let out = text_to_xhtml("T\nA\n［＃ここから２字下げ］本文\n［＃ここで字下げ終わり］［＃同行小見出し］節［＃同行小見出し終わり］".to_string()).unwrap();
    assert!(out.xhtml.contains("<div class=\"jisage-2\"><p>本文</p></div>"));
    assert!(out.xhtml.contains("<span class=\"midashi-dogyo\"><p>節</p></span>"));
    assert!(out.toc.is_empty());
}

#[test]
fn toc_counts_heading_blocks_and_references() {
    let out = text_to_xhtml("T\nA\n［＃大見出し］一［＃大見出し終わり］\n二［＃「二」は中見出し］\n三［＃「四」は小見出し］\n".to_string()).unwrap();
    assert_eq!(out.toc.len(), 3);
    assert_eq!(out.toc[0].id, "midashi-1");
    assert_eq!(out.toc[0].level, 2);
    assert_eq!(out.toc[1].text, "二");
    assert_eq!(out.toc[1].level, 3);
    assert_eq!(out.toc[2].text, "四");
    assert_eq!(out.toc[2].level, 4);
    assert_eq!(out.toc[2].id, "midashi-3");
    assert!(out.xhtml.contains("<h4 id=\"midashi-3\">四</h4>"));
}

#[test]
fn emitting_twice_gives_equal_output() {
    let text = "T\nA\n［＃大見出し］序章［＃大見出し終わり］\n本文《ほんぶん》\n";
    let a = text_to_xhtml(text.to_string()).unwrap();
    let b = text_to_xhtml(text.to_string()).unwrap();
    assert_eq!(a.xhtml, b.xhtml);
    assert_eq!(a.toc.len(), b.toc.len());
    assert_eq!(a.toc[0].id, b.toc[0].id);
}

#[test]
fn bold_command_text_is_escaped() {
    let items = vec![ParsedItem::Command { cmd: Command::SingleCommand(SingleCommand::Bold("<b>".to_string())), span: Span::default() }];
    let root = parse_blocks(items).unwrap();
    let (html, _) = XhtmlGenerator::generate(&root, "t");
    assert!(html.contains("<div><p><span class=\"bold\">&lt;b&gt;</span></p></div>"));
}
