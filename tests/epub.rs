use aozora_parser::{decode_source, parse, parse_aozora, parse_blocks, EpubGenerator};

fn generator(text: &str) -> EpubGenerator {
    let doc = parse(parse_aozora(text.to_string()).unwrap()).unwrap();
    let root = parse_blocks(doc.items).unwrap();
    EpubGenerator::with_identifier(doc.metadata.title, doc.metadata.author, root, "id-1".to_string())
}

#[test]
fn package_document_names_title_creator_and_id() {
    let g = generator("題\n著者\n本文\n");
    let opf = g.generate_opf("2024-01-02T03:04:05Z");
    assert!(opf.contains("<dc:title id=\"title\">題</dc:title>"));
    assert!(opf.contains("<dc:creator id=\"creator\">著者</dc:creator>"));
    assert!(opf.contains("<dc:identifier id=\"unique-id\">urn:uuid:id-1</dc:identifier>"));
    assert!(opf.contains("<meta property=\"dcterms:modified\">2024-01-02T03:04:05Z</meta>"));
}

#[test]
fn navigation_lists_headings_or_the_text() {
    let g = generator("題\n著者\n［＃大見出し］一［＃大見出し終わり］\n");
    let (xhtml, toc) = g.content();
    assert!(xhtml.contains("<h2 id=\"midashi-1\">一</h2>"));
    let nav = g.generate_nav(&toc);
    assert!(nav.contains("<ol>\n<li><a href=\"xhtml/content.xhtml#midashi-1\">一</a></li>\n</ol>\n"));
    let empty = g.generate_nav(&[]);
    assert!(empty.contains("<ol>\n<li><a href=\"xhtml/content.xhtml\">本文</a></li>\n</ol>\n"));
}

#[test]
fn container_and_stylesheet() {
    let g = generator("題\n著者\n");
    assert!(g.generate_container().contains("full-path=\"item/standard.opf\""));
    assert!(g.generate_css().contains("writing-mode: vertical-rl;"));
}

#[test]
fn fresh_identifiers_are_uuids() {
    let doc = parse(parse_aozora("題\n著者\n".to_string()).unwrap()).unwrap();
    let root = parse_blocks(doc.items).unwrap();
    let g = EpubGenerator::new(doc.metadata.title, doc.metadata.author, root);
    let opf = g.generate_opf("t");
    let start = opf.find("urn:uuid:").unwrap() + "urn:uuid:".len();
    let end = opf[start..].find('<').unwrap() + start;
    assert_eq!(end - start, 36);
    let id: Vec<char> = opf[start..end].chars().collect();
    for (i, c) in id.iter().enumerate() {
        if i == 8 || i == 13 || i == 18 || i == 23 {
            assert_eq!(*c, '-');
        } else {
            assert!(c.is_ascii_digit() || ('a'..='f').contains(c));
        }
    }
}

#[test]
fn shift_jis_source_decodes() {
    assert_eq!(decode_source(&[0x8A, 0xBF, 0x8E, 0x9A]), "漢字");
}

#[test]
fn utf8_source_with_bom_decodes() {
    let mut bytes = vec![0xEF, 0xBB, 0xBF];
    bytes.extend_from_slice("漢字".as_bytes());
    assert_eq!(decode_source(&bytes), "漢字");
}

#[test]
fn utf8_source_falls_back() {
    assert_eq!(decode_source("漢字です".as_bytes()), "漢字です");
}

#[test]
fn prepared_package_carries_header_and_tree() {
    let g = aozora_parser::prepare_epub("題名\n作者\n［＃大見出し］序［＃大見出し終わり］\n".to_string()).unwrap();
    let opf = g.generate_opf("t");
    assert!(opf.contains("<dc:title id=\"title\">題名</dc:title>"));
    assert!(opf.contains("<dc:creator id=\"creator\">作者</dc:creator>"));
    let (_, toc) = g.content();
    assert_eq!(toc.len(), 1);
    assert_eq!(toc[0].text, "序");
}

#[test]
fn prepared_package_reports_unclosed_command() {
    assert!(matches!(
        aozora_parser::prepare_epub("題名\n作者\n［＃改ページ".to_string()),
        Err(aozora_parser::ConversionError::Tokenize(_))
    ));
}
