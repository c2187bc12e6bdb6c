//! The documents of an EPUB package, apart from the archive itself.
use vstd::prelude::*;

use crate::block_parser::AozoraBlock;
use crate::text::push_str;
use crate::xhtml_generator::{TocEntry, XhtmlGenerator, toc_of, toc_view, xhtml_of};

verus! {

/// `META-INF/container.xml` of the package.
pub const CONTAINER_XML: &'static str = "<?xml version=\"1.0\"?>\n<container version=\"1.0\" xmlns=\"urn:oasis:names:tc:opendocument:xmlns:container\">\n<rootfiles>\n<rootfile full-path=\"item/standard.opf\" media-type=\"application/oebps-package+xml\"/>\n</rootfiles>\n</container>";
/// Package document before the title.
pub const OPF_HEAD: &'static str = "<?xml version=\"1.0\" encoding=\"UTF-8\"?>\n<package xmlns=\"http://www.idpf.org/2007/opf\" version=\"3.0\" xml:lang=\"ja\" unique-identifier=\"unique-id\">\n<metadata xmlns:dc=\"http://purl.org/dc/elements/1.1/\">\n<dc:title id=\"title\">";
/// Package document between title and creator.
pub const OPF_AFTER_TITLE: &'static str = "</dc:title>\n<dc:creator id=\"creator\">";
/// Package document between creator and identifier.
pub const OPF_AFTER_CREATOR: &'static str = "</dc:creator>\n<dc:language>ja</dc:language>\n<dc:identifier id=\"unique-id\">urn:uuid:";
/// Package document between identifier and modification time.
pub const OPF_AFTER_ID: &'static str = "</dc:identifier>\n<meta property=\"dcterms:modified\">";
/// Package document after the modification time.
pub const OPF_TAIL: &'static str = "</meta>\n</metadata>\n<manifest>\n<item media-type=\"application/xhtml+xml\" id=\"nav\" href=\"nav.xhtml\" properties=\"nav\"/>\n<item id=\"style\" href=\"style/aozora.css\" media-type=\"text/css\"/>\n<item id=\"content\" href=\"xhtml/content.xhtml\" media-type=\"application/xhtml+xml\"/>\n</manifest>\n<spine page-progression-direction=\"rtl\">\n<itemref idref=\"nav\"/>\n<itemref idref=\"content\"/>\n</spine>\n</package>";
/// Navigation document before the list.
pub const NAV_HEAD: &'static str = "<?xml version=\"1.0\" encoding=\"UTF-8\"?>\n<!DOCTYPE html>\n<html xmlns=\"http://www.w3.org/1999/xhtml\" xmlns:epub=\"http://www.idpf.org/2007/ops\" lang=\"ja\" xml:lang=\"ja\">\n<head>\n<meta charset=\"UTF-8\"/>\n<title>Navigation</title>\n</head>\n<body>\n<nav epub:type=\"toc\" id=\"toc\">\n<h1>目次</h1>\n";
/// Navigation document after the list.
pub const NAV_TAIL: &'static str = "\n</nav>\n</body>\n</html>";
/// The stylesheet of the package: vertical writing and the classes the emitter uses.
pub const STYLESHEET: &'static str = "@charset \"utf-8\";\nhtml {\n  writing-mode: vertical-rl;\n  -webkit-writing-mode: vertical-rl;\n  -epub-writing-mode: vertical-rl;\n}\nbody {\n  font-family: serif;\n}\n.jisage-1 { margin-inline-start: 1em; }\n.jisage-2 { margin-inline-start: 2em; }\n.jisage-3 { margin-inline-start: 3em; }\n.chitsuki-1 { margin-block-end: 1em; text-align: right; }\n.bousen { text-decoration: underline; text-decoration-style: solid; text-decoration-skip-ink: none; }\n.em { font-weight: bold; } /* Simplified */\n.kaimihiraki { height: 100vh; width: 100%; break-after: always; }\n.page-break { break-after: page; }\n.column-break { break-after: column; }\n/* ... Add more as needed ... */\n";

/// A UUID in hyphenated form: 36 characters, lowercase hex digits in groups of 8, 4, 4, 4
/// and 12 separated by hyphens.
pub open spec fn hyphenated_uuid(s: Seq<char>) -> bool {
    &&& s.len() == 36
    &&& forall|i: int| 0 <= i < 36 ==> if i == 8 || i == 13 || i == 18 || i == 23 {
        #[trigger] s[i] == '-'
    } else {
        ('0' <= s[i] && s[i] <= '9') || ('a' <= s[i] && s[i] <= 'f')
    }
}

/// Relies on uuid's `Uuid::new_v4` and its `Display`, which writes the lowercase hyphenated
/// form: a random identifier, as text.
#[verifier::external_body]
fn new_identifier() -> (r: String)
    ensures
        hyphenated_uuid(r@),
{
    uuid::Uuid::new_v4().to_string()
}

/// The parts of an EPUB package for one document: title, creator, block tree and identifier.
pub struct EpubGenerator {
    title: String,
    creator: String,
    blocks: AozoraBlock,
    uuid: String,
}

/// One navigation entry: a link to the heading's id, showing its text.
pub open spec fn nav_entry(e: crate::xhtml_generator::TocV) -> Seq<char> {
    "<li><a href=\"xhtml/content.xhtml#"@ + e.id + "\">"@ + e.text + "</a></li>\n"@
}

pub open spec fn nav_entries(t: Seq<crate::xhtml_generator::TocV>) -> Seq<char>
    decreases t.len(),
{
    if t.len() == 0 {
        Seq::empty()
    } else {
        nav_entries(t.drop_last()) + nav_entry(t.last())
    }
}

/// The list of the navigation document: one entry per heading, or a link to the text when
/// there is no heading.
pub open spec fn nav_list(t: Seq<crate::xhtml_generator::TocV>) -> Seq<char> {
    "<ol>\n"@ + (if t.len() == 0 {
        "<li><a href=\"xhtml/content.xhtml\">本文</a></li>\n"@
    } else {
        nav_entries(t)
    }) + "</ol>\n"@
}

impl EpubGenerator {
    pub closed spec fn spec_title(&self) -> Seq<char> {
        self.title@
    }

    pub closed spec fn spec_creator(&self) -> Seq<char> {
        self.creator@
    }

    pub closed spec fn spec_blocks(&self) -> crate::block_parser::BlockV {
        self.blocks@
    }

    pub closed spec fn spec_identifier(&self) -> Seq<char> {
        self.uuid@
    }

    /// A package for the document, with a fresh random identifier.
    pub fn new(title: String, creator: String, blocks: AozoraBlock) -> (r: EpubGenerator)
        ensures
            r.spec_title() == title@,
            r.spec_creator() == creator@,
            r.spec_blocks() == blocks@,
            hyphenated_uuid(r.spec_identifier()),
    {
        let uuid = new_identifier();
        Self::with_identifier(title, creator, blocks, uuid)
    }

    /// A package for the document with the given identifier.
    pub fn with_identifier(title: String, creator: String, blocks: AozoraBlock, uuid: String) -> (r: EpubGenerator)
        ensures
            r.spec_title() == title@,
            r.spec_creator() == creator@,
            r.spec_blocks() == blocks@,
            r.spec_identifier() == uuid@,
    {
        EpubGenerator { title, creator, blocks, uuid }
    }

    /// The content document and its table of contents.
    pub fn content(&self) -> (r: (String, Vec<TocEntry>))
        ensures
            r.0@ == xhtml_of(self.spec_blocks(), self.spec_title()),
            toc_view(r.1@) == toc_of(self.spec_blocks()),
    {
        XhtmlGenerator::generate(&self.blocks, self.title.as_str())
    }

    /// `META-INF/container.xml`.
    pub fn generate_container(&self) -> (r: String)
        ensures
            r@ == CONTAINER_XML@,
    {
        CONTAINER_XML.to_owned()
    }

    /// The package document, last modified at `modified`.
    pub fn generate_opf(&self, modified: &str) -> (r: String)
        ensures
            r@ == OPF_HEAD@ + self.spec_title() + OPF_AFTER_TITLE@ + self.spec_creator() + OPF_AFTER_CREATOR@
                + self.spec_identifier() + OPF_AFTER_ID@ + modified@ + OPF_TAIL@,
    {
        let mut r = OPF_HEAD.to_owned();
        push_str(&mut r, self.title.as_str());
        push_str(&mut r, OPF_AFTER_TITLE);
        push_str(&mut r, self.creator.as_str());
        push_str(&mut r, OPF_AFTER_CREATOR);
        push_str(&mut r, self.uuid.as_str());
        push_str(&mut r, OPF_AFTER_ID);
        push_str(&mut r, modified);
        push_str(&mut r, OPF_TAIL);
        r
    }

    /// The navigation document for a table of contents.
    pub fn generate_nav(&self, toc: &[TocEntry]) -> (r: String)
        ensures
            r@ == NAV_HEAD@ + nav_list(toc_view(toc@)) + NAV_TAIL@,
    {
        let ghost tv = toc_view(toc@);
        let mut r = NAV_HEAD.to_owned();
        push_str(&mut r, "<ol>\n");
        let ghost r0 = r@;
        if toc.len() == 0 {
            push_str(&mut r, "<li><a href=\"xhtml/content.xhtml\">本文</a></li>\n");
        } else {
            let mut i: usize = 0;
            while i < toc.len()
                invariant
                    tv == toc_view(toc@),
                    i <= toc@.len(),
                    r@ == r0 + nav_entries(tv.take(i as int)),
                decreases toc@.len() - i,
            {
                let entry = &toc[i];
                push_str(&mut r, "<li><a href=\"xhtml/content.xhtml#");
                push_str(&mut r, entry.id.as_str());
                push_str(&mut r, "\">");
                push_str(&mut r, entry.text.as_str());
                push_str(&mut r, "</a></li>\n");
                assert(tv.take(i + 1).drop_last() =~= tv.take(i as int));
                assert(r@ =~= r0 + nav_entries(tv.take(i + 1)));
                i += 1;
            }
            assert(tv.take(i as int) =~= tv);
        }
        push_str(&mut r, "</ol>\n");
        push_str(&mut r, NAV_TAIL);
        assert(r@ =~= NAV_HEAD@ + nav_list(tv) + NAV_TAIL@);
        r
    }

    /// The package stylesheet.
    pub fn generate_css(&self) -> (r: String)
        ensures
            r@ == STYLESHEET@,
    {
        STYLESHEET.to_owned()
    }
}

} // verus!
