//! Compiles texts in the Aozora Bunko annotation convention into XHTML with a table of
//! contents, and reports stylistic diagnostics on the source.
//!
//! The pipeline: `parse_aozora` scans the text into tokens, `parse` turns tokens into a
//! header and a flat item sequence, `parse_blocks` builds the block tree, `lint` reports
//! diagnostics, and `XhtmlGenerator::generate` renders the tree.
use vstd::prelude::*;

pub mod span;
pub mod text;
pub mod tokenizer;
pub mod command;
pub mod parser;
pub mod block_parser;
pub mod linter;
pub mod xhtml_generator;
pub mod decoration;
pub mod actions;
pub mod epub;
pub mod source;

pub use block_parser::{parse_blocks, AozoraBlock, BlockElement, BlockParseError};
pub use epub::EpubGenerator;
pub use source::decode_source;
pub use linter::{lint, LintResult, LintWarning, LintWarningKind, Severity};
pub use parser::{parse, AozoraDocument, AozoraMetadata, DecoratedText, ParseError, ParsedItem, SpecialCharacter};
pub use span::Span;
pub use tokenizer::{parse_aozora, AozoraToken, CommandToken, TextKind, TextToken, TokenizeError};
pub use xhtml_generator::{TocEntry, XhtmlGenerator};

verus! {

use crate::block_parser::{build_blocks, BlockV};
use crate::linter::{indent_warnings, text_warnings, warnings_view};
use crate::parser::document_of;
use crate::tokenizer::{scan, TokenV};
use crate::xhtml_generator::{toc_of, toc_view, xhtml_of};

/// The XHTML of a text, with its table of contents and header.
#[derive(Debug, Clone)]
pub struct XhtmlOutput {
    pub xhtml: String,
    pub toc: Vec<TocEntry>,
    pub metadata: AozoraMetadata,
}

/// The XHTML of a text together with the linter's diagnostics.
#[derive(Debug, Clone)]
pub struct XhtmlOutputWithLint {
    pub xhtml: String,
    pub toc: Vec<TocEntry>,
    pub metadata: AozoraMetadata,
    pub warnings: Vec<LintWarning>,
}

/// The fatal error of a pipeline phase.
#[derive(Debug)]
pub enum ConversionError {
    Tokenize(TokenizeError),
    Parse(ParseError),
    BlockParse(BlockParseError),
}

/// What the pipeline makes of a text: the scanner's error, the builder's error, or the
/// tokens, the document (title, author, items) and the tree.
pub enum PipelineV {
    Unclosed(Span),
    BadEnd(BlockParseError),
    Done { tokens: Seq<TokenV>, title: Seq<char>, author: Seq<char>, root: BlockV },
}

pub open spec fn pipeline(text: Seq<char>) -> PipelineV {
    match scan(text, 0) {
        Err(s) => PipelineV::Unclosed(s),
        Ok(ts) => {
            let (title, author, items) = document_of(ts);
            match build_blocks(items) {
                Err(e) => PipelineV::BadEnd(e),
                Ok(root) => PipelineV::Done { tokens: ts, title, author, root },
            }
        },
    }
}

/// Runs scanner, item parser and block builder; the tree and header on success.
fn front_end(text: String) -> (r: Result<(AozoraBlock, AozoraMetadata), ConversionError>)
    requires
        text@.len() < usize::MAX,
    ensures
        match pipeline(text@) {
            PipelineV::Unclosed(s) => r matches Err(ConversionError::Tokenize(e)) && e == TokenizeError::UnclosedCommand(s),
            PipelineV::BadEnd(e) => r matches Err(ConversionError::BlockParse(e2)) && e2 == e,
            PipelineV::Done { title, author, root, .. } => r matches Ok((b, m)) && b@ == root && m.title@ == title && m.author@ == author,
        },
{
    let tokens = match parse_aozora(text) {
        Ok(t) => t,
        Err(e) => {
            return Err(ConversionError::Tokenize(e));
        },
    };
    let doc = match parse(tokens) {
        Ok(d) => d,
        Err(e) => {
            return Err(ConversionError::Parse(e));
        },
    };
    let blocks = match parse_blocks(doc.items) {
        Ok(b) => b,
        Err(e) => {
            return Err(ConversionError::BlockParse(e));
        },
    };
    Ok((blocks, doc.metadata))
}

/// Converts a text to XHTML: scans, parses, builds the tree and renders it under the title
/// from the text's first line. Fails exactly when the scanner finds an unclosed command or
/// the builder a stray end command.
pub fn text_to_xhtml(text: String) -> (r: Result<XhtmlOutput, ConversionError>)
    requires
        text@.len() < usize::MAX,
    ensures
        match pipeline(text@) {
            PipelineV::Unclosed(s) => r matches Err(ConversionError::Tokenize(e)) && e == TokenizeError::UnclosedCommand(s),
            PipelineV::BadEnd(e) => r matches Err(ConversionError::BlockParse(e2)) && e2 == e,
            PipelineV::Done { title, author, root, .. } => r matches Ok(o) && o.xhtml@ == xhtml_of(root, title)
                && toc_view(o.toc@) == toc_of(root) && o.metadata.title@ == title && o.metadata.author@ == author,
        },
{
    let (blocks, metadata) = front_end(text)?;
    let (xhtml, toc) = XhtmlGenerator::generate(&blocks, metadata.title.as_str());
    Ok(XhtmlOutput { xhtml, toc, metadata })
}

/// As `text_to_xhtml`, with the linter's diagnostics of the tree and the text.
pub fn text_to_xhtml_with_lint(text: String) -> (r: Result<XhtmlOutputWithLint, ConversionError>)
    requires
        text@.len() < usize::MAX,
    ensures
        match pipeline(text@) {
            PipelineV::Unclosed(s) => r matches Err(ConversionError::Tokenize(e)) && e == TokenizeError::UnclosedCommand(s),
            PipelineV::BadEnd(e) => r matches Err(ConversionError::BlockParse(e2)) && e2 == e,
            PipelineV::Done { title, author, root, .. } => r matches Ok(o) && o.xhtml@ == xhtml_of(root, title)
                && toc_view(o.toc@) == toc_of(root) && o.metadata.title@ == title && o.metadata.author@ == author
                && warnings_view(o.warnings@) == indent_warnings(root) + text_warnings(text@, 0),
        },
{
    let source = text.clone();
    let (blocks, metadata) = front_end(text)?;
    let lint_result = lint(blocks, source.as_str());
    let (xhtml, toc) = XhtmlGenerator::generate(&lint_result.block, metadata.title.as_str());
    Ok(XhtmlOutputWithLint { xhtml, toc, metadata, warnings: lint_result.warnings })
}

/// The linter's diagnostics of a text: those of its tree, then those of its characters.
/// Fails as `text_to_xhtml` does.
pub fn run_lint(text: &str) -> (r: Result<Vec<LintWarning>, ConversionError>)
    requires
        text@.len() < usize::MAX,
    ensures
        match pipeline(text@) {
            PipelineV::Unclosed(s) => r matches Err(ConversionError::Tokenize(e)) && e == TokenizeError::UnclosedCommand(s),
            PipelineV::BadEnd(e) => r matches Err(ConversionError::BlockParse(e2)) && e2 == e,
            PipelineV::Done { root, .. } => r matches Ok(w) && warnings_view(w@) == indent_warnings(root) + text_warnings(text@, 0),
        },
{
    let (blocks, _) = front_end(text.to_owned())?;
    let result = lint(blocks, text);
    Ok(result.warnings)
}

/// The package generator for a text: its tree under its title and author, with a fresh
/// identifier. Fails as `text_to_xhtml` does.
pub fn prepare_epub(text: String) -> (r: Result<EpubGenerator, ConversionError>)
    requires
        text@.len() < usize::MAX,
    ensures
        match pipeline(text@) {
            PipelineV::Unclosed(s) => r matches Err(ConversionError::Tokenize(e)) && e == TokenizeError::UnclosedCommand(s),
            PipelineV::BadEnd(e) => r matches Err(ConversionError::BlockParse(e2)) && e2 == e,
            PipelineV::Done { title, author, root, .. } => r matches Ok(g) && g.spec_title() == title
                && g.spec_creator() == author && g.spec_blocks() == root,
        },
{
    let (blocks, metadata) = front_end(text)?;
    Ok(EpubGenerator::new(metadata.title, metadata.author, blocks))
}

/// The editor's lint decorations for a text: none for an empty text, one per diagnostic
/// otherwise; `None` when the text does not convert, so that the editor keeps what it shows.
pub fn lint_decorations(text: &str) -> (r: Option<Vec<decoration::Decoration>>)
    requires
        text@.len() < usize::MAX,
    ensures
        text@.len() == 0 ==> (r matches Some(d) && d@.len() == 0),
        text@.len() > 0 ==> match pipeline(text@) {
            PipelineV::Done { root, .. } => r matches Some(d) && {
                let ws = indent_warnings(root) + text_warnings(text@, 0);
                &&& d@.len() == ws.len()
                &&& forall|i: int| 0 <= i < ws.len() ==> #[trigger] d@[i]@ == decoration::lint_decoration(ws[i])
            },
            _ => r is None,
        },
{
    if text.is_empty() {
        return Some(Vec::new());
    }
    match run_lint(text) {
        Ok(warnings) => Some(decoration::decorations_from_lint(warnings.as_slice())),
        Err(_) => None,
    }
}

/// TOC cardinality for a text's tree: the table of contents has one entry per heading block
/// below the root that is not run in with the text, plus one per reference-heading command.
pub proof fn law_toc_counts_headings_below_root(items: Seq<crate::parser::ItemV>)
    ensures
        build_blocks(items) matches Ok(root) ==> toc_of(root).len()
            == crate::xhtml_generator::elems_heading_count(root.elements),
{
    crate::block_parser::lemma_built_root_undecorated(items);
    if let Ok(root) = build_blocks(items) {
        crate::xhtml_generator::law_toc_counts_headings(root);
    }
}

} // verus!
