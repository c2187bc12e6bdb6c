//! The linter: paragraph indentation over the tree, punctuation rules over the text.
use vstd::prelude::*;
use vstd::string::StrSliceExecFns;

use crate::block_parser::{AozoraBlock, BlockElement, BlockV, ElemV, lemma_elems_view, elems_view};
use crate::parser::{ItemV, ParsedItem};
use crate::span::Span;
use crate::text::{chars_of, push_str};

verus! {

/// Severity of a diagnostic.
#[derive(Debug, Clone, Copy, PartialEq, Eq, Structural)]
pub enum Severity {
    Error,
    Warning,
    Info,
}

/// What a diagnostic reports. The first three kinds are reserved: no rule emits them yet.
#[derive(Debug, Clone, PartialEq)]
pub enum LintWarningKind {
    RubyWithoutText,
    UnknownCommand(String),
    MismatchedBlockTags,
    MissingParagraphIndent,
    PunctuationBeforeQuote,
    OddEllipsisCount,
    InvalidCharAfterExclamation,
}

/// A diagnostic with its place in the source and a message for people.
#[derive(Debug, Clone)]
pub struct LintWarning {
    pub kind: LintWarningKind,
    pub span: Span,
    pub severity: Severity,
    pub message: String,
}

/// The tree handed to the linter, with the diagnostics found.
#[derive(Debug, Clone)]
pub struct LintResult {
    pub block: AozoraBlock,
    pub warnings: Vec<LintWarning>,
}

/// Mathematical form of a diagnostic kind.
pub enum LintKindV {
    RubyWithoutText,
    UnknownCommand(Seq<char>),
    MismatchedBlockTags,
    MissingParagraphIndent,
    PunctuationBeforeQuote,
    OddEllipsisCount,
    InvalidCharAfterExclamation,
}

/// Mathematical form of a diagnostic.
pub struct LintWarningV {
    pub kind: LintKindV,
    pub span: Span,
    pub severity: Severity,
    pub message: Seq<char>,
}

impl View for LintWarningKind {
    type V = LintKindV;

    open spec fn view(&self) -> LintKindV {
        match self {
            LintWarningKind::RubyWithoutText => LintKindV::RubyWithoutText,
            LintWarningKind::UnknownCommand(s) => LintKindV::UnknownCommand(s@),
            LintWarningKind::MismatchedBlockTags => LintKindV::MismatchedBlockTags,
            LintWarningKind::MissingParagraphIndent => LintKindV::MissingParagraphIndent,
            LintWarningKind::PunctuationBeforeQuote => LintKindV::PunctuationBeforeQuote,
            LintWarningKind::OddEllipsisCount => LintKindV::OddEllipsisCount,
            LintWarningKind::InvalidCharAfterExclamation => LintKindV::InvalidCharAfterExclamation,
        }
    }
}

impl View for LintWarning {
    type V = LintWarningV;

    open spec fn view(&self) -> LintWarningV {
        LintWarningV { kind: self.kind@, span: self.span, severity: self.severity, message: self.message@ }
    }
}

pub open spec fn warnings_view(ws: Seq<LintWarning>) -> Seq<LintWarningV> {
    ws.map_values(|w: LintWarning| w@)
}

impl LintWarning {
    /// A diagnostic of the given kind, place, severity and message.
    pub fn new(kind: LintWarningKind, span: Span, severity: Severity, message: &str) -> (r: LintWarning)
        ensures
            r@ == (LintWarningV { kind: kind@, span, severity, message: message@ }),
    {
        LintWarning { kind, span, severity, message: message.to_owned() }
    }

    /// An error-level diagnostic.
    pub fn error(kind: LintWarningKind, span: Span, message: &str) -> (r: LintWarning)
        ensures
            r@ == (LintWarningV { kind: kind@, span, severity: Severity::Error, message: message@ }),
    {
        Self::new(kind, span, Severity::Error, message)
    }

    /// A warning-level diagnostic.
    pub fn warning(kind: LintWarningKind, span: Span, message: &str) -> (r: LintWarning)
        ensures
            r@ == (LintWarningV { kind: kind@, span, severity: Severity::Warning, message: message@ }),
    {
        Self::new(kind, span, Severity::Warning, message)
    }

    /// An info-level diagnostic.
    pub fn info(kind: LintWarningKind, span: Span, message: &str) -> (r: LintWarning)
        ensures
            r@ == (LintWarningV { kind: kind@, span, severity: Severity::Info, message: message@ }),
    {
        Self::new(kind, span, Severity::Info, message)
    }
}

pub open spec fn msg_indent() -> Seq<char> {
    "段落の先頭には全角スペースまたは字下げが必要です"@
}

pub open spec fn msg_quote() -> Seq<char> {
    "閉じ括弧は句点と同じ効果を持つため、句点との併用は冗長です"@
}

pub open spec fn msg_exclamation() -> Seq<char> {
    "！？の後には空白または閉じ括弧が必要です"@
}

/// The message for an odd run of `c` (`…` or `―`).
pub open spec fn msg_odd(c: char) -> Seq<char> {
    (if c == '…' { "三点リーダ"@ } else { "ダッシュ"@ }) + "は偶数個（2個）で使用することが推奨されます"@
}

/// A paragraph may open with an ideographic space, an opening bracket, or a dash or ellipsis.
pub open spec fn valid_paragraph_start(s: Seq<char>) -> bool {
    s.len() == 0 || {
        let c = s[0];
        c == '　' || c == '「' || c == '『' || c == '（' || c == '【' || c == '〈' || c == '《'
            || c == '─' || c == '―' || c == '…'
    }
}

/// What may follow `！` or `？`: another of them, a closing bracket, or whitespace.
pub open spec fn valid_after_exclamation(c: char) -> bool {
    c == '！' || c == '？' || c == '」' || c == '』' || c == '）' || c == '】' || c == '〉' || c == '》'
        || c == '　' || c == ' ' || c == '\n' || c == '\r'
}

/// Whether element `i` of `s` is at the start of a paragraph: nothing but commands stands
/// between it and the start of the block or the last newline item.
pub open spec fn at_paragraph_start(s: Seq<ElemV>, i: int) -> bool
    decreases i,
{
    if i <= 0 || i > s.len() {
        true
    } else {
        match s[i - 1] {
            ElemV::Item(ItemV::Newline(_)) => true,
            ElemV::Item(ItemV::Command { .. }) => at_paragraph_start(s, i - 1),
            _ => false,
        }
    }
}

/// The indentation diagnostics of element `i` of `s`.
pub open spec fn indent_warnings_at(s: Seq<ElemV>, i: int) -> Seq<LintWarningV>
    decreases s, 0nat,
{
    if 0 <= i < s.len() {
        match s[i] {
            ElemV::Item(ItemV::Text(t)) => {
                if at_paragraph_start(s, i) && !valid_paragraph_start(t.text) {
                    seq![LintWarningV { kind: LintKindV::MissingParagraphIndent, span: t.span, severity: Severity::Warning, message: msg_indent() }]
                } else {
                    Seq::empty()
                }
            },
            ElemV::Block(b) => indent_warnings_elems(b.elements, b.elements.len() as int),
            _ => Seq::empty(),
        }
    } else {
        Seq::empty()
    }
}

/// The indentation diagnostics of the first `n` elements of `s`, nested blocks included.
pub open spec fn indent_warnings_elems(s: Seq<ElemV>, n: int) -> Seq<LintWarningV>
    decreases s, 1nat + n,
{
    if n <= 0 || n > s.len() {
        Seq::empty()
    } else {
        indent_warnings_elems(s, n - 1) + indent_warnings_at(s, n - 1)
    }
}

/// The indentation diagnostics of a tree.
pub open spec fn indent_warnings(b: BlockV) -> Seq<LintWarningV> {
    indent_warnings_elems(b.elements, b.elements.len() as int)
}

/// The end of the run of `c` that starts at `i`.
pub open spec fn same_run_end(cs: Seq<char>, i: int, c: char) -> int
    decreases cs.len() - i,
{
    if 0 <= i < cs.len() && cs[i] == c {
        same_run_end(cs, i + 1, c)
    } else {
        i
    }
}

proof fn lemma_same_run_end(cs: Seq<char>, i: int, c: char)
    requires
        0 <= i <= cs.len(),
    ensures
        i <= same_run_end(cs, i, c) <= cs.len(),
        i < cs.len() && cs[i] == c ==> i < same_run_end(cs, i, c),
    decreases cs.len() - i,
{
    if i < cs.len() && cs[i] == c {
        lemma_same_run_end(cs, i + 1, c);
    }
}

#[via_fn]
proof fn text_warnings_decreases(cs: Seq<char>, pos: int) {
    if 0 <= pos < cs.len() {
        lemma_same_run_end(cs, pos, cs[pos]);
    }
}

/// The character-level diagnostics of `cs[pos..]`: `。」`/`．」` pairs, odd runs of `…` or
/// `―`, and `！`/`？` followed by a character that may not follow them.
pub open spec fn text_warnings(cs: Seq<char>, pos: int) -> Seq<LintWarningV>
    decreases cs.len() - pos
        via text_warnings_decreases
{
    if pos < 0 || pos >= cs.len() {
        Seq::empty()
    } else {
        let c = cs[pos];
        let quote = if (c == '。' || c == '．') && pos + 1 < cs.len() && cs[pos + 1] == '」' {
            seq![LintWarningV { kind: LintKindV::PunctuationBeforeQuote, span: Span { start: pos as usize, end: (pos + 2) as usize }, severity: Severity::Warning, message: msg_quote() }]
        } else {
            Seq::empty()
        };
        if c == '…' || c == '―' {
            let e = same_run_end(cs, pos, c);
            let odd = if (e - pos) % 2 != 0 {
                seq![LintWarningV { kind: LintKindV::OddEllipsisCount, span: Span { start: pos as usize, end: e as usize }, severity: Severity::Warning, message: msg_odd(c) }]
            } else {
                Seq::empty()
            };
            quote + odd + text_warnings(cs, e)
        } else {
            let excl = if (c == '！' || c == '？') && pos + 1 < cs.len() && !valid_after_exclamation(cs[pos + 1]) {
                seq![LintWarningV { kind: LintKindV::InvalidCharAfterExclamation, span: Span { start: pos as usize, end: (pos + 2) as usize }, severity: Severity::Warning, message: msg_exclamation() }]
            } else {
                Seq::empty()
            };
            quote + excl + text_warnings(cs, pos + 1)
        }
    }
}

fn push_warning(ws: &mut Vec<LintWarning>, w: LintWarning)
    ensures
        warnings_view(final(ws)@) == warnings_view(old(ws)@).push(w@),
{
    let ghost wv = w@;
    ws.push(w);
    assert(warnings_view(ws@) =~= warnings_view(old(ws)@).push(wv));
}

/// Whether a paragraph may open with `text`.
pub fn is_valid_paragraph_start(text: &str) -> (r: bool)
    ensures
        r == valid_paragraph_start(text@),
{
    if text.is_empty() {
        return true;
    }
    let c = text.get_char(0);
    c == '　' || c == '「' || c == '『' || c == '（' || c == '【' || c == '〈' || c == '《'
        || c == '─' || c == '―' || c == '…'
}

/// Whether `c` may follow `！` or `？`.
pub fn is_valid_after_exclamation(c: char) -> (r: bool)
    ensures
        r == valid_after_exclamation(c),
{
    c == '！' || c == '？' || c == '」' || c == '』' || c == '）' || c == '】' || c == '〉' || c == '》'
        || c == '　' || c == ' ' || c == '\n' || c == '\r'
}

/// Appends to `warnings` a `MissingParagraphIndent` warning for each text that opens a
/// paragraph (first in its block or after a newline, with only commands before it) without
/// a valid opening character, in tree order.
pub fn check_paragraph_indent(block: &AozoraBlock, warnings: &mut Vec<LintWarning>)
    ensures
        warnings_view(final(warnings)@) == warnings_view(old(warnings)@) + indent_warnings(block@),
    decreases block,
{
    let ghost s = elems_view(block.elements@);
    proof {
        lemma_elems_view(block.elements@);
    }
    let mut after_newline = true;
    let mut i: usize = 0;
    assert(warnings_view(warnings@) =~= warnings_view(old(warnings)@) + indent_warnings_elems(s, 0));
    while i < block.elements.len()
        invariant
            s == elems_view(block.elements@),
            s.len() == block.elements@.len(),
            forall|k: int| 0 <= k < s.len() ==> #[trigger] s[k] == crate::block_parser::elem_view(block.elements@[k]),
            i <= s.len(),
            after_newline == at_paragraph_start(s, i as int),
            warnings_view(warnings@) == warnings_view(old(warnings)@) + indent_warnings_elems(s, i as int),
        decreases s.len() - i,
    {
        let ghost w0 = warnings_view(warnings@);
        match &block.elements[i] {
            BlockElement::Item(item) => {
                match item {
                    ParsedItem::Newline(_) => {
                        after_newline = true;
                    },
                    ParsedItem::Text(dt) => {
                        if after_newline && !is_valid_paragraph_start(dt.text.as_str()) {
                            push_warning(warnings, LintWarning::warning(
                                LintWarningKind::MissingParagraphIndent,
                                dt.span,
                                "段落の先頭には全角スペースまたは字下げが必要です",
                            ));
                        }
                        after_newline = false;
                    },
                    ParsedItem::Command { .. } => {},
                    _ => {
                        after_newline = false;
                    },
                }
            },
            BlockElement::Block(sub) => {
                check_paragraph_indent(sub, warnings);
                after_newline = false;
            },
        }
        assert(warnings_view(warnings@) =~= w0 + indent_warnings_at(s, i as int));
        i += 1;
    }
}

/// Appends to `warnings` the character-level diagnostics of `text`, `text_warnings`, in
/// order of position.
pub fn check_text_patterns(text: &str, warnings: &mut Vec<LintWarning>)
    requires
        text@.len() < usize::MAX,
    ensures
        warnings_view(final(warnings)@) == warnings_view(old(warnings)@) + text_warnings(text@, 0),
{
    let chars = chars_of(text);
    let mut pos: usize = 0;
    while pos < chars.len()
        invariant
            chars@ == text@,
            chars@.len() < usize::MAX,
            pos <= chars@.len(),
            warnings_view(old(warnings)@) + text_warnings(text@, 0) == warnings_view(warnings@) + text_warnings(text@, pos as int),
        decreases chars@.len() - pos,
    {
        let ghost w0 = warnings_view(warnings@);
        let ghost start_pos = pos as int;
        let c = chars[pos];
        if (c == '。' || c == '．') && pos + 1 < chars.len() && chars[pos + 1] == '」' {
            push_warning(warnings, LintWarning::warning(
                LintWarningKind::PunctuationBeforeQuote,
                Span { start: pos, end: pos + 2 },
                "閉じ括弧は句点と同じ効果を持つため、句点との併用は冗長です",
            ));
        }
        if c == '…' || c == '―' {
            let start = pos;
            proof {
                lemma_same_run_end(chars@, pos as int, c);
            }
            while pos < chars.len() && chars[pos] == c
                invariant
                    chars@ == text@,
                    start <= pos <= chars@.len(),
                    same_run_end(chars@, start as int, c) == same_run_end(chars@, pos as int, c),
                decreases chars@.len() - pos,
            {
                pos += 1;
            }
            if (pos - start) % 2 != 0 {
                let mut message = if c == '…' { "三点リーダ".to_owned() } else { "ダッシュ".to_owned() };
                push_str(&mut message, "は偶数個（2個）で使用することが推奨されます");
                push_warning(warnings, LintWarning::warning(
                    LintWarningKind::OddEllipsisCount,
                    Span { start, end: pos },
                    message.as_str(),
                ));
            }
            assert(w0 + text_warnings(text@, start_pos) =~= warnings_view(warnings@) + text_warnings(text@, pos as int));
        } else {
            if (c == '！' || c == '？') && pos + 1 < chars.len() {
                let next = chars[pos + 1];
                if !is_valid_after_exclamation(next) {
                    push_warning(warnings, LintWarning::warning(
                        LintWarningKind::InvalidCharAfterExclamation,
                        Span { start: pos, end: pos + 2 },
                        "！？の後には空白または閉じ括弧が必要です",
                    ));
                }
            }
            pos += 1;
            assert(w0 + text_warnings(text@, start_pos) =~= warnings_view(warnings@) + text_warnings(text@, pos as int));
        }
    }
    assert(warnings_view(warnings@) + text_warnings(text@, pos as int) =~= warnings_view(warnings@));
}

/// Lints a tree against its source: the indentation diagnostics of the tree, then the
/// character-level diagnostics of the text. The tree is handed back unchanged.
pub fn lint(block: AozoraBlock, text: &str) -> (r: LintResult)
    requires
        text@.len() < usize::MAX,
    ensures
        r.block@ == block@,
        warnings_view(r.warnings@) == indent_warnings(block@) + text_warnings(text@, 0),
{
    let mut warnings: Vec<LintWarning> = Vec::new();
    check_paragraph_indent(&block, &mut warnings);
    check_text_patterns(text, &mut warnings);
    assert(warnings_view(Seq::<LintWarning>::empty()) =~= Seq::<LintWarningV>::empty());
    assert(Seq::<LintWarningV>::empty() + indent_warnings(block@) =~= indent_warnings(block@));
    LintResult { block, warnings }
}

} // verus!
