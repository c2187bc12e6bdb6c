//! The scanner: splits a text into runs of one script class, ruby glosses, bars,
//! annotations, newlines and repetition glyphs, each with its character span.
use vstd::prelude::*;

use crate::span::Span;
use crate::text::{chars_of, push_char};

verus! {

/// Script class of a run of characters.
#[derive(Debug, Clone, Copy, PartialEq, Eq, Structural)]
pub enum TextKind {
    Hiragana,
    Katakana,
    Kanji,
    Other,
}

/// A maximal run of characters of one script class.
#[derive(Debug, Clone, PartialEq)]
pub struct TextToken {
    pub content: String,
    pub kind: TextKind,
    pub span: Span,
}

/// The body of a `［＃…］` annotation, without its delimiters.
#[derive(Debug, Clone, PartialEq)]
pub struct CommandToken {
    pub content: String,
    pub span: Span,
}

/// One lexical unit of the source.
#[derive(Debug, Clone, PartialEq)]
pub enum AozoraToken {
    Text(TextToken),
    Ruby { content: String, span: Span },
    RubySeparator(Span),
    Command(CommandToken),
    Newline(Span),
    Odoriji(Span),
    DakutenOdoriji(Span),
}

/// The scanner's only failure: a command body that meets whitespace or the end of input.
#[derive(Debug, Clone, Copy, PartialEq, Eq, Structural)]
pub enum TokenizeError {
    UnclosedCommand(Span),
}

/// Mathematical form of a text token.
pub struct TextTokenV {
    pub content: Seq<char>,
    pub kind: TextKind,
    pub span: Span,
}

impl View for TextToken {
    type V = TextTokenV;

    open spec fn view(&self) -> TextTokenV {
        TextTokenV { content: self.content@, kind: self.kind, span: self.span }
    }
}

/// Mathematical form of a token: strings become character sequences.
pub enum TokenV {
    Text(TextTokenV),
    Ruby { content: Seq<char>, span: Span },
    RubySeparator(Span),
    Command { content: Seq<char>, span: Span },
    Newline(Span),
    Odoriji(Span),
    DakutenOdoriji(Span),
}

impl View for AozoraToken {
    type V = TokenV;

    open spec fn view(&self) -> TokenV {
        match self {
            AozoraToken::Text(t) => TokenV::Text(t@),
            AozoraToken::Ruby { content, span } => TokenV::Ruby { content: content@, span: *span },
            AozoraToken::RubySeparator(s) => TokenV::RubySeparator(*s),
            AozoraToken::Command(c) => TokenV::Command { content: c.content@, span: c.span },
            AozoraToken::Newline(s) => TokenV::Newline(*s),
            AozoraToken::Odoriji(s) => TokenV::Odoriji(*s),
            AozoraToken::DakutenOdoriji(s) => TokenV::DakutenOdoriji(*s),
        }
    }
}

/// The views of a token sequence.
pub open spec fn tokens_view(ts: Seq<AozoraToken>) -> Seq<TokenV> {
    ts.map_values(|t: AozoraToken| t@)
}

pub open spec fn token_span(t: TokenV) -> Span {
    match t {
        TokenV::Text(t) => t.span,
        TokenV::Ruby { span, .. } => span,
        TokenV::RubySeparator(s) => s,
        TokenV::Command { span, .. } => span,
        TokenV::Newline(s) => s,
        TokenV::Odoriji(s) => s,
        TokenV::DakutenOdoriji(s) => s,
    }
}

pub open spec fn hiragana(c: char) -> bool {
    0x3040 <= (c as u32) && (c as u32) <= 0x309F
}

pub open spec fn katakana(c: char) -> bool {
    0x30A0 <= (c as u32) && (c as u32) <= 0x30FF
}

/// CJK ideographs (unified, extension A and B, compatibility) and the marks 々 〆 〇 ヶ 仝.
pub open spec fn kanji(c: char) -> bool {
    c == '々' || c == '〆' || c == '〇' || c == 'ヶ' || c == '仝'
        || ('\u{4E00}' <= c && c <= '\u{9FFF}')
        || ('\u{3400}' <= c && c <= '\u{4DBF}')
        || ('\u{F900}' <= c && c <= '\u{FAFF}')
        || ('\u{20000}' <= c && c <= '\u{2A6DF}')
}

/// A character that continues an `Other` run.
pub open spec fn other(c: char) -> bool {
    !kanji(c) && !hiragana(c) && !katakana(c) && c != '《' && c != '》' && c != '｜'
        && c != '\n' && c != '［' && c != '／'
}

/// Unicode `White_Space`, as `char::is_whitespace` documents it.
pub open spec fn white_space(c: char) -> bool {
    ('\u{9}' <= c && c <= '\u{D}') || c == ' ' || c == '\u{85}' || c == '\u{A0}'
        || c == '\u{1680}' || ('\u{2000}' <= c && c <= '\u{200A}') || c == '\u{2028}'
        || c == '\u{2029}' || c == '\u{202F}' || c == '\u{205F}' || c == '\u{3000}'
}

pub open spec fn in_class(c: char, k: TextKind) -> bool {
    match k {
        TextKind::Hiragana => hiragana(c),
        TextKind::Katakana => katakana(c),
        TextKind::Kanji => kanji(c),
        TextKind::Other => other(c),
    }
}

/// The first index at or after `i` whose character is not of class `k`.
pub open spec fn run_end(cs: Seq<char>, i: int, k: TextKind) -> int
    decreases cs.len() - i,
{
    if 0 <= i < cs.len() && in_class(cs[i], k) {
        run_end(cs, i + 1, k)
    } else {
        i
    }
}

/// The first index at or after `i` holding `》`, or the length.
pub open spec fn gloss_close(cs: Seq<char>, i: int) -> int
    decreases cs.len() - i,
{
    if 0 <= i < cs.len() && cs[i] != '》' {
        gloss_close(cs, i + 1)
    } else {
        i
    }
}

/// The first index at or after `i` holding `］` or whitespace, or the length.
pub open spec fn command_stop(cs: Seq<char>, i: int) -> int
    decreases cs.len() - i,
{
    if 0 <= i < cs.len() && cs[i] != '］' && !white_space(cs[i]) {
        command_stop(cs, i + 1)
    } else {
        i
    }
}

/// The text token of class `k` that starts at `pos` and runs while the class holds from `from`.
pub open spec fn text_run(cs: Seq<char>, pos: int, from: int, k: TextKind) -> (TokenV, int) {
    let end = run_end(cs, from, k);
    (TokenV::Text(TextTokenV { content: cs.subrange(pos, end), kind: k, span: Span { start: pos as usize, end: end as usize } }), end)
}

/// The token that starts at `pos`, with the position after it; or the span of an unclosed command.
pub open spec fn token_at(cs: Seq<char>, pos: int) -> Result<(TokenV, int), Span> {
    let c = cs[pos];
    if c == '《' {
        let j = gloss_close(cs, pos + 1);
        let end = if j < cs.len() { j + 1 } else { j };
        Ok((TokenV::Ruby { content: cs.subrange(pos + 1, j), span: Span { start: pos as usize, end: end as usize } }, end))
    } else if c == '｜' {
        Ok((TokenV::RubySeparator(Span { start: pos as usize, end: (pos + 1) as usize }), pos + 1))
    } else if c == '\n' {
        Ok((TokenV::Newline(Span { start: pos as usize, end: (pos + 1) as usize }), pos + 1))
    } else if c == '／' {
        if pos + 2 < cs.len() && cs[pos + 1] == '″' && cs[pos + 2] == '＼' {
            Ok((TokenV::DakutenOdoriji(Span { start: pos as usize, end: (pos + 3) as usize }), pos + 3))
        } else if pos + 1 < cs.len() && cs[pos + 1] == '＼' {
            Ok((TokenV::Odoriji(Span { start: pos as usize, end: (pos + 2) as usize }), pos + 2))
        } else {
            Ok(text_run(cs, pos, pos + 1, TextKind::Other))
        }
    } else if c == '［' && pos + 1 < cs.len() && cs[pos + 1] == '＃' {
        let j = command_stop(cs, pos + 2);
        if j < cs.len() && cs[j] == '］' {
            Ok((TokenV::Command { content: cs.subrange(pos + 2, j), span: Span { start: pos as usize, end: (j + 1) as usize } }, j + 1))
        } else {
            Err(Span { start: pos as usize, end: j as usize })
        }
    } else if kanji(c) {
        Ok(text_run(cs, pos, pos + 1, TextKind::Kanji))
    } else if hiragana(c) {
        Ok(text_run(cs, pos, pos + 1, TextKind::Hiragana))
    } else if katakana(c) {
        Ok(text_run(cs, pos, pos + 1, TextKind::Katakana))
    } else {
        Ok(text_run(cs, pos, pos + 1, TextKind::Other))
    }
}

pub proof fn lemma_run_end_bounds(cs: Seq<char>, i: int, k: TextKind)
    requires
        0 <= i <= cs.len(),
    ensures
        i <= run_end(cs, i, k) <= cs.len(),
    decreases cs.len() - i,
{
    if i < cs.len() && in_class(cs[i], k) {
        lemma_run_end_bounds(cs, i + 1, k);
    }
}

pub proof fn lemma_gloss_close_bounds(cs: Seq<char>, i: int)
    requires
        0 <= i <= cs.len(),
    ensures
        i <= gloss_close(cs, i) <= cs.len(),
        gloss_close(cs, i) < cs.len() ==> cs[gloss_close(cs, i)] == '》',
    decreases cs.len() - i,
{
    if i < cs.len() && cs[i] != '》' {
        lemma_gloss_close_bounds(cs, i + 1);
    }
}

pub proof fn lemma_command_stop_bounds(cs: Seq<char>, i: int)
    requires
        0 <= i <= cs.len(),
    ensures
        i <= command_stop(cs, i) <= cs.len(),
    decreases cs.len() - i,
{
    if i < cs.len() && cs[i] != '］' && !white_space(cs[i]) {
        lemma_command_stop_bounds(cs, i + 1);
    }
}

/// Each token starts where the previous ended, is non-empty, and ends within the input.
pub proof fn lemma_token_at(cs: Seq<char>, pos: int)
    requires
        0 <= pos < cs.len(),
    ensures
        token_at(cs, pos) matches Ok((t, n)) ==> pos < n <= cs.len() && token_span(t) == (Span {
            start: pos as usize,
            end: n as usize,
        }),
{
    lemma_run_end_bounds(cs, pos + 1, TextKind::Other);
    lemma_run_end_bounds(cs, pos + 1, TextKind::Kanji);
    lemma_run_end_bounds(cs, pos + 1, TextKind::Hiragana);
    lemma_run_end_bounds(cs, pos + 1, TextKind::Katakana);
    lemma_gloss_close_bounds(cs, pos + 1);
    if pos + 2 <= cs.len() {
        lemma_command_stop_bounds(cs, pos + 2);
    }
}

#[via_fn]
proof fn scan_decreases(cs: Seq<char>, pos: int) {
    if 0 <= pos < cs.len() {
        lemma_token_at(cs, pos);
    }
}

/// The tokens of `cs[pos..]`, or the span of the first unclosed command.
pub open spec fn scan(cs: Seq<char>, pos: int) -> Result<Seq<TokenV>, Span>
    decreases cs.len() - pos
        via scan_decreases
{
    if pos < 0 || pos >= cs.len() {
        Ok(Seq::empty())
    } else {
        match token_at(cs, pos) {
            Err(e) => Err(e),
            Ok((t, n)) => match scan(cs, n) {
                Ok(rest) => Ok(seq![t] + rest),
                Err(e) => Err(e),
            },
        }
    }
}

/// Tokens whose spans are non-empty and follow one another without gap from `from` to `to`.
pub open spec fn spans_tile(ts: Seq<TokenV>, from: int, to: int) -> bool {
    &&& ts.len() == 0 ==> from == to
    &&& ts.len() > 0 ==> token_span(ts[0]).start == from && token_span(ts.last()).end == to
    &&& forall|i: int| 0 <= i < ts.len() ==> #[trigger] token_span(ts[i]).start < token_span(ts[i]).end
    &&& forall|i: int| 0 <= i < ts.len() - 1 ==> #[trigger] token_span(ts[i]).end == token_span(ts[i + 1]).start
}

/// Span monotonicity: the tokens of a successful scan tile the input, each non-empty, in order.
pub proof fn lemma_scan_spans(cs: Seq<char>, pos: int)
    requires
        0 <= pos <= cs.len(),
        cs.len() < usize::MAX,
    ensures
        scan(cs, pos) matches Ok(ts) ==> spans_tile(ts, pos, cs.len() as int),
    decreases cs.len() - pos,
{
    if pos < cs.len() {
        lemma_token_at(cs, pos);
        if let Ok((t, n)) = token_at(cs, pos) {
            lemma_scan_spans(cs, n);
            if let Ok(rest) = scan(cs, n) {
                let ts = seq![t] + rest;
                assert forall|i: int| 0 <= i < ts.len() implies #[trigger] token_span(ts[i]).start < token_span(ts[i]).end by {
                    if i > 0 {
                        assert(ts[i] == rest[i - 1]);
                    }
                }
                assert forall|i: int| 0 <= i < ts.len() - 1 implies #[trigger] token_span(ts[i]).end == token_span(ts[i + 1]).start by {
                    if i > 0 {
                        assert(ts[i] == rest[i - 1]);
                        assert(ts[i + 1] == rest[i]);
                    } else {
                        if rest.len() > 0 {
                            assert(ts[1] == rest[0]);
                        }
                    }
                }
                if rest.len() > 0 {
                    assert(ts.last() == rest.last());
                }
            }
        }
    }
}

fn is_hiragana(c: char) -> (r: bool)
    ensures
        r == hiragana(c),
{
    0x3040 <= (c as u32) && (c as u32) <= 0x309F
}

fn is_katakana(c: char) -> (r: bool)
    ensures
        r == katakana(c),
{
    0x30A0 <= (c as u32) && (c as u32) <= 0x30FF
}

fn is_kanji(c: char) -> (r: bool)
    ensures
        r == kanji(c),
{
    c == '々' || c == '〆' || c == '〇' || c == 'ヶ' || c == '仝'
        || ('\u{4E00}' <= c && c <= '\u{9FFF}')
        || ('\u{3400}' <= c && c <= '\u{4DBF}')
        || ('\u{F900}' <= c && c <= '\u{FAFF}')
        || ('\u{20000}' <= c && c <= '\u{2A6DF}')
}

fn is_other(c: char) -> (r: bool)
    ensures
        r == other(c),
{
    !is_kanji(c) && !is_hiragana(c) && !is_katakana(c) && c != '《' && c != '》' && c != '｜'
        && c != '\n' && c != '［' && c != '／'
}

pub(crate) fn is_white_space(c: char) -> (r: bool)
    ensures
        r == white_space(c),
{
    ('\u{9}' <= c && c <= '\u{D}') || c == ' ' || c == '\u{85}' || c == '\u{A0}'
        || c == '\u{1680}' || ('\u{2000}' <= c && c <= '\u{200A}') || c == '\u{2028}'
        || c == '\u{2029}' || c == '\u{202F}' || c == '\u{205F}' || c == '\u{3000}'
}

fn is_in_class(c: char, k: TextKind) -> (r: bool)
    ensures
        r == in_class(c, k),
{
    match k {
        TextKind::Hiragana => is_hiragana(c),
        TextKind::Katakana => is_katakana(c),
        TextKind::Kanji => is_kanji(c),
        TextKind::Other => is_other(c),
    }
}

/// Reads the text token of class `k` that starts at `pos`; the run continues from `pos + 1`.
fn read_run(cs: &Vec<char>, pos: usize, k: TextKind) -> (r: (AozoraToken, usize))
    requires
        pos < cs@.len(),
        cs@.len() < usize::MAX,
    ensures
        (r.0@, r.1 as int) == text_run(cs@, pos as int, pos as int + 1, k),
{
    let mut buffer = String::new();
    push_char(&mut buffer, cs[pos]);
    let mut i = pos + 1;
    while i < cs.len() && is_in_class(cs[i], k)
        invariant
            pos < i <= cs@.len(),
            buffer@ == cs@.subrange(pos as int, i as int),
            run_end(cs@, pos as int + 1, k) == run_end(cs@, i as int, k),
        decreases cs@.len() - i,
    {
        push_char(&mut buffer, cs[i]);
        assert(buffer@ =~= cs@.subrange(pos as int, i + 1));
        i += 1;
    }
    (AozoraToken::Text(TextToken { content: buffer, kind: k, span: Span { start: pos, end: i } }), i)
}

/// Splits `text` into tokens.
///
/// On success the tokens are exactly `scan` of the text's characters, and their spans tile
/// the text in order. The only failure is an unclosed command, with the span from its `［`
/// to the character that stopped it.
pub fn parse_aozora(text: String) -> (r: Result<Vec<AozoraToken>, TokenizeError>)
    requires
        text@.len() < usize::MAX,
    ensures
        match scan(text@, 0) {
            Ok(ts) => r is Ok && tokens_view(r->Ok_0@) == ts,
            Err(s) => r == Err::<Vec<AozoraToken>, TokenizeError>(TokenizeError::UnclosedCommand(s)),
        },
        r matches Ok(ts) ==> spans_tile(tokens_view(ts@), 0, text@.len() as int),
{
    let cs = chars_of(text.as_str());
    let mut tokens: Vec<AozoraToken> = Vec::new();
    let mut pos: usize = 0;
    proof {
        lemma_scan_spans(cs@, 0);
    }
    while pos < cs.len()
        invariant
            cs@ == text@,
            pos <= cs@.len(),
            cs@.len() < usize::MAX,
            scan(cs@, 0) == match scan(cs@, pos as int) {
                Ok(rest) => Ok(tokens_view(tokens@) + rest),
                Err(e) => Err::<Seq<TokenV>, Span>(e),
            },
        decreases cs@.len() - pos,
    {
        proof {
            lemma_token_at(cs@, pos as int);
        }
        let ghost before = tokens@;
        let c = cs[pos];
        if c == '《' {
            let start = pos;
            pos += 1;
            let mut buffer = String::new();
            proof {
                lemma_gloss_close_bounds(cs@, pos as int);
            }
            while pos < cs.len() && cs[pos] != '》'
                invariant
                    start < pos <= cs@.len(),
                    buffer@ == cs@.subrange(start + 1, pos as int),
                    gloss_close(cs@, start + 1) == gloss_close(cs@, pos as int),
                decreases cs@.len() - pos,
            {
                push_char(&mut buffer, cs[pos]);
                assert(buffer@ =~= cs@.subrange(start + 1, pos + 1));
                pos += 1;
            }
            if pos < cs.len() {
                pos += 1;
            }
            tokens.push(AozoraToken::Ruby { content: buffer, span: Span { start, end: pos } });
        } else if c == '｜' {
            tokens.push(AozoraToken::RubySeparator(Span { start: pos, end: pos + 1 }));
            pos += 1;
        } else if c == '\n' {
            tokens.push(AozoraToken::Newline(Span { start: pos, end: pos + 1 }));
            pos += 1;
        } else if c == '／' {
            if pos + 2 < cs.len() && cs[pos + 1] == '″' && cs[pos + 2] == '＼' {
                tokens.push(AozoraToken::DakutenOdoriji(Span { start: pos, end: pos + 3 }));
                pos += 3;
            } else if pos + 1 < cs.len() && cs[pos + 1] == '＼' {
                tokens.push(AozoraToken::Odoriji(Span { start: pos, end: pos + 2 }));
                pos += 2;
            } else {
                let (t, n) = read_run(&cs, pos, TextKind::Other);
                tokens.push(t);
                pos = n;
            }
        } else if c == '［' && pos + 1 < cs.len() && cs[pos + 1] == '＃' {
            let start = pos;
            let mut j = pos + 2;
            let mut buffer = String::new();
            proof {
                lemma_command_stop_bounds(cs@, j as int);
            }
            while j < cs.len() && cs[j] != '］' && !is_white_space(cs[j])
                invariant
                    start + 2 <= j <= cs@.len(),
                    buffer@ == cs@.subrange(start + 2, j as int),
                    command_stop(cs@, start + 2) == command_stop(cs@, j as int),
                decreases cs@.len() - j,
            {
                push_char(&mut buffer, cs[j]);
                assert(buffer@ =~= cs@.subrange(start + 2, j + 1));
                j += 1;
            }
            if j < cs.len() && cs[j] == '］' {
                tokens.push(AozoraToken::Command(CommandToken { content: buffer, span: Span { start, end: j + 1 } }));
                pos = j + 1;
            } else {
                return Err(TokenizeError::UnclosedCommand(Span { start, end: j }));
            }
        } else if is_kanji(c) {
            let (t, n) = read_run(&cs, pos, TextKind::Kanji);
            tokens.push(t);
            pos = n;
        } else if is_hiragana(c) {
            let (t, n) = read_run(&cs, pos, TextKind::Hiragana);
            tokens.push(t);
            pos = n;
        } else if is_katakana(c) {
            let (t, n) = read_run(&cs, pos, TextKind::Katakana);
            tokens.push(t);
            pos = n;
        } else {
            let (t, n) = read_run(&cs, pos, TextKind::Other);
            tokens.push(t);
            pos = n;
        }
        proof {
            assert(tokens_view(tokens@) =~= tokens_view(before).push(tokens@.last()@));
            if let Ok(rest) = scan(cs@, pos as int) {
                assert(seq![tokens@.last()@] + rest =~= seq![tokens@.last()@].add(rest));
                assert(tokens_view(before) + (seq![tokens@.last()@] + rest) =~= tokens_view(tokens@) + rest);
            }
        }
    }
    assert(tokens_view(tokens@) + Seq::<TokenV>::empty() =~= tokens_view(tokens@));
    Ok(tokens)
}

} // verus!
