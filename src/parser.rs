//! The item parser: header lines, ruby attachment, comment skipping and the rewrite of
//! reference headings, from tokens to a flat item sequence.
use vstd::prelude::*;

use crate::command::{
    recognised_command, parse_command, Command, CommandBegin, CommandEnd, CommandV, SingleCommand,
    SingleCommandV, has_at,
};
use crate::span::{span_merge, Span};
use crate::text::push_str;
use crate::tokenizer::{AozoraToken, CommandToken, TextToken, TextTokenV, TokenV, tokens_view};

verus! {

/// A run of text with an optional ruby gloss.
#[derive(Debug, PartialEq, Clone)]
pub struct DecoratedText {
    pub text: String,
    pub ruby: Option<String>,
    pub span: Span,
}

/// The repetition glyphs.
#[derive(Debug, Clone, Copy, PartialEq, Eq, Structural)]
pub enum SpecialCharacter {
    Odoriji,
    DakutenOdoriji,
}

/// One element of the flat item sequence.
#[derive(Debug, PartialEq, Clone)]
pub enum ParsedItem {
    Text(DecoratedText),
    Command { cmd: Command, span: Span },
    Newline(Span),
    SpecialCharacter { kind: SpecialCharacter, span: Span },
}

/// Reserved: the item parser reports no error at present.
#[derive(Debug, Clone)]
pub enum ParseError {
    UnexpectedToken { token: AozoraToken, span: Span },
}

/// Title and author, from the first two lines.
#[derive(Debug, Clone, PartialEq)]
pub struct AozoraMetadata {
    pub title: String,
    pub author: String,
}

/// The header and the flat item sequence of a text.
#[derive(Debug, Clone, PartialEq)]
pub struct AozoraDocument {
    pub metadata: AozoraMetadata,
    pub items: Vec<ParsedItem>,
}

/// Mathematical form of a `DecoratedText`.
pub struct TextV {
    pub text: Seq<char>,
    pub ruby: Option<Seq<char>>,
    pub span: Span,
}

/// Mathematical form of a `ParsedItem`.
pub enum ItemV {
    Text(TextV),
    Command { cmd: CommandV, span: Span },
    Newline(Span),
    Special { kind: SpecialCharacter, span: Span },
}

impl View for DecoratedText {
    type V = TextV;

    open spec fn view(&self) -> TextV {
        TextV {
            text: self.text@,
            ruby: match self.ruby {
                Some(r) => Some(r@),
                None => None,
            },
            span: self.span,
        }
    }
}

impl View for ParsedItem {
    type V = ItemV;

    open spec fn view(&self) -> ItemV {
        match self {
            ParsedItem::Text(d) => ItemV::Text(d@),
            ParsedItem::Command { cmd, span } => ItemV::Command { cmd: cmd@, span: *span },
            ParsedItem::Newline(s) => ItemV::Newline(*s),
            ParsedItem::SpecialCharacter { kind, span } => ItemV::Special { kind: *kind, span: *span },
        }
    }
}

pub open spec fn items_view(items: Seq<ParsedItem>) -> Seq<ItemV> {
    items.map_values(|i: ParsedItem| i@)
}

pub open spec fn text_tokens_view(ts: Seq<TextToken>) -> Seq<TextTokenV> {
    ts.map_values(|t: TextToken| t@)
}

/// The characters of a header line from token `pos`: text contents up to the next newline,
/// with the index after that newline.
pub open spec fn header_line(ts: Seq<TokenV>, pos: int) -> (Seq<char>, int)
    decreases ts.len() - pos,
{
    if pos < 0 || pos >= ts.len() {
        (Seq::empty(), pos)
    } else {
        match ts[pos] {
            TokenV::Newline(_) => (Seq::empty(), pos + 1),
            TokenV::Text(t) => (t.content + header_line(ts, pos + 1).0, header_line(ts, pos + 1).1),
            _ => header_line(ts, pos + 1),
        }
    }
}

/// The bibliographic-comment sentinel: 55 hyphens.
pub open spec fn rule_line() -> Seq<char> {
    Seq::new(55, |i: int| '-')
}

pub open spec fn has_rule(s: Seq<char>) -> bool {
    exists|i: int| has_at(s, i, rule_line())
}

/// The contents of buffered texts, concatenated.
pub open spec fn joined(buf: Seq<TextTokenV>) -> Seq<char>
    decreases buf.len(),
{
    if buf.len() == 0 {
        Seq::empty()
    } else {
        joined(buf.drop_last()) + buf.last().content
    }
}

/// From the start of the first buffered text to the end of the last.
pub open spec fn buffer_span(buf: Seq<TextTokenV>) -> Span {
    if buf.len() == 0 {
        Span { start: 0, end: 0 }
    } else {
        Span { start: buf[0].span.start, end: buf.last().span.end }
    }
}

/// `items` followed by the buffered texts as one plain text item, if any are buffered.
pub open spec fn flushed(items: Seq<ItemV>, buf: Seq<TextTokenV>) -> Seq<ItemV> {
    if buf.len() == 0 {
        items
    } else {
        items.push(ItemV::Text(TextV { text: joined(buf), ruby: None, span: buffer_span(buf) }))
    }
}

/// The consecutive text tokens from index `p`.
pub open spec fn texts_from(ts: Seq<TokenV>, p: int) -> Seq<TextTokenV>
    decreases ts.len() - p,
{
    if 0 <= p < ts.len() && ts[p] is Text {
        seq![ts[p]->Text_0] + texts_from(ts, p + 1)
    } else {
        Seq::empty()
    }
}

/// The index of the first token at or after `p` that is not text.
pub open spec fn texts_end(ts: Seq<TokenV>, p: int) -> int
    decreases ts.len() - p,
{
    if 0 <= p < ts.len() && ts[p] is Text {
        texts_end(ts, p + 1)
    } else {
        p
    }
}

pub open spec fn skip_newline(ts: Seq<TokenV>, p: int) -> int {
    if 0 <= p < ts.len() && ts[p] is Newline { p + 1 } else { p }
}

/// State of the item parser between tokens.
pub struct ParseState {
    pub items: Seq<ItemV>,
    pub buf: Seq<TextTokenV>,
    pub in_comment: bool,
    pub pos: int,
}

/// `items` after a recognised command at `span`: a reference heading that names the text
/// item just before it wraps that item in a heading block; anything else is appended.
pub open spec fn with_command(items: Seq<ItemV>, cmd: CommandV, span: Span) -> Seq<ItemV> {
    match cmd {
        CommandV::Single(SingleCommandV::Midashi(m, c)) => {
            if items.len() > 0 && items.last() is Text && items.last()->Text_0.text == c {
                items.drop_last() + seq![
                    ItemV::Command { cmd: CommandV::Begin(CommandBegin::Midashi(m)), span: items.last()->Text_0.span },
                    items.last(),
                    ItemV::Command { cmd: CommandV::End(CommandEnd::Midashi(m)), span },
                ]
            } else {
                items.push(ItemV::Command { cmd, span })
            }
        },
        _ => items.push(ItemV::Command { cmd, span }),
    }
}

/// The item-parser state after the token at `st.pos` (and any tokens it consumes with it).
pub open spec fn parse_step(ts: Seq<TokenV>, st: ParseState) -> ParseState {
    let pos = st.pos;
    let items = st.items;
    let buf = st.buf;
    if st.in_comment {
        if ts[pos] is Text && has_rule(ts[pos]->Text_0.content) {
            ParseState { in_comment: false, pos: skip_newline(ts, pos + 1), ..st }
        } else {
            ParseState { pos: pos + 1, ..st }
        }
    } else {
        match ts[pos] {
            TokenV::Text(t) => {
                if has_rule(t.content) {
                    ParseState { items: flushed(items, buf), buf: Seq::empty(), in_comment: true, pos: skip_newline(ts, pos + 1) }
                } else {
                    ParseState { buf: buf.push(t), pos: pos + 1, ..st }
                }
            },
            TokenV::RubySeparator(sep) => {
                let items1 = flushed(items, buf);
                let j = texts_end(ts, pos + 1);
                let temp = texts_from(ts, pos + 1);
                if j < ts.len() && ts[j] is Ruby {
                    let text_span = if temp.len() == 0 { sep } else { span_merge(sep, buffer_span(temp)) };
                    let item = ItemV::Text(TextV {
                        text: joined(temp),
                        ruby: Some(ts[j]->Ruby_content),
                        span: span_merge(text_span, ts[j]->Ruby_span),
                    });
                    ParseState { items: items1.push(item), buf: Seq::empty(), in_comment: false, pos: j + 1 }
                } else {
                    let bar = ItemV::Text(TextV { text: seq!['｜'], ruby: None, span: sep });
                    ParseState { items: flushed(items1.push(bar), temp), buf: Seq::empty(), in_comment: false, pos: j }
                }
            },
            TokenV::Ruby { content, span } => {
                if buf.len() > 0 {
                    let last = buf.last();
                    let item = ItemV::Text(TextV { text: last.content, ruby: Some(content), span: span_merge(last.span, span) });
                    ParseState { items: flushed(items, buf.drop_last()).push(item), buf: Seq::empty(), in_comment: false, pos: pos + 1 }
                } else {
                    ParseState { pos: pos + 1, ..st }
                }
            },
            TokenV::Command { content, span } => {
                let items1 = flushed(items, buf);
                let items2 = with_command(items1, recognised_command(content), span);
                ParseState { items: items2, buf: Seq::empty(), in_comment: false, pos: pos + 1 }
            },
            TokenV::Newline(s) => ParseState {
                items: flushed(items, buf).push(ItemV::Newline(s)),
                buf: Seq::empty(),
                in_comment: false,
                pos: pos + 1,
            },
            TokenV::Odoriji(s) => ParseState {
                items: flushed(items, buf).push(ItemV::Special { kind: SpecialCharacter::Odoriji, span: s }),
                buf: Seq::empty(),
                in_comment: false,
                pos: pos + 1,
            },
            TokenV::DakutenOdoriji(s) => ParseState {
                items: flushed(items, buf).push(ItemV::Special { kind: SpecialCharacter::DakutenOdoriji, span: s }),
                buf: Seq::empty(),
                in_comment: false,
                pos: pos + 1,
            },
        }
    }
}

proof fn lemma_texts_end(ts: Seq<TokenV>, p: int)
    requires
        0 <= p <= ts.len(),
    ensures
        p <= texts_end(ts, p) <= ts.len(),
        texts_from(ts, p).len() == texts_end(ts, p) - p,
        forall|k: int| 0 <= k < texts_from(ts, p).len() ==> ts[p + k] == TokenV::Text(#[trigger] texts_from(ts, p)[k]),
        texts_end(ts, p) < ts.len() ==> !(ts[texts_end(ts, p)] is Text),
    decreases ts.len() - p,
{
    if p < ts.len() && ts[p] is Text {
        lemma_texts_end(ts, p + 1);
        let rest = texts_from(ts, p + 1);
        assert forall|k: int| 0 <= k < texts_from(ts, p).len() implies ts[p + k] == TokenV::Text(#[trigger] texts_from(ts, p)[k]) by {
            if k > 0 {
                assert(texts_from(ts, p)[k] == rest[k - 1]);
            }
        }
    }
}

/// Each step consumes at least one token.
proof fn lemma_step_advances(ts: Seq<TokenV>, st: ParseState)
    requires
        0 <= st.pos < ts.len(),
    ensures
        st.pos < parse_step(ts, st).pos <= ts.len(),
{
    lemma_texts_end(ts, st.pos + 1);
}

#[via_fn]
proof fn parse_from_decreases(ts: Seq<TokenV>, st: ParseState) {
    if 0 <= st.pos < ts.len() {
        lemma_step_advances(ts, st);
    }
}

/// The items produced from state `st` to the end of the tokens.
pub open spec fn parse_from(ts: Seq<TokenV>, st: ParseState) -> Seq<ItemV>
    decreases ts.len() - st.pos
        via parse_from_decreases
{
    if st.pos < 0 || st.pos >= ts.len() {
        flushed(st.items, st.buf)
    } else {
        parse_from(ts, parse_step(ts, st))
    }
}

/// The document that a token sequence denotes: title, author and items.
pub open spec fn document_of(ts: Seq<TokenV>) -> (Seq<char>, Seq<char>, Seq<ItemV>) {
    let (title, after_title) = header_line(ts, 0);
    let (author, after_author) = header_line(ts, after_title);
    (title, author, parse_from(ts, ParseState { items: Seq::empty(), buf: Seq::empty(), in_comment: false, pos: after_author }))
}


fn push_item(items: &mut Vec<ParsedItem>, it: ParsedItem)
    ensures
        items_view(final(items)@) == items_view(old(items)@).push(it@),
{
    let ghost it_view = it@;
    items.push(it);
    assert(items_view(items@) =~= items_view(old(items)@).push(it_view));
}

fn copy_text(t: &TextToken) -> (r: TextToken)
    ensures
        r@ == t@,
{
    TextToken { content: t.content.clone(), kind: t.kind, span: t.span }
}

fn join_texts(buf: &Vec<TextToken>) -> (r: String)
    ensures
        r@ == joined(text_tokens_view(buf@)),
{
    let mut r = String::new();
    let mut i: usize = 0;
    while i < buf.len()
        invariant
            i <= buf@.len(),
            r@ == joined(text_tokens_view(buf@).take(i as int)),
        decreases buf@.len() - i,
    {
        push_str(&mut r, buf[i].content.as_str());
        assert(text_tokens_view(buf@).take(i + 1).drop_last() =~= text_tokens_view(buf@).take(i as int));
        i += 1;
    }
    assert(text_tokens_view(buf@).take(i as int) =~= text_tokens_view(buf@));
    r
}

/// Appends the buffered texts as one plain text item and empties the buffer.
fn flush(items: &mut Vec<ParsedItem>, buf: &mut Vec<TextToken>)
    ensures
        items_view(final(items)@) == flushed(items_view(old(items)@), text_tokens_view(old(buf)@)),
        final(buf)@.len() == 0,
{
    if buf.len() > 0 {
        let text = join_texts(buf);
        let span = Span { start: buf[0].span.start, end: buf[buf.len() - 1].span.end };
        push_item(items, ParsedItem::Text(DecoratedText { text, ruby: None, span }));
        buf.clear();
    }
}

fn header_line_exec(ts: &Vec<AozoraToken>, pos: usize) -> (r: (String, usize))
    requires
        pos <= ts@.len(),
    ensures
        (r.0@, r.1 as int) == header_line(tokens_view(ts@), pos as int),
{
    let ghost tv = tokens_view(ts@);
    let mut line = String::new();
    let mut p = pos;
    while p < ts.len()
        invariant_except_break
            pos <= p <= ts@.len(),
            tv == tokens_view(ts@),
            header_line(tv, pos as int) == (line@ + header_line(tv, p as int).0, header_line(tv, p as int).1),
        ensures
            header_line(tv, pos as int) == (line@, p as int),
        decreases ts@.len() - p,
    {
        match &ts[p] {
            AozoraToken::Newline(_) => {
                p += 1;
                assert(line@ + Seq::<char>::empty() =~= line@);
                break;
            },
            AozoraToken::Text(t) => {
                let ghost before = line@;
                push_str(&mut line, t.content.as_str());
                assert(before + (t.content@ + header_line(tv, p + 1).0) =~= line@ + header_line(tv, p + 1).0);
                p += 1;
            },
            _ => {
                p += 1;
            },
        }
    }
    assert(p >= ts@.len() ==> line@ + Seq::<char>::empty() =~= line@);
    (line, p)
}

/// Whether `s` holds the 55-hyphen sentinel.
fn has_rule_exec(s: &String) -> (r: bool)
    ensures
        r == has_rule(s@),
{
    let cs = crate::text::chars_of(s.as_str());
    let mut rule: Vec<char> = Vec::new();
    while rule.len() < 55
        invariant
            rule@.len() <= 55,
            forall|k: int| 0 <= k < rule@.len() ==> rule@[k] == '-',
        decreases 55 - rule@.len(),
    {
        rule.push('-');
    }
    assert(rule@ =~= rule_line());
    if cs.len() < 55 {
        assert forall|i: int| !has_at(s@, i, rule_line()) by {}
        return false;
    }
    let mut i: usize = 0;
    while i <= cs.len() - 55
        invariant
            cs@ == s@,
            rule@ == rule_line(),
            cs@.len() >= 55,
            forall|k: int| 0 <= k < i ==> !has_at(s@, k, rule_line()),
        decreases cs@.len() - i,
    {
        if crate::command::has_at_exec(&cs, i, &rule) {
            return true;
        }
        i += 1;
    }
    assert forall|k: int| !has_at(s@, k, rule_line()) by {
        if 0 <= k < i {
        }
    }
    false
}

/// Appends the item of a command token: its recognised command, or the raw body as
/// `Unknown`, with the heading rewrite of `with_command`.
fn push_command(items: &mut Vec<ParsedItem>, c: &CommandToken)
    ensures
        items_view(final(items)@) == with_command(items_view(old(items)@), recognised_command(c.content@), c.span),
{
    match parse_command(CommandToken { content: c.content.clone(), span: c.span }) {
        None => {},
        Some(cmd) => {
            if let Command::SingleCommand(SingleCommand::Midashi((m, content))) = &cmd {
                let n = items.len();
                if n > 0 {
                    let names_last = match &items[n - 1] {
                        ParsedItem::Text(dt) => dt.text == *content,
                        _ => false,
                    };
                    if names_last {
                        let ghost old_view = items_view(items@);
                        let last = items.pop().unwrap();
                        assert(items_view(items@) =~= old_view.drop_last());
                        let text_span = match &last {
                            ParsedItem::Text(dt) => dt.span,
                            _ => Span { start: 0, end: 0 },
                        };
                        let m2 = *m;
                        push_item(items, ParsedItem::Command { cmd: Command::CommandBegin(CommandBegin::Midashi(m2)), span: text_span });
                        push_item(items, last);
                        push_item(items, ParsedItem::Command { cmd: Command::CommandEnd(CommandEnd::Midashi(m2)), span: c.span });
                        assert(items_view(items@) =~= with_command(old_view, cmd@, c.span));
                        return;
                    }
                }
            }
            push_item(items, ParsedItem::Command { cmd, span: c.span });
        },
    }
}

/// Handles a `｜` at `pos`: flushes the buffer, then reads the following texts; with a gloss
/// after them they become one ruby item, otherwise the bar and the texts stay plain.
fn ranged_ruby(ts: &Vec<AozoraToken>, pos: usize, sep: Span, items: &mut Vec<ParsedItem>, buf: &mut Vec<TextToken>) -> (r: usize)
    requires
        pos < ts@.len(),
        tokens_view(ts@)[pos as int] == TokenV::RubySeparator(sep),
    ensures
        ({
            let st = parse_step(tokens_view(ts@), ParseState {
                items: items_view(old(items)@),
                buf: text_tokens_view(old(buf)@),
                in_comment: false,
                pos: pos as int,
            });
            &&& items_view(final(items)@) == st.items
            &&& text_tokens_view(final(buf)@) == st.buf
            &&& r as int == st.pos
        }),
{
    let ghost tv = tokens_view(ts@);
    flush(items, buf);
    proof {
        lemma_texts_end(tv, pos + 1);
    }
    let mut temp: Vec<TextToken> = Vec::new();
    let n = ts.len();
    let mut j = pos + 1;
    loop
        invariant
            tv == tokens_view(ts@),
            n == ts@.len(),
            pos + 1 <= j <= texts_end(tv, pos + 1),
            texts_end(tv, pos + 1) <= ts@.len(),
            texts_from(tv, pos + 1).len() == texts_end(tv, pos + 1) - (pos + 1),
            forall|k: int| 0 <= k < texts_from(tv, pos + 1).len() ==> tv[pos + 1 + k] == TokenV::Text(#[trigger] texts_from(tv, pos + 1)[k]),
            texts_end(tv, pos + 1) < ts@.len() ==> !(tv[texts_end(tv, pos + 1)] is Text),
            temp@.len() == j - (pos + 1),
            forall|k: int| 0 <= k < temp@.len() ==> text_tokens_view(temp@)[k] == texts_from(tv, pos + 1)[k],
        ensures
            j == texts_end(tv, pos + 1),
            text_tokens_view(temp@) == texts_from(tv, pos + 1),
        decreases ts@.len() - j,
    {
        if j >= ts.len() {
            assert(text_tokens_view(temp@) =~= texts_from(tv, pos + 1));
            break;
        }
        match &ts[j] {
            AozoraToken::Text(t) => {
                assert(j < texts_end(tv, pos + 1));
                assert(tv[j as int] == TokenV::Text(texts_from(tv, pos + 1)[j - (pos + 1)]));
                assert(tv[j as int] == ts@[j as int]@);
                assert(t@ == texts_from(tv, pos + 1)[j - (pos + 1)]);
                let ghost t0 = text_tokens_view(temp@);
                temp.push(copy_text(t));
                assert(text_tokens_view(temp@) =~= t0.push(t@));
                j += 1;
            },
            _ => {
                assert(text_tokens_view(temp@) =~= texts_from(tv, pos + 1));
                break;
            },
        }
    }
    if j < ts.len() {
        if let AozoraToken::Ruby { content, span } = &ts[j] {
            let text_span = if temp.len() == 0 {
                sep
            } else {
                sep.merge(&Span { start: temp[0].span.start, end: temp[temp.len() - 1].span.end })
            };
            let text = join_texts(&temp);
            push_item(items, ParsedItem::Text(DecoratedText { text, ruby: Some(content.clone()), span: text_span.merge(span) }));
            return j + 1;
        }
    }
    let mut bar = String::new();
    crate::text::push_char(&mut bar, '｜');
    assert(bar@ =~= seq!['｜']);
    push_item(items, ParsedItem::Text(DecoratedText { text: bar, ruby: None, span: sep }));
    flush(items, &mut temp);
    j
}

/// Parses a token sequence into a document.
///
/// The first two lines give title and author; the rest becomes items as `document_of`
/// states: texts merged until another token intervenes, ruby glosses attached to the text
/// before them or to a `｜`-delimited range, the bibliographic comment between two sentinel
/// lines skipped, reference headings wrapped into heading blocks. It never fails.
pub fn parse(tokens: Vec<AozoraToken>) -> (r: Result<AozoraDocument, ParseError>)
    ensures
        r is Ok,
        r->Ok_0.metadata.title@ == document_of(tokens_view(tokens@)).0,
        r->Ok_0.metadata.author@ == document_of(tokens_view(tokens@)).1,
        items_view(r->Ok_0.items@) == document_of(tokens_view(tokens@)).2,
{
    let ghost tv = tokens_view(tokens@);
    let (title, after_title) = header_line_exec(&tokens, 0);
    proof {
        lemma_header_bound(tv, 0);
    }
    let (author, after_author) = header_line_exec(&tokens, after_title);
    proof {
        lemma_header_bound(tv, after_title as int);
    }
    let ghost init = ParseState { items: Seq::empty(), buf: Seq::empty(), in_comment: false, pos: after_author as int };
    let mut items: Vec<ParsedItem> = Vec::new();
    let mut buf: Vec<TextToken> = Vec::new();
    let mut in_comment = false;
    let mut pos = after_author;
    assert(items_view(items@) =~= Seq::<ItemV>::empty());
    assert(text_tokens_view(buf@) =~= Seq::<TextTokenV>::empty());
    while pos < tokens.len()
        invariant
            tv == tokens_view(tokens@),
            pos <= tokens@.len(),
            parse_from(tv, init) == parse_from(tv, ParseState {
                items: items_view(items@),
                buf: text_tokens_view(buf@),
                in_comment,
                pos: pos as int,
            }),
        decreases tokens@.len() - pos,
    {
        let ghost st = ParseState { items: items_view(items@), buf: text_tokens_view(buf@), in_comment, pos: pos as int };
        let ghost next = parse_step(tv, st);
        proof {
            lemma_step_advances(tv, st);
        }
        if in_comment {
            let ends = match &tokens[pos] {
                AozoraToken::Text(t) => has_rule_exec(&t.content),
                _ => false,
            };
            if ends {
                in_comment = false;
                pos = skip_newline_exec(&tokens, pos + 1);
            } else {
                pos += 1;
            }
        } else {
            match &tokens[pos] {
                AozoraToken::Text(t) => {
                    if has_rule_exec(&t.content) {
                        flush(&mut items, &mut buf);
                        assert(text_tokens_view(buf@) =~= Seq::<TextTokenV>::empty());
                        in_comment = true;
                        pos = skip_newline_exec(&tokens, pos + 1);
                    } else {
                        let ghost b0 = text_tokens_view(buf@);
                        buf.push(copy_text(t));
                        assert(text_tokens_view(buf@) =~= b0.push(t@));
                        pos += 1;
                    }
                },
                AozoraToken::RubySeparator(sep) => {
                    pos = ranged_ruby(&tokens, pos, *sep, &mut items, &mut buf);
                },
                AozoraToken::Ruby { content, span } => {
                    if buf.len() > 0 {
                        let ghost b0 = text_tokens_view(buf@);
                        let last = buf.pop().unwrap();
                        assert(text_tokens_view(buf@) =~= b0.drop_last());
                        flush(&mut items, &mut buf);
                        push_item(&mut items, ParsedItem::Text(DecoratedText {
                            text: last.content,
                            ruby: Some(content.clone()),
                            span: last.span.merge(span),
                        }));
                        assert(text_tokens_view(buf@) =~= Seq::<TextTokenV>::empty());
                    }
                    pos += 1;
                },
                AozoraToken::Command(c) => {
                    flush(&mut items, &mut buf);
                    push_command(&mut items, c);
                    assert(text_tokens_view(buf@) =~= Seq::<TextTokenV>::empty());
                    pos += 1;
                },
                AozoraToken::Newline(s) => {
                    flush(&mut items, &mut buf);
                    push_item(&mut items, ParsedItem::Newline(*s));
                    assert(text_tokens_view(buf@) =~= Seq::<TextTokenV>::empty());
                    pos += 1;
                },
                AozoraToken::Odoriji(s) => {
                    flush(&mut items, &mut buf);
                    push_item(&mut items, ParsedItem::SpecialCharacter { kind: SpecialCharacter::Odoriji, span: *s });
                    assert(text_tokens_view(buf@) =~= Seq::<TextTokenV>::empty());
                    pos += 1;
                },
                AozoraToken::DakutenOdoriji(s) => {
                    flush(&mut items, &mut buf);
                    push_item(&mut items, ParsedItem::SpecialCharacter { kind: SpecialCharacter::DakutenOdoriji, span: *s });
                    assert(text_tokens_view(buf@) =~= Seq::<TextTokenV>::empty());
                    pos += 1;
                },
            }
        }
        assert(items_view(items@) == next.items);
        assert(text_tokens_view(buf@) == next.buf);
        assert(in_comment == next.in_comment);
        assert(pos == next.pos);
    }
    flush(&mut items, &mut buf);
    Ok(AozoraDocument { metadata: AozoraMetadata { title, author }, items })
}

fn skip_newline_exec(ts: &Vec<AozoraToken>, p: usize) -> (r: usize)
    requires
        p <= ts@.len(),
    ensures
        r as int == skip_newline(tokens_view(ts@), p as int),
{
    if p < ts.len() {
        if let AozoraToken::Newline(_) = &ts[p] {
            return p + 1;
        }
    }
    p
}

proof fn lemma_header_bound(ts: Seq<TokenV>, pos: int)
    requires
        0 <= pos <= ts.len(),
    ensures
        pos <= header_line(ts, pos).1 <= ts.len(),
    decreases ts.len() - pos,
{
    if pos < ts.len() {
        lemma_header_bound(ts, pos + 1);
    }
}
} // verus!
