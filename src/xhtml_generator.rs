//! The XHTML emitter: renders a block tree with paragraphs, headings and ruby, and
//! collects the table of contents.
use vstd::prelude::*;

use crate::block_parser::{AozoraBlock, BlockElement, BlockV, ElemV, copy_item, elem_view, elems_view, lemma_elems_view};
use crate::command::{CommandBegin, CommandV, Midashi, MidashiSize, MidashiType, SingleCommand, SingleCommandV, Command};
use crate::parser::{DecoratedText, ItemV, ParsedItem, SpecialCharacter, TextV, items_view};
use crate::text::{decimal, push_char, push_decimal, push_str, chars_of};

verus! {

/// A table-of-contents entry: heading level (2 to 4), heading text and element id.
#[derive(Debug, Clone)]
pub struct TocEntry {
    pub level: u32,
    pub text: String,
    pub id: String,
}

/// Mathematical form of a TOC entry.
pub struct TocV {
    pub level: u32,
    pub text: Seq<char>,
    pub id: Seq<char>,
}

impl View for TocEntry {
    type V = TocV;

    open spec fn view(&self) -> TocV {
        TocV { level: self.level, text: self.text@, id: self.id@ }
    }
}

pub open spec fn toc_view(t: Seq<TocEntry>) -> Seq<TocV> {
    t.map_values(|e: TocEntry| e@)
}

/// Renders a block tree to XHTML, collecting the table of contents.
pub struct XhtmlGenerator {
    body: String,
    toc_entries: Vec<TocEntry>,
    next_id: usize,
}

/// What the emitter has produced so far: body text, TOC entries, and the next heading number.
pub struct EmitState {
    pub body: Seq<char>,
    pub toc: Seq<TocV>,
    pub next_id: nat,
}

/// The next heading number; it stays at the largest `usize`.
pub open spec fn bump(n: nat) -> nat {
    if n < usize::MAX { n + 1 } else { n }
}

pub open spec fn escape_char(c: char) -> Seq<char> {
    if c == '&' {
        "&amp;"@
    } else if c == '<' {
        "&lt;"@
    } else if c == '>' {
        "&gt;"@
    } else if c == '"' {
        "&quot;"@
    } else if c == '\'' {
        "&apos;"@
    } else {
        seq![c]
    }
}

/// `&<>"'` replaced by their entities.
pub open spec fn escape(s: Seq<char>) -> Seq<char>
    decreases s.len(),
{
    if s.len() == 0 {
        Seq::empty()
    } else {
        escape(s.drop_last()) + escape_char(s.last())
    }
}

pub open spec fn size_tag(s: MidashiSize) -> Seq<char> {
    match s {
        MidashiSize::Large => "h2"@,
        MidashiSize::Middle => "h3"@,
        MidashiSize::Small => "h4"@,
    }
}

/// Element name of a block with decoration `d`.
pub open spec fn tag_of(d: Option<CommandBegin>) -> Seq<char> {
    match d {
        Some(CommandBegin::Midashi(m)) => if m.kind == MidashiType::Dogyo { "span"@ } else { size_tag(m.size) },
        _ => "div"@,
    }
}

/// Class of a block with decoration `d` (empty for none).
pub open spec fn class_of(d: Option<CommandBegin>) -> Seq<char> {
    match d {
        Some(CommandBegin::Midashi(m)) => if m.kind == MidashiType::Dogyo { "midashi-dogyo"@ } else { Seq::empty() },
        Some(CommandBegin::Alignment(a)) => if a.is_upper { "jisage-"@ + decimal(a.space as nat) } else { "chitsuki-"@ + decimal(a.space as nat) },
        Some(CommandBegin::Kakomikei) => "kakomi"@,
        Some(CommandBegin::Yokogumi) => "yokogumi"@,
        _ => Seq::empty(),
    }
}

pub open spec fn close_of(d: Option<CommandBegin>) -> Seq<char> {
    "</"@ + tag_of(d) + ">"@
}

/// A heading block: a heading that is not run in with the text.
pub open spec fn is_heading_block(d: Option<CommandBegin>) -> bool {
    match d {
        Some(CommandBegin::Midashi(m)) => m.kind != MidashiType::Dogyo,
        _ => false,
    }
}

/// TOC level of a heading: 2, 3 or 4 by size; 2 for one run in with the text.
pub open spec fn heading_level(m: Midashi) -> u32 {
    if m.kind == MidashiType::Dogyo {
        2
    } else {
        match m.size {
            MidashiSize::Large => 2,
            MidashiSize::Middle => 3,
            MidashiSize::Small => 4,
        }
    }
}

pub open spec fn heading_id(n: nat) -> Seq<char> {
    "midashi-"@ + decimal(n)
}

pub open spec fn class_attr(c: Seq<char>) -> Seq<char> {
    if c.len() == 0 { Seq::empty() } else { " class=\""@ + c + "\""@ }
}

pub open spec fn append(st: EmitState, s: Seq<char>) -> EmitState {
    EmitState { body: st.body + s, ..st }
}

/// The text that a heading's TOC entry shows: all texts below it, and the contents of
/// reference headings.
pub open spec fn item_text(i: ItemV) -> Seq<char> {
    match i {
        ItemV::Text(t) => t.text,
        ItemV::Command { cmd: CommandV::Single(SingleCommandV::Midashi(_, c)), .. } => c,
        _ => Seq::empty(),
    }
}

pub open spec fn block_text(b: BlockV) -> Seq<char>
    decreases b,
{
    elems_text(b.elements)
}

pub open spec fn elems_text(s: Seq<ElemV>) -> Seq<char>
    decreases s,
{
    if s.len() == 0 {
        Seq::empty()
    } else {
        elems_text(s.drop_last()) + match s.last() {
            ElemV::Item(i) => item_text(i),
            ElemV::Block(b) => block_text(b),
        }
    }
}

pub open spec fn text_html(t: TextV) -> Seq<char> {
    match t.ruby {
        Some(r) => "<ruby>"@ + escape(t.text) + "<rt>"@ + escape(r) + "</rt></ruby>"@,
        None => escape(t.text),
    }
}

/// The output of one inline item.
pub open spec fn render_item(i: ItemV, st: EmitState) -> EmitState {
    match i {
        ItemV::Text(t) => append(st, text_html(t)),
        ItemV::Command { cmd: CommandV::Single(sc), .. } => match sc {
            SingleCommandV::Bold(s) => append(st, "<span class=\"bold\">"@ + escape(s) + "</span>"@),
            SingleCommandV::Italic(s) => append(st, "<span class=\"italic\">"@ + escape(s) + "</span>"@),
            SingleCommandV::Bouten(_, s) => append(st, "<span class=\"em\">"@ + escape(s) + "</span>"@),
            SingleCommandV::Bousen(_, s) => append(st, "<span class=\"bousen\">"@ + escape(s) + "</span>"@),
            SingleCommandV::Kaipage => append(st, "<div class=\"page-break\"></div>"@),
            SingleCommandV::Kaicho => append(st, "<div class=\"page-break\"></div>"@),
            SingleCommandV::Kaimihiraki => append(st, "<div class=\"kaimihiraki\"></div>"@),
            SingleCommandV::Kaidan => append(st, "<div class=\"column-break\"></div>"@),
            SingleCommandV::Midashi(m, c) => {
                let d = Some(CommandBegin::Midashi(m));
                let id = heading_id(st.next_id);
                EmitState {
                    body: st.body + "<"@ + tag_of(d) + " id=\""@ + id + "\""@ + class_attr(class_of(d)) + ">"@ + escape(c) + close_of(d),
                    toc: st.toc.push(TocV { level: heading_level(m), text: c, id }),
                    next_id: bump(st.next_id),
                }
            },
            SingleCommandV::Alignment(_) => st,
        },
        ItemV::Special { kind: SpecialCharacter::Odoriji, .. } => append(st, "／＼"@),
        ItemV::Special { kind: SpecialCharacter::DakutenOdoriji, .. } => append(st, "／″＼"@),
        _ => st,
    }
}

pub open spec fn render_items(buf: Seq<ItemV>, st: EmitState) -> EmitState
    decreases buf.len(),
{
    if buf.len() == 0 {
        st
    } else {
        render_item(buf.last(), render_items(buf.drop_last(), st))
    }
}

/// The buffered inline items as a paragraph; inside a heading, without `<p>`.
pub open spec fn flush_paragraph(buf: Seq<ItemV>, is_heading: bool, st: EmitState) -> EmitState {
    if buf.len() == 0 {
        st
    } else if is_heading {
        render_items(buf, st)
    } else {
        append(render_items(buf, append(st, "<p>"@)), "</p>"@)
    }
}

/// An item that ends the current paragraph and is then rendered on its own.
pub open spec fn breaks_paragraph(i: ItemV) -> bool {
    match i {
        ItemV::Command { cmd: CommandV::Begin(_), .. } => true,
        ItemV::Command { cmd: CommandV::End(_), .. } => true,
        ItemV::Command { cmd: CommandV::Single(SingleCommandV::Midashi(_, _)), .. } => true,
        _ => false,
    }
}

/// Output and inline buffer after element `i` of `s`, inside a block that is a heading or not.
pub open spec fn render_elem_at(s: Seq<ElemV>, i: int, acc: (EmitState, Seq<ItemV>), is_heading: bool) -> (EmitState, Seq<ItemV>)
    decreases s, 0nat,
{
    let (st, buf) = acc;
    if 0 <= i < s.len() {
        match s[i] {
            ElemV::Item(it) => {
                if it is Newline {
                    if buf.len() == 0 {
                        (if is_heading { st } else { append(st, "<p><br/></p>"@) }, buf)
                    } else {
                        (flush_paragraph(buf, is_heading, st), Seq::empty())
                    }
                } else if breaks_paragraph(it) {
                    (render_item(it, flush_paragraph(buf, is_heading, st)), Seq::empty())
                } else if it matches ItemV::Command { cmd: CommandV::Unknown(_), .. } {
                    (st, buf)
                } else {
                    (st, buf.push(it))
                }
            },
            ElemV::Block(b) => (render_block(b, flush_paragraph(buf, is_heading, st)), Seq::empty()),
        }
    } else {
        acc
    }
}

/// Output and inline buffer after the first `n` elements of `s`.
pub open spec fn render_prefix(s: Seq<ElemV>, n: int, is_heading: bool, st: EmitState) -> (EmitState, Seq<ItemV>)
    decreases s, 1nat + n,
{
    if n <= 0 || n > s.len() {
        (st, Seq::empty())
    } else {
        render_elem_at(s, n - 1, render_prefix(s, n - 1, is_heading, st), is_heading)
    }
}

/// The output of a block: its element (with id and TOC entry when it is a heading), its
/// children with paragraphs around inline runs, and its closing tag.
pub open spec fn render_block(b: BlockV, st: EmitState) -> EmitState
    decreases b, 0nat,
{
    let d = b.decoration;
    let h = is_heading_block(d);
    let id = heading_id(st.next_id);
    let st1 = if h {
        EmitState {
            body: st.body + "<"@ + tag_of(d) + " id=\""@ + id + "\""@ + class_attr(class_of(d)) + ">"@,
            toc: st.toc.push(TocV { level: heading_level(d->Some_0->Midashi_0), text: block_text(b), id }),
            next_id: bump(st.next_id),
        }
    } else {
        append(st, "<"@ + tag_of(d) + class_attr(class_of(d)) + ">"@)
    };
    let (st2, buf) = render_prefix(b.elements, b.elements.len() as int, h, st1);
    append(flush_paragraph(buf, h, st2), close_of(d))
}

pub open spec fn initial_state() -> EmitState {
    EmitState { body: Seq::empty(), toc: Seq::empty(), next_id: 1 }
}

pub open spec fn preamble() -> Seq<char> {
    "<?xml version=\"1.0\" encoding=\"UTF-8\"?>\n<!DOCTYPE html>\n<html\n xmlns=\"http://www.w3.org/1999/xhtml\"\n xmlns:epub=\"http://www.idpf.org/2007/ops\"\n xml:lang=\"ja\"\n class=\"vrtl\"\n>\n<head>\n<meta charset=\"UTF-8\"/>\n<title>"@
}

pub open spec fn after_title() -> Seq<char> {
    "</title>\n<link rel=\"stylesheet\" type=\"text/css\" href=\"../style/book-style.css\"/>\n\n</head>\n<body>\n<div class=\"main\">\n"@
}

pub open spec fn postamble() -> Seq<char> {
    "\n</div>\n</body>\n</html>"@
}

/// The XHTML document of a tree under a title.
pub open spec fn xhtml_of(b: BlockV, title: Seq<char>) -> Seq<char> {
    preamble() + title + after_title() + render_block(b, initial_state()).body + postamble()
}

/// The table of contents of a tree.
pub open spec fn toc_of(b: BlockV) -> Seq<TocV> {
    render_block(b, initial_state()).toc
}

/// Escapes `&<>"'` as entities.
pub fn escape_html(s: &str) -> (r: String)
    ensures
        r@ == escape(s@),
{
    let cs = chars_of(s);
    let mut r = String::new();
    let mut i: usize = 0;
    while i < cs.len()
        invariant
            cs@ == s@,
            i <= cs@.len(),
            r@ == escape(cs@.take(i as int)),
        decreases cs@.len() - i,
    {
        let c = cs[i];
        if c == '&' {
            push_str(&mut r, "&amp;");
        } else if c == '<' {
            push_str(&mut r, "&lt;");
        } else if c == '>' {
            push_str(&mut r, "&gt;");
        } else if c == '"' {
            push_str(&mut r, "&quot;");
        } else if c == '\'' {
            push_str(&mut r, "&apos;");
        } else {
            push_char(&mut r, c);
        }
        assert(cs@.take(i + 1).drop_last() =~= cs@.take(i as int));
        assert(r@ =~= escape(cs@.take(i + 1)));
        i += 1;
    }
    assert(cs@.take(i as int) =~= cs@);
    r
}


fn push_class_attr(s: &mut String, classes: &String)
    ensures
        final(s)@ == old(s)@ + class_attr(classes@),
{
    if classes.as_str().is_empty() {
        assert(old(s)@ + class_attr(classes@) =~= old(s)@);
    } else {
        push_str(s, " class=\"");
        push_str(s, classes.as_str());
        push_str(s, "\"");
        assert(final(s)@ =~= old(s)@ + class_attr(classes@));
    }
}

fn level_of(m: &Midashi) -> (r: u32)
    ensures
        r == heading_level(*m),
{
    if m.kind == MidashiType::Dogyo {
        2
    } else {
        match m.size {
            MidashiSize::Large => 2,
            MidashiSize::Middle => 3,
            MidashiSize::Small => 4,
        }
    }
}

impl XhtmlGenerator {
    /// What the generator has produced so far.
    pub closed spec fn state(&self) -> EmitState {
        EmitState { body: self.body@, toc: toc_view(self.toc_entries@), next_id: self.next_id as nat }
    }

    /// A generator with nothing emitted; the first heading gets number 1.
    pub fn new() -> (r: XhtmlGenerator)
        ensures
            r.state() == initial_state(),
    {
        let r = XhtmlGenerator { body: String::new(), toc_entries: Vec::new(), next_id: 1 };
        assert(toc_view(r.toc_entries@) =~= Seq::<TocV>::empty());
        r
    }

    /// Renders `block` into a complete XHTML document titled `title`, with its table of
    /// contents: exactly `xhtml_of` and `toc_of`.
    pub fn generate(block: &AozoraBlock, title: &str) -> (r: (String, Vec<TocEntry>))
        ensures
            r.0@ == xhtml_of(block@, title@),
            toc_view(r.1@) == toc_of(block@),
    {
        let mut generator = XhtmlGenerator::new();
        generator.render_block(block);
        let mut out = String::new();
        push_str(&mut out, "<?xml version=\"1.0\" encoding=\"UTF-8\"?>\n<!DOCTYPE html>\n<html\n xmlns=\"http://www.w3.org/1999/xhtml\"\n xmlns:epub=\"http://www.idpf.org/2007/ops\"\n xml:lang=\"ja\"\n class=\"vrtl\"\n>\n<head>\n<meta charset=\"UTF-8\"/>\n<title>");
        push_str(&mut out, title);
        push_str(&mut out, "</title>\n<link rel=\"stylesheet\" type=\"text/css\" href=\"../style/book-style.css\"/>\n\n</head>\n<body>\n<div class=\"main\">\n");
        push_str(&mut out, generator.body.as_str());
        push_str(&mut out, "\n</div>\n</body>\n</html>");
        assert(out@ =~= xhtml_of(block@, title@));
        (out, generator.toc_entries)
    }

    fn push_body(&mut self, s: &str)
        ensures
            final(self).state() == append(old(self).state(), s@),
    {
        push_str(&mut self.body, s);
    }

    /// Takes the next heading number and returns its id.
    fn take_id(&mut self) -> (id: String)
        ensures
            id@ == heading_id(old(self).next_id as nat),
            final(self).state() == (EmitState { next_id: bump(old(self).next_id as nat), ..old(self).state() }),
    {
        let mut id = "midashi-".to_owned();
        push_decimal(&mut id, self.next_id);
        if self.next_id < usize::MAX {
            self.next_id = self.next_id + 1;
        }
        id
    }

    fn push_toc(&mut self, e: TocEntry)
        ensures
            final(self).state() == (EmitState { toc: old(self).state().toc.push(e@), ..old(self).state() }),
    {
        let ghost ev = e@;
        self.toc_entries.push(e);
        assert(toc_view(self.toc_entries@) =~= toc_view(old(self).toc_entries@).push(ev));
    }

    /// Element name, class, closing tag, and whether it is a heading, for a decoration.
    fn resolve_decoration(&self, decoration: &Option<CommandBegin>) -> (r: (String, String, String, bool))
        ensures
            r.0@ == tag_of(*decoration),
            r.1@ == class_of(*decoration),
            r.2@ == close_of(*decoration),
            r.3 == is_heading_block(*decoration),
    {
        let (tag, classes, is_heading) = match decoration {
            Some(CommandBegin::Midashi(m)) => {
                if m.kind == MidashiType::Dogyo {
                    ("span".to_owned(), "midashi-dogyo".to_owned(), false)
                } else {
                    let t = match m.size {
                        MidashiSize::Large => "h2".to_owned(),
                        MidashiSize::Middle => "h3".to_owned(),
                        MidashiSize::Small => "h4".to_owned(),
                    };
                    (t, String::new(), true)
                }
            },
            Some(CommandBegin::Alignment(a)) => {
                let mut c = if a.is_upper { "jisage-".to_owned() } else { "chitsuki-".to_owned() };
                push_decimal(&mut c, a.space);
                ("div".to_owned(), c, false)
            },
            Some(CommandBegin::Kakomikei) => ("div".to_owned(), "kakomi".to_owned(), false),
            Some(CommandBegin::Yokogumi) => ("div".to_owned(), "yokogumi".to_owned(), false),
            _ => ("div".to_owned(), String::new(), false),
        };
        let mut close = "</".to_owned();
        push_str(&mut close, tag.as_str());
        push_str(&mut close, ">");
        (tag, classes, close, is_heading)
    }

    /// The TOC text of a block.
    fn extract_text_from_block(&self, block: &AozoraBlock) -> (r: String)
        ensures
            r@ == block_text(block@),
    {
        let mut text = String::new();
        self.accumulate_text_from_block(block, &mut text);
        text
    }

    fn accumulate_text_from_block(&self, block: &AozoraBlock, acc: &mut String)
        ensures
            final(acc)@ == old(acc)@ + block_text(block@),
        decreases block,
    {
        let ghost s = elems_view(block.elements@);
        proof {
            lemma_elems_view(block.elements@);
        }
        let mut i: usize = 0;
        while i < block.elements.len()
            invariant
                s == elems_view(block.elements@),
                s.len() == block.elements@.len(),
                forall|k: int| 0 <= k < s.len() ==> #[trigger] s[k] == elem_view(block.elements@[k]),
                i <= s.len(),
                acc@ == old(acc)@ + elems_text(s.take(i as int)),
            decreases s.len() - i,
        {
            match &block.elements[i] {
                BlockElement::Item(item) => {
                    self.accumulate_text_from_item(item, acc);
                },
                BlockElement::Block(b) => {
                    self.accumulate_text_from_block(b, acc);
                },
            }
            assert(s.take(i + 1).drop_last() =~= s.take(i as int));
            assert(acc@ =~= old(acc)@ + elems_text(s.take(i + 1)));
            i += 1;
        }
        assert(s.take(i as int) =~= s);
    }

    fn accumulate_text_from_item(&self, item: &ParsedItem, acc: &mut String)
        ensures
            final(acc)@ == old(acc)@ + item_text(item@),
    {
        match item {
            ParsedItem::Text(dt) => push_str(acc, dt.text.as_str()),
            ParsedItem::Command { cmd: Command::SingleCommand(SingleCommand::Midashi((_, content))), .. } => {
                push_str(acc, content.as_str());
            },
            _ => {
                assert(old(acc)@ + item_text(item@) =~= old(acc)@);
            },
        }
    }

    fn render_text(&mut self, dt: &DecoratedText)
        ensures
            final(self).state() == append(old(self).state(), text_html(dt@)),
    {
        let content = escape_html(dt.text.as_str());
        match &dt.ruby {
            Some(ruby) => {
                self.push_body("<ruby>");
                self.push_body(content.as_str());
                self.push_body("<rt>");
                let r = escape_html(ruby.as_str());
                self.push_body(r.as_str());
                self.push_body("</rt></ruby>");
                assert(self.body@ =~= old(self).body@ + text_html(dt@));
            },
            None => {
                self.push_body(content.as_str());
            },
        }
    }

    fn push_span(&mut self, class_open: &str, s: &String)
        ensures
            final(self).state() == append(old(self).state(), class_open@ + escape(s@) + "</span>"@),
    {
        self.push_body(class_open);
        let e = escape_html(s.as_str());
        self.push_body(e.as_str());
        self.push_body("</span>");
        assert(self.body@ =~= old(self).body@ + (class_open@ + escape(s@) + "</span>"@));
    }

    /// Renders one inline item: `render_item`.
    fn render_item(&mut self, item: &ParsedItem)
        ensures
            final(self).state() == render_item(item@, old(self).state()),
    {
        match item {
            ParsedItem::Text(dt) => {
                self.render_text(dt);
            },
            ParsedItem::Command { cmd: Command::SingleCommand(sc), .. } => {
                match sc {
                    SingleCommand::Bold(s) => self.push_span("<span class=\"bold\">", s),
                    SingleCommand::Italic(s) => self.push_span("<span class=\"italic\">", s),
                    SingleCommand::Bouten((_, s)) => self.push_span("<span class=\"em\">", s),
                    SingleCommand::Bousen((_, s)) => self.push_span("<span class=\"bousen\">", s),
                    SingleCommand::Kaipage => self.push_body("<div class=\"page-break\"></div>"),
                    SingleCommand::Kaicho => self.push_body("<div class=\"page-break\"></div>"),
                    SingleCommand::Kaimihiraki => self.push_body("<div class=\"kaimihiraki\"></div>"),
                    SingleCommand::Kaidan => self.push_body("<div class=\"column-break\"></div>"),
                    SingleCommand::Midashi((m, content)) => {
                        let (tag, classes, close, _) = self.resolve_decoration(&Some(CommandBegin::Midashi(*m)));
                        let id = self.take_id();
                        let level = level_of(m);
                        self.push_toc(TocEntry { level, text: content.clone(), id: id.clone() });
                        self.push_body("<");
                        self.push_body(tag.as_str());
                        self.push_body(" id=\"");
                        self.push_body(id.as_str());
                        self.push_body("\"");
                        push_class_attr(&mut self.body, &classes);
                        self.push_body(">");
                        let e = escape_html(content.as_str());
                        self.push_body(e.as_str());
                        self.push_body(close.as_str());
                    },
                    SingleCommand::Alignment(_) => {},
                }
            },
            ParsedItem::SpecialCharacter { kind, .. } => match kind {
                SpecialCharacter::Odoriji => self.push_body("／＼"),
                SpecialCharacter::DakutenOdoriji => self.push_body("／″＼"),
            },
            _ => {},
        }
    }

    /// Renders buffered inline items as one paragraph (bare inside a heading).
    fn flush_paragraph(&mut self, buffer: &Vec<ParsedItem>, is_heading: bool)
        ensures
            final(self).state() == flush_paragraph(items_view(buffer@), is_heading, old(self).state()),
    {
        if buffer.len() == 0 {
            return;
        }
        if !is_heading {
            self.push_body("<p>");
        }
        let ghost st0 = self.state();
        let ghost bv = items_view(buffer@);
        let mut k: usize = 0;
        while k < buffer.len()
            invariant
                bv == items_view(buffer@),
                k <= buffer@.len(),
                self.state() == render_items(bv.take(k as int), st0),
            decreases buffer@.len() - k,
        {
            self.render_item(&buffer[k]);
            assert(bv.take(k + 1).drop_last() =~= bv.take(k as int));
            k += 1;
        }
        assert(bv.take(k as int) =~= bv);
        if !is_heading {
            self.push_body("</p>");
        }
    }

    /// Renders a block: `render_block`.
    fn render_block(&mut self, block: &AozoraBlock)
        ensures
            final(self).state() == render_block(block@, old(self).state()),
        decreases block,
    {
        let ghost s = elems_view(block.elements@);
        proof {
            lemma_elems_view(block.elements@);
        }
        let (tag, classes, close, is_heading) = self.resolve_decoration(&block.decoration);
        if is_heading {
            let id = self.take_id();
            let toc_text = self.extract_text_from_block(block);
            let level = match &block.decoration {
                Some(CommandBegin::Midashi(m)) => level_of(m),
                _ => 2,
            };
            self.push_toc(TocEntry { level, text: toc_text, id: id.clone() });
            self.push_body("<");
            self.push_body(tag.as_str());
            self.push_body(" id=\"");
            self.push_body(id.as_str());
            self.push_body("\"");
            push_class_attr(&mut self.body, &classes);
            self.push_body(">");
        } else {
            self.push_body("<");
            self.push_body(tag.as_str());
            push_class_attr(&mut self.body, &classes);
            self.push_body(">");
            assert(self.body@ =~= old(self).body@ + ("<"@ + tag_of(block.decoration) + class_attr(class_of(block.decoration)) + ">"@));
        }
        let ghost st1 = self.state();
        let mut buffer: Vec<ParsedItem> = Vec::new();
        assert(items_view(buffer@) =~= Seq::<ItemV>::empty());
        let mut i: usize = 0;
        while i < block.elements.len()
            invariant
                s == elems_view(block.elements@),
                s.len() == block.elements@.len(),
                forall|k: int| 0 <= k < s.len() ==> #[trigger] s[k] == elem_view(block.elements@[k]),
                i <= s.len(),
                is_heading == is_heading_block(block.decoration),
                (self.state(), items_view(buffer@)) == render_prefix(s, i as int, is_heading, st1),
            decreases s.len() - i,
        {
            let ghost bv = items_view(buffer@);
            let ghost acc0 = (self.state(), bv);
            assert(render_prefix(s, i + 1, is_heading, st1) == render_elem_at(s, i as int, render_prefix(s, i as int, is_heading, st1), is_heading));
            match &block.elements[i] {
                BlockElement::Item(item) => {
                    match item {
                        ParsedItem::Newline(_) => {
                            if buffer.len() == 0 {
                                if !is_heading {
                                    self.push_body("<p><br/></p>");
                                }
                            } else {
                                self.flush_paragraph(&buffer, is_heading);
                                buffer.clear();
                                assert(items_view(buffer@) =~= Seq::<ItemV>::empty());
                            }
                        },
                        ParsedItem::Command { cmd: Command::CommandBegin(_), .. }
                        | ParsedItem::Command { cmd: Command::CommandEnd(_), .. }
                        | ParsedItem::Command { cmd: Command::SingleCommand(SingleCommand::Midashi(_)), .. } => {
                            self.flush_paragraph(&buffer, is_heading);
                            buffer.clear();
                            assert(items_view(buffer@) =~= Seq::<ItemV>::empty());
                            self.render_item(item);
                        },
                        ParsedItem::Command { cmd: Command::Unknown(_), .. } => {},
                        _ => {
                            buffer.push(copy_item(item));
                            assert(items_view(buffer@) =~= bv.push(item@));
                        },
                    }
                },
                BlockElement::Block(sub) => {
                    self.flush_paragraph(&buffer, is_heading);
                    buffer.clear();
                    assert(items_view(buffer@) =~= Seq::<ItemV>::empty());
                    self.render_block(sub);
                },
            }
            assert((self.state(), items_view(buffer@)) == render_elem_at(s, i as int, acc0, is_heading));
            i += 1;
        }
        self.flush_paragraph(&buffer, is_heading);
        self.push_body(close.as_str());
    }
}

pub open spec fn ent_amp() -> Seq<char> { seq!['&', 'a', 'm', 'p', ';'] }
pub open spec fn ent_lt() -> Seq<char> { seq!['&', 'l', 't', ';'] }
pub open spec fn ent_gt() -> Seq<char> { seq!['&', 'g', 't', ';'] }
pub open spec fn ent_quot() -> Seq<char> { seq!['&', 'q', 'u', 'o', 't', ';'] }
pub open spec fn ent_apos() -> Seq<char> { seq!['&', 'a', 'p', 'o', 's', ';'] }

/// HTML-entity decoding of the five entities that `escape` writes.
pub open spec fn unescape(s: Seq<char>) -> Seq<char>
    decreases s.len(),
{
    if s.len() == 0 {
        Seq::empty()
    } else if crate::command::has_at(s, 0, ent_amp()) {
        seq!['&'] + unescape(s.subrange(5, s.len() as int))
    } else if crate::command::has_at(s, 0, ent_lt()) {
        seq!['<'] + unescape(s.subrange(4, s.len() as int))
    } else if crate::command::has_at(s, 0, ent_gt()) {
        seq!['>'] + unescape(s.subrange(4, s.len() as int))
    } else if crate::command::has_at(s, 0, ent_quot()) {
        seq!['"'] + unescape(s.subrange(6, s.len() as int))
    } else if crate::command::has_at(s, 0, ent_apos()) {
        seq!['\''] + unescape(s.subrange(6, s.len() as int))
    } else {
        seq![s[0]] + unescape(s.drop_first())
    }
}

proof fn lemma_escape_append(a: Seq<char>, b: Seq<char>)
    ensures
        escape(a + b) == escape(a) + escape(b),
    decreases b.len(),
{
    if b.len() == 0 {
        assert(a + b =~= a);
        assert(escape(a) + escape(b) =~= escape(a));
    } else {
        lemma_escape_append(a, b.drop_last());
        assert((a + b).drop_last() =~= a + b.drop_last());
        assert(escape(a + b) =~= escape(a) + escape(b));
    }
}

proof fn lemma_unescape_char(c: char, t: Seq<char>)
    ensures
        unescape(escape_char(c) + t) == seq![c] + unescape(t),
{
    reveal_strlit("&amp;");
    reveal_strlit("&lt;");
    reveal_strlit("&gt;");
    reveal_strlit("&quot;");
    reveal_strlit("&apos;");
    let s = escape_char(c) + t;
    let amp = crate::command::has_at(s, 0, ent_amp());
    let lt = crate::command::has_at(s, 0, ent_lt());
    let gt = crate::command::has_at(s, 0, ent_gt());
    let quot = crate::command::has_at(s, 0, ent_quot());
    if c == '&' {
        assert(escape_char(c) =~= ent_amp());
        assert(s.subrange(0, 5) =~= ent_amp());
        assert(s.subrange(5, s.len() as int) =~= t);
    } else if c == '<' {
        assert(escape_char(c) =~= ent_lt());
        assert(!amp) by {
            if s.len() >= 5 {
                assert(s.subrange(0, 5)[1] == s[1]);
            }
        }
        assert(s.subrange(0, 4) =~= ent_lt());
        assert(s.subrange(4, s.len() as int) =~= t);
    } else if c == '>' {
        assert(escape_char(c) =~= ent_gt());
        assert(!amp) by {
            if s.len() >= 5 {
                assert(s.subrange(0, 5)[1] == s[1]);
            }
        }
        assert(!lt) by {
            assert(s.subrange(0, 4)[1] == s[1]);
        }
        assert(s.subrange(0, 4) =~= ent_gt());
        assert(s.subrange(4, s.len() as int) =~= t);
    } else if c == '"' {
        assert(escape_char(c) =~= ent_quot());
        assert(!amp) by {
            assert(s.subrange(0, 5)[1] == s[1]);
        }
        assert(!lt) by {
            assert(s.subrange(0, 4)[1] == s[1]);
        }
        assert(!gt) by {
            assert(s.subrange(0, 4)[1] == s[1]);
        }
        assert(s.subrange(0, 6) =~= ent_quot());
        assert(s.subrange(6, s.len() as int) =~= t);
    } else if c == '\'' {
        assert(escape_char(c) =~= ent_apos());
        assert(!amp) by {
            assert(s.subrange(0, 5)[2] == s[2]);
        }
        assert(!lt) by {
            assert(s.subrange(0, 4)[1] == s[1]);
        }
        assert(!gt) by {
            assert(s.subrange(0, 4)[1] == s[1]);
        }
        assert(!quot) by {
            assert(s.subrange(0, 6)[1] == s[1]);
        }
        assert(s.subrange(0, 6) =~= ent_apos());
        assert(s.subrange(6, s.len() as int) =~= t);
    } else {
        assert(s[0] == c);
        assert(!amp) by {
            if s.len() >= 5 {
                assert(s.subrange(0, 5)[0] == s[0]);
            }
        }
        assert(!lt && !gt) by {
            if s.len() >= 4 {
                assert(s.subrange(0, 4)[0] == s[0]);
            }
        }
        assert(!quot && !crate::command::has_at(s, 0, ent_apos())) by {
            if s.len() >= 6 {
                assert(s.subrange(0, 6)[0] == s[0]);
            }
        }
        assert(s.drop_first() =~= t);
    }
}

/// Escaping: decoding the entities of escaped text gives the text back, every character
/// preserved.
pub proof fn law_escape_round_trip(s: Seq<char>)
    ensures
        unescape(escape(s)) == s,
    decreases s.len(),
{
    if s.len() > 0 {
        let rest = s.drop_first();
        law_escape_round_trip(rest);
        assert(s =~= seq![s[0]] + rest);
        lemma_escape_append(seq![s[0]], rest);
        assert(seq![s[0]].drop_last() =~= Seq::<char>::empty());
        assert(escape(seq![s[0]].drop_last()) == Seq::<char>::empty());
        assert(escape(seq![s[0]]) =~= escape_char(s[0]));
        lemma_unescape_char(s[0], escape(rest));
    }
}

/// `s` holds no raw `<`, `>`, `"` or `'`, and each `&` in it starts one of the five entities.
pub open spec fn well_escaped(s: Seq<char>) -> bool {
    forall|i: int| 0 <= i < s.len() ==> entity_safe(s, i)
}

pub open spec fn entity_safe(s: Seq<char>, i: int) -> bool {
    &&& s[i] != '<' && s[i] != '>' && s[i] != '"' && s[i] != '\''
    &&& s[i] == '&' ==> (crate::command::has_at(s, i, ent_amp()) || crate::command::has_at(s, i, ent_lt())
        || crate::command::has_at(s, i, ent_gt()) || crate::command::has_at(s, i, ent_quot())
        || crate::command::has_at(s, i, ent_apos()))
}

proof fn lemma_has_at_extend(a: Seq<char>, b: Seq<char>, i: int, lit: Seq<char>)
    requires
        crate::command::has_at(a, i, lit),
    ensures
        crate::command::has_at(a + b, i, lit),
{
    assert((a + b).subrange(i, i + lit.len()) =~= a.subrange(i, i + lit.len()));
}

proof fn lemma_has_at_shift(a: Seq<char>, b: Seq<char>, i: int, lit: Seq<char>)
    requires
        crate::command::has_at(b, i, lit),
    ensures
        crate::command::has_at(a + b, a.len() + i, lit),
{
    assert((a + b).subrange(a.len() + i, a.len() + i + lit.len()) =~= b.subrange(i, i + lit.len()));
}

/// Escaping leaves no raw `<`, `>`, `"` or `'`, and every `&` of the output starts an
/// entity.
pub proof fn law_escape_well_formed(s: Seq<char>)
    ensures
        well_escaped(escape(s)),
    decreases s.len(),
{
    reveal_strlit("&amp;");
    reveal_strlit("&lt;");
    reveal_strlit("&gt;");
    reveal_strlit("&quot;");
    reveal_strlit("&apos;");
    if s.len() > 0 {
        law_escape_well_formed(s.drop_last());
        let a = escape(s.drop_last());
        let c = s.last();
        let b = escape_char(c);
        assert(escape(s) == a + b);
        assert forall|i: int| 0 <= i < (a + b).len() implies entity_safe(a + b, i) by {
            if i < a.len() {
                assert(entity_safe(a, i));
                assert((a + b)[i] == a[i]);
                if a[i] == '&' {
                    if crate::command::has_at(a, i, ent_amp()) { lemma_has_at_extend(a, b, i, ent_amp()); }
                    if crate::command::has_at(a, i, ent_lt()) { lemma_has_at_extend(a, b, i, ent_lt()); }
                    if crate::command::has_at(a, i, ent_gt()) { lemma_has_at_extend(a, b, i, ent_gt()); }
                    if crate::command::has_at(a, i, ent_quot()) { lemma_has_at_extend(a, b, i, ent_quot()); }
                    if crate::command::has_at(a, i, ent_apos()) { lemma_has_at_extend(a, b, i, ent_apos()); }
                }
                assert(entity_safe(a + b, i));
            } else {
                let j = i - a.len();
                assert((a + b)[i] == b[j]);
                assert(j > 0 ==> b[j] != '&');
                if c == '&' {
                    assert(b =~= ent_amp());
                    if j == 0 {
                        assert(b.subrange(0, 5) =~= ent_amp());
                        assert(crate::command::has_at(b, 0, ent_amp()));
                        lemma_has_at_shift(a, b, 0, ent_amp());
                    }
                } else if c == '<' {
                    assert(b =~= ent_lt());
                    if j == 0 {
                        assert(b.subrange(0, 4) =~= ent_lt());
                        lemma_has_at_shift(a, b, 0, ent_lt());
                    }
                } else if c == '>' {
                    assert(b =~= ent_gt());
                    if j == 0 {
                        assert(b.subrange(0, 4) =~= ent_gt());
                        lemma_has_at_shift(a, b, 0, ent_gt());
                    }
                } else if c == '"' {
                    assert(b =~= ent_quot());
                    if j == 0 {
                        assert(b.subrange(0, 6) =~= ent_quot());
                        lemma_has_at_shift(a, b, 0, ent_quot());
                    }
                } else if c == '\'' {
                    assert(b =~= ent_apos());
                    if j == 0 {
                        assert(b.subrange(0, 6) =~= ent_apos());
                        lemma_has_at_shift(a, b, 0, ent_apos());
                    }
                } else {
                    assert(b =~= seq![c]);
                }
                assert((a + b)[i] != '<' && (a + b)[i] != '>');
                assert((a + b)[i] != '"' && (a + b)[i] != '\'');
                assert(entity_safe(a + b, i));
            }
        }
    }
}

/// Whether an item is a reference heading, which takes a TOC entry.
pub open spec fn is_inline_heading(i: ItemV) -> bool {
    i matches ItemV::Command { cmd: CommandV::Single(SingleCommandV::Midashi(_, _)), .. }
}

/// Heading blocks (not run in with the text) and reference headings in a tree, its root included.
pub open spec fn heading_count(b: BlockV) -> nat
    decreases b,
{
    (if is_heading_block(b.decoration) { 1nat } else { 0nat }) + elems_heading_count(b.elements)
}

pub open spec fn elems_heading_count(s: Seq<ElemV>) -> nat
    decreases s,
{
    if s.len() == 0 {
        0
    } else {
        elems_heading_count(s.drop_last()) + match s.last() {
            ElemV::Item(i) => if is_inline_heading(i) { 1nat } else { 0nat },
            ElemV::Block(b) => heading_count(b),
        }
    }
}

pub open spec fn no_inline_headings(buf: Seq<ItemV>) -> bool {
    forall|k: int| 0 <= k < buf.len() ==> !is_inline_heading(#[trigger] buf[k])
}

proof fn lemma_render_items_toc(buf: Seq<ItemV>, st: EmitState)
    requires
        no_inline_headings(buf),
    ensures
        render_items(buf, st).toc == st.toc,
        render_items(buf, st).next_id == st.next_id,
    decreases buf.len(),
{
    if buf.len() > 0 {
        assert(!is_inline_heading(buf[buf.len() - 1]));
        lemma_render_items_toc(buf.drop_last(), st);
    }
}

proof fn lemma_flush_toc(buf: Seq<ItemV>, h: bool, st: EmitState)
    requires
        no_inline_headings(buf),
    ensures
        flush_paragraph(buf, h, st).toc == st.toc,
        flush_paragraph(buf, h, st).next_id == st.next_id,
{
    lemma_render_items_toc(buf, st);
    lemma_render_items_toc(buf, append(st, "<p>"@));
}

proof fn lemma_render_item_toc(i: ItemV, st: EmitState)
    ensures
        render_item(i, st).toc.len() == st.toc.len() + (if is_inline_heading(i) { 1nat } else { 0nat }),
{
}

proof fn lemma_block_toc(b: BlockV, st: EmitState)
    ensures
        render_block(b, st).toc.len() == st.toc.len() + heading_count(b),
    decreases b, 0nat,
{
    let d = b.decoration;
    let h = is_heading_block(d);
    let id = heading_id(st.next_id);
    let st1 = if h {
        EmitState {
            body: st.body + "<"@ + tag_of(d) + " id=\""@ + id + "\""@ + class_attr(class_of(d)) + ">"@,
            toc: st.toc.push(TocV { level: heading_level(d->Some_0->Midashi_0), text: block_text(b), id }),
            next_id: bump(st.next_id),
        }
    } else {
        append(st, "<"@ + tag_of(d) + class_attr(class_of(d)) + ">"@)
    };
    lemma_prefix_toc(b.elements, b.elements.len() as int, h, st1);
    let (st2, buf) = render_prefix(b.elements, b.elements.len() as int, h, st1);
    lemma_flush_toc(buf, h, st2);
    assert(b.elements.take(b.elements.len() as int) =~= b.elements);
}

proof fn lemma_prefix_toc(s: Seq<ElemV>, n: int, h: bool, st: EmitState)
    requires
        0 <= n <= s.len(),
    ensures
        render_prefix(s, n, h, st).0.toc.len() == st.toc.len() + elems_heading_count(s.take(n)),
        no_inline_headings(render_prefix(s, n, h, st).1),
    decreases s, 1nat + n,
{
    if n == 0 {
        assert(s.take(0) =~= Seq::<ElemV>::empty());
    } else {
        lemma_prefix_toc(s, n - 1, h, st);
        let (st0, buf) = render_prefix(s, n - 1, h, st);
        assert(s.take(n).drop_last() =~= s.take(n - 1));
        assert(s.take(n).last() == s[n - 1]);
        lemma_flush_toc(buf, h, st0);
        assert(render_prefix(s, n, h, st) == render_elem_at(s, n - 1, (st0, buf), h));
        match s[n - 1] {
            ElemV::Item(it) => {
                lemma_render_item_toc(it, flush_paragraph(buf, h, st0));
                assert(elems_heading_count(s.take(n)) == elems_heading_count(s.take(n - 1)) + if is_inline_heading(it) { 1nat } else { 0nat });
                if !(it is Newline) && !breaks_paragraph(it) && !(it matches ItemV::Command { cmd: CommandV::Unknown(_), .. }) {
                    assert(no_inline_headings(buf.push(it))) by {
                        assert forall|k: int| 0 <= k < buf.push(it).len() implies !is_inline_heading(#[trigger] buf.push(it)[k]) by {
                            if k < buf.len() {
                                assert(buf.push(it)[k] == buf[k]);
                            }
                        }
                    }
                }
            },
            ElemV::Block(b) => {
                lemma_block_toc(b, flush_paragraph(buf, h, st0));
                assert(elems_heading_count(s.take(n)) == elems_heading_count(s.take(n - 1)) + heading_count(b));
            },
        }
    }
}

/// TOC cardinality: the table of contents has one entry per heading block that is not run
/// in with the text, plus one per reference-heading command, anywhere in the tree.
pub proof fn law_toc_counts_headings(b: BlockV)
    ensures
        toc_of(b).len() == heading_count(b),
{
    lemma_block_toc(b, initial_state());
}

/// Entry `k` of the TOC has id number `k + 1`, and the next number follows the last.
pub open spec fn ids_in_order(st: EmitState) -> bool {
    &&& st.next_id == st.toc.len() + 1
    &&& forall|k: int| 0 <= k < st.toc.len() ==> #[trigger] st.toc[k].id == heading_id((k + 1) as nat)
}

proof fn lemma_push_heading(st: EmitState, e: TocV)
    requires
        ids_in_order(st),
        e.id == heading_id(st.next_id),
        st.next_id < usize::MAX,
    ensures
        ids_in_order(EmitState { toc: st.toc.push(e), next_id: bump(st.next_id), body: st.body }),
{
    let t = st.toc.push(e);
    assert forall|k: int| 0 <= k < t.len() implies #[trigger] t[k].id == heading_id((k + 1) as nat) by {
        if k < st.toc.len() {
            assert(t[k] == st.toc[k]);
        }
    }
}

proof fn lemma_block_ids(b: BlockV, st: EmitState)
    requires
        ids_in_order(st),
        st.toc.len() + heading_count(b) + 2 < usize::MAX,
    ensures
        ids_in_order(render_block(b, st)),
    decreases b, 0nat,
{
    let d = b.decoration;
    let h = is_heading_block(d);
    let id = heading_id(st.next_id);
    let st1 = if h {
        EmitState {
            body: st.body + "<"@ + tag_of(d) + " id=\""@ + id + "\""@ + class_attr(class_of(d)) + ">"@,
            toc: st.toc.push(TocV { level: heading_level(d->Some_0->Midashi_0), text: block_text(b), id }),
            next_id: bump(st.next_id),
        }
    } else {
        append(st, "<"@ + tag_of(d) + class_attr(class_of(d)) + ">"@)
    };
    if h {
        lemma_push_heading(st, TocV { level: heading_level(d->Some_0->Midashi_0), text: block_text(b), id });
    }
    assert(b.elements.take(b.elements.len() as int) =~= b.elements);
    lemma_prefix_ids(b.elements, b.elements.len() as int, h, st1);
    let (st2, buf) = render_prefix(b.elements, b.elements.len() as int, h, st1);
    lemma_prefix_toc(b.elements, b.elements.len() as int, h, st1);
    lemma_flush_toc(buf, h, st2);
}

proof fn lemma_prefix_ids(s: Seq<ElemV>, n: int, h: bool, st: EmitState)
    requires
        0 <= n <= s.len(),
        ids_in_order(st),
        st.toc.len() + elems_heading_count(s.take(n)) + 2 < usize::MAX,
    ensures
        ids_in_order(render_prefix(s, n, h, st).0),
    decreases s, 1nat + n,
{
    if n > 0 {
        assert(s.take(n).drop_last() =~= s.take(n - 1));
        assert(s.take(n).last() == s[n - 1]);
        lemma_prefix_ids(s, n - 1, h, st);
        lemma_prefix_toc(s, n - 1, h, st);
        let (st0, buf) = render_prefix(s, n - 1, h, st);
        lemma_flush_toc(buf, h, st0);
        let f = flush_paragraph(buf, h, st0);
        assert(render_prefix(s, n, h, st) == render_elem_at(s, n - 1, (st0, buf), h));
        match s[n - 1] {
            ElemV::Item(it) => {
                assert(elems_heading_count(s.take(n)) == elems_heading_count(s.take(n - 1)) + if is_inline_heading(it) { 1nat } else { 0nat });
                if let ItemV::Command { cmd: CommandV::Single(SingleCommandV::Midashi(m, c)), .. } = it {
                    lemma_push_heading(f, TocV { level: heading_level(m), text: c, id: heading_id(f.next_id) });
                }
            },
            ElemV::Block(b) => {
                assert(elems_heading_count(s.take(n)) == elems_heading_count(s.take(n - 1)) + heading_count(b));
                lemma_block_ids(b, f);
            },
        }
    }
}

/// Heading ids follow traversal order: TOC entry `k` (from 0) has id `midashi-(k + 1)`, for
/// any tree with fewer headings than the id counter can number.
pub proof fn law_heading_ids_in_order(b: BlockV)
    requires
        heading_count(b) + 2 < usize::MAX,
    ensures
        forall|k: int| 0 <= k < toc_of(b).len() ==> #[trigger] toc_of(b)[k].id == heading_id((k + 1) as nat),
{
    assert(ids_in_order(initial_state()));
    lemma_block_ids(b, initial_state());
}

/// Idempotent emission: emitting the same tree under the same title twice gives the same
/// document and the same table of contents, heading ids included, since they are numbered
/// afresh in traversal order on each call.
pub proof fn law_emission_repeatable(b1: BlockV, b2: BlockV, t1: Seq<char>, t2: Seq<char>)
    requires
        b1 == b2,
        t1 == t2,
    ensures
        xhtml_of(b1, t1) == xhtml_of(b2, t2),
        toc_of(b1) == toc_of(b2),
{
}
} // verus!
