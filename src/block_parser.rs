//! The block builder: pairs begin and end annotations into a tree of blocks.
use vstd::prelude::*;

use crate::command::{Command, CommandBegin, CommandEnd, CommandV, SingleCommand};
use crate::parser::{DecoratedText, ItemV, ParsedItem, items_view};
use crate::span::{span_covers, span_merge, Span};

verus! {

/// A child of a block: an item or a nested block.
#[derive(Debug, PartialEq)]
pub enum BlockElement {
    Item(ParsedItem),
    Block(AozoraBlock),
}

/// A block: its opening decoration (none for the root), its children in source order, and
/// the span that covers them.
#[derive(Debug, PartialEq)]
pub struct AozoraBlock {
    pub decoration: Option<CommandBegin>,
    pub elements: Vec<BlockElement>,
    pub span: Span,
}

/// Failure of the block builder. `UnclosedBlock` is reserved: open blocks are closed at the end.
#[derive(Debug, Clone, Copy, PartialEq, Eq, Structural)]
pub enum BlockParseError {
    UnexpectedEnd { end: CommandEnd, span: Span },
    UnclosedBlock { begin: CommandBegin, span: Span },
}

/// Mathematical form of a block.
pub struct BlockV {
    pub decoration: Option<CommandBegin>,
    pub elements: Seq<ElemV>,
    pub span: Span,
}

/// Mathematical form of a block element.
pub enum ElemV {
    Item(ItemV),
    Block(BlockV),
}

pub open spec fn block_view(b: AozoraBlock) -> BlockV
    decreases b,
{
    BlockV { decoration: b.decoration, elements: elems_view(b.elements@), span: b.span }
}

pub open spec fn elems_view(s: Seq<BlockElement>) -> Seq<ElemV>
    decreases s,
{
    if s.len() == 0 {
        Seq::empty()
    } else {
        elems_view(s.drop_last()).push(elem_view(s.last()))
    }
}

pub open spec fn elem_view(e: BlockElement) -> ElemV
    decreases e,
{
    match e {
        BlockElement::Item(i) => ElemV::Item(i@),
        BlockElement::Block(b) => ElemV::Block(block_view(b)),
    }
}

impl View for AozoraBlock {
    type V = BlockV;

    open spec fn view(&self) -> BlockV {
        block_view(*self)
    }
}

impl View for BlockElement {
    type V = ElemV;

    open spec fn view(&self) -> ElemV {
        elem_view(*self)
    }
}

pub proof fn lemma_elems_view(s: Seq<BlockElement>)
    ensures
        elems_view(s).len() == s.len(),
        forall|i: int| 0 <= i < s.len() ==> #[trigger] elems_view(s)[i] == elem_view(s[i]),
    decreases s.len(),
{
    if s.len() > 0 {
        lemma_elems_view(s.drop_last());
        assert forall|i: int| 0 <= i < s.len() implies #[trigger] elems_view(s)[i] == elem_view(s[i]) by {
            if i < s.len() - 1 {
                assert(s.drop_last()[i] == s[i]);
            }
        }
    }
}

pub open spec fn item_span_v(i: ItemV) -> Span {
    match i {
        ItemV::Text(t) => t.span,
        ItemV::Command { span, .. } => span,
        ItemV::Newline(s) => s,
        ItemV::Special { span, .. } => span,
    }
}

pub open spec fn elem_span(e: ElemV) -> Span {
    match e {
        ElemV::Item(i) => item_span_v(i),
        ElemV::Block(b) => b.span,
    }
}

/// `b` with `e` appended as its last child, its span grown to cover it.
pub open spec fn push_child(b: BlockV, e: ElemV) -> BlockV {
    BlockV { decoration: b.decoration, elements: b.elements.push(e), span: span_merge(b.span, elem_span(e)) }
}

/// The stack after closing its top block into its parent.
pub open spec fn close_top(stack: Seq<BlockV>) -> Seq<BlockV> {
    let rest = stack.drop_last();
    rest.update(rest.len() - 1, push_child(rest.last(), ElemV::Block(stack.last())))
}

/// The stack of open blocks after one item, or the stray end command.
pub open spec fn build_step(stack: Seq<BlockV>, item: ItemV) -> Result<Seq<BlockV>, BlockParseError> {
    match item {
        ItemV::Command { cmd: CommandV::Begin(d), span } => Ok(stack.push(BlockV { decoration: Some(d), elements: Seq::empty(), span })),
        ItemV::Command { cmd: CommandV::End(e), span } => {
            if stack.len() <= 1 {
                Err(BlockParseError::UnexpectedEnd { end: e, span })
            } else {
                let top = stack.last();
                Ok(close_top(stack.update(stack.len() - 1, BlockV { span: span_merge(top.span, span), ..top })))
            }
        },
        _ => Ok(stack.update(stack.len() - 1, push_child(stack.last(), ElemV::Item(item)))),
    }
}


/// The root after closing every block still open, innermost first.
pub open spec fn close_all(stack: Seq<BlockV>) -> BlockV
    decreases stack.len(),
{
    if stack.len() <= 1 {
        stack[0]
    } else {
        close_all(close_top(stack))
    }
}

/// The root with its span set from its first and last children (zero when it has none).
pub open spec fn finish_root(root: BlockV) -> BlockV {
    BlockV {
        span: if root.elements.len() == 0 {
            Span { start: 0, end: 0 }
        } else {
            span_merge(elem_span(root.elements[0]), elem_span(root.elements.last()))
        },
        ..root
    }
}

/// The tree built from `items[i..]` with `stack` open.
pub open spec fn build_from(items: Seq<ItemV>, i: int, stack: Seq<BlockV>) -> Result<BlockV, BlockParseError>
    decreases items.len() - i,
{
    if i < 0 || i >= items.len() {
        Ok(finish_root(close_all(stack)))
    } else {
        match build_step(stack, items[i]) {
            Err(e) => Err(e),
            Ok(next) => build_from(items, i + 1, next),
        }
    }
}

pub open spec fn empty_root() -> BlockV {
    BlockV { decoration: None, elements: Seq::empty(), span: Span { start: 0, end: 0 } }
}

/// The block tree that an item sequence denotes.
pub open spec fn build_blocks(items: Seq<ItemV>) -> Result<BlockV, BlockParseError> {
    build_from(items, 0, seq![empty_root()])
}

pub open spec fn stack_view(s: Seq<AozoraBlock>) -> Seq<BlockV> {
    s.map_values(|b: AozoraBlock| b@)
}

/// The span of an item.
pub fn item_span(item: &ParsedItem) -> (r: Span)
    ensures
        r == item_span_v(item@),
{
    match item {
        ParsedItem::Text(dt) => dt.span,
        ParsedItem::Command { span, .. } => *span,
        ParsedItem::Newline(span) => *span,
        ParsedItem::SpecialCharacter { span, .. } => *span,
    }
}

/// The span of a block element.
pub fn element_span(elem: &BlockElement) -> (r: Span)
    ensures
        r == elem_span(elem@),
{
    match elem {
        BlockElement::Item(item) => item_span(item),
        BlockElement::Block(block) => block.span,
    }
}

fn push_child_exec(b: &mut AozoraBlock, e: BlockElement)
    ensures
        final(b)@ == push_child(old(b)@, e@),
{
    let s = element_span(&e);
    let ghost ev = e@;
    b.elements.push(e);
    b.span = b.span.merge(&s);
    assert(b.elements@.drop_last() =~= old(b).elements@);
    assert(elems_view(b.elements@) =~= elems_view(old(b).elements@).push(ev));
}

pub(crate) fn copy_string_opt(o: &Option<String>) -> (r: Option<String>)
    ensures
        match *o {
            Some(s) => r is Some && r->Some_0@ == s@,
            None => r is None,
        },
{
    match o {
        Some(s) => Some(s.clone()),
        None => None,
    }
}

pub(crate) fn copy_command(c: &Command) -> (r: Command)
    ensures
        r@ == c@,
{
    match c {
        Command::CommandBegin(b) => Command::CommandBegin(*b),
        Command::SingleCommand(s) => Command::SingleCommand(s.clone()),
        Command::CommandEnd(e) => Command::CommandEnd(*e),
        Command::Unknown(s) => Command::Unknown(s.clone()),
    }
}

/// A copy of an item.
pub(crate) fn copy_item(item: &ParsedItem) -> (r: ParsedItem)
    ensures
        r@ == item@,
{
    match item {
        ParsedItem::Text(dt) => ParsedItem::Text(DecoratedText { text: dt.text.clone(), ruby: copy_string_opt(&dt.ruby), span: dt.span }),
        ParsedItem::Command { cmd, span } => ParsedItem::Command { cmd: copy_command(cmd), span: *span },
        ParsedItem::Newline(s) => ParsedItem::Newline(*s),
        ParsedItem::SpecialCharacter { kind, span } => ParsedItem::SpecialCharacter { kind: *kind, span: *span },
    }
}

fn copy_block(b: &AozoraBlock) -> (r: AozoraBlock)
    ensures
        r@ == b@,
    decreases b,
{
    let ghost s = b.elements@;
    proof {
        lemma_elems_view(b.elements@);
    }
    let mut elements: Vec<BlockElement> = Vec::new();
    let mut i: usize = 0;
    while i < b.elements.len()
        invariant
            s == b.elements@,
            i <= s.len(),
            elems_view(elements@) == elems_view(s.take(i as int)),
        decreases s.len() - i,
    {
        let e = copy_element(&b.elements[i]);
        let ghost e0 = elements@;
        elements.push(e);
        assert(elements@.drop_last() =~= e0);
        assert(s.take(i + 1).drop_last() =~= s.take(i as int));
        i += 1;
    }
    assert(s.take(i as int) =~= s);
    AozoraBlock { decoration: b.decoration, elements, span: b.span }
}

fn copy_element(e: &BlockElement) -> (r: BlockElement)
    ensures
        r@ == e@,
    decreases e,
{
    match e {
        BlockElement::Item(i) => BlockElement::Item(copy_item(i)),
        BlockElement::Block(b) => BlockElement::Block(copy_block(b)),
    }
}

impl Clone for AozoraBlock {
    fn clone(&self) -> (r: AozoraBlock)
        ensures
            r@ == self@,
    {
        copy_block(self)
    }
}

impl Clone for BlockElement {
    fn clone(&self) -> (r: BlockElement)
        ensures
            r@ == self@,
    {
        copy_element(self)
    }
}

/// Closes the top block of the stack into its parent.
fn close_top_exec(stack: &mut Vec<AozoraBlock>)
    requires
        old(stack)@.len() >= 2,
    ensures
        stack_view(final(stack)@) == close_top(stack_view(old(stack)@)),
{
    let ghost sv = stack_view(stack@);
    let top = stack.pop().unwrap();
    let mut parent = stack.pop().unwrap();
    let ghost tv = top@;
    push_child_exec(&mut parent, BlockElement::Block(top));
    stack.push(parent);
    assert(stack_view(stack@) =~= close_top(sv));
}

/// Builds the block tree of an item sequence.
///
/// The result is `build_blocks` of the items: each begin command opens a block, each end
/// command closes the innermost open block (whatever its kind), blocks still open at the end
/// are closed in turn, and every block's span grows to cover its children. An end command
/// with no open block fails with `UnexpectedEnd`.
pub fn parse_blocks(items: Vec<ParsedItem>) -> (r: Result<AozoraBlock, BlockParseError>)
    ensures
        match build_blocks(items_view(items@)) {
            Ok(root) => r is Ok && r->Ok_0@ == root,
            Err(e) => r == Err::<AozoraBlock, BlockParseError>(e),
        },
{
    let ghost iv = items_view(items@);
    let mut stack: Vec<AozoraBlock> = Vec::new();
    stack.push(AozoraBlock { decoration: None, elements: Vec::new(), span: Span { start: 0, end: 0 } });
    assert(elems_view(Seq::<BlockElement>::empty()) =~= Seq::<ElemV>::empty());
    assert(stack_view(stack@) =~= seq![empty_root()]);
    let mut i: usize = 0;
    while i < items.len()
        invariant
            iv == items_view(items@),
            i <= items@.len(),
            stack@.len() >= 1,
            build_blocks(iv) == build_from(iv, i as int, stack_view(stack@)),
        decreases items@.len() - i,
    {
        let ghost sv = stack_view(stack@);
        match &items[i] {
            ParsedItem::Command { cmd: Command::CommandBegin(d), span } => {
                stack.push(AozoraBlock { decoration: Some(*d), elements: Vec::new(), span: *span });
                assert(stack_view(stack@) =~= sv.push(BlockV { decoration: Some(*d), elements: Seq::empty(), span: *span }));
            },
            ParsedItem::Command { cmd: Command::CommandEnd(e), span } => {
                if stack.len() <= 1 {
                    return Err(BlockParseError::UnexpectedEnd { end: *e, span: *span });
                }
                let mut top = stack.pop().unwrap();
                top.span = top.span.merge(span);
                stack.push(top);
                assert(stack_view(stack@) =~= sv.update(sv.len() - 1, BlockV { span: span_merge(sv.last().span, *span), ..sv.last() }));
                close_top_exec(&mut stack);
            },
            _ => {
                let mut top = stack.pop().unwrap();
                push_child_exec(&mut top, BlockElement::Item(copy_item(&items[i])));
                stack.push(top);
                assert(stack_view(stack@) =~= sv.update(sv.len() - 1, push_child(sv.last(), ElemV::Item(iv[i as int]))));
            },
        }
        i += 1;
    }
    while stack.len() > 1
        invariant
            stack@.len() >= 1,
            build_blocks(iv) == Ok::<BlockV, BlockParseError>(finish_root(close_all(stack_view(stack@)))),
        decreases stack@.len(),
    {
        close_top_exec(&mut stack);
    }
    let mut root = stack.pop().unwrap();
    assert(stack_view(seq![root]) =~= seq![root@]);
    let n = root.elements.len();
    proof {
        lemma_elems_view(root.elements@);
    }
    if n > 0 {
        let first = element_span(&root.elements[0]);
        let last = element_span(&root.elements[n - 1]);
        root.span = first.merge(&last);
    } else {
        root.span = Span { start: 0, end: 0 };
    }
    Ok(root)
}

/// The items of a block's subtree, in order.
pub open spec fn flat_block(b: BlockV) -> Seq<ItemV>
    decreases b,
{
    flat_elems(b.elements)
}

pub open spec fn flat_elems(s: Seq<ElemV>) -> Seq<ItemV>
    decreases s,
{
    if s.len() == 0 {
        Seq::empty()
    } else {
        flat_elems(s.drop_last()) + match s.last() {
            ElemV::Item(i) => seq![i],
            ElemV::Block(b) => flat_block(b),
        }
    }
}

/// A begin or end command, which the tree holds as structure rather than as an item.
pub open spec fn is_structural(i: ItemV) -> bool {
    match i {
        ItemV::Command { cmd: CommandV::Begin(_), .. } => true,
        ItemV::Command { cmd: CommandV::End(_), .. } => true,
        _ => false,
    }
}

/// `items[i..]` without begin and end commands.
pub open spec fn content_from(items: Seq<ItemV>, i: int) -> Seq<ItemV>
    decreases items.len() - i,
{
    if i < 0 || i >= items.len() {
        Seq::empty()
    } else {
        (if is_structural(items[i]) { Seq::empty() } else { seq![items[i]] }) + content_from(items, i + 1)
    }
}

/// The items without begin and end commands.
pub open spec fn content_items(items: Seq<ItemV>) -> Seq<ItemV> {
    content_from(items, 0)
}

pub open spec fn flat_stack(st: Seq<BlockV>) -> Seq<ItemV>
    decreases st.len(),
{
    if st.len() == 0 {
        Seq::empty()
    } else {
        flat_stack(st.drop_last()) + flat_elems(st.last().elements)
    }
}

proof fn lemma_flat_close_top(st: Seq<BlockV>)
    requires
        st.len() >= 2,
    ensures
        flat_stack(close_top(st)) == flat_stack(st),
{
    let rest = st.drop_last();
    let c = close_top(st);
    let parent = push_child(rest.last(), ElemV::Block(st.last()));
    assert(c.drop_last() =~= rest.drop_last());
    assert(c.last() == parent);
    assert(parent.elements.drop_last() =~= rest.last().elements);
    assert(flat_elems(parent.elements) == flat_elems(rest.last().elements) + flat_block(st.last()));
    assert(flat_stack(c) == flat_stack(c.drop_last()) + flat_elems(c.last().elements));
    assert(flat_stack(st) == flat_stack(rest) + flat_elems(st.last().elements));
    assert(flat_stack(rest) == flat_stack(rest.drop_last()) + flat_elems(rest.last().elements));
    assert(flat_block(st.last()) == flat_elems(st.last().elements));
    assert(flat_stack(c) =~= flat_stack(st));
}

proof fn lemma_flat_close_all(st: Seq<BlockV>)
    requires
        st.len() >= 1,
    ensures
        flat_block(close_all(st)) == flat_stack(st),
    decreases st.len(),
{
    if st.len() <= 1 {
        assert(st.drop_last() =~= Seq::<BlockV>::empty());
        assert(flat_stack(st.drop_last()) == Seq::<ItemV>::empty());
        assert(flat_stack(st) =~= flat_elems(st[0].elements));
    } else {
        lemma_flat_close_top(st);
        lemma_flat_close_all(close_top(st));
    }
}

proof fn lemma_build_flat(items: Seq<ItemV>, i: int, st: Seq<BlockV>)
    requires
        0 <= i <= items.len(),
        st.len() >= 1,
    ensures
        build_from(items, i, st) matches Ok(root) ==> flat_block(root) == flat_stack(st) + content_from(items, i),
    decreases items.len() - i,
{
    if i >= items.len() {
        lemma_flat_close_all(st);
        assert(flat_stack(st) + content_from(items, i) =~= flat_stack(st));
    } else {
        let it = items[i];
        match build_step(st, it) {
            Err(_) => {},
            Ok(next) => {
                lemma_build_flat(items, i + 1, next);
                match it {
                    ItemV::Command { cmd: CommandV::Begin(d), span } => {
                        assert(next.drop_last() =~= st);
                        assert(flat_stack(next) =~= flat_stack(st));
                        assert(content_from(items, i) =~= content_from(items, i + 1));
                    },
                    ItemV::Command { cmd: CommandV::End(e), span } => {
                        let top = st.last();
                        let st2 = st.update(st.len() - 1, BlockV { span: span_merge(top.span, span), ..top });
                        assert(st2.drop_last() =~= st.drop_last());
                        assert(flat_stack(st2) =~= flat_stack(st));
                        lemma_flat_close_top(st2);
                        assert(content_from(items, i) =~= content_from(items, i + 1));
                    },
                    _ => {
                        let top = st.last();
                        let nt = push_child(top, ElemV::Item(it));
                        assert(next.drop_last() =~= st.drop_last());
                        assert(nt.elements.drop_last() =~= top.elements);
                        assert(flat_stack(next) =~= flat_stack(st) + seq![it]);
                        assert(content_from(items, i) =~= seq![it] + content_from(items, i + 1));
                        assert(flat_stack(next) + content_from(items, i + 1) =~= flat_stack(st) + content_from(items, i));
                    },
                }
            },
        }
    }
}

/// Tree preservation: flattening a built tree yields the parser's items in their order,
/// less the begin and end commands that became block structure.
pub proof fn law_tree_preserves_items(items: Seq<ItemV>)
    ensures
        build_blocks(items) matches Ok(root) ==> flat_block(root) == content_items(items),
{
    let st = seq![empty_root()];
    lemma_build_flat(items, 0, st);
    assert(st.drop_last() =~= Seq::<BlockV>::empty());
    assert(flat_stack(st.drop_last()) == Seq::<ItemV>::empty());
    assert(flat_elems(st.last().elements) == Seq::<ItemV>::empty());
    assert(flat_stack(st) =~= Seq::<ItemV>::empty());
    assert(flat_stack(st) + content_from(items, 0) =~= content_from(items, 0));
}

/// `b`'s span covers the span of each of its children.
pub open spec fn covers_children(b: BlockV) -> bool {
    forall|k: int| 0 <= k < b.elements.len() ==> span_covers(b.span, #[trigger] elem_span(b.elements[k]))
}

/// Every block nested in `s`, at any depth, covers its children.
pub open spec fn nested_cover(s: Seq<ElemV>) -> bool
    decreases s,
{
    if s.len() == 0 {
        true
    } else {
        nested_cover(s.drop_last()) && match s.last() {
            ElemV::Block(b) => covers_children(b) && nested_cover(b.elements),
            _ => true,
        }
    }
}

pub open spec fn well_covered(b: BlockV) -> bool {
    covers_children(b) && nested_cover(b.elements)
}

proof fn lemma_cover_grow(b: BlockV, s: Span)
    requires
        well_covered(b),
        span_covers(s, b.span),
    ensures
        well_covered(BlockV { span: s, ..b }),
{
}

proof fn lemma_cover_push(b: BlockV, e: ElemV)
    requires
        well_covered(b),
        e matches ElemV::Block(x) ==> well_covered(x),
    ensures
        well_covered(push_child(b, e)),
{
    let nb = push_child(b, e);
    assert(nb.elements.drop_last() =~= b.elements);
    assert forall|k: int| 0 <= k < nb.elements.len() implies span_covers(nb.span, #[trigger] elem_span(nb.elements[k])) by {
        if k < b.elements.len() {
            assert(nb.elements[k] == b.elements[k]);
            assert(span_covers(b.span, elem_span(b.elements[k])));
        }
    }
}

pub open spec fn stack_covered(st: Seq<BlockV>) -> bool {
    forall|k: int| 0 <= k < st.len() ==> well_covered(#[trigger] st[k])
}

proof fn lemma_cover_close_top(st: Seq<BlockV>)
    requires
        st.len() >= 2,
        stack_covered(st),
    ensures
        stack_covered(close_top(st)),
{
    let rest = st.drop_last();
    assert(well_covered(st[st.len() - 1]));
    assert(well_covered(rest[rest.len() - 1]));
    lemma_cover_push(rest.last(), ElemV::Block(st.last()));
    let c = close_top(st);
    assert forall|k: int| 0 <= k < c.len() implies well_covered(#[trigger] c[k]) by {
        if k < c.len() - 1 {
            assert(c[k] == st[k]);
        }
    }
}

proof fn lemma_cover_close_all(st: Seq<BlockV>)
    requires
        st.len() >= 1,
        stack_covered(st),
    ensures
        well_covered(close_all(st)),
    decreases st.len(),
{
    if st.len() <= 1 {
        assert(well_covered(st[0]));
    } else {
        lemma_cover_close_top(st);
        lemma_cover_close_all(close_top(st));
    }
}

proof fn lemma_build_cover(items: Seq<ItemV>, i: int, st: Seq<BlockV>)
    requires
        0 <= i <= items.len(),
        st.len() >= 1,
        stack_covered(st),
    ensures
        build_from(items, i, st) matches Ok(root) ==> nested_cover(root.elements),
    decreases items.len() - i,
{
    if i >= items.len() {
        lemma_cover_close_all(st);
    } else {
        let it = items[i];
        match build_step(st, it) {
            Err(_) => {},
            Ok(next) => {
                match it {
                    ItemV::Command { cmd: CommandV::Begin(d), span } => {
                        let nb = BlockV { decoration: Some(d), elements: Seq::<ElemV>::empty(), span };
                        assert(well_covered(nb));
                        assert forall|k: int| 0 <= k < next.len() implies well_covered(#[trigger] next[k]) by {
                            if k < st.len() {
                                assert(next[k] == st[k]);
                            }
                        }
                    },
                    ItemV::Command { cmd: CommandV::End(e), span } => {
                        let top = st.last();
                        let t2 = BlockV { span: span_merge(top.span, span), ..top };
                        let st2 = st.update(st.len() - 1, t2);
                        assert(well_covered(st[st.len() - 1]));
                        lemma_cover_grow(top, span_merge(top.span, span));
                        assert(stack_covered(st2));
                        lemma_cover_close_top(st2);
                    },
                    _ => {
                        assert(well_covered(st[st.len() - 1]));
                        lemma_cover_push(st.last(), ElemV::Item(it));
                        assert(stack_covered(next));
                    },
                }
                lemma_build_cover(items, i + 1, next);
            },
        }
    }
}

/// Block coverage: in a built tree, every block below the root has a span that covers the
/// span of each of its children, at every depth.
pub proof fn law_blocks_cover_children(items: Seq<ItemV>)
    ensures
        build_blocks(items) matches Ok(root) ==> nested_cover(root.elements),
{
    let st = seq![empty_root()];
    assert(well_covered(empty_root()));
    assert(stack_covered(st));
    lemma_build_cover(items, 0, st);
}

proof fn lemma_close_all_root(st: Seq<BlockV>)
    requires
        st.len() >= 1,
    ensures
        close_all(st).decoration == st[0].decoration,
    decreases st.len(),
{
    if st.len() > 1 {
        let c = close_top(st);
        assert(c[0].decoration == st[0].decoration);
        lemma_close_all_root(c);
    }
}

proof fn lemma_build_root(items: Seq<ItemV>, i: int, st: Seq<BlockV>)
    requires
        0 <= i <= items.len(),
        st.len() >= 1,
    ensures
        build_from(items, i, st) matches Ok(root) ==> root.decoration == st[0].decoration,
    decreases items.len() - i,
{
    if i >= items.len() {
        lemma_close_all_root(st);
    } else {
        match build_step(st, items[i]) {
            Err(_) => {},
            Ok(next) => {
                match items[i] {
                    ItemV::Command { cmd: CommandV::Begin(_), .. } => {},
                    ItemV::Command { cmd: CommandV::End(e), span } => {
                        if st.len() > 1 {
                            let top = st.last();
                            let st2 = st.update(st.len() - 1, BlockV { span: span_merge(top.span, span), ..top });
                            assert(close_top(st2)[0].decoration == st[0].decoration);
                        }
                    },
                    _ => {},
                }
                lemma_build_root(items, i + 1, next);
            },
        }
    }
}

/// The root of a built tree carries no decoration.
pub proof fn lemma_built_root_undecorated(items: Seq<ItemV>)
    ensures
        build_blocks(items) matches Ok(root) ==> root.decoration is None,
{
    lemma_build_root(items, 0, seq![empty_root()]);
}

/// The blocks at or below the elements `s`, in pre-order (a block before its descendants).
pub open spec fn blocks_preorder(s: Seq<ElemV>) -> Seq<BlockV>
    decreases s,
{
    if s.len() == 0 {
        Seq::empty()
    } else {
        blocks_preorder(s.drop_last()) + match s.last() {
            ElemV::Block(b) => seq![b] + blocks_preorder(b.elements),
            _ => Seq::empty(),
        }
    }
}

/// The spans of the begin commands among the first `n` items.
pub open spec fn opening_spans(items: Seq<ItemV>, n: int) -> Seq<Span>
    decreases n,
{
    if n <= 0 || n > items.len() {
        Seq::empty()
    } else {
        opening_spans(items, n - 1) + match items[n - 1] {
            ItemV::Command { cmd: CommandV::Begin(_), span } => seq![span],
            _ => Seq::empty(),
        }
    }
}

/// The blocks of an open stack in the pre-order they take once it is closed.
pub open spec fn stack_preorder(st: Seq<BlockV>) -> Seq<BlockV>
    decreases st.len(),
{
    if st.len() == 0 {
        Seq::empty()
    } else if st.len() == 1 {
        blocks_preorder(st[0].elements)
    } else {
        stack_preorder(st.drop_last()) + seq![st.last()] + blocks_preorder(st.last().elements)
    }
}

/// Block `k` covers span `k`, for each `k`.
pub open spec fn covers_pointwise(bs: Seq<BlockV>, ss: Seq<Span>) -> bool {
    bs.len() == ss.len() && forall|k: int| 0 <= k < bs.len() ==> span_covers(#[trigger] bs[k].span, ss[k])
}

/// `b2` is `b1` with each block's span grown.
pub open spec fn grown(b1: Seq<BlockV>, b2: Seq<BlockV>) -> bool {
    b1.len() == b2.len() && forall|k: int| 0 <= k < b1.len() ==> span_covers(#[trigger] b2[k].span, b1[k].span)
}

proof fn lemma_grown_trans(a: Seq<BlockV>, b: Seq<BlockV>, c: Seq<BlockV>)
    requires
        grown(a, b),
        grown(b, c),
    ensures
        grown(a, c),
{
    assert forall|k: int| 0 <= k < a.len() implies span_covers(#[trigger] c[k].span, a[k].span) by {
        assert(span_covers(b[k].span, a[k].span));
        assert(span_covers(c[k].span, b[k].span));
    }
}

proof fn lemma_grown_covers(a: Seq<BlockV>, b: Seq<BlockV>, ss: Seq<Span>)
    requires
        covers_pointwise(a, ss),
        grown(a, b),
    ensures
        covers_pointwise(b, ss),
{
    assert forall|k: int| 0 <= k < b.len() implies span_covers(#[trigger] b[k].span, ss[k]) by {
        assert(span_covers(a[k].span, ss[k]));
        assert(span_covers(b[k].span, a[k].span));
    }
}

proof fn lemma_grown_concat(a1: Seq<BlockV>, b1: Seq<BlockV>, a2: Seq<BlockV>, b2: Seq<BlockV>)
    requires
        grown(a1, b1),
        grown(a2, b2),
    ensures
        grown(a1 + a2, b1 + b2),
{
    assert forall|k: int| 0 <= k < (a1 + a2).len() implies span_covers(#[trigger] (b1 + b2)[k].span, (a1 + a2)[k].span) by {
        if k < a1.len() {
            assert(span_covers(b1[k].span, a1[k].span));
        } else {
            assert(span_covers(b2[k - a1.len()].span, a2[k - a1.len()].span));
        }
    }
}

proof fn lemma_grown_refl(a: Seq<BlockV>)
    ensures
        grown(a, a),
{
}

/// Replacing the top of the stack by a block with the same nested blocks and a larger span
/// grows the pre-order.
proof fn lemma_update_top_grows(st: Seq<BlockV>, b2: BlockV)
    requires
        st.len() >= 1,
        blocks_preorder(b2.elements) == blocks_preorder(st.last().elements),
        span_covers(b2.span, st.last().span),
    ensures
        grown(stack_preorder(st), stack_preorder(st.update(st.len() - 1, b2))),
{
    let u = st.update(st.len() - 1, b2);
    if st.len() == 1 {
        assert(u[0] == b2);
    } else {
        assert(u.drop_last() =~= st.drop_last());
        assert(u.last() == b2);
        lemma_grown_refl(stack_preorder(st.drop_last()));
        assert(grown(seq![st.last()], seq![b2]));
        lemma_grown_concat(stack_preorder(st.drop_last()), stack_preorder(st.drop_last()), seq![st.last()], seq![b2]);
        lemma_grown_refl(blocks_preorder(st.last().elements));
        lemma_grown_concat(stack_preorder(st.drop_last()) + seq![st.last()], stack_preorder(st.drop_last()) + seq![b2],
            blocks_preorder(st.last().elements), blocks_preorder(b2.elements));
    }
}

proof fn lemma_preorder_push(b: BlockV, e: ElemV)
    ensures
        blocks_preorder(push_child(b, e).elements) == blocks_preorder(b.elements) + match e {
            ElemV::Block(x) => seq![x] + blocks_preorder(x.elements),
            _ => Seq::empty(),
        },
{
    assert(push_child(b, e).elements.drop_last() =~= b.elements);
}

proof fn lemma_close_top_grows(st: Seq<BlockV>)
    requires
        st.len() >= 2,
    ensures
        grown(stack_preorder(st), stack_preorder(close_top(st))),
{
    let rest = st.drop_last();
    let top = st.last();
    let p2 = push_child(rest.last(), ElemV::Block(top));
    lemma_preorder_push(rest.last(), ElemV::Block(top));
    let c = close_top(st);
    if rest.len() == 1 {
        assert(c[0] == p2);
        assert(stack_preorder(rest) == blocks_preorder(rest[0].elements));
        assert(stack_preorder(c) =~= stack_preorder(st));
        lemma_grown_refl(stack_preorder(st));
    } else {
        let tail = seq![top] + blocks_preorder(top.elements);
        assert(c.drop_last() =~= rest.drop_last());
        assert(c.last() == p2);
        assert(stack_preorder(rest) == stack_preorder(rest.drop_last()) + seq![rest.last()] + blocks_preorder(rest.last().elements));
        assert(stack_preorder(st) =~= stack_preorder(rest.drop_last()) + seq![rest.last()] + (blocks_preorder(rest.last().elements) + tail));
        assert(stack_preorder(c) =~= stack_preorder(rest.drop_last()) + seq![p2] + (blocks_preorder(rest.last().elements) + tail));
        lemma_grown_refl(stack_preorder(rest.drop_last()));
        assert(grown(seq![rest.last()], seq![p2]));
        lemma_grown_concat(stack_preorder(rest.drop_last()), stack_preorder(rest.drop_last()), seq![rest.last()], seq![p2]);
        lemma_grown_refl(blocks_preorder(rest.last().elements) + tail);
        lemma_grown_concat(stack_preorder(rest.drop_last()) + seq![rest.last()], stack_preorder(rest.drop_last()) + seq![p2],
            blocks_preorder(rest.last().elements) + tail, blocks_preorder(rest.last().elements) + tail);
    }
}

proof fn lemma_close_all_grows(st: Seq<BlockV>)
    requires
        st.len() >= 1,
    ensures
        grown(stack_preorder(st), blocks_preorder(close_all(st).elements)),
    decreases st.len(),
{
    if st.len() <= 1 {
        lemma_grown_refl(stack_preorder(st));
    } else {
        lemma_close_top_grows(st);
        lemma_close_all_grows(close_top(st));
        lemma_grown_trans(stack_preorder(st), stack_preorder(close_top(st)), blocks_preorder(close_all(st).elements));
    }
}

proof fn lemma_build_openings(items: Seq<ItemV>, i: int, st: Seq<BlockV>)
    requires
        0 <= i <= items.len(),
        st.len() >= 1,
        covers_pointwise(stack_preorder(st), opening_spans(items, i)),
    ensures
        build_from(items, i, st) matches Ok(root) ==> covers_pointwise(blocks_preorder(root.elements), opening_spans(items, items.len() as int)),
    decreases items.len() - i,
{
    if i >= items.len() {
        lemma_close_all_grows(st);
        lemma_grown_covers(stack_preorder(st), blocks_preorder(close_all(st).elements), opening_spans(items, i));
    } else {
        let it = items[i];
        match build_step(st, it) {
            Err(_) => {},
            Ok(next) => {
                let o = opening_spans(items, i);
                match it {
                    ItemV::Command { cmd: CommandV::Begin(d), span } => {
                        let nb = BlockV { decoration: Some(d), elements: Seq::empty(), span };
                        assert(next.drop_last() =~= st);
                        assert(blocks_preorder(nb.elements) == Seq::<BlockV>::empty());
                        assert(opening_spans(items, i + 1) == o + seq![span]);
                        assert(stack_preorder(next) =~= stack_preorder(st) + seq![nb]);
                        assert(covers_pointwise(stack_preorder(next), opening_spans(items, i + 1))) by {
                            let l = stack_preorder(next);
                            let ss = opening_spans(items, i + 1);
                            assert forall|k: int| 0 <= k < l.len() implies span_covers(#[trigger] l[k].span, ss[k]) by {
                                if k < o.len() {
                                    assert(l[k] == stack_preorder(st)[k]);
                                    assert(ss[k] == o[k]);
                                }
                            }
                        }
                    },
                    ItemV::Command { cmd: CommandV::End(e), span } => {
                        let top = st.last();
                        let t2 = BlockV { span: span_merge(top.span, span), ..top };
                        let st2 = st.update(st.len() - 1, t2);
                        lemma_update_top_grows(st, t2);
                        lemma_grown_covers(stack_preorder(st), stack_preorder(st2), o);
                        lemma_close_top_grows(st2);
                        lemma_grown_covers(stack_preorder(st2), stack_preorder(next), o);
                        assert(opening_spans(items, i + 1) =~= o);
                    },
                    _ => {
                        let top = st.last();
                        let t2 = push_child(top, ElemV::Item(it));
                        lemma_preorder_push(top, ElemV::Item(it));
                        assert(blocks_preorder(t2.elements) =~= blocks_preorder(top.elements));
                        lemma_update_top_grows(st, t2);
                        lemma_grown_covers(stack_preorder(st), stack_preorder(next), o);
                        assert(opening_spans(items, i + 1) =~= o);
                    },
                }
                lemma_build_openings(items, i + 1, next);
            },
        }
    }
}

/// Block coverage of openings: the blocks of a built tree, in pre-order, correspond one to
/// one to the begin commands in item order, and each block's span covers its begin
/// command's span.
pub proof fn law_blocks_cover_openings(items: Seq<ItemV>)
    ensures
        build_blocks(items) matches Ok(root) ==> covers_pointwise(blocks_preorder(root.elements), opening_spans(items, items.len() as int)),
{
    let st = seq![empty_root()];
    assert(stack_preorder(st) == blocks_preorder(Seq::<ElemV>::empty()));
    assert(stack_preorder(st) =~= Seq::<BlockV>::empty());
    assert(opening_spans(items, 0) =~= Seq::<Span>::empty());
    lemma_build_openings(items, 0, st);
}
} // verus!
