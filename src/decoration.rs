//! Editor highlighting: decorations from tokens and diagnostics, split into segments
//! and rendered as HTML.
use vstd::prelude::*;

use crate::linter::{LintWarning, LintWarningV, Severity};
use crate::text::{chars_of, push_char, push_str, string_of_range};
use crate::tokenizer::{AozoraToken, TextKind, TokenV, tokens_view};

verus! {

/// How an editor highlights a range of the source.
#[derive(Debug, Clone, Copy, PartialEq, Eq, Structural)]
pub enum DecorationType {
    Command,
    Ruby,
    RubySeparator,
    Kanji,
    Hiragana,
    Katakana,
    LintError,
    LintWarning,
    LintInfo,
}

pub open spec fn css_class_of(t: DecorationType) -> Seq<char> {
    match t {
        DecorationType::Command => "deco-command"@,
        DecorationType::Ruby => "deco-ruby"@,
        DecorationType::RubySeparator => "deco-ruby-sep"@,
        DecorationType::Kanji => "deco-kanji"@,
        DecorationType::Hiragana => "deco-hiragana"@,
        DecorationType::Katakana => "deco-katakana"@,
        DecorationType::LintError => "deco-lint-error"@,
        DecorationType::LintWarning => "deco-lint-warning"@,
        DecorationType::LintInfo => "deco-lint-info"@,
    }
}

impl DecorationType {
    /// The CSS class of this decoration.
    pub fn css_class(&self) -> (r: &'static str)
        ensures
            r@ == css_class_of(*self),
    {
        match self {
            DecorationType::Command => "deco-command",
            DecorationType::Ruby => "deco-ruby",
            DecorationType::RubySeparator => "deco-ruby-sep",
            DecorationType::Kanji => "deco-kanji",
            DecorationType::Hiragana => "deco-hiragana",
            DecorationType::Katakana => "deco-katakana",
            DecorationType::LintError => "deco-lint-error",
            DecorationType::LintWarning => "deco-lint-warning",
            DecorationType::LintInfo => "deco-lint-info",
        }
    }
}

/// A decoration of the characters `[start, end)`, with an optional hover message.
#[derive(Debug, Clone, PartialEq)]
pub struct Decoration {
    pub start: usize,
    pub end: usize,
    pub decoration_type: DecorationType,
    pub hover_message: Option<String>,
}

/// Mathematical form of a decoration.
pub struct DecorationV {
    pub start: usize,
    pub end: usize,
    pub decoration_type: DecorationType,
    pub hover: Option<Seq<char>>,
}

impl View for Decoration {
    type V = DecorationV;

    open spec fn view(&self) -> DecorationV {
        DecorationV {
            start: self.start,
            end: self.end,
            decoration_type: self.decoration_type,
            hover: match self.hover_message {
                Some(m) => Some(m@),
                None => None,
            },
        }
    }
}

pub open spec fn decorations_view(ds: Seq<Decoration>) -> Seq<DecorationV> {
    ds.map_values(|d: Decoration| d@)
}

impl Decoration {
    /// A decoration without hover message.
    pub fn new(start: usize, end: usize, decoration_type: DecorationType) -> (r: Decoration)
        ensures
            r@ == (DecorationV { start, end, decoration_type, hover: None }),
    {
        Decoration { start, end, decoration_type, hover_message: None }
    }

    /// A decoration with a hover message.
    pub fn with_message(start: usize, end: usize, decoration_type: DecorationType, message: &str) -> (r: Decoration)
        ensures
            r@ == (DecorationV { start, end, decoration_type, hover: Some(message@) }),
    {
        Decoration { start, end, decoration_type, hover_message: Some(message.to_owned()) }
    }
}

/// The decoration of one token: commands, glosses, bars and Japanese-script runs; none
/// for other text, newlines and repetition glyphs.
pub open spec fn token_decoration(t: TokenV) -> Option<DecorationV> {
    let plain = |s: crate::span::Span, k: DecorationType| Some(DecorationV { start: s.start, end: s.end, decoration_type: k, hover: None });
    match t {
        TokenV::Command { span, .. } => plain(span, DecorationType::Command),
        TokenV::Ruby { span, .. } => plain(span, DecorationType::Ruby),
        TokenV::RubySeparator(span) => plain(span, DecorationType::RubySeparator),
        TokenV::Text(x) => match x.kind {
            TextKind::Kanji => plain(x.span, DecorationType::Kanji),
            TextKind::Hiragana => plain(x.span, DecorationType::Hiragana),
            TextKind::Katakana => plain(x.span, DecorationType::Katakana),
            TextKind::Other => None,
        },
        _ => None,
    }
}

/// The decorations of a token sequence, in token order.
pub open spec fn token_decorations(ts: Seq<TokenV>) -> Seq<DecorationV>
    decreases ts.len(),
{
    if ts.len() == 0 {
        Seq::empty()
    } else {
        token_decorations(ts.drop_last()) + match token_decoration(ts.last()) {
            Some(d) => seq![d],
            None => Seq::empty(),
        }
    }
}

fn push_decoration(ds: &mut Vec<Decoration>, d: Decoration)
    ensures
        decorations_view(final(ds)@) == decorations_view(old(ds)@).push(d@),
{
    let ghost dv = d@;
    ds.push(d);
    assert(decorations_view(ds@) =~= decorations_view(old(ds)@).push(dv));
}

/// Decorations for syntax highlighting, one per command, gloss, bar or Japanese-script run.
pub fn decorations_from_tokens(tokens: &[AozoraToken]) -> (r: Vec<Decoration>)
    ensures
        decorations_view(r@) == token_decorations(tokens_view(tokens@)),
{
    let ghost tv = tokens_view(tokens@);
    let mut decorations: Vec<Decoration> = Vec::new();
    let mut i: usize = 0;
    assert(decorations_view(decorations@) =~= token_decorations(tv.take(0)));
    while i < tokens.len()
        invariant
            tv == tokens_view(tokens@),
            i <= tokens@.len(),
            decorations_view(decorations@) == token_decorations(tv.take(i as int)),
        decreases tokens@.len() - i,
    {
        match &tokens[i] {
            AozoraToken::Command(cmd) => push_decoration(&mut decorations, Decoration::new(cmd.span.start, cmd.span.end, DecorationType::Command)),
            AozoraToken::Ruby { span, .. } => push_decoration(&mut decorations, Decoration::new(span.start, span.end, DecorationType::Ruby)),
            AozoraToken::RubySeparator(span) => push_decoration(&mut decorations, Decoration::new(span.start, span.end, DecorationType::RubySeparator)),
            AozoraToken::Text(t) => {
                match t.kind {
                    TextKind::Kanji => push_decoration(&mut decorations, Decoration::new(t.span.start, t.span.end, DecorationType::Kanji)),
                    TextKind::Hiragana => push_decoration(&mut decorations, Decoration::new(t.span.start, t.span.end, DecorationType::Hiragana)),
                    TextKind::Katakana => push_decoration(&mut decorations, Decoration::new(t.span.start, t.span.end, DecorationType::Katakana)),
                    TextKind::Other => {},
                }
            },
            _ => {},
        }
        assert(tv.take(i + 1).drop_last() =~= tv.take(i as int));
        assert(decorations_view(decorations@) =~= token_decorations(tv.take(i + 1)));
        i += 1;
    }
    assert(tv.take(i as int) =~= tv);
    decorations
}

pub open spec fn severity_decoration(s: Severity) -> DecorationType {
    match s {
        Severity::Error => DecorationType::LintError,
        Severity::Warning => DecorationType::LintWarning,
        Severity::Info => DecorationType::LintInfo,
    }
}

/// The decoration of a diagnostic: its span, a type by severity, its message on hover.
pub open spec fn lint_decoration(w: LintWarningV) -> DecorationV {
    DecorationV { start: w.span.start, end: w.span.end, decoration_type: severity_decoration(w.severity), hover: Some(w.message) }
}

/// One decoration per diagnostic, in order.
pub fn decorations_from_lint(warnings: &[LintWarning]) -> (r: Vec<Decoration>)
    ensures
        r@.len() == warnings@.len(),
        forall|i: int| 0 <= i < warnings@.len() ==> #[trigger] r@[i]@ == lint_decoration(warnings@[i]@),
{
    let mut decorations: Vec<Decoration> = Vec::new();
    let mut i: usize = 0;
    while i < warnings.len()
        invariant
            i <= warnings@.len(),
            decorations@.len() == i,
            forall|k: int| 0 <= k < i ==> #[trigger] decorations@[k]@ == lint_decoration(warnings@[k]@),
        decreases warnings@.len() - i,
    {
        let warning = &warnings[i];
        let deco_type = match warning.severity {
            Severity::Error => DecorationType::LintError,
            Severity::Warning => DecorationType::LintWarning,
            Severity::Info => DecorationType::LintInfo,
        };
        decorations.push(Decoration::with_message(warning.span.start, warning.span.end, deco_type, warning.message.as_str()));
        i += 1;
    }
    decorations
}

/// `a` goes strictly before `b`: it starts earlier, or starts with it and ends later.
pub open spec fn deco_before(a: DecorationV, b: DecorationV) -> bool {
    a.start < b.start || (a.start == b.start && a.end > b.end)
}

/// Where `x` goes in a sorted sequence: after every element that `x` does not go before.
pub open spec fn insert_position(s: Seq<DecorationV>, x: DecorationV) -> int
    decreases s.len(),
{
    if s.len() == 0 {
        0
    } else if deco_before(x, s.last()) {
        insert_position(s.drop_last(), x)
    } else {
        s.len() as int
    }
}

/// Stable sort by start, longer ranges first among equal starts.
pub open spec fn sorted_decorations(s: Seq<DecorationV>) -> Seq<DecorationV>
    decreases s.len(),
{
    if s.len() == 0 {
        Seq::empty()
    } else {
        let sorted = sorted_decorations(s.drop_last());
        sorted.insert(insert_position(sorted, s.last()), s.last())
    }
}

proof fn lemma_insert_position_bound(s: Seq<DecorationV>, x: DecorationV)
    ensures
        0 <= insert_position(s, x) <= s.len(),
    decreases s.len(),
{
    if s.len() > 0 && deco_before(x, s.last()) {
        lemma_insert_position_bound(s.drop_last(), x);
    }
}

proof fn lemma_sorted_len(s: Seq<DecorationV>)
    ensures
        sorted_decorations(s).len() == s.len(),
    decreases s.len(),
{
    if s.len() > 0 {
        lemma_sorted_len(s.drop_last());
        lemma_insert_position_bound(sorted_decorations(s.drop_last()), s.last());
    }
}

/// Sorted: no element goes strictly before one that precedes it.
pub open spec fn decorations_sorted(s: Seq<DecorationV>) -> bool {
    forall|i: int, j: int| 0 <= i < j < s.len() ==> !deco_before(#[trigger] s[j], #[trigger] s[i])
}

proof fn lemma_insert_position(s: Seq<DecorationV>, x: DecorationV)
    ensures
        forall|k: int| insert_position(s, x) <= k < s.len() ==> deco_before(x, #[trigger] s[k]),
        insert_position(s, x) > 0 ==> !deco_before(x, s[insert_position(s, x) - 1]),
    decreases s.len(),
{
    lemma_insert_position_bound(s, x);
    if s.len() > 0 && deco_before(x, s.last()) {
        lemma_insert_position(s.drop_last(), x);
        lemma_insert_position_bound(s.drop_last(), x);
        let p = insert_position(s, x);
        assert forall|k: int| p <= k < s.len() implies deco_before(x, #[trigger] s[k]) by {
            if k < s.len() - 1 {
                assert(s[k] == s.drop_last()[k]);
            }
        }
        if p > 0 {
            assert(s[p - 1] == s.drop_last()[p - 1]);
        }
    }
}

proof fn lemma_insert_sorted(s: Seq<DecorationV>, x: DecorationV)
    requires
        decorations_sorted(s),
    ensures
        decorations_sorted(s.insert(insert_position(s, x), x)),
{
    lemma_insert_position(s, x);
    lemma_insert_position_bound(s, x);
    let p = insert_position(s, x);
    let t = s.insert(p, x);
    assert forall|i: int, j: int| 0 <= i < j < t.len() implies !deco_before(#[trigger] t[j], #[trigger] t[i]) by {
        if j < p {
            assert(t[i] == s[i] && t[j] == s[j]);
        } else if j == p {
            assert(t[i] == s[i]);
            if i < p - 1 {
                assert(!deco_before(s[p - 1], s[i]));
            }
        } else if i < p {
            assert(t[i] == s[i] && t[j] == s[j - 1]);
            if i < p - 1 {
                assert(!deco_before(s[p - 1], s[i]));
            }
            assert(deco_before(x, s[j - 1]));
        } else if i == p {
            assert(t[j] == s[j - 1]);
            assert(deco_before(x, s[j - 1]));
        } else {
            assert(t[i] == s[i - 1] && t[j] == s[j - 1]);
        }
    }
}

/// The decoration sort yields its input reordered, sorted by start, longer ranges first among
/// equal starts.
pub proof fn law_sorted_decorations(s: Seq<DecorationV>)
    ensures
        decorations_sorted(sorted_decorations(s)),
        sorted_decorations(s).to_multiset() == s.to_multiset(),
    decreases s.len(),
{
    broadcast use vstd::seq_lib::group_to_multiset_ensures;
    if s.len() > 0 {
        law_sorted_decorations(s.drop_last());
        let r = sorted_decorations(s.drop_last());
        lemma_insert_sorted(r, s.last());
        lemma_insert_position_bound(r, s.last());
        vstd::seq_lib::to_multiset_insert(r, insert_position(r, s.last()), s.last());
        vstd::seq_lib::to_multiset_build(s.drop_last(), s.last());
        assert(s.drop_last().push(s.last()) =~= s);
    }
}

fn find_insert_position(sorted: &Vec<Decoration>, x: &Decoration) -> (r: usize)
    ensures
        r as int == insert_position(decorations_view(sorted@), x@),
{
    let ghost sv = decorations_view(sorted@);
    let mut k = sorted.len();
    assert(sv.take(k as int) =~= sv);
    while k > 0 && (x.start < sorted[k - 1].start || (x.start == sorted[k - 1].start && x.end > sorted[k - 1].end))
        invariant
            sv == decorations_view(sorted@),
            k <= sorted@.len(),
            insert_position(sv, x@) == insert_position(sv.take(k as int), x@),
        decreases k,
    {
        assert(sv.take(k as int).drop_last() =~= sv.take(k - 1));
        k -= 1;
    }
    proof {
        if k > 0 {
            assert(sv.take(k as int).last() == sv[k - 1]);
        }
    }
    k
}

/// Sorts decorations by start position, longer ranges first among equal starts; the sort is
/// stable, so decorations with equal ranges keep their order.
pub fn merge_decorations(decorations: Vec<Decoration>) -> (r: Vec<Decoration>)
    ensures
        decorations_view(r@) == sorted_decorations(decorations_view(decorations@)),
{
    let ghost input = decorations_view(decorations@);
    let mut rest = decorations;
    let mut sorted: Vec<Decoration> = Vec::new();
    assert(decorations_view(sorted@) =~= sorted_decorations(input.take(0)));
    while rest.len() > 0
        invariant
            input.len() == sorted@.len() + rest@.len(),
            decorations_view(rest@) == input.subrange(sorted@.len() as int, input.len() as int),
            decorations_view(sorted@) == sorted_decorations(input.take(sorted@.len() as int)),
        decreases rest@.len(),
    {
        let ghost n = sorted@.len() as int;
        let ghost rv = decorations_view(rest@);
        proof {
            lemma_sorted_len(input.take(n));
        }
        let x = rest.remove(0);
        assert(x@ == rv[0]);
        assert(decorations_view(rest@) =~= rv.drop_first());
        let pos = find_insert_position(&sorted, &x);
        proof {
            lemma_insert_position_bound(decorations_view(sorted@), x@);
        }
        let ghost sv = decorations_view(sorted@);
        let ghost xv = x@;
        sorted.insert(pos, x);
        assert(decorations_view(sorted@) =~= sv.insert(pos as int, xv));
        assert(input.take(n + 1).drop_last() =~= input.take(n));
        assert(input.take(n + 1).last() == xv);
        assert(decorations_view(rest@) =~= input.subrange(n + 1, input.len() as int));
    }
    assert(input.take(sorted@.len() as int) =~= input);
    sorted
}


/// A run of text with the classes of the decorations covering it.
#[derive(Debug, Clone)]
pub struct DecoratedSegment {
    pub text: String,
    pub classes: Vec<String>,
    pub hover_message: Option<String>,
}

/// Mathematical form of a segment.
pub struct SegmentV {
    pub text: Seq<char>,
    pub classes: Seq<Seq<char>>,
    pub hover: Option<Seq<char>>,
}

pub open spec fn strings_view(v: Seq<String>) -> Seq<Seq<char>> {
    v.map_values(|s: String| s@)
}

impl View for DecoratedSegment {
    type V = SegmentV;

    open spec fn view(&self) -> SegmentV {
        SegmentV {
            text: self.text@,
            classes: strings_view(self.classes@),
            hover: match self.hover_message {
                Some(m) => Some(m@),
                None => None,
            },
        }
    }
}

pub open spec fn segments_view(v: Seq<DecoratedSegment>) -> Seq<SegmentV> {
    v.map_values(|s: DecoratedSegment| s@)
}

/// `b` splits segments of a text of length `n`: an end of the text, a decoration start
/// inside it, or a decoration end within it.
pub open spec fn is_boundary(n: int, ds: Seq<DecorationV>, b: int) -> bool {
    b == 0 || b == n || exists|i: int| 0 <= i < ds.len() && (((ds[i].start as int) < n && ds[i].start as int == b) || ((ds[i].end as int) <= n && ds[i].end as int == b))
}

pub open spec fn strictly_increasing(bs: Seq<usize>) -> bool {
    forall|i: int, j: int| 0 <= i < j < bs.len() ==> bs[i] < bs[j]
}

/// The classes of the decorations that cover `[a, b)`, in decoration order.
pub open spec fn covering_classes(ds: Seq<DecorationV>, a: int, b: int) -> Seq<Seq<char>>
    decreases ds.len(),
{
    if ds.len() == 0 {
        Seq::empty()
    } else {
        covering_classes(ds.drop_last(), a, b) + if ds.last().start as int <= a && ds.last().end as int >= b {
            seq![css_class_of(ds.last().decoration_type)]
        } else {
            Seq::empty()
        }
    }
}

/// The hover message of the first decoration covering `[a, b)` that has one.
pub open spec fn first_hover(ds: Seq<DecorationV>, a: int, b: int) -> Option<Seq<char>>
    decreases ds.len(),
{
    if ds.len() == 0 {
        None
    } else if first_hover(ds.drop_last(), a, b) is Some {
        first_hover(ds.drop_last(), a, b)
    } else if ds.last().start as int <= a && ds.last().end as int >= b {
        ds.last().hover
    } else {
        None
    }
}

/// The segments between consecutive boundaries `bs`.
pub open spec fn segments_between(cs: Seq<char>, ds: Seq<DecorationV>, bs: Seq<usize>) -> Seq<SegmentV>
    decreases bs.len(),
{
    if bs.len() < 2 {
        Seq::empty()
    } else {
        let a = bs[bs.len() - 2] as int;
        let b = bs[bs.len() - 1] as int;
        segments_between(cs, ds, bs.drop_last()).push(SegmentV {
            text: cs.subrange(a, b),
            classes: covering_classes(ds, a, b),
            hover: first_hover(ds, a, b),
        })
    }
}

fn covering(decorations: &[Decoration], a: usize, b: usize) -> (r: (Vec<String>, Option<String>))
    ensures
        strings_view(r.0@) == covering_classes(decorations_view(decorations@), a as int, b as int),
        match first_hover(decorations_view(decorations@), a as int, b as int) {
            Some(h) => r.1 is Some && r.1->Some_0@ == h,
            None => r.1 is None,
        },
{
    let ghost dv = decorations_view(decorations@);
    let mut classes: Vec<String> = Vec::new();
    let mut hover: Option<String> = None;
    let mut i: usize = 0;
    assert(strings_view(classes@) =~= covering_classes(dv.take(0), a as int, b as int));
    while i < decorations.len()
        invariant
            dv == decorations_view(decorations@),
            i <= decorations@.len(),
            strings_view(classes@) == covering_classes(dv.take(i as int), a as int, b as int),
            match first_hover(dv.take(i as int), a as int, b as int) {
                Some(h) => hover is Some && hover->Some_0@ == h,
                None => hover is None,
            },
        decreases decorations@.len() - i,
    {
        let deco = &decorations[i];
        let ghost c0 = strings_view(classes@);
        assert(dv.take(i + 1).drop_last() =~= dv.take(i as int));
        assert(dv.take(i + 1).last() == deco@);
        if deco.start <= a && deco.end >= b {
            let c = deco.decoration_type.css_class().to_owned();
            classes.push(c);
            assert(strings_view(classes@) =~= c0.push(css_class_of(deco.decoration_type)));
            if hover.is_none() {
                match &deco.hover_message {
                    Some(m) => {
                        hover = Some(m.clone());
                    },
                    None => {},
                }
            }
        } else {
            assert(strings_view(classes@) =~= c0 + Seq::<Seq<char>>::empty());
        }
        i += 1;
    }
    assert(dv.take(i as int) =~= dv);
    (classes, hover)
}

/// Adds `v` to the strictly increasing `bs`, unless it is there already.
fn insert_boundary(bs: &mut Vec<usize>, v: usize)
    requires
        strictly_increasing(old(bs)@),
    ensures
        strictly_increasing(final(bs)@),
        forall|x: usize| final(bs)@.contains(x) <==> (old(bs)@.contains(x) || x == v),
{
    let mut k: usize = 0;
    while k < bs.len() && bs[k] < v
        invariant
            k <= old(bs)@.len(),
            bs@ == old(bs)@,
            forall|m: int| 0 <= m < k ==> bs@[m] < v,
        decreases bs@.len() - k,
    {
        k += 1;
    }
    if k < bs.len() && bs[k] == v {
        assert(bs@[k as int] == v);
        assert forall|x: usize| bs@.contains(x) <==> (old(bs)@.contains(x) || x == v) by {
            if x == v {
                assert(bs@[k as int] == x);
            }
        }
        return;
    }
    let ghost b0 = bs@;
    assert(b0 == old(bs)@);
    assert(k < b0.len() ==> b0[k as int] > v);
    bs.insert(k, v);
    assert(bs@ == b0.insert(k as int, v));
    assert forall|i: int, j: int| 0 <= i < j < bs@.len() implies bs@[i] < bs@[j] by {
        if j < k {
            assert(bs@[i] == b0[i] && bs@[j] == b0[j]);
        } else if j == k {
            assert(bs@[i] == b0[i]);
        } else if i < k {
            assert(bs@[i] == b0[i] && bs@[j] == b0[j - 1]);
            assert(b0[j - 1] >= b0[k as int]);
        } else if i == k {
            assert(bs@[j] == b0[j - 1]);
            assert(b0[j - 1] >= b0[k as int]);
        } else {
            assert(bs@[i] == b0[i - 1] && bs@[j] == b0[j - 1]);
        }
    }
    assert forall|x: usize| bs@.contains(x) <==> (b0.contains(x) || x == v) by {
        if bs@.contains(x) {
            let j = choose|j: int| 0 <= j < bs@.len() && bs@[j] == x;
            if j < k {
                assert(b0[j] == x);
            } else if j > k {
                assert(b0[j - 1] == x);
            }
        }
        if b0.contains(x) {
            let j = choose|j: int| 0 <= j < b0.len() && b0[j] == x;
            if j < k {
                assert(bs@[j] == x);
            } else {
                assert(bs@[j + 1] == x);
            }
        }
        if x == v {
            assert(bs@[k as int] == v);
        }
    }
    assert(forall|x: usize| bs@.contains(x) <==> (old(bs)@.contains(x) || x == v));
    assert(strictly_increasing(bs@));
}

/// Splits `text` at every decoration boundary; each segment lists the classes of the
/// decorations that cover it and the first hover message among them.
pub fn split_into_segments(text: &str, decorations: &[Decoration]) -> (r: Vec<DecoratedSegment>)
    ensures
        text@.len() == 0 ==> r@.len() == 0,
        exists|bs: Seq<usize>| {
            &&& strictly_increasing(bs)
            &&& forall|b: usize| bs.contains(b) <==> is_boundary(text@.len() as int, decorations_view(decorations@), b as int)
            &&& segments_view(r@) == segments_between(text@, decorations_view(decorations@), bs)
        },
{
    let ghost dv = decorations_view(decorations@);
    let chars = chars_of(text);
    let n = chars.len();
    let mut bs: Vec<usize> = Vec::new();
    insert_boundary(&mut bs, 0);
    insert_boundary(&mut bs, n);
    let mut i: usize = 0;
    while i < decorations.len()
        invariant
            dv == decorations_view(decorations@),
            n == text@.len(),
            i <= decorations@.len(),
            strictly_increasing(bs@),
            forall|x: usize| bs@.contains(x) <==> (x == 0 || x == n || exists|j: int| 0 <= j < i && ((dv[j].start < n && dv[j].start == x) || (dv[j].end <= n && dv[j].end == x))),
        decreases decorations@.len() - i,
    {
        let deco = &decorations[i];
        if deco.start < n {
            insert_boundary(&mut bs, deco.start);
        }
        if deco.end <= n {
            insert_boundary(&mut bs, deco.end);
        }
        assert(dv[i as int] == deco@);
        assert forall|x: usize| bs@.contains(x) <==> (x == 0 || x == n || exists|j: int| 0 <= j < i + 1 && ((dv[j].start < n && dv[j].start == x) || (dv[j].end <= n && dv[j].end == x))) by {
            if exists|j: int| 0 <= j < i + 1 && ((dv[j].start < n && dv[j].start == x) || (dv[j].end <= n && dv[j].end == x)) {
                let j = choose|j: int| 0 <= j < i + 1 && ((dv[j].start < n && dv[j].start == x) || (dv[j].end <= n && dv[j].end == x));
                if j < i {
                    assert(exists|j2: int| 0 <= j2 < i && ((dv[j2].start < n && dv[j2].start == x) || (dv[j2].end <= n && dv[j2].end == x)));
                }
            }
            if exists|j: int| 0 <= j < i && ((dv[j].start < n && dv[j].start == x) || (dv[j].end <= n && dv[j].end == x)) {
                let j = choose|j: int| 0 <= j < i && ((dv[j].start < n && dv[j].start == x) || (dv[j].end <= n && dv[j].end == x));
                assert(0 <= j < i + 1);
            }
            if (deco.start < n && deco.start == x) || (deco.end <= n && deco.end == x) {
                assert(0 <= i < i + 1 && ((dv[i as int].start < n && dv[i as int].start == x) || (dv[i as int].end <= n && dv[i as int].end == x)));
            }
        }
        i += 1;
    }
    assert forall|b: usize| bs@.contains(b) <==> is_boundary(n as int, dv, b as int) by {
        if is_boundary(n as int, dv, b as int) && b != 0 && b != n {
            let j = choose|j: int| 0 <= j < dv.len() && (((dv[j].start as int) < n && dv[j].start as int == b) || ((dv[j].end as int) <= n && dv[j].end as int == b));
        }
    }
    assert forall|x: usize| bs@.contains(x) implies x <= n by {
        if x != 0 && x != n {
            let j = choose|j: int| 0 <= j < i && ((dv[j].start < n && dv[j].start == x) || (dv[j].end <= n && dv[j].end == x));
        }
    }
    assert(bs@.contains(0usize));
    let mut segments: Vec<DecoratedSegment> = Vec::new();
    if chars.len() == 0 {
        assert(bs@.len() < 2) by {
            if bs@.len() >= 2 {
                assert(bs@.contains(bs@[1]));
                assert(bs@[0] < bs@[1]);
            }
        }
        assert(segments_view(segments@) =~= segments_between(text@, dv, bs@));
        return segments;
    }
    let mut w: usize = 1;
    assert(segments_view(segments@) =~= segments_between(text@, dv, bs@.take(1)));
    while w < bs.len()
        invariant
            dv == decorations_view(decorations@),
            chars@ == text@,
            n == chars@.len(),
            1 <= w <= bs@.len(),
            strictly_increasing(bs@),
            forall|x: usize| bs@.contains(x) ==> x <= n,
            forall|b: usize| bs@.contains(b) <==> is_boundary(n as int, dv, b as int),
            segments_view(segments@) == segments_between(text@, dv, bs@.take(w as int)),
        decreases bs@.len() - w,
    {
        let a = bs[w - 1];
        let b = bs[w];
        assert(bs@.contains(b));
        let seg_text = string_of_range(&chars, a, b);
        let (classes, hover_message) = covering(decorations, a, b);
        let ghost s0 = segments_view(segments@);
        let seg = DecoratedSegment { text: seg_text, classes, hover_message };
        let ghost sv = seg@;
        segments.push(seg);
        assert(bs@.take(w + 1).drop_last() =~= bs@.take(w as int));
        assert(segments_view(segments@) =~= s0.push(sv));
        w += 1;
    }
    assert(bs@.take(w as int) =~= bs@);
    assert(segments_view(segments@) == segments_between(text@, dv, bs@));
    segments
}

pub open spec fn html_text_char(c: char) -> Seq<char> {
    if c == '&' {
        "&amp;"@
    } else if c == '<' {
        "&lt;"@
    } else if c == '>' {
        "&gt;"@
    } else if c == '\r' {
        Seq::empty()
    } else if c == '\n' {
        "<br>"@
    } else {
        seq![c]
    }
}

/// Segment text for HTML: `&<>` escaped, carriage returns dropped, newlines as `<br>`.
pub open spec fn html_text(s: Seq<char>) -> Seq<char>
    decreases s.len(),
{
    if s.len() == 0 {
        Seq::empty()
    } else {
        html_text(s.drop_last()) + html_text_char(s.last())
    }
}

/// A hover message with `"` escaped.
pub open spec fn quote_escaped(s: Seq<char>) -> Seq<char>
    decreases s.len(),
{
    if s.len() == 0 {
        Seq::empty()
    } else {
        quote_escaped(s.drop_last()) + if s.last() == '"' { "&quot;"@ } else { seq![s.last()] }
    }
}

/// Class names separated by single spaces.
pub open spec fn joined_classes(cs: Seq<Seq<char>>) -> Seq<char>
    decreases cs.len(),
{
    if cs.len() == 0 {
        Seq::empty()
    } else if cs.len() == 1 {
        cs[0]
    } else {
        joined_classes(cs.drop_last()) + " "@ + cs.last()
    }
}

pub open spec fn segment_html(s: SegmentV) -> Seq<char> {
    if s.classes.len() == 0 && s.hover is None {
        html_text(s.text)
    } else {
        "<span class=\""@ + joined_classes(s.classes) + "\""@ + match s.hover {
            Some(m) => " title=\""@ + quote_escaped(m) + "\""@,
            None => Seq::empty(),
        } + ">"@ + html_text(s.text) + "</span>"@
    }
}

pub open spec fn segments_html(segs: Seq<SegmentV>) -> Seq<char>
    decreases segs.len(),
{
    if segs.len() == 0 {
        Seq::empty()
    } else {
        segments_html(segs.drop_last()) + segment_html(segs.last())
    }
}

fn push_html_text(out: &mut String, s: &str)
    ensures
        final(out)@ == old(out)@ + html_text(s@),
{
    let cs = chars_of(s);
    let mut i: usize = 0;
    while i < cs.len()
        invariant
            cs@ == s@,
            i <= cs@.len(),
            out@ == old(out)@ + html_text(cs@.take(i as int)),
        decreases cs@.len() - i,
    {
        let c = cs[i];
        if c == '&' {
            push_str(out, "&amp;");
        } else if c == '<' {
            push_str(out, "&lt;");
        } else if c == '>' {
            push_str(out, "&gt;");
        } else if c == '\r' {
        } else if c == '\n' {
            push_str(out, "<br>");
        } else {
            push_char(out, c);
        }
        assert(cs@.take(i + 1).drop_last() =~= cs@.take(i as int));
        assert(out@ =~= old(out)@ + html_text(cs@.take(i + 1)));
        i += 1;
    }
    assert(cs@.take(i as int) =~= cs@);
}

fn push_quote_escaped(out: &mut String, s: &str)
    ensures
        final(out)@ == old(out)@ + quote_escaped(s@),
{
    let cs = chars_of(s);
    let mut i: usize = 0;
    while i < cs.len()
        invariant
            cs@ == s@,
            i <= cs@.len(),
            out@ == old(out)@ + quote_escaped(cs@.take(i as int)),
        decreases cs@.len() - i,
    {
        if cs[i] == '"' {
            push_str(out, "&quot;");
        } else {
            push_char(out, cs[i]);
        }
        assert(cs@.take(i + 1).drop_last() =~= cs@.take(i as int));
        assert(out@ =~= old(out)@ + quote_escaped(cs@.take(i + 1)));
        i += 1;
    }
    assert(cs@.take(i as int) =~= cs@);
}

fn push_joined_classes(out: &mut String, classes: &Vec<String>)
    ensures
        final(out)@ == old(out)@ + joined_classes(strings_view(classes@)),
{
    let ghost cv = strings_view(classes@);
    let mut i: usize = 0;
    while i < classes.len()
        invariant
            cv == strings_view(classes@),
            i <= classes@.len(),
            out@ == old(out)@ + joined_classes(cv.take(i as int)),
        decreases classes@.len() - i,
    {
        if i > 0 {
            push_str(out, " ");
        }
        push_str(out, classes[i].as_str());
        assert(cv.take(i + 1).drop_last() =~= cv.take(i as int));
        assert(out@ =~= old(out)@ + joined_classes(cv.take(i + 1)));
        i += 1;
    }
    assert(cv.take(i as int) =~= cv);
}

/// Renders segments as HTML: plain text where a segment has no class and no hover message,
/// otherwise a `span` with its classes and the message as `title`.
pub fn render_to_html(segments: &[DecoratedSegment]) -> (r: String)
    ensures
        r@ == segments_html(segments_view(segments@)),
{
    let ghost sv = segments_view(segments@);
    let mut html = String::new();
    let mut i: usize = 0;
    while i < segments.len()
        invariant
            sv == segments_view(segments@),
            i <= segments@.len(),
            html@ == segments_html(sv.take(i as int)),
        decreases segments@.len() - i,
    {
        let segment = &segments[i];
        if segment.classes.len() == 0 && segment.hover_message.is_none() {
            push_html_text(&mut html, segment.text.as_str());
        } else {
            push_str(&mut html, "<span class=\"");
            push_joined_classes(&mut html, &segment.classes);
            push_str(&mut html, "\"");
            match &segment.hover_message {
                Some(msg) => {
                    push_str(&mut html, " title=\"");
                    push_quote_escaped(&mut html, msg.as_str());
                    push_str(&mut html, "\"");
                },
                None => {},
            }
            push_str(&mut html, ">");
            push_html_text(&mut html, segment.text.as_str());
            push_str(&mut html, "</span>");
        }
        assert(sv.take(i + 1).drop_last() =~= sv.take(i as int));
        assert(html@ =~= segments_html(sv.take(i + 1)));
        i += 1;
    }
    assert(sv.take(i as int) =~= sv);
    html
}
} // verus!
