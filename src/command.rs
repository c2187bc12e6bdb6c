//! The annotation recogniser: what an annotation body `［＃…］` denotes.
use vstd::prelude::*;

use crate::text::{chars_of, string_of_range};
use crate::tokenizer::CommandToken;

verus! {

/// Size of a heading: 大, 中 or 小.
#[derive(Debug, Clone, Copy, PartialEq, Eq, Structural)]
pub enum MidashiSize {
    Large,
    Middle,
    Small,
}

/// Placement of a heading: its own line, run in with the text (同行), or a window (窓).
#[derive(Debug, Clone, Copy, PartialEq, Eq, Structural)]
pub enum MidashiType {
    Normal,
    Dogyo,
    Mado,
}

/// A heading annotation.
#[derive(Debug, Clone, Copy, PartialEq, Eq, Structural)]
pub struct Midashi {
    pub size: MidashiSize,
    pub kind: MidashiType,
}

/// Indentation from the top (`is_upper`) or alignment to the bottom, by `space` characters.
#[derive(Debug, Clone, Copy, PartialEq, Eq, Structural)]
pub struct Alignment {
    pub is_upper: bool,
    pub space: usize,
}

/// Emphasis dots.
#[derive(Debug, Clone, Copy, PartialEq, Eq, Structural)]
pub enum Bouten {
    Sirogoma,
    BlackCircle,
    WhiteCircle,
    BlackTriangle,
    WhiteTriangle,
    DoubleCircle,
    Hebinome,
    Cross,
}

/// Side lines.
#[derive(Debug, Clone, Copy, PartialEq, Eq, Structural)]
pub enum Bousen {
    Bousen,
    Double,
    Chain,
    Dashed,
    Wavy,
}

/// The opening annotation of a block, with its parameters.
#[derive(Debug, Clone, Copy, PartialEq, Eq, Structural)]
pub enum CommandBegin {
    Midashi(Midashi),
    Alignment(Alignment),
    Bouten(Bouten),
    Bousen(Bousen),
    Bold,
    Italic,
    Kakomikei,
    Yokogumi,
    Jitsume(usize),
}

/// The closing annotation of a block.
#[derive(Debug, Clone, Copy, PartialEq, Eq, Structural)]
pub enum CommandEnd {
    Midashi(Midashi),
    Alignment,
    Bouten,
    Bousen,
    Bold,
    Italic,
    Kakomikei,
    Yokogumi,
    Jitsume,
}

/// An annotation whose effect is local.
#[derive(Debug, PartialEq)]
pub enum SingleCommand {
    Midashi((Midashi, String)),
    Alignment(Alignment),
    Kaicho,
    Kaimihiraki,
    Kaipage,
    Kaidan,
    Bouten((Bouten, String)),
    Bousen((Bousen, String)),
    Bold(String),
    Italic(String),
}

impl Clone for SingleCommand {
    fn clone(&self) -> (r: SingleCommand)
        ensures
            r@ == self@,
    {
        match self {
            SingleCommand::Midashi((m, s)) => SingleCommand::Midashi((*m, s.clone())),
            SingleCommand::Alignment(a) => SingleCommand::Alignment(*a),
            SingleCommand::Kaicho => SingleCommand::Kaicho,
            SingleCommand::Kaimihiraki => SingleCommand::Kaimihiraki,
            SingleCommand::Kaipage => SingleCommand::Kaipage,
            SingleCommand::Kaidan => SingleCommand::Kaidan,
            SingleCommand::Bouten((b, s)) => SingleCommand::Bouten((*b, s.clone())),
            SingleCommand::Bousen((b, s)) => SingleCommand::Bousen((*b, s.clone())),
            SingleCommand::Bold(s) => SingleCommand::Bold(s.clone()),
            SingleCommand::Italic(s) => SingleCommand::Italic(s.clone()),
        }
    }
}

/// A recognised annotation body; `Unknown` keeps a body that no rule recognises.
#[derive(Debug, Clone, PartialEq)]
pub enum Command {
    CommandBegin(CommandBegin),
    SingleCommand(SingleCommand),
    CommandEnd(CommandEnd),
    Unknown(String),
}

/// Mathematical form of a `SingleCommand`.
pub enum SingleCommandV {
    Midashi(Midashi, Seq<char>),
    Alignment(Alignment),
    Kaicho,
    Kaimihiraki,
    Kaipage,
    Kaidan,
    Bouten(Bouten, Seq<char>),
    Bousen(Bousen, Seq<char>),
    Bold(Seq<char>),
    Italic(Seq<char>),
}

/// Mathematical form of a `Command`.
pub enum CommandV {
    Begin(CommandBegin),
    Single(SingleCommandV),
    End(CommandEnd),
    Unknown(Seq<char>),
}

impl View for SingleCommand {
    type V = SingleCommandV;

    open spec fn view(&self) -> SingleCommandV {
        match self {
            SingleCommand::Midashi((m, s)) => SingleCommandV::Midashi(*m, s@),
            SingleCommand::Alignment(a) => SingleCommandV::Alignment(*a),
            SingleCommand::Kaicho => SingleCommandV::Kaicho,
            SingleCommand::Kaimihiraki => SingleCommandV::Kaimihiraki,
            SingleCommand::Kaipage => SingleCommandV::Kaipage,
            SingleCommand::Kaidan => SingleCommandV::Kaidan,
            SingleCommand::Bouten((b, s)) => SingleCommandV::Bouten(*b, s@),
            SingleCommand::Bousen((b, s)) => SingleCommandV::Bousen(*b, s@),
            SingleCommand::Bold(s) => SingleCommandV::Bold(s@),
            SingleCommand::Italic(s) => SingleCommandV::Italic(s@),
        }
    }
}

impl View for Command {
    type V = CommandV;

    open spec fn view(&self) -> CommandV {
        match self {
            Command::CommandBegin(b) => CommandV::Begin(*b),
            Command::SingleCommand(s) => CommandV::Single(s@),
            Command::CommandEnd(e) => CommandV::End(*e),
            Command::Unknown(s) => CommandV::Unknown(s@),
        }
    }
}

/// `lit` occurs in `cs` at index `i`.
pub open spec fn has_at(cs: Seq<char>, i: int, lit: Seq<char>) -> bool {
    0 <= i && i + lit.len() <= cs.len() && cs.subrange(i, i + lit.len()) == lit
}

pub open spec fn midashi_size(c: char) -> Option<MidashiSize> {
    if c == '大' {
        Some(MidashiSize::Large)
    } else if c == '中' {
        Some(MidashiSize::Middle)
    } else if c == '小' {
        Some(MidashiSize::Small)
    } else {
        None
    }
}

pub open spec fn lit_dogyo() -> Seq<char> { seq!['同', '行'] }
pub open spec fn lit_mado() -> Seq<char> { seq!['窓'] }
pub open spec fn lit_midashi() -> Seq<char> { seq!['見', '出', 'し'] }
pub open spec fn lit_midashi_end() -> Seq<char> { seq!['見', '出', 'し', '終', 'わ', 'り'] }
pub open spec fn lit_kokokara() -> Seq<char> { seq!['こ', 'こ', 'か', 'ら'] }
pub open spec fn lit_kokode() -> Seq<char> { seq!['こ', 'こ', 'で'] }
pub open spec fn lit_ref_mark() -> Seq<char> { seq!['」', 'は'] }
pub open spec fn lit_jisage() -> Seq<char> { seq!['字', '下', 'げ'] }
pub open spec fn lit_jisage_end() -> Seq<char> { seq!['こ', 'こ', 'で', '字', '下', 'げ', '終', 'わ', 'り'] }
pub open spec fn lit_kaicho() -> Seq<char> { seq!['改', '丁'] }
pub open spec fn lit_kaipage() -> Seq<char> { seq!['改', 'ペ', 'ー', 'ジ'] }
pub open spec fn lit_kaimihiraki() -> Seq<char> { seq!['改', '見', '開', 'き'] }
pub open spec fn lit_kaidan() -> Seq<char> { seq!['改', '段'] }

/// `(同行|窓)?(大|中|小)` at index `i`, followed by exactly `tail` up to the end.
pub open spec fn heading_from(cs: Seq<char>, i: int, tail: Seq<char>) -> Option<Midashi> {
    let kind = if has_at(cs, i, lit_dogyo()) {
        MidashiType::Dogyo
    } else if has_at(cs, i, lit_mado()) {
        MidashiType::Mado
    } else {
        MidashiType::Normal
    };
    let j = if has_at(cs, i, lit_dogyo()) {
        i + 2
    } else if has_at(cs, i, lit_mado()) {
        i + 1
    } else {
        i
    };
    if 0 <= j < cs.len() && midashi_size(cs[j]) is Some && cs.subrange(j + 1, cs.len() as int) == tail {
        Some(Midashi { size: midashi_size(cs[j])->Some_0, kind })
    } else {
        None
    }
}

/// The heading named by `「…」は` ending at index `e`, if the content `cs[1..e]` is a
/// non-empty line.
pub open spec fn reference_at(cs: Seq<char>, e: int) -> Option<Midashi> {
    if 2 <= e && has_at(cs, e, lit_ref_mark()) && (forall|k: int| 1 <= k < e ==> cs[k] != '\n') {
        heading_from(cs, e + 2, lit_midashi())
    } else {
        None
    }
}

/// `「c」は(同行|窓)?(大|中|小)見出し`, with the shortest content `c` that fits.
pub open spec fn reference_heading(cs: Seq<char>) -> Option<(Midashi, Seq<char>)> {
    if cs.len() == 0 || cs[0] != '「' {
        None
    } else if reference_at(cs, cs.len() - 8) is Some {
        Some((reference_at(cs, cs.len() - 8)->Some_0, cs.subrange(1, cs.len() - 8)))
    } else if reference_at(cs, cs.len() - 7) is Some {
        Some((reference_at(cs, cs.len() - 7)->Some_0, cs.subrange(1, cs.len() - 7)))
    } else if reference_at(cs, cs.len() - 6) is Some {
        Some((reference_at(cs, cs.len() - 6)->Some_0, cs.subrange(1, cs.len() - 6)))
    } else {
        None
    }
}

/// The index after an optional `prefix` at the start.
pub open spec fn skip_prefix(cs: Seq<char>, prefix: Seq<char>) -> int {
    if has_at(cs, 0, prefix) { prefix.len() as int } else { 0 }
}

pub open spec fn full_width_digit(c: char) -> bool {
    '０' <= c && c <= '９'
}

/// Full-width digits become ASCII digits; every other character is kept.
pub open spec fn narrow_digit(c: char) -> char {
    if full_width_digit(c) { ((c as u32) - 0xFF10 + 0x30) as char } else { c }
}

pub open spec fn ascii_digit(c: char) -> bool {
    '0' <= c && c <= '9'
}

/// The value of a string of ASCII digits.
pub open spec fn digits_value(s: Seq<char>) -> nat
    decreases s.len(),
{
    if s.len() == 0 {
        0
    } else {
        digits_value(s.drop_last()) * 10 + ((s.last() as u32) - 0x30) as nat
    }
}

/// `s` without one leading `+`.
pub open spec fn sign_stripped(s: Seq<char>) -> Seq<char> {
    if s.len() > 0 && s[0] == '+' { s.drop_first() } else { s }
}

pub open spec fn all_ascii_digits(s: Seq<char>) -> bool {
    forall|k: int| 0 <= k < s.len() ==> ascii_digit(#[trigger] s[k])
}

/// What `u32::from_str` accepts: an optional `+`, then one or more ASCII digits, in range.
pub open spec fn u32_of(s: Seq<char>) -> Option<u32> {
    let body = sign_stripped(s);
    if body.len() > 0 && all_ascii_digits(body) && digits_value(body) <= u32::MAX {
        Some(digits_value(body) as u32)
    } else {
        None
    }
}

/// `^N字下げ$` with `prefix` before the digits `N` (full-width, one or more).
pub open spec fn indent_digits(cs: Seq<char>, prefix: Seq<char>) -> Option<Seq<char>> {
    let n = cs.len() - 3 - prefix.len();
    if n >= 1 && has_at(cs, 0, prefix) && has_at(cs, cs.len() - 3, lit_jisage())
        && (forall|k: int| prefix.len() <= k < cs.len() - 3 ==> full_width_digit(cs[k])) {
        Some(cs.subrange(prefix.len() as int, cs.len() - 3))
    } else {
        None
    }
}

/// The command that an annotation body denotes; `None` for a body that no rule recognises.
pub open spec fn command_of(cs: Seq<char>) -> Option<CommandV> {
    let begin = heading_from(cs, skip_prefix(cs, lit_kokokara()), lit_midashi());
    let end = heading_from(cs, skip_prefix(cs, lit_kokode()), lit_midashi_end());
    if reference_heading(cs) is Some {
        let (m, c) = reference_heading(cs)->Some_0;
        Some(CommandV::Single(SingleCommandV::Midashi(m, c)))
    } else if begin is Some {
        Some(CommandV::Begin(CommandBegin::Midashi(begin->Some_0)))
    } else if end is Some {
        Some(CommandV::End(CommandEnd::Midashi(end->Some_0)))
    } else if indent_digits(cs, Seq::empty()) is Some {
        match u32_of(indent_digits(cs, Seq::empty())->Some_0.map_values(|c: char| narrow_digit(c))) {
            Some(n) => Some(CommandV::Single(SingleCommandV::Alignment(Alignment { is_upper: true, space: n as usize }))),
            None => None,
        }
    } else if indent_digits(cs, lit_kokokara()) is Some {
        match u32_of(indent_digits(cs, lit_kokokara())->Some_0.map_values(|c: char| narrow_digit(c))) {
            Some(n) => Some(CommandV::Begin(CommandBegin::Alignment(Alignment { is_upper: true, space: n as usize }))),
            None => None,
        }
    } else if cs == lit_kaicho() {
        Some(CommandV::Single(SingleCommandV::Kaicho))
    } else if cs == lit_kaipage() {
        Some(CommandV::Single(SingleCommandV::Kaipage))
    } else if cs == lit_kaimihiraki() {
        Some(CommandV::Single(SingleCommandV::Kaimihiraki))
    } else if cs == lit_kaidan() {
        Some(CommandV::Single(SingleCommandV::Kaidan))
    } else if cs == lit_jisage_end() {
        Some(CommandV::End(CommandEnd::Alignment))
    } else {
        None
    }
}

/// Whether `lit` occurs in `cs` at index `i`.
pub(crate) fn has_at_exec(cs: &Vec<char>, i: usize, lit: &Vec<char>) -> (r: bool)
    ensures
        r == has_at(cs@, i as int, lit@),
{
    if i > cs.len() || lit.len() > cs.len() - i {
        return false;
    }
    let n = cs.len();
    let mut k: usize = 0;
    while k < lit.len()
        invariant
            n == cs@.len(),
            i + lit@.len() <= cs@.len(),
            k <= lit@.len(),
            forall|m: int| 0 <= m < k ==> cs@[i + m] == lit@[m],
        decreases lit@.len() - k,
    {
        if cs[i + k] != lit[k] {
            assert(cs@.subrange(i as int, i + lit@.len())[k as int] != lit@[k as int]);
            return false;
        }
        k += 1;
    }
    assert(cs@.subrange(i as int, i + lit@.len()) =~= lit@);
    true
}

fn exec_midashi_size(c: char) -> (r: Option<MidashiSize>)
    ensures
        r == midashi_size(c),
{
    if c == '大' {
        Some(MidashiSize::Large)
    } else if c == '中' {
        Some(MidashiSize::Middle)
    } else if c == '小' {
        Some(MidashiSize::Small)
    } else {
        None
    }
}

fn heading_from_exec(cs: &Vec<char>, i: usize, tail: &Vec<char>) -> (r: Option<Midashi>)
    requires
        i <= cs@.len(),
    ensures
        r == heading_from(cs@, i as int, tail@),
{
    let dogyo = vec!['同', '行'];
    let mado = vec!['窓'];
    assert(dogyo@ =~= lit_dogyo());
    assert(mado@ =~= lit_mado());
    let n = cs.len();
    let (kind, j) = if has_at_exec(cs, i, &dogyo) {
        (MidashiType::Dogyo, i + 2)
    } else if has_at_exec(cs, i, &mado) {
        (MidashiType::Mado, i + 1)
    } else {
        (MidashiType::Normal, i)
    };
    if j < cs.len() {
        match exec_midashi_size(cs[j]) {
            Some(size) => {
                if cs.len() - (j + 1) == tail.len() && has_at_exec(cs, j + 1, tail) {
                    assert(cs@.subrange(j + 1, cs@.len() as int) =~= tail@);
                    Some(Midashi { size, kind })
                } else {
                    assert(cs@.len() - (j + 1) != tail@.len() ==> cs@.subrange(j + 1, cs@.len() as int).len() != tail@.len());
                    None
                }
            },
            None => None,
        }
    } else {
        None
    }
}

fn reference_at_exec(cs: &Vec<char>, e: usize) -> (r: Option<Midashi>)
    requires
        e <= cs@.len(),
    ensures
        r == reference_at(cs@, e as int),
{
    let mark = vec!['」', 'は'];
    let midashi = vec!['見', '出', 'し'];
    assert(mark@ =~= lit_ref_mark());
    assert(midashi@ =~= lit_midashi());
    let n = cs.len();
    if e < 2 || !has_at_exec(cs, e, &mark) {
        return None;
    }
    let mut k: usize = 1;
    while k < e
        invariant
            1 <= k <= e,
            e <= cs@.len(),
            forall|m: int| 1 <= m < k ==> cs@[m] != '\n',
        decreases e - k,
    {
        if cs[k] == '\n' {
            return None;
        }
        k += 1;
    }
    heading_from_exec(cs, e + 2, &midashi)
}

fn reference_heading_exec(cs: &Vec<char>) -> (r: Option<(Midashi, String)>)
    ensures
        match reference_heading(cs@) {
            Some((m, c)) => r is Some && r->Some_0.0 == m && r->Some_0.1@ == c,
            None => r is None,
        },
{
    if cs.len() == 0 || cs[0] != '「' {
        return None;
    }
    let n = cs.len();
    if n >= 8 {
        if let Some(m) = reference_at_exec(cs, n - 8) {
            return Some((m, string_of_range(cs, 1, n - 8)));
        }
    }
    if n >= 7 {
        if let Some(m) = reference_at_exec(cs, n - 7) {
            return Some((m, string_of_range(cs, 1, n - 7)));
        }
    }
    if n >= 6 {
        if let Some(m) = reference_at_exec(cs, n - 6) {
            return Some((m, string_of_range(cs, 1, n - 6)));
        }
    }
    None
}

fn skip_prefix_exec(cs: &Vec<char>, prefix: &Vec<char>) -> (r: usize)
    ensures
        r == skip_prefix(cs@, prefix@),
        r <= cs@.len(),
{
    if has_at_exec(cs, 0, prefix) {
        prefix.len()
    } else {
        0
    }
}

fn indent_digits_exec(cs: &Vec<char>, prefix: &Vec<char>) -> (r: Option<String>)
    ensures
        match indent_digits(cs@, prefix@) {
            Some(d) => r is Some && r->Some_0@ == d,
            None => r is None,
        },
{
    let jisage = vec!['字', '下', 'げ'];
    assert(jisage@ =~= lit_jisage());
    let n = cs.len();
    if n < 4 || n - 4 < prefix.len() {
        return None;
    }
    if !has_at_exec(cs, 0, prefix) || !has_at_exec(cs, n - 3, &jisage) {
        return None;
    }
    let mut k = prefix.len();
    while k < n - 3
        invariant
            n == cs@.len(),
            prefix@.len() <= k <= n - 3,
            forall|m: int| prefix@.len() <= m < k ==> full_width_digit(cs@[m]),
        decreases n - 3 - k,
    {
        if !('０' <= cs[k] && cs[k] <= '９') {
            return None;
        }
        k += 1;
    }
    Some(string_of_range(cs, prefix.len(), n - 3))
}

/// Whether `cs` is exactly `lit`.
fn is_exactly(cs: &Vec<char>, lit: &Vec<char>) -> (r: bool)
    ensures
        r == (cs@ == lit@),
{
    if cs.len() != lit.len() {
        return false;
    }
    let r = has_at_exec(cs, 0, lit);
    assert(cs@.subrange(0, lit@.len() as int) =~= cs@);
    r
}

/// The command of an annotation body: what `command_of` recognises, otherwise `Unknown`
/// with the raw body.
pub open spec fn recognised_command(cs: Seq<char>) -> CommandV {
    match command_of(cs) {
        Some(c) => c,
        None => CommandV::Unknown(cs),
    }
}

/// Recognises an annotation body.
///
/// The result is always present and is `recognised_command` of the body: a reference
/// heading `「c」は…見出し`, a heading begin or end, a one-line or block indent, or a
/// page-break literal; `Unknown` with the raw body when no rule recognises it or an indent
/// does not fit in `u32`.
pub fn parse_command(commands: CommandToken) -> (r: Option<Command>)
    ensures
        r matches Some(c) && c@ == recognised_command(commands.content@),
{
    match recognise(&chars_of(commands.content.as_str())) {
        Some(c) => Some(c),
        None => Some(Command::Unknown(commands.content)),
    }
}

/// `command_of` of the characters `cs`.
fn recognise(cs: &Vec<char>) -> (r: Option<Command>)
    ensures
        match command_of(cs@) {
            Some(c) => r is Some && r->Some_0@ == c,
            None => r is None,
        },
{
    if let Some((m, content)) = reference_heading_exec(cs) {
        return Some(Command::SingleCommand(SingleCommand::Midashi((m, content))));
    }
    let kokokara = vec!['こ', 'こ', 'か', 'ら'];
    let kokode = vec!['こ', 'こ', 'で'];
    let midashi = vec!['見', '出', 'し'];
    let midashi_end = vec!['見', '出', 'し', '終', 'わ', 'り'];
    let empty: Vec<char> = Vec::new();
    assert(kokokara@ =~= lit_kokokara());
    assert(kokode@ =~= lit_kokode());
    assert(midashi@ =~= lit_midashi());
    assert(midashi_end@ =~= lit_midashi_end());
    assert(empty@ =~= Seq::<char>::empty());
    if let Some(m) = heading_from_exec(cs, skip_prefix_exec(cs, &kokokara), &midashi) {
        return Some(Command::CommandBegin(CommandBegin::Midashi(m)));
    }
    if let Some(m) = heading_from_exec(cs, skip_prefix_exec(cs, &kokode), &midashi_end) {
        return Some(Command::CommandEnd(CommandEnd::Midashi(m)));
    }
    if let Some(digits) = indent_digits_exec(cs, &empty) {
        return match full_width_digit_to_u32(digits.as_str()) {
            Some(n) => Some(Command::SingleCommand(SingleCommand::Alignment(Alignment { is_upper: true, space: n as usize }))),
            None => None,
        };
    }
    if let Some(digits) = indent_digits_exec(cs, &kokokara) {
        return match full_width_digit_to_u32(digits.as_str()) {
            Some(n) => Some(Command::CommandBegin(CommandBegin::Alignment(Alignment { is_upper: true, space: n as usize }))),
            None => None,
        };
    }
    let kaicho = vec!['改', '丁'];
    let kaipage = vec!['改', 'ペ', 'ー', 'ジ'];
    let kaimihiraki = vec!['改', '見', '開', 'き'];
    let kaidan = vec!['改', '段'];
    let jisage_end = vec!['こ', 'こ', 'で', '字', '下', 'げ', '終', 'わ', 'り'];
    assert(kaicho@ =~= lit_kaicho());
    assert(kaipage@ =~= lit_kaipage());
    assert(kaimihiraki@ =~= lit_kaimihiraki());
    assert(kaidan@ =~= lit_kaidan());
    assert(jisage_end@ =~= lit_jisage_end());
    if is_exactly(cs, &kaicho) {
        Some(Command::SingleCommand(SingleCommand::Kaicho))
    } else if is_exactly(cs, &kaipage) {
        Some(Command::SingleCommand(SingleCommand::Kaipage))
    } else if is_exactly(cs, &kaimihiraki) {
        Some(Command::SingleCommand(SingleCommand::Kaimihiraki))
    } else if is_exactly(cs, &kaidan) {
        Some(Command::SingleCommand(SingleCommand::Kaidan))
    } else if is_exactly(cs, &jisage_end) {
        Some(Command::CommandEnd(CommandEnd::Alignment))
    } else {
        None
    }
}

/// Parses full-width (or ASCII) digits into a number, as `u32::from_str` does after the
/// full-width digits are narrowed; `None` when the text is no number or does not fit.
pub fn full_width_digit_to_u32(input: &str) -> (r: Option<u32>)
    ensures
        r == u32_of(input@.map_values(|c: char| narrow_digit(c))),
{
    let cs = chars_of(input);
    let ghost s = input@.map_values(|c: char| narrow_digit(c));
    let mut i: usize = 0;
    if cs.len() > 0 && narrow(cs[0]) == '+' {
        i = 1;
    }
    let ghost body = sign_stripped(s);
    assert(body =~= s.subrange(i as int, s.len() as int));
    if i >= cs.len() {
        return None;
    }
    let mut value: u64 = 0;
    let start = i;
    while i < cs.len()
        invariant
            cs@ == input@,
            s == input@.map_values(|c: char| narrow_digit(c)),
            start <= i <= cs@.len(),
            body == s.subrange(start as int, s.len() as int),
            body == sign_stripped(s),
            forall|k: int| start <= k < i ==> ascii_digit(s[k]),
            value == digits_value(s.subrange(start as int, i as int)),
            value <= u32::MAX,
        decreases cs@.len() - i,
    {
        let d = narrow(cs[i]);
        assert(s[i as int] == narrow_digit(cs@[i as int]));
        if !('0' <= d && d <= '9') {
            assert(body[i - start] == s[i as int]);
            assert(!ascii_digit(body[i - start]));
            assert(!all_ascii_digits(body));
            assert(sign_stripped(s) == body);
            assert(u32_of(s) is None);
            return None;
        }
        assert(s.subrange(start as int, i + 1).drop_last() =~= s.subrange(start as int, i as int));
        value = value * 10 + ((d as u32) - 0x30) as u64;
        assert(s.subrange(start as int, i + 1).last() == d);
        assert(value == digits_value(s.subrange(start as int, i + 1)));
        if value > 0xFFFF_FFFF {
            proof {
                if all_ascii_digits(body) {
                    lemma_digits_value_grows(body, (i + 1 - start) as int);
                    assert(body.subrange(0, i + 1 - start) =~= s.subrange(start as int, i + 1));
                }
            }
            assert(u32_of(s) is None);
            return None;
        }
        i += 1;
    }
    assert(s.subrange(start as int, i as int) =~= body);
    Some(value as u32)
}

/// Once a prefix of digits exceeds a bound, the whole does too.
proof fn lemma_digits_value_grows(s: Seq<char>, k: int)
    requires
        0 <= k <= s.len(),
        forall|m: int| 0 <= m < s.len() ==> ascii_digit(s[m]),
    ensures
        digits_value(s) >= digits_value(s.subrange(0, k)),
    decreases s.len() - k,
{
    if k < s.len() {
        lemma_digits_value_grows(s, k + 1);
        assert(s.subrange(0, k + 1).drop_last() =~= s.subrange(0, k));
    } else {
        assert(s.subrange(0, k) =~= s);
    }
}

fn narrow(c: char) -> (r: char)
    ensures
        r == narrow_digit(c),
{
    if '０' <= c && c <= '９' {
        char_from_code((c as u32) - 0xFF10 + 0x30)
    } else {
        c
    }
}

/// An ASCII digit from its code.
fn char_from_code(code: u32) -> (r: char)
    requires
        0x30 <= code <= 0x39,
    ensures
        r == code as char,
{
    if code == 0x30 { '0' } else if code == 0x31 { '1' } else if code == 0x32 { '2' }
    else if code == 0x33 { '3' } else if code == 0x34 { '4' } else if code == 0x35 { '5' }
    else if code == 0x36 { '6' } else if code == 0x37 { '7' } else if code == 0x38 { '8' }
    else { '9' }
}

} // verus!
