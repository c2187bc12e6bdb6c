//! Scripts that the rich editor runs to insert or wrap text.
use vstd::prelude::*;

use crate::text::{chars_of, push_char, push_str};

verus! {

/// Script text before the inserted string.
pub const INSERT_HEAD: &'static str = "\n        const editor = document.getElementById('rich_editor');\n        if (editor) {\n            editor.focus();\n            document.execCommand('insertText', false, \"";
/// Script text after the inserted string.
pub const INSERT_TAIL: &'static str = "\");\n        }\n    ";
/// Script text before the expression that keeps or drops the selection.
pub const WRAP_HEAD: &'static str = "\n        const editor = document.getElementById('rich_editor');\n        if (editor) {\n            editor.focus();\n            const selection = window.getSelection();\n            if (selection.rangeCount > 0) {\n                const range = selection.getRangeAt(0);\n                const text = range.toString();\n                const replacement = ";
/// Script text between that expression and the prefix.
pub const WRAP_BEFORE_PREFIX: &'static str = " + \"";
/// Script text between the prefix and the suffix.
pub const WRAP_BETWEEN: &'static str = "\" + text + \"";
/// Script text after the suffix.
pub const WRAP_TAIL: &'static str = "\";\n                document.execCommand('insertText', false, replacement);\n            }\n        }\n    ";
/// The script that wraps the selection in 《》 and puts the cursor between them.
pub const RUBY_WRAP: &'static str = "\n        const editor = document.getElementById('rich_editor');\n        if (editor) {\n            editor.focus();\n            const selection = window.getSelection();\n            if (selection.rangeCount > 0) {\n                const range = selection.getRangeAt(0);\n                const text = range.toString();\n                const replacement = text + \"《》\";\n                document.execCommand('insertText', false, replacement);\n                \n                // Move cursor between 《 and 》\n                const newSelection = window.getSelection();\n                if (newSelection.rangeCount > 0) {\n                    const newRange = newSelection.getRangeAt(0);\n                    newRange.setStart(newRange.endContainer, newRange.endOffset - 1);\n                    newRange.collapse(true);\n                    newSelection.removeAllRanges();\n                    newSelection.addRange(newRange);\n                }\n            }\n        }\n    ";

/// A string made safe inside a double-quoted script literal: `"` becomes `\"` and a
/// newline becomes `\n`.
pub open spec fn js_quoted(s: Seq<char>) -> Seq<char>
    decreases s.len(),
{
    if s.len() == 0 {
        Seq::empty()
    } else {
        js_quoted(s.drop_last()) + if s.last() == '"' {
            seq!['\\', '"']
        } else if s.last() == '\n' {
            seq!['\\', 'n']
        } else {
            seq![s.last()]
        }
    }
}

/// Script that inserts `text` at the cursor of the rich editor, undoably.
pub fn script_insert_text(text: &str) -> (r: String)
    ensures
        r@ == INSERT_HEAD@ + js_quoted(text@) + INSERT_TAIL@,
{
    let cs = chars_of(text);
    let mut r = INSERT_HEAD.to_owned();
    let mut i: usize = 0;
    while i < cs.len()
        invariant
            cs@ == text@,
            i <= cs@.len(),
            r@ == INSERT_HEAD@ + js_quoted(cs@.take(i as int)),
        decreases cs@.len() - i,
    {
        let c = cs[i];
        if c == '"' {
            push_char(&mut r, '\\');
            push_char(&mut r, '"');
        } else if c == '\n' {
            push_char(&mut r, '\\');
            push_char(&mut r, 'n');
        } else {
            push_char(&mut r, c);
        }
        assert(cs@.take(i + 1).drop_last() =~= cs@.take(i as int));
        assert(r@ =~= INSERT_HEAD@ + js_quoted(cs@.take(i + 1)));
        i += 1;
    }
    assert(cs@.take(i as int) =~= cs@);
    push_str(&mut r, INSERT_TAIL);
    r
}

/// Script that replaces the selection with `prefix`, the selection (or nothing when
/// `keep_original` is false) and `suffix`.
pub fn script_wrap_selection(prefix: &str, suffix: &str, keep_original: bool) -> (r: String)
    ensures
        r@ == WRAP_HEAD@ + (if keep_original { "text"@ } else { "\"\""@ }) + WRAP_BEFORE_PREFIX@ + prefix@
            + WRAP_BETWEEN@ + suffix@ + WRAP_TAIL@,
{
    let mut r = WRAP_HEAD.to_owned();
    if keep_original {
        push_str(&mut r, "text");
    } else {
        push_str(&mut r, "\"\"");
    }
    push_str(&mut r, WRAP_BEFORE_PREFIX);
    push_str(&mut r, prefix);
    push_str(&mut r, WRAP_BETWEEN);
    push_str(&mut r, suffix);
    push_str(&mut r, WRAP_TAIL);
    r
}

/// Script that wraps the selection in 《》 and places the cursor between them.
pub fn script_ruby_wrap() -> (r: String)
    ensures
        r@ == RUBY_WRAP@,
{
    RUBY_WRAP.to_owned()
}

} // verus!
