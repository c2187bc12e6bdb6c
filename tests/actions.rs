use aozora_parser::actions::{script_insert_text, script_ruby_wrap, script_wrap_selection};

#[test]
fn insert_script_quotes_text() {
    let s = script_insert_text("say \"a\"\nb");
    assert!(s.contains("document.execCommand('insertText', false, \"say \\\"a\\\"\\nb\");"));
    assert!(s.starts_with("\n        const editor = document.getElementById('rich_editor');"));
}

#[test]
fn wrap_script_keeps_or_drops_selection() {
    let keep = script_wrap_selection("［＃", "］", true);
    assert!(keep.contains("const replacement = text + \"［＃\" + text + \"］\";"));
    let drop = script_wrap_selection("<", ">", false);
    assert!(drop.contains("const replacement = \"\" + \"<\" + text + \">\";"));
}

#[test]
fn ruby_wrap_script_inserts_brackets() {
    let s = script_ruby_wrap();
    assert!(s.contains("const replacement = text + \"《》\";"));
    assert!(s.contains("newRange.setStart(newRange.endContainer, newRange.endOffset - 1);"));
}
