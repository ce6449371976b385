use vstd::prelude::*;

use crate::text::{chars_of, contains, contains_exec, starts_with_char, trim, trim_chars};

verus! {

/// What a source line is, as the scan sees it.
pub enum LineKind {
    /// A comment, label or directive, or a line inside a script block.
    Skip,
    /// The line opens a script block.
    EnterScriptBlock,
    /// The line closes a script block.
    ExitScriptBlock,
    /// Text to display: the line without surrounding white space.
    Displayable(Vec<char>),
}

/// The model of a `LineKind`.
pub enum LineClass {
    Skip,
    EnterScriptBlock,
    ExitScriptBlock,
    Displayable(Seq<char>),
}

impl View for LineKind {
    type V = LineClass;

    open spec fn view(&self) -> LineClass {
        match self {
            LineKind::Skip => LineClass::Skip,
            LineKind::EnterScriptBlock => LineClass::EnterScriptBlock,
            LineKind::ExitScriptBlock => LineClass::ExitScriptBlock,
            LineKind::Displayable(t) => LineClass::Displayable(t@),
        }
    }
}

/// A comment (`;`), label (`*`) or directive (`#`) line, once trimmed.
pub open spec fn is_marked(t: Seq<char>) -> bool {
    t.len() > 0 && (t[0] == ';' || t[0] == '*' || t[0] == '#')
}

/// The kind of `line` when the scan is inside a script block or not.
pub open spec fn line_class(line: Seq<char>, in_script: bool) -> LineClass {
    let t = trim(line);
    if is_marked(t) {
        LineClass::Skip
    } else if contains(t, "[iscript]"@) {
        LineClass::EnterScriptBlock
    } else if in_script {
        if contains(t, "[endscript]"@) {
            LineClass::ExitScriptBlock
        } else {
            LineClass::Skip
        }
    } else {
        LineClass::Displayable(t)
    }
}

/// Classifies one source line.
pub fn classify_line(line: &str, in_script: bool) -> (r: LineKind)
    ensures
        r@ == line_class(line@, in_script),
{
    let raw = chars_of(line);
    let t = trim_chars(&raw);
    if starts_with_char(&t, ';') || starts_with_char(&t, '*') || starts_with_char(&t, '#') {
        return LineKind::Skip;
    }
    let open_marker = chars_of("[iscript]");
    if contains_exec(&t, &open_marker) {
        return LineKind::EnterScriptBlock;
    }
    if in_script {
        let close_marker = chars_of("[endscript]");
        if contains_exec(&t, &close_marker) {
            return LineKind::ExitScriptBlock;
        }
        return LineKind::Skip;
    }
    LineKind::Displayable(t)
}

} // verus!
