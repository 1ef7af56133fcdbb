//! The comment grammar: what sequence of lines makes up a module, a
//! submodule, or a target, and what tree a given input parses to.
//!
//! Every function here is a specification: the executable parser in
//! [`crate::doc`] is proved to return exactly what these functions define.
//! Each parse function takes the full line sequence together with a cursor
//! position and returns the parsed node (if the production matches there)
//! alongside the cursor position after it; a failed match still reports how
//! far the cursor moved, since skipped lines stay consumed.

use vstd::prelude::*;
use crate::lines::{
    find_at, is_doc_line, is_run, split_lines, stripped, title_cased, underscores_to_spaces,
};

verus! {

/// A documented command: its rule name and its human-readable summary.
pub ghost struct TargetV {
    pub name: Seq<char>,
    pub summary: Seq<char>,
}

/// A second-level heading (underlined with `-`) and the targets it owns.
pub ghost struct SubmoduleV {
    pub name: Seq<char>,
    pub targets: Seq<TargetV>,
}

/// A top-level heading (underlined with `=`), its own targets, and its
/// submodules.
pub ghost struct ModuleV {
    pub name: Seq<char>,
    pub targets: Seq<TargetV>,
    pub submodules: Seq<SubmoduleV>,
}

/// Position of the first doc line at or after `i`, or `lines.len()`: the
/// cursor after discarding a run of code lines.
pub open spec fn skip_code_at(lines: Seq<Seq<char>>, i: int) -> int
    decreases lines.len() - i,
{
    if i < 0 || i >= lines.len() {
        lines.len() as int
    } else if is_doc_line(lines[i]) {
        i
    } else {
        skip_code_at(lines, i + 1)
    }
}

/// Position of the first code line at or after `i`, or `lines.len()`: the
/// cursor after discarding a run of doc lines.
pub open spec fn skip_doc_at(lines: Seq<Seq<char>>, i: int) -> int
    decreases lines.len() - i,
{
    if i < 0 || i >= lines.len() {
        lines.len() as int
    } else if !is_doc_line(lines[i]) {
        i
    } else {
        skip_doc_at(lines, i + 1)
    }
}

pub proof fn lemma_skip_code_at(lines: Seq<Seq<char>>, i: int)
    requires
        0 <= i <= lines.len(),
    ensures
        i <= skip_code_at(lines, i) <= lines.len(),
        forall|k: int| i <= k < skip_code_at(lines, i) ==> !is_doc_line(lines[k]),
        skip_code_at(lines, i) < lines.len() ==> is_doc_line(lines[skip_code_at(lines, i)]),
    decreases lines.len() - i,
{
    if i < lines.len() && !is_doc_line(lines[i]) {
        lemma_skip_code_at(lines, i + 1);
    }
}

pub proof fn lemma_skip_doc_at(lines: Seq<Seq<char>>, i: int)
    requires
        0 <= i <= lines.len(),
    ensures
        i <= skip_doc_at(lines, i) <= lines.len(),
        forall|k: int| i <= k < skip_doc_at(lines, i) ==> is_doc_line(lines[k]),
        skip_doc_at(lines, i) < lines.len() ==> !is_doc_line(lines[skip_doc_at(lines, i)]),
    decreases lines.len() - i,
{
    if i < lines.len() && is_doc_line(lines[i]) {
        lemma_skip_doc_at(lines, i + 1);
    }
}

/// The summary synthesized from a target name when its doc line is the
/// marker `"_"`: the name, title-cased, underscores turned into spaces.
pub open spec fn synthesized_summary(name: Seq<char>) -> Seq<char> {
    underscores_to_spaces(title_cased(name))
}

/// Whether a line reads as the underline of some heading: a doc line whose
/// content is a non-empty run of `=` or of `-`.
pub open spec fn looks_like_underline(l: Seq<char>) -> bool {
    is_doc_line(l) && (is_run(stripped(l), '=') || is_run(stripped(l), '-'))
}

/// Whether a heading with underline character `u` starts at the first doc
/// line at or after `i`: that doc line names it, and the next line is a doc
/// line whose content is a non-empty run of `u` of the same length as the
/// name.
pub open spec fn heading_at(lines: Seq<Seq<char>>, i: int, u: char) -> bool {
    let a = skip_code_at(lines, i);
    a + 1 < lines.len() && is_doc_line(lines[a + 1]) && is_run(stripped(lines[a + 1]), u)
        && stripped(lines[a + 1]).len() == stripped(lines[a]).len()
}

/// One target at cursor `i`: skip code lines; the doc line found is the
/// summary, unless the line after it is a heading underline (then nothing
/// matches and nothing more is consumed); all consecutive doc lines are then
/// discarded, and the following line must contain `:` with a non-empty name
/// before it. On failure past the summary, the discarded doc lines stay
/// consumed.
pub open spec fn parse_target_at(lines: Seq<Seq<char>>, i: int) -> (Option<TargetV>, int) {
    let a = skip_code_at(lines, i);
    if a >= lines.len() {
        (None::<TargetV>, a)
    } else if a + 1 < lines.len() && looks_like_underline(lines[a + 1]) {
        (None::<TargetV>, a)
    } else {
        let b = skip_doc_at(lines, a);
        if b >= lines.len() {
            (None::<TargetV>, b)
        } else {
            let k = find_at(lines[b], ':', 0);
            if 0 < k < lines[b].len() {
                let name = lines[b].take(k);
                let raw = stripped(lines[a]);
                let summary = if raw == seq!['_'] {
                    synthesized_summary(name)
                } else {
                    raw
                };
                (Some(TargetV { name, summary }), b)
            } else {
                (None::<TargetV>, b)
            }
        }
    }
}

pub proof fn lemma_parse_target_at(lines: Seq<Seq<char>>, i: int)
    requires
        0 <= i <= lines.len(),
    ensures
        i <= parse_target_at(lines, i).1 <= lines.len(),
        parse_target_at(lines, i).0 is Some ==> i < parse_target_at(lines, i).1,
{
    lemma_skip_code_at(lines, i);
    let a = skip_code_at(lines, i);
    if a < lines.len() {
        lemma_skip_doc_at(lines, a);
    }
}

/// The longest sequence of targets parsed one after another from cursor `i`.
pub open spec fn parse_targets_at(lines: Seq<Seq<char>>, i: int) -> (Seq<TargetV>, int)
    decreases lines.len() - i,
{
    let r = parse_target_at(lines, i);
    match r.0 {
        Some(t) => {
            if i < r.1 <= lines.len() {
                let rest = parse_targets_at(lines, r.1);
                (seq![t] + rest.0, rest.1)
            } else {
                (seq![t], r.1)
            }
        },
        None => (Seq::empty(), r.1),
    }
}

pub proof fn lemma_parse_targets_at(lines: Seq<Seq<char>>, i: int)
    requires
        0 <= i <= lines.len(),
    ensures
        i <= parse_targets_at(lines, i).1 <= lines.len(),
    decreases lines.len() - i,
{
    lemma_parse_target_at(lines, i);
    let r = parse_target_at(lines, i);
    if r.0 is Some {
        lemma_parse_targets_at(lines, r.1);
    }
}

/// One submodule at cursor `i`: a `-`-underlined heading, the rest of its
/// doc block discarded, then its targets.
pub open spec fn parse_submodule_at(lines: Seq<Seq<char>>, i: int) -> (Option<SubmoduleV>, int) {
    let a = skip_code_at(lines, i);
    if heading_at(lines, i, '-') {
        let b = skip_doc_at(lines, a);
        let ts = parse_targets_at(lines, b);
        (Some(SubmoduleV { name: stripped(lines[a]), targets: ts.0 }), ts.1)
    } else {
        (None::<SubmoduleV>, a)
    }
}

pub proof fn lemma_parse_submodule_at(lines: Seq<Seq<char>>, i: int)
    requires
        0 <= i <= lines.len(),
    ensures
        i <= parse_submodule_at(lines, i).1 <= lines.len(),
        parse_submodule_at(lines, i).0 is Some ==> i < parse_submodule_at(lines, i).1,
{
    lemma_skip_code_at(lines, i);
    let a = skip_code_at(lines, i);
    if heading_at(lines, i, '-') {
        lemma_skip_doc_at(lines, a);
        lemma_parse_targets_at(lines, skip_doc_at(lines, a));
    }
}

/// The longest sequence of submodules parsed one after another from cursor
/// `i`.
pub open spec fn parse_submodules_at(lines: Seq<Seq<char>>, i: int) -> (Seq<SubmoduleV>, int)
    decreases lines.len() - i,
{
    let r = parse_submodule_at(lines, i);
    match r.0 {
        Some(s) => {
            if i < r.1 <= lines.len() {
                let rest = parse_submodules_at(lines, r.1);
                (seq![s] + rest.0, rest.1)
            } else {
                (seq![s], r.1)
            }
        },
        None => (Seq::empty(), r.1),
    }
}

pub proof fn lemma_parse_submodules_at(lines: Seq<Seq<char>>, i: int)
    requires
        0 <= i <= lines.len(),
    ensures
        i <= parse_submodules_at(lines, i).1 <= lines.len(),
    decreases lines.len() - i,
{
    lemma_parse_submodule_at(lines, i);
    let r = parse_submodule_at(lines, i);
    if r.0 is Some {
        lemma_parse_submodules_at(lines, r.1);
    }
}

/// One module at cursor `i`: an `=`-underlined heading, the rest of its doc
/// block discarded, then its targets, then its submodules.
pub open spec fn parse_module_at(lines: Seq<Seq<char>>, i: int) -> (Option<ModuleV>, int) {
    let a = skip_code_at(lines, i);
    if heading_at(lines, i, '=') {
        let b = skip_doc_at(lines, a);
        let ts = parse_targets_at(lines, b);
        let ss = parse_submodules_at(lines, ts.1);
        (Some(ModuleV { name: stripped(lines[a]), targets: ts.0, submodules: ss.0 }), ss.1)
    } else {
        (None::<ModuleV>, a)
    }
}

pub proof fn lemma_parse_module_at(lines: Seq<Seq<char>>, i: int)
    requires
        0 <= i <= lines.len(),
    ensures
        i <= parse_module_at(lines, i).1 <= lines.len(),
        parse_module_at(lines, i).0 is Some ==> i < parse_module_at(lines, i).1,
{
    lemma_skip_code_at(lines, i);
    let a = skip_code_at(lines, i);
    if heading_at(lines, i, '=') {
        lemma_skip_doc_at(lines, a);
        let b = skip_doc_at(lines, a);
        lemma_parse_targets_at(lines, b);
        lemma_parse_submodules_at(lines, parse_targets_at(lines, b).1);
    }
}

/// The longest sequence of modules parsed one after another from cursor `i`.
pub open spec fn parse_modules_at(lines: Seq<Seq<char>>, i: int) -> (Seq<ModuleV>, int)
    decreases lines.len() - i,
{
    let r = parse_module_at(lines, i);
    match r.0 {
        Some(m) => {
            if i < r.1 <= lines.len() {
                let rest = parse_modules_at(lines, r.1);
                (seq![m] + rest.0, rest.1)
            } else {
                (seq![m], r.1)
            }
        },
        None => (Seq::empty(), r.1),
    }
}

/// The document tree of a line sequence: all modules parsed from the start.
pub open spec fn parse_document(lines: Seq<Seq<char>>) -> Seq<ModuleV> {
    parse_modules_at(lines, 0).0
}

/// The document tree of a whole input text.
pub open spec fn parse_text(s: Seq<char>) -> Seq<ModuleV> {
    parse_document(split_lines(s))
}

} // verus!
