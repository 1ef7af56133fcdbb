//! The executable parser and the document tree it builds.
//!
//! The parser walks a vector of lines with an explicit cursor; every
//! function is proved to move the cursor and to build its node exactly as
//! the grammar in [`crate::grammar`] defines.

use vstd::prelude::*;
use crate::grammar::{
    heading_at, lemma_parse_module_at, lemma_parse_submodule_at, lemma_parse_target_at,
    lemma_skip_code_at, lemma_skip_doc_at, parse_module_at, parse_modules_at, parse_submodule_at,
    parse_submodules_at, parse_target_at, parse_targets_at, parse_text, skip_code_at, skip_doc_at,
    ModuleV, SubmoduleV, TargetV,
};
use crate::lines::{
    find_char, is_char_run, is_doc, replace_underscores, split_to_lines, strip_doc, stripped,
    title_cased, upper_char,
};

verus! {

/// Advances the cursor past a run of code lines, to the next doc line or to
/// the end of input.
pub fn discard_non_doc(lines: &Vec<String>, pos: &mut usize)
    requires
        *old(pos) <= lines@.len(),
    ensures
        *final(pos) as int == skip_code_at(lines.deep_view(), *old(pos) as int),
{
    let ghost l = lines.deep_view();
    let n = lines.len();
    while *pos < n && !is_doc(lines[*pos].as_str())
        invariant
            *pos <= n == l.len(),
            l == lines.deep_view(),
            skip_code_at(l, *old(pos) as int) == skip_code_at(l, *pos as int),
        decreases n - *pos,
    {
        *pos += 1;
    }
}

/// Advances the cursor past a run of doc lines, to the next code line or to
/// the end of input.
pub fn discard_doc(lines: &Vec<String>, pos: &mut usize)
    requires
        *old(pos) <= lines@.len(),
    ensures
        *final(pos) as int == skip_doc_at(lines.deep_view(), *old(pos) as int),
{
    let ghost l = lines.deep_view();
    let n = lines.len();
    while *pos < n && is_doc(lines[*pos].as_str())
        invariant
            *pos <= n == l.len(),
            l == lines.deep_view(),
            skip_doc_at(l, *old(pos) as int) == skip_doc_at(l, *pos as int),
        decreases n - *pos,
    {
        *pos += 1;
    }
}

/// Parses a heading underlined with `u` at the cursor: the doc line found
/// after the code lines names it, and the next line must be a doc line whose
/// content is a non-empty run of `u` of the same length as the name. On a
/// match the whole doc block is consumed; otherwise only the leading code
/// lines are.
fn take_heading(lines: &Vec<String>, pos: &mut usize, u: char) -> (r: Option<String>)
    requires
        *old(pos) <= lines@.len(),
    ensures
        *final(pos) <= lines@.len(),
        ({
            let l = lines.deep_view();
            let a = skip_code_at(l, *old(pos) as int);
            match r {
                Some(name) => {
                    &&& heading_at(l, *old(pos) as int, u)
                    &&& name@ == stripped(l[a])
                    &&& *final(pos) as int == skip_doc_at(l, a)
                },
                None => {
                    &&& !heading_at(l, *old(pos) as int, u)
                    &&& *final(pos) as int == a
                },
            }
        }),
{
    let ghost l = lines.deep_view();
    let ghost i0 = *pos as int;
    proof {
        lemma_skip_code_at(l, i0);
    }
    discard_non_doc(lines, pos);
    let a = *pos;
    if a >= lines.len() || a + 1 >= lines.len() {
        return None;
    }
    let next = lines[a + 1].as_str();
    if !is_doc(next) {
        return None;
    }
    let ul = strip_doc(next);
    let name_s = strip_doc(lines[a].as_str());
    if !(is_char_run(ul, u) && ul.unicode_len() == name_s.unicode_len()) {
        return None;
    }
    let name = String::from_str(name_s);
    proof {
        lemma_skip_doc_at(l, a as int);
    }
    discard_doc(lines, pos);
    Some(name)
}

/// A documented command: a rule name and the text shown beside it.
#[derive(Debug)]
pub struct Target {
    pub name: String,
    pub summary: String,
}

impl View for Target {
    type V = TargetV;

    open spec fn view(&self) -> TargetV {
        TargetV { name: self.name@, summary: self.summary@ }
    }
}

impl DeepView for Target {
    type V = TargetV;

    open spec fn deep_view(&self) -> TargetV {
        self@
    }
}

impl Target {
    /// `s` with its first character ASCII-uppercased.
    pub fn title_case(s: &str) -> (r: String)
        ensures
            r@ == title_cased(s@),
    {
        let n = s.unicode_len();
        let mut out = String::new();
        if n == 0 {
            proof {
                assert(out@ =~= title_cased(s@));
            }
            return out;
        }
        out.push(upper_char(s.get_char(0)));
        out.append(s.substring_char(1, n));
        proof {
            assert(out@ =~= title_cased(s@));
        }
        out
    }

    /// Parses one target at the cursor, as the grammar's target production
    /// reads it; on failure the cursor still ends where that production
    /// leaves it.
    pub fn take_one(lines: &Vec<String>, pos: &mut usize) -> (r: Option<Target>)
        requires
            *old(pos) <= lines@.len(),
        ensures
            *final(pos) <= lines@.len(),
            ({
                let p = parse_target_at(lines.deep_view(), *old(pos) as int);
                &&& *final(pos) as int == p.1
                &&& (match r {
                    Some(t) => p.0 == Some(t@),
                    None => p.0 is None,
                })
            }),
    {
        let ghost l = lines.deep_view();
        let ghost i0 = *pos as int;
        proof {
            lemma_skip_code_at(l, i0);
        }
        discard_non_doc(lines, pos);
        let a = *pos;
        if a >= lines.len() {
            return None;
        }
        if a + 1 < lines.len() {
            let next = lines[a + 1].as_str();
            if is_doc(next) {
                let st = strip_doc(next);
                if is_char_run(st, '=') || is_char_run(st, '-') {
                    return None;
                }
            }
        }
        proof {
            lemma_skip_doc_at(l, a as int);
        }
        discard_doc(lines, pos);
        let b = *pos;
        if b >= lines.len() {
            return None;
        }
        let code = lines[b].as_str();
        let k = find_char(code, ':', 0);
        if k == 0 || k >= code.unicode_len() {
            return None;
        }
        let name = String::from_str(code.substring_char(0, k));
        proof {
            assert(name@ =~= l[b as int].take(k as int));
        }
        let raw = strip_doc(lines[a].as_str());
        let summary = if raw.unicode_len() == 1 && raw.get_char(0) == '_' {
            proof {
                assert(raw@ =~= seq!['_']);
            }
            replace_underscores(Self::title_case(name.as_str()).as_str())
        } else {
            proof {
                assert(raw@ != seq!['_']) by {
                    if raw@ == seq!['_'] {
                        assert(raw@.len() == 1 && raw@[0] == '_');
                    }
                }
            }
            String::from_str(raw)
        };
        Some(Target { name, summary })
    }

    /// Parses targets one after another until the production no longer
    /// matches.
    pub fn take_all(lines: &Vec<String>, pos: &mut usize) -> (r: Vec<Target>)
        requires
            *old(pos) <= lines@.len(),
        ensures
            *final(pos) <= lines@.len(),
            ({
                let p = parse_targets_at(lines.deep_view(), *old(pos) as int);
                &&& *final(pos) as int == p.1
                &&& r.deep_view() == p.0
            }),
    {
        let ghost l = lines.deep_view();
        let ghost i0 = *pos as int;
        let mut out: Vec<Target> = Vec::new();
        loop
            invariant_except_break
                parse_targets_at(l, i0).1 == parse_targets_at(l, *pos as int).1,
                parse_targets_at(l, i0).0 == out.deep_view() + parse_targets_at(
                    l,
                    *pos as int,
                ).0,
            invariant
                *pos <= l.len(),
                l == lines.deep_view(),
            ensures
                *pos <= l.len(),
                *pos as int == parse_targets_at(l, i0).1,
                out.deep_view() == parse_targets_at(l, i0).0,
            decreases l.len() - *pos as int,
        {
            let ghost i = *pos as int;
            let ghost out0 = out.deep_view();
            proof {
                lemma_parse_target_at(l, i);
            }
            let t = Self::take_one(lines, pos);
            match t {
                Some(x) => {
                    out.push(x);
                    proof {
                        assert(out.deep_view() =~= out0 + seq![x@]);
                        assert(parse_targets_at(l, i).0 =~= seq![x@] + parse_targets_at(
                            l,
                            *pos as int,
                        ).0);
                        assert(parse_targets_at(l, i0).0 =~= out.deep_view() + parse_targets_at(
                            l,
                            *pos as int,
                        ).0);
                    }
                },
                None => {
                    proof {
                        assert(parse_targets_at(l, i) == (Seq::<TargetV>::empty(), *pos as int));
                        assert(out.deep_view() =~= out.deep_view() + Seq::<TargetV>::empty());
                    }
                    break ;
                },
            }
        }
        out
    }
}

/// A second-level heading and the targets documented under it.
#[derive(Debug)]
pub struct Submodule {
    pub name: String,
    pub targets: Vec<Target>,
}

impl View for Submodule {
    type V = SubmoduleV;

    open spec fn view(&self) -> SubmoduleV {
        SubmoduleV { name: self.name@, targets: self.targets.deep_view() }
    }
}

impl DeepView for Submodule {
    type V = SubmoduleV;

    open spec fn deep_view(&self) -> SubmoduleV {
        self@
    }
}

impl Submodule {
    /// Parses one submodule at the cursor: a `-`-underlined heading and its
    /// targets.
    pub fn take_one(lines: &Vec<String>, pos: &mut usize) -> (r: Option<Submodule>)
        requires
            *old(pos) <= lines@.len(),
        ensures
            *final(pos) <= lines@.len(),
            ({
                let p = parse_submodule_at(lines.deep_view(), *old(pos) as int);
                &&& *final(pos) as int == p.1
                &&& (match r {
                    Some(s) => p.0 == Some(s@),
                    None => p.0 is None,
                })
            }),
    {
        let name = match take_heading(lines, pos, '-') {
            Some(n) => n,
            None => {
                return None;
            },
        };
        let targets = Target::take_all(lines, pos);
        Some(Submodule { name, targets })
    }

    /// Parses submodules one after another until the production no longer
    /// matches.
    pub fn take_all(lines: &Vec<String>, pos: &mut usize) -> (r: Vec<Submodule>)
        requires
            *old(pos) <= lines@.len(),
        ensures
            *final(pos) <= lines@.len(),
            ({
                let p = parse_submodules_at(lines.deep_view(), *old(pos) as int);
                &&& *final(pos) as int == p.1
                &&& r.deep_view() == p.0
            }),
    {
        let ghost l = lines.deep_view();
        let ghost i0 = *pos as int;
        let mut out: Vec<Submodule> = Vec::new();
        loop
            invariant_except_break
                parse_submodules_at(l, i0).1 == parse_submodules_at(l, *pos as int).1,
                parse_submodules_at(l, i0).0 == out.deep_view() + parse_submodules_at(
                    l,
                    *pos as int,
                ).0,
            invariant
                *pos <= l.len(),
                l == lines.deep_view(),
            ensures
                *pos <= l.len(),
                *pos as int == parse_submodules_at(l, i0).1,
                out.deep_view() == parse_submodules_at(l, i0).0,
            decreases l.len() - *pos as int,
        {
            let ghost i = *pos as int;
            let ghost out0 = out.deep_view();
            proof {
                lemma_parse_submodule_at(l, i);
            }
            let t = Self::take_one(lines, pos);
            match t {
                Some(x) => {
                    out.push(x);
                    proof {
                        assert(out.deep_view() =~= out0 + seq![x@]);
                        assert(parse_submodules_at(l, i).0 =~= seq![x@] + parse_submodules_at(
                            l,
                            *pos as int,
                        ).0);
                        assert(parse_submodules_at(l, i0).0 =~= out.deep_view()
                            + parse_submodules_at(l, *pos as int).0);
                    }
                },
                None => {
                    proof {
                        assert(parse_submodules_at(l, i) == (
                            Seq::<SubmoduleV>::empty(),
                            *pos as int,
                        ));
                        assert(out.deep_view() =~= out.deep_view() + Seq::<SubmoduleV>::empty());
                    }
                    break ;
                },
            }
        }
        out
    }
}

/// A top-level heading, the targets documented under it, and its
/// submodules.
#[derive(Debug)]
pub struct Module {
    pub name: String,
    pub targets: Vec<Target>,
    pub submodules: Vec<Submodule>,
}

impl View for Module {
    type V = ModuleV;

    open spec fn view(&self) -> ModuleV {
        ModuleV {
            name: self.name@,
            targets: self.targets.deep_view(),
            submodules: self.submodules.deep_view(),
        }
    }
}

impl DeepView for Module {
    type V = ModuleV;

    open spec fn deep_view(&self) -> ModuleV {
        self@
    }
}

impl Module {
    /// Parses one module at the cursor: an `=`-underlined heading, its
    /// targets, then its submodules.
    pub fn take_one(lines: &Vec<String>, pos: &mut usize) -> (r: Option<Module>)
        requires
            *old(pos) <= lines@.len(),
        ensures
            *final(pos) <= lines@.len(),
            ({
                let p = parse_module_at(lines.deep_view(), *old(pos) as int);
                &&& *final(pos) as int == p.1
                &&& (match r {
                    Some(m) => p.0 == Some(m@),
                    None => p.0 is None,
                })
            }),
    {
        let name = match take_heading(lines, pos, '=') {
            Some(n) => n,
            None => {
                return None;
            },
        };
        let targets = Target::take_all(lines, pos);
        let submodules = Submodule::take_all(lines, pos);
        Some(Module { name, targets, submodules })
    }

    /// Parses modules one after another until the production no longer
    /// matches.
    pub fn take_all(lines: &Vec<String>, pos: &mut usize) -> (r: Vec<Module>)
        requires
            *old(pos) <= lines@.len(),
        ensures
            *final(pos) <= lines@.len(),
            ({
                let p = parse_modules_at(lines.deep_view(), *old(pos) as int);
                &&& *final(pos) as int == p.1
                &&& r.deep_view() == p.0
            }),
    {
        let ghost l = lines.deep_view();
        let ghost i0 = *pos as int;
        let mut out: Vec<Module> = Vec::new();
        loop
            invariant_except_break
                parse_modules_at(l, i0).1 == parse_modules_at(l, *pos as int).1,
                parse_modules_at(l, i0).0 == out.deep_view() + parse_modules_at(
                    l,
                    *pos as int,
                ).0,
            invariant
                *pos <= l.len(),
                l == lines.deep_view(),
            ensures
                *pos <= l.len(),
                *pos as int == parse_modules_at(l, i0).1,
                out.deep_view() == parse_modules_at(l, i0).0,
            decreases l.len() - *pos as int,
        {
            let ghost i = *pos as int;
            let ghost out0 = out.deep_view();
            proof {
                lemma_parse_module_at(l, i);
            }
            let t = Self::take_one(lines, pos);
            match t {
                Some(x) => {
                    out.push(x);
                    proof {
                        assert(out.deep_view() =~= out0 + seq![x@]);
                        assert(parse_modules_at(l, i).0 =~= seq![x@] + parse_modules_at(
                            l,
                            *pos as int,
                        ).0);
                        assert(parse_modules_at(l, i0).0 =~= out.deep_view() + parse_modules_at(
                            l,
                            *pos as int,
                        ).0);
                    }
                },
                None => {
                    proof {
                        assert(parse_modules_at(l, i) == (Seq::<ModuleV>::empty(), *pos as int));
                        assert(out.deep_view() =~= out.deep_view() + Seq::<ModuleV>::empty());
                    }
                    break ;
                },
            }
        }
        out
    }
}

/// The parsed document: its modules, in the order the input gives them.
#[derive(Debug)]
pub struct Document {
    pub modules: Vec<Module>,
}

impl View for Document {
    type V = Seq<ModuleV>;

    open spec fn view(&self) -> Seq<ModuleV> {
        self.modules.deep_view()
    }
}

impl Document {
    /// Parses the whole input text into a document. Never fails: text with
    /// no recognizable headings gives a document with no modules.
    pub fn from_str(s: &str) -> (d: Document)
        ensures
            d@ == parse_text(s@),
    {
        let lines = split_to_lines(s);
        let mut pos: usize = 0;
        let modules = Module::take_all(&lines, &mut pos);
        Document { modules }
    }
}

} // verus!
