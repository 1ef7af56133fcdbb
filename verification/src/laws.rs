//! Properties of the parser and renderer that hold for every input, stated
//! and proved once and for all.

use vstd::prelude::*;
use crate::grammar::{
    heading_at, lemma_skip_code_at, parse_document, parse_module_at, parse_modules_at,
    parse_submodule_at, parse_submodules_at, parse_target_at, parse_targets_at, skip_code_at,
    skip_doc_at, ModuleV, SubmoduleV, TargetV,
};
use crate::lines::{find_at, is_doc_line, is_run, lemma_find_at, stripped};
use crate::render::{
    block, max_name_len, render_doc, render_mods, render_subs, sep, spaces, subs_emit,
    target_line, target_lines,
};

verus! {

/// Input with no doc line at all parses to a document with no modules, and
/// such a document renders to the empty string.
pub proof fn law_unrecognized_input(lines: Seq<Seq<char>>)
    requires
        forall|k: int| 0 <= k < lines.len() ==> !is_doc_line(lines[k]),
    ensures
        parse_document(lines) == Seq::<ModuleV>::empty(),
        render_doc(parse_document(lines)) == Seq::<char>::empty(),
{
    lemma_skip_code_at(lines, 0);
    assert(skip_code_at(lines, 0) == lines.len());
    assert(!heading_at(lines, 0, '='));
    assert(parse_module_at(lines, 0) == (None::<ModuleV>, lines.len() as int));
    assert(parse_modules_at(lines, 0).0 =~= Seq::<ModuleV>::empty());
    assert(render_mods(Seq::<ModuleV>::empty(), true) =~= Seq::<char>::empty());
}

/// The `"## "` prefix of a doc line.
pub open spec fn doc_prefix() -> Seq<char> {
    seq!['#', '#', ' ']
}

/// Round trip for a well-formed block: a length-matched module heading, a
/// separating code line, a summary doc line, and a rule line parse to
/// exactly one module with exactly that one target, and render to the
/// heading, a colon, and the single aligned target line.
pub proof fn law_round_trip(
    name_h: Seq<char>,
    underline: Seq<char>,
    between: Seq<char>,
    summary: Seq<char>,
    name_t: Seq<char>,
    rest: Seq<char>,
)
    requires
        name_h.len() > 0,
        is_run(underline, '='),
        underline.len() == name_h.len(),
        !is_doc_line(between),
        summary != seq!['_'],
        name_t.len() > 0,
        name_t[0] != '#',
        forall|k: int| 0 <= k < name_t.len() ==> name_t[k] != ':',
    ensures
        ({
            let lines = seq![
                doc_prefix() + name_h,
                doc_prefix() + underline,
                between,
                doc_prefix() + summary,
                name_t + seq![':'] + rest,
            ];
            let target = TargetV { name: name_t, summary: summary };
            let module = ModuleV {
                name: name_h,
                targets: seq![target],
                submodules: Seq::<SubmoduleV>::empty(),
            };
            &&& parse_document(lines) == seq![module]
            &&& render_doc(parse_document(lines)) == name_h + seq![':', '\n'] + seq![' '] + name_t
                + seq![':', ' '] + summary + seq!['\n']
        }),
{
    let lines = seq![
        doc_prefix() + name_h,
        doc_prefix() + underline,
        between,
        doc_prefix() + summary,
        name_t + seq![':'] + rest,
    ];
    let tline = name_t + seq![':'] + rest;
    let target = TargetV { name: name_t, summary: summary };
    let module = ModuleV {
        name: name_h,
        targets: seq![target],
        submodules: Seq::<SubmoduleV>::empty(),
    };

    // The three doc lines are doc lines; the other two are not.
    assert(is_doc_line(lines[0]) && is_doc_line(lines[1]) && is_doc_line(lines[3]));
    assert(stripped(lines[0]) =~= name_h);
    assert(stripped(lines[1]) =~= underline);
    assert(stripped(lines[3]) =~= summary);
    assert(!is_doc_line(lines[4])) by {
        assert(tline[0] == name_t[0]);
        assert(tline.len() == 2 ==> tline[0] != '#' || tline[1] != '#');
    }

    // The heading matches at the start.
    assert(skip_code_at(lines, 0) == 0);
    assert(heading_at(lines, 0, '='));

    // The heading's doc block ends at the separating code line.
    assert(skip_doc_at(lines, 2) == 2);
    assert(skip_doc_at(lines, 1) == 2);
    assert(skip_doc_at(lines, 0) == 2);

    // The target production matches at the summary line.
    assert(skip_code_at(lines, 5) == 5);
    assert(skip_code_at(lines, 4) == 5);
    assert(skip_code_at(lines, 3) == 3);
    assert(skip_code_at(lines, 2) == 3);
    assert(skip_doc_at(lines, 4) == 4);
    assert(skip_doc_at(lines, 3) == 4);
    assert(find_at(tline, ':', 0) == name_t.len()) by {
        lemma_find_at(tline, ':', 0);
        let f = find_at(tline, ':', 0);
        assert(tline[name_t.len() as int] == ':');
        assert(forall|k: int| 0 <= k < name_t.len() ==> tline[k] == name_t[k]);
        if f < name_t.len() {
            assert(tline[f] == ':');
        }
    }
    assert(tline.take(name_t.len() as int) =~= name_t);
    assert(parse_target_at(lines, 2) == (Some(target), 4int));

    // Nothing more follows: no second target, no submodule, no module.
    assert(parse_target_at(lines, 4) == (None::<TargetV>, 5int));
    assert(parse_targets_at(lines, 4) == (Seq::<TargetV>::empty(), 5int));
    assert(parse_targets_at(lines, 2).0 =~= seq![target]);
    assert(parse_targets_at(lines, 2).1 == 5);
    assert(!heading_at(lines, 5, '-'));
    assert(parse_submodule_at(lines, 5) == (None::<SubmoduleV>, 5int));
    assert(parse_submodules_at(lines, 5) == (Seq::<SubmoduleV>::empty(), 5int));
    assert(parse_module_at(lines, 0).0 == Some(module));
    assert(parse_module_at(lines, 0).1 == 5);
    assert(!heading_at(lines, 5, '='));
    assert(parse_module_at(lines, 5) == (None::<ModuleV>, 5int));
    assert(parse_modules_at(lines, 5) == (Seq::<ModuleV>::empty(), 5int));
    assert(parse_modules_at(lines, 0).0 =~= seq![module]);

    // Rendering the one module: one block, one line, one space of padding.
    assert(max_name_len(seq![target]) == name_t.len()) by {
        assert(max_name_len(Seq::<TargetV>::empty()) == 0);
        assert(seq![target].drop_last() =~= Seq::<TargetV>::empty());
        assert(seq![target].last() == target);
    }
    assert(target_lines(seq![target], name_t.len() as int) =~= target_line(
        target,
        name_t.len() as int,
    )) by {
        assert(seq![target].drop_last() =~= Seq::<TargetV>::empty());
        assert(target_lines(Seq::<TargetV>::empty(), name_t.len() as int) =~= Seq::<
            char,
        >::empty());
    }
    assert(spaces(1) =~= seq![' ']);
    assert(render_subs(Seq::<SubmoduleV>::empty(), false) =~= Seq::<char>::empty());
    assert(render_mods(seq![module].drop_first(), false) =~= Seq::<char>::empty()) by {
        assert(seq![module].drop_first() =~= Seq::<ModuleV>::empty());
    }
    assert(render_doc(seq![module]) =~= name_h + seq![':', '\n'] + seq![' '] + name_t + seq![
        ':',
        ' ',
    ] + summary + seq!['\n']);
}

/// A module with no targets and no submodules changes nothing in the
/// rendered output: removing it renders the same text.
pub proof fn law_empty_module_omitted(ms: Seq<ModuleV>, i: int)
    requires
        0 <= i < ms.len(),
        ms[i].targets.len() == 0,
        ms[i].submodules.len() == 0,
    ensures
        render_doc(ms.remove(i)) == render_doc(ms),
{
    lemma_remove_empty_module(ms, i, true);
}

proof fn lemma_remove_empty_module(ms: Seq<ModuleV>, i: int, first: bool)
    requires
        0 <= i < ms.len(),
        ms[i].targets.len() == 0,
        ms[i].submodules.len() == 0,
    ensures
        render_mods(ms.remove(i), first) == render_mods(ms, first),
    decreases ms.len(),
{
    if i == 0 {
        assert(!subs_emit(ms[0].submodules));
        assert(render_subs(ms[0].submodules, first) =~= Seq::<char>::empty());
        assert(render_mods(ms, first) =~= render_mods(ms.drop_first(), first));
        assert(ms.remove(0) =~= ms.drop_first());
    } else {
        let m = ms[0];
        let f1 = first && m.targets.len() == 0;
        let f2 = f1 && !subs_emit(m.submodules);
        lemma_remove_empty_module(ms.drop_first(), i - 1, f2);
        assert(ms.remove(i)[0] == m);
        assert(ms.remove(i).drop_first() =~= ms.drop_first().remove(i - 1));
    }
}

/// One rendered block: the name of a module or submodule together with its
/// targets.
pub ghost struct BlockV {
    pub name: Seq<char>,
    pub targets: Seq<TargetV>,
}

/// The blocks a module's submodules contribute, in their own order.
pub open spec fn sub_blocks(ss: Seq<SubmoduleV>) -> Seq<BlockV>
    decreases ss.len(),
{
    if ss.len() == 0 {
        Seq::empty()
    } else {
        (if ss[0].targets.len() > 0 {
            seq![BlockV { name: ss[0].name, targets: ss[0].targets }]
        } else {
            Seq::empty()
        }) + sub_blocks(ss.drop_first())
    }
}

/// All blocks of a document, in document order: for each module its own
/// block (if it has targets), then its submodules' blocks.
pub open spec fn doc_blocks(ms: Seq<ModuleV>) -> Seq<BlockV>
    decreases ms.len(),
{
    if ms.len() == 0 {
        Seq::empty()
    } else {
        (if ms[0].targets.len() > 0 {
            seq![BlockV { name: ms[0].name, targets: ms[0].targets }]
        } else {
            Seq::empty()
        }) + sub_blocks(ms[0].submodules) + doc_blocks(ms.drop_first())
    }
}

/// The blocks laid out one after another, a blank line before each except
/// the first of the whole output.
pub open spec fn join_blocks(bs: Seq<BlockV>, first: bool) -> Seq<char>
    decreases bs.len(),
{
    if bs.len() == 0 {
        Seq::empty()
    } else {
        sep(first) + block(bs[0].name, bs[0].targets) + join_blocks(bs.drop_first(), false)
    }
}

proof fn lemma_join_blocks_concat(a: Seq<BlockV>, b: Seq<BlockV>, first: bool)
    ensures
        join_blocks(a + b, first) == join_blocks(a, first) + join_blocks(
            b,
            first && a.len() == 0,
        ),
    decreases a.len(),
{
    if a.len() == 0 {
        assert(a + b =~= b);
        assert(join_blocks(a, first) + join_blocks(b, first) =~= join_blocks(b, first));
    } else {
        lemma_join_blocks_concat(a.drop_first(), b, false);
        assert((a + b)[0] == a[0]);
        assert((a + b).drop_first() =~= a.drop_first() + b);
        assert(join_blocks(a + b, first) =~= join_blocks(a, first) + join_blocks(b, false));
    }
}

proof fn lemma_sub_blocks_emit(ss: Seq<SubmoduleV>)
    ensures
        (sub_blocks(ss).len() == 0) == !subs_emit(ss),
    decreases ss.len(),
{
    if ss.len() > 0 {
        lemma_sub_blocks_emit(ss.drop_first());
        if subs_emit(ss) && ss[0].targets.len() == 0 {
            let k = choose|k: int| 0 <= k < ss.len() && ss[k].targets.len() > 0;
            assert(ss.drop_first()[k - 1].targets.len() > 0);
        }
        if subs_emit(ss.drop_first()) {
            let k = choose|k: int|
                0 <= k < ss.drop_first().len() && ss.drop_first()[k].targets.len() > 0;
            assert(ss[k + 1].targets.len() > 0);
        }
    }
}

proof fn lemma_render_subs_blocks(ss: Seq<SubmoduleV>, first: bool)
    ensures
        render_subs(ss, first) == join_blocks(sub_blocks(ss), first),
    decreases ss.len(),
{
    if ss.len() > 0 {
        if ss[0].targets.len() > 0 {
            lemma_render_subs_blocks(ss.drop_first(), false);
            let b0 = BlockV { name: ss[0].name, targets: ss[0].targets };
            assert((seq![b0] + sub_blocks(ss.drop_first()))[0] == b0);
            assert((seq![b0] + sub_blocks(ss.drop_first())).drop_first() =~= sub_blocks(
                ss.drop_first(),
            ));
            assert(render_subs(ss, first) =~= join_blocks(sub_blocks(ss), first));
        } else {
            lemma_render_subs_blocks(ss.drop_first(), first);
            assert(sub_blocks(ss) =~= sub_blocks(ss.drop_first()));
        }
    }
}

proof fn lemma_render_mods_blocks(ms: Seq<ModuleV>, first: bool)
    ensures
        render_mods(ms, first) == join_blocks(doc_blocks(ms), first),
    decreases ms.len(),
{
    if ms.len() > 0 {
        let m = ms[0];
        let mb = if m.targets.len() > 0 {
            seq![BlockV { name: m.name, targets: m.targets }]
        } else {
            Seq::<BlockV>::empty()
        };
        let sb = sub_blocks(m.submodules);
        let rb = doc_blocks(ms.drop_first());
        let f1 = first && m.targets.len() == 0;
        let f2 = f1 && !subs_emit(m.submodules);
        lemma_render_mods_blocks(ms.drop_first(), f2);
        lemma_render_subs_blocks(m.submodules, f1);
        lemma_sub_blocks_emit(m.submodules);
        lemma_join_blocks_concat(mb, sb + rb, first);
        lemma_join_blocks_concat(sb, rb, f1);
        assert(doc_blocks(ms) == mb + sb + rb);
        assert(mb + sb + rb =~= mb + (sb + rb));
        assert((first && mb.len() == 0) == f1);
        assert((f1 && sb.len() == 0) == f2);
        if m.targets.len() > 0 {
            assert(mb.drop_first() =~= Seq::<BlockV>::empty());
            assert(join_blocks(Seq::<BlockV>::empty(), false) =~= Seq::<char>::empty());
            assert(mb[0] == BlockV { name: m.name, targets: m.targets });
            assert(join_blocks(mb, first) =~= sep(first) + block(m.name, m.targets));
        } else {
            assert(join_blocks(mb, first) =~= Seq::<char>::empty());
        }
        assert(render_mods(ms, first) =~= join_blocks(mb, first) + join_blocks(sb, f1)
            + join_blocks(rb, f2));
    }
}

/// Ordering is preserved: the rendered text is exactly the blocks of the
/// document — modules, their submodules, and their targets, in the order
/// the source gives them — laid out one after another with a blank line
/// between consecutive blocks.
pub proof fn law_ordering(ms: Seq<ModuleV>)
    ensures
        render_doc(ms) == join_blocks(doc_blocks(ms), true),
{
    lemma_render_mods_blocks(ms, true);
}

/// A target name is non-empty.
pub open spec fn wf_target(t: TargetV) -> bool {
    t.name.len() > 0
}

/// A submodule has a non-empty name and well-formed targets.
pub open spec fn wf_submodule(s: SubmoduleV) -> bool {
    s.name.len() > 0 && forall|k: int| 0 <= k < s.targets.len() ==> wf_target(#[trigger] s.targets[k])
}

/// A module has a non-empty name, well-formed targets, and well-formed
/// submodules.
pub open spec fn wf_module(m: ModuleV) -> bool {
    &&& m.name.len() > 0
    &&& forall|k: int| 0 <= k < m.targets.len() ==> wf_target(#[trigger] m.targets[k])
    &&& forall|k: int| 0 <= k < m.submodules.len() ==> wf_submodule(#[trigger] m.submodules[k])
}

proof fn lemma_parse_target_wf(lines: Seq<Seq<char>>, i: int)
    ensures
        parse_target_at(lines, i).0 matches Some(t) ==> wf_target(t),
{
}

proof fn lemma_parse_targets_wf(lines: Seq<Seq<char>>, i: int)
    ensures
        forall|k: int|
            0 <= k < parse_targets_at(lines, i).0.len() ==> wf_target(
                #[trigger] parse_targets_at(lines, i).0[k],
            ),
    decreases lines.len() - i,
{
    lemma_parse_target_wf(lines, i);
    let r = parse_target_at(lines, i);
    if r.0 is Some && i < r.1 <= lines.len() {
        lemma_parse_targets_wf(lines, r.1);
        let s = parse_targets_at(lines, i).0;
        let rest = parse_targets_at(lines, r.1).0;
        assert forall|k: int| 0 <= k < s.len() implies wf_target(#[trigger] s[k]) by {
            if k == 0 {
                assert(s[k] == r.0.unwrap());
            } else {
                assert(s[k] == rest[k - 1]);
            }
        }
    }
}

proof fn lemma_heading_name_nonempty(lines: Seq<Seq<char>>, i: int, u: char)
    requires
        heading_at(lines, i, u),
    ensures
        stripped(lines[skip_code_at(lines, i)]).len() > 0,
{
}

proof fn lemma_parse_submodule_wf(lines: Seq<Seq<char>>, i: int)
    ensures
        parse_submodule_at(lines, i).0 matches Some(s) ==> wf_submodule(s),
{
    if heading_at(lines, i, '-') {
        lemma_heading_name_nonempty(lines, i, '-');
        lemma_parse_targets_wf(lines, skip_doc_at(lines, skip_code_at(lines, i)));
    }
}

proof fn lemma_parse_submodules_wf(lines: Seq<Seq<char>>, i: int)
    ensures
        forall|k: int|
            0 <= k < parse_submodules_at(lines, i).0.len() ==> wf_submodule(
                #[trigger] parse_submodules_at(lines, i).0[k],
            ),
    decreases lines.len() - i,
{
    lemma_parse_submodule_wf(lines, i);
    let r = parse_submodule_at(lines, i);
    if r.0 is Some && i < r.1 <= lines.len() {
        lemma_parse_submodules_wf(lines, r.1);
        let s = parse_submodules_at(lines, i).0;
        let rest = parse_submodules_at(lines, r.1).0;
        assert forall|k: int| 0 <= k < s.len() implies wf_submodule(#[trigger] s[k]) by {
            if k == 0 {
                assert(s[k] == r.0.unwrap());
            } else {
                assert(s[k] == rest[k - 1]);
            }
        }
    }
}

proof fn lemma_parse_module_wf(lines: Seq<Seq<char>>, i: int)
    ensures
        parse_module_at(lines, i).0 matches Some(m) ==> wf_module(m),
{
    if heading_at(lines, i, '=') {
        lemma_heading_name_nonempty(lines, i, '=');
        let b = skip_doc_at(lines, skip_code_at(lines, i));
        lemma_parse_targets_wf(lines, b);
        lemma_parse_submodules_wf(lines, parse_targets_at(lines, b).1);
    }
}

proof fn lemma_parse_modules_wf(lines: Seq<Seq<char>>, i: int)
    ensures
        forall|k: int|
            0 <= k < parse_modules_at(lines, i).0.len() ==> wf_module(
                #[trigger] parse_modules_at(lines, i).0[k],
            ),
    decreases lines.len() - i,
{
    lemma_parse_module_wf(lines, i);
    let r = parse_module_at(lines, i);
    if r.0 is Some && i < r.1 <= lines.len() {
        lemma_parse_modules_wf(lines, r.1);
        let s = parse_modules_at(lines, i).0;
        let rest = parse_modules_at(lines, r.1).0;
        assert forall|k: int| 0 <= k < s.len() implies wf_module(#[trigger] s[k]) by {
            if k == 0 {
                assert(s[k] == r.0.unwrap());
            } else {
                assert(s[k] == rest[k - 1]);
            }
        }
    }
}

/// Every name the parser produces is non-empty: modules and submodules take
/// theirs from a heading whose underline is a non-empty run of matching
/// length, and targets take theirs from the non-empty text before a colon.
pub proof fn law_parsed_names_nonempty(lines: Seq<Seq<char>>)
    ensures
        forall|k: int|
            0 <= k < parse_document(lines).len() ==> wf_module(#[trigger] parse_document(lines)[k]),
{
    lemma_parse_modules_wf(lines, 0);
}

} // verus!

