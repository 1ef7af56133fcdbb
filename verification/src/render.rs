//! The renderer: how a document tree is laid out as CLI-ready text.
//!
//! Each module or submodule that owns at least one target becomes one block:
//! its name, a colon, and one line per target with the names right-aligned
//! on the block's own width. Blocks follow the document order and a single
//! blank line separates consecutive blocks; nodes without targets are
//! omitted entirely.

use vstd::prelude::*;
use crate::doc::{Document, Target};
use crate::grammar::{ModuleV, SubmoduleV, TargetV};

verus! {

/// `n` spaces (none if `n` is negative).
pub open spec fn spaces(n: int) -> Seq<char> {
    Seq::new(
        if n >= 0 {
            n as nat
        } else {
            0
        },
        |i: int| ' ',
    )
}

/// The longest target name in `ts`, or 0 if there are none.
pub open spec fn max_name_len(ts: Seq<TargetV>) -> int
    decreases ts.len(),
{
    if ts.len() == 0 {
        0
    } else {
        let m = max_name_len(ts.drop_last());
        if ts.last().name.len() > m {
            ts.last().name.len() as int
        } else {
            m
        }
    }
}

pub proof fn lemma_max_name_len_ge(ts: Seq<TargetV>, i: int)
    requires
        0 <= i < ts.len(),
    ensures
        ts[i].name.len() <= max_name_len(ts),
    decreases ts.len(),
{
    if i + 1 < ts.len() {
        lemma_max_name_len_ge(ts.drop_last(), i);
    }
}

/// One rendered target line: the name right-aligned in a field one wider
/// than `w`, then `": "`, the summary, and a newline.
pub open spec fn target_line(t: TargetV, w: int) -> Seq<char> {
    spaces(w + 1 - t.name.len()) + t.name + seq![':', ' '] + t.summary + seq!['\n']
}

/// The lines of a block's targets, in order, all aligned on width `w`.
pub open spec fn target_lines(ts: Seq<TargetV>, w: int) -> Seq<char>
    decreases ts.len(),
{
    if ts.len() == 0 {
        Seq::empty()
    } else {
        target_lines(ts.drop_last(), w) + target_line(ts.last(), w)
    }
}

/// The rendered lines of a target list: aligned on the list's own longest
/// name, and nothing at all for an empty list.
pub open spec fn targets_block(ts: Seq<TargetV>) -> Seq<char> {
    if ts.len() == 0 {
        Seq::empty()
    } else {
        target_lines(ts, max_name_len(ts))
    }
}

/// One rendered block: the heading name, `":\n"`, then the target lines.
pub open spec fn block(name: Seq<char>, ts: Seq<TargetV>) -> Seq<char> {
    name + seq![':', '\n'] + target_lines(ts, max_name_len(ts))
}

/// The blank separator line put before every block except the first.
pub open spec fn sep(first: bool) -> Seq<char> {
    if first {
        Seq::empty()
    } else {
        seq!['\n']
    }
}

/// The rendered submodules of one module: one block per submodule with
/// targets, each preceded by a separator unless it is the first block of
/// the whole output.
pub open spec fn render_subs(ss: Seq<SubmoduleV>, first: bool) -> Seq<char>
    decreases ss.len(),
{
    if ss.len() == 0 {
        Seq::empty()
    } else {
        let s0 = ss[0];
        if s0.targets.len() > 0 {
            sep(first) + block(s0.name, s0.targets) + render_subs(ss.drop_first(), false)
        } else {
            render_subs(ss.drop_first(), first)
        }
    }
}

/// Whether any submodule in `ss` renders a block.
pub open spec fn subs_emit(ss: Seq<SubmoduleV>) -> bool {
    exists|k: int| 0 <= k < ss.len() && ss[k].targets.len() > 0
}

/// The rendered modules: each module's own block (if it has targets), then
/// its submodules' blocks, then the rest, with `first` telling whether no
/// block has been rendered yet.
pub open spec fn render_mods(ms: Seq<ModuleV>, first: bool) -> Seq<char>
    decreases ms.len(),
{
    if ms.len() == 0 {
        Seq::empty()
    } else {
        let m = ms[0];
        let part1 = if m.targets.len() > 0 {
            sep(first) + block(m.name, m.targets)
        } else {
            Seq::empty()
        };
        let f1 = first && m.targets.len() == 0;
        let part2 = render_subs(m.submodules, f1);
        let f2 = f1 && !subs_emit(m.submodules);
        part1 + part2 + render_mods(ms.drop_first(), f2)
    }
}

/// The full rendered text of a document tree.
pub open spec fn render_doc(ms: Seq<ModuleV>) -> Seq<char> {
    render_mods(ms, true)
}

pub proof fn lemma_subs_emit_extend(ss: Seq<SubmoduleV>, j: int)
    requires
        0 <= j < ss.len(),
    ensures
        subs_emit(ss.take(j + 1)) == (subs_emit(ss.take(j)) || ss[j].targets.len() > 0),
{
    let a = ss.take(j);
    let b = ss.take(j + 1);
    assert(b =~= a.push(ss[j]));
    if subs_emit(a) {
        let k = choose|k: int| 0 <= k < a.len() && a[k].targets.len() > 0;
        assert(b[k].targets.len() > 0);
    }
    if ss[j].targets.len() > 0 {
        assert(b[j as int].targets.len() > 0);
    }
    if subs_emit(b) && !(ss[j].targets.len() > 0) {
        let k = choose|k: int| 0 <= k < b.len() && b[k].targets.len() > 0;
        assert(k < j ==> a[k].targets.len() > 0);
    }
}

impl Document {
    /// Appends the rendered lines of `targets` to `s`: nothing for an empty
    /// list, else one aligned line per target.
    pub fn push_targets_help(s: &mut String, targets: &Vec<Target>)
        ensures
            final(s)@ == old(s)@ + targets_block(targets.deep_view()),
    {
        let ghost tv = targets.deep_view();
        let ghost base = s@;
        let n = targets.len();
        if n == 0 {
            proof {
                assert(s@ =~= base + targets_block(tv));
            }
            return ;
        }
        let mut width: usize = 0;
        let mut i: usize = 0;
        while i < n
            invariant
                i <= n == tv.len(),
                tv == targets.deep_view(),
                width as int == max_name_len(tv.take(i as int)),
            decreases n - i,
        {
            let nm_len = targets[i].name.as_str().unicode_len();
            if nm_len > width {
                width = nm_len;
            }
            proof {
                assert(tv.take(i + 1).drop_last() =~= tv.take(i as int));
                assert(tv.take(i + 1).last() == tv[i as int]);
            }
            i += 1;
        }
        proof {
            assert(tv.take(n as int) =~= tv);
        }
        let ghost w = width as int;
        let mut i: usize = 0;
        while i < n
            invariant
                i <= n == tv.len(),
                tv == targets.deep_view(),
                width as int == w == max_name_len(tv),
                s@ == base + target_lines(tv.take(i as int), w),
            decreases n - i,
        {
            let t = &targets[i];
            let nm_len = t.name.as_str().unicode_len();
            proof {
                lemma_max_name_len_ge(tv, i as int);
            }
            let pad = width - nm_len;
            let ghost s0 = s@;
            let mut k: usize = 0;
            while k < pad
                invariant
                    k <= pad,
                    s@ == s0 + spaces(k as int),
                decreases pad - k,
            {
                s.push(' ');
                k += 1;
                proof {
                    assert(s@ =~= s0 + spaces(k as int));
                }
            }
            s.push(' ');
            s.append(t.name.as_str());
            s.append(": ");
            s.append(t.summary.as_str());
            s.append("\n");
            proof {
                reveal_strlit(": ");
                reveal_strlit("\n");
                assert((": ")@ =~= seq![':', ' ']);
                assert(("\n")@ =~= seq!['\n']);
                assert(spaces(pad as int).push(' ') =~= spaces(w + 1 - tv[i as int].name.len()));
                assert(s@ =~= s0 + target_line(tv[i as int], w));
                assert(tv.take(i + 1).drop_last() =~= tv.take(i as int));
                assert(tv.take(i + 1).last() == tv[i as int]);
                assert(s@ =~= base + target_lines(tv.take(i + 1), w));
            }
            i += 1;
        }
        proof {
            assert(tv.take(n as int) =~= tv);
        }
    }

    /// Renders the whole document as the help text shown in a CLI.
    pub fn help(&self) -> (r: String)
        ensures
            r@ == render_doc(self@),
    {
        let ghost msv = self@;
        let mut s = String::new();
        let mut first = true;
        let n = self.modules.len();
        proof {
            assert(msv.skip(0) =~= msv);
            assert(s@ + render_mods(msv, true) =~= render_doc(msv));
        }
        let mut i: usize = 0;
        while i < n
            invariant
                i <= n == msv.len(),
                msv == self@,
                s@ + render_mods(msv.skip(i as int), first) == render_doc(msv),
            decreases n - i,
        {
            let ghost first_entry = first;
            let ghost s_entry = s@;
            let m = &self.modules[i];
            let ghost mv = msv[i as int];
            proof {
                assert(msv.skip(i as int)[0] == mv);
                assert(msv.skip(i as int).drop_first() =~= msv.skip(i + 1));
            }
            if m.targets.len() > 0 {
                if !first {
                    s.append("\n");
                }
                first = false;
                s.append(m.name.as_str());
                s.append(":\n");
                Self::push_targets_help(&mut s, &m.targets);
                proof {
                    reveal_strlit("\n");
                    reveal_strlit(":\n");
                    assert(("\n")@ =~= seq!['\n']);
                    assert((":\n")@ =~= seq![':', '\n']);
                    assert(s@ =~= s_entry + sep(first_entry) + block(mv.name, mv.targets));
                }
            }
            let ghost f1 = first_entry && mv.targets.len() == 0;
            let ghost s_mid = s@;
            proof {
                assert(first == f1);
            }
            let subs = &m.submodules;
            let sn = subs.len();
            let ghost subsv = mv.submodules;
            proof {
                assert(subsv.skip(0) =~= subsv);
                assert(subsv.take(0) =~= Seq::<SubmoduleV>::empty());
                assert(!subs_emit(Seq::<SubmoduleV>::empty()));
                if mv.targets.len() == 0 {
                    assert(s@ =~= s_entry + Seq::<char>::empty());
                }
            }
            let mut j: usize = 0;
            while j < sn
                invariant
                    j <= sn == subsv.len(),
                    subsv == (&self.modules[i as int])@.submodules,
                    subsv == subs.deep_view(),
                    i < n == msv.len(),
                    msv == self@,
                    s@ + render_subs(subsv.skip(j as int), first) == s_mid + render_subs(
                        subsv,
                        f1,
                    ),
                    first == (f1 && !subs_emit(subsv.take(j as int))),
                decreases sn - j,
            {
                let ghost first_j = first;
                let ghost s_j = s@;
                let sub = &subs[j];
                let ghost sv = subsv[j as int];
                proof {
                    assert(subsv.skip(j as int)[0] == sv);
                    assert(subsv.skip(j as int).drop_first() =~= subsv.skip(j + 1));
                    lemma_subs_emit_extend(subsv, j as int);
                }
                if sub.targets.len() > 0 {
                    if !first {
                        s.append("\n");
                    }
                    first = false;
                    s.append(sub.name.as_str());
                    s.append(":\n");
                    Self::push_targets_help(&mut s, &sub.targets);
                    proof {
                        reveal_strlit("\n");
                        reveal_strlit(":\n");
                        assert(("\n")@ =~= seq!['\n']);
                        assert((":\n")@ =~= seq![':', '\n']);
                        assert(s@ =~= s_j + sep(first_j) + block(sv.name, sv.targets));
                    }
                }
                j += 1;
            }
            proof {
                assert(subsv.skip(sn as int) =~= Seq::<SubmoduleV>::empty());
                assert(subsv.take(sn as int) =~= subsv);
                assert(s@ =~= s_mid + render_subs(subsv, f1));
                assert(first == (f1 && !subs_emit(subsv)));
                let part1 = if mv.targets.len() > 0 {
                    sep(first_entry) + block(mv.name, mv.targets)
                } else {
                    Seq::<char>::empty()
                };
                assert(s_mid =~= s_entry + part1);
                assert(render_mods(msv.skip(i as int), first_entry) =~= part1 + render_subs(
                    subsv,
                    f1,
                ) + render_mods(msv.skip(i + 1), f1 && !subs_emit(subsv)));
                assert(s@ + render_mods(msv.skip(i + 1), first) =~= s_entry + render_mods(
                    msv.skip(i as int),
                    first_entry,
                ));
            }
            i += 1;
        }
        proof {
            assert(msv.skip(n as int) =~= Seq::<ModuleV>::empty());
        }
        s
    }
}

} // verus!
