//! Line-level lexical conventions: doc lines, underline runs, and the
//! splitting of the input text into lines.

use vstd::prelude::*;

verus! {

/// A line is a doc line iff it starts with `"## "` or is exactly `"##"`.
pub open spec fn is_doc_line(l: Seq<char>) -> bool {
    (l.len() >= 3 && l[0] == '#' && l[1] == '#' && l[2] == ' ') || (l.len() == 2 && l[0] == '#'
        && l[1] == '#')
}

/// The content of a doc line: what follows the `"## "` prefix, or the empty
/// sequence for a bare `"##"` (or a non-doc line).
pub open spec fn stripped(l: Seq<char>) -> Seq<char> {
    if l.len() >= 3 && l[0] == '#' && l[1] == '#' && l[2] == ' ' {
        l.skip(3)
    } else {
        Seq::empty()
    }
}

/// A non-empty sequence consisting solely of the character `c`.
pub open spec fn is_run(s: Seq<char>, c: char) -> bool {
    s.len() > 0 && (forall|i: int| 0 <= i < s.len() ==> s[i] == c)
}

/// Index of the first occurrence of `c` in `s` at or after `i`, or `s.len()`
/// if there is none.
pub open spec fn find_at(s: Seq<char>, c: char, i: int) -> int
    decreases s.len() - i,
{
    if i < 0 || i >= s.len() {
        s.len() as int
    } else if s[i] == c {
        i
    } else {
        find_at(s, c, i + 1)
    }
}

pub proof fn lemma_find_at(s: Seq<char>, c: char, i: int)
    requires
        0 <= i <= s.len(),
    ensures
        i <= find_at(s, c, i) <= s.len(),
        forall|k: int| i <= k < find_at(s, c, i) ==> s[k] != c,
        find_at(s, c, i) < s.len() ==> s[find_at(s, c, i)] == c,
    decreases s.len() - i,
{
    if i < s.len() && s[i] != c {
        lemma_find_at(s, c, i + 1);
    }
}

/// A line with a trailing carriage return removed, as `str::lines` does for
/// lines terminated by `"\r\n"`.
pub open spec fn strip_cr(l: Seq<char>) -> Seq<char> {
    if l.len() > 0 && l[l.len() - 1] == '\r' {
        l.drop_last()
    } else {
        l
    }
}

/// The lines of `s` from position `i` on, split as `str::lines` splits: at
/// every `'\n'`, with a `'\r'` immediately before the `'\n'` dropped, and
/// with no empty final line when the text ends in `'\n'`.
pub open spec fn split_lines_at(s: Seq<char>, i: int) -> Seq<Seq<char>>
    decreases s.len() - i,
{
    if i < 0 || i >= s.len() {
        Seq::empty()
    } else {
        let j = find_at(s, '\n', i);
        if j >= s.len() {
            seq![s.subrange(i, s.len() as int)]
        } else if i <= j {
            seq![strip_cr(s.subrange(i, j))] + split_lines_at(s, j + 1)
        } else {
            Seq::empty()
        }
    }
}

/// The ordered lines of the whole text `s`.
pub open spec fn split_lines(s: Seq<char>) -> Seq<Seq<char>> {
    split_lines_at(s, 0)
}

/// The uppercase form of an ASCII lowercase letter; any other character is
/// unchanged.
pub open spec fn to_upper(c: char) -> char {
    if 'a' <= c && c <= 'z' {
        (c as u32 - 32) as char
    } else {
        c
    }
}

/// `s` with its first character uppercased (ASCII only), as a title.
pub open spec fn title_cased(s: Seq<char>) -> Seq<char> {
    if s.len() == 0 {
        s
    } else {
        seq![to_upper(s[0])] + s.skip(1)
    }
}

/// `s` with every underscore replaced by a space.
pub open spec fn underscores_to_spaces(s: Seq<char>) -> Seq<char> {
    s.map_values(|c: char| if c == '_' { ' ' } else { c })
}

/// Relies on `String::push`: appends the given character to the end of this
/// `String`.
pub assume_specification[ String::push ](s: &mut String, ch: char)
    ensures
        final(s)@ == old(s)@.push(ch),
;

/// Whether `line` is a doc line.
pub fn is_doc(line: &str) -> (r: bool)
    ensures
        r == is_doc_line(line@),
{
    let n = line.unicode_len();
    if n >= 3 {
        line.get_char(0) == '#' && line.get_char(1) == '#' && line.get_char(2) == ' '
    } else if n == 2 {
        line.get_char(0) == '#' && line.get_char(1) == '#'
    } else {
        false
    }
}

/// The content of a doc line after its `"## "` prefix; empty for a bare
/// `"##"` or a non-doc line.
pub fn strip_doc<'a>(line: &'a str) -> (r: &'a str)
    ensures
        r@ == stripped(line@),
{
    let n = line.unicode_len();
    if n >= 3 && line.get_char(0) == '#' && line.get_char(1) == '#' && line.get_char(2) == ' ' {
        let r = line.substring_char(3, n);
        proof {
            assert(r@ =~= stripped(line@));
        }
        r
    } else {
        let r = "";
        proof {
            reveal_strlit("");
            assert(r@ =~= stripped(line@));
        }
        r
    }
}

/// Whether `s` is a non-empty run of the character `c`.
pub fn is_char_run(s: &str, c: char) -> (r: bool)
    ensures
        r == is_run(s@, c),
{
    let n = s.unicode_len();
    if n == 0 {
        return false;
    }
    let mut i: usize = 0;
    while i < n
        invariant
            0 < n == s@.len(),
            i <= n,
            forall|k: int| 0 <= k < i ==> s@[k] == c,
        decreases n - i,
    {
        if s.get_char(i) != c {
            return false;
        }
        i += 1;
    }
    true
}

/// Index of the first occurrence of `c` in `s` at or after `from`, or the
/// length of `s` if there is none.
pub fn find_char(s: &str, c: char, from: usize) -> (r: usize)
    requires
        from as int <= s@.len(),
    ensures
        r as int == find_at(s@, c, from as int),
        from <= r <= s@.len(),
{
    let n = s.unicode_len();
    let mut i: usize = from;
    while i < n
        invariant
            from <= i <= n == s@.len(),
            find_at(s@, c, from as int) == find_at(s@, c, i as int),
        decreases n - i,
    {
        if s.get_char(i) == c {
            return i;
        }
        i += 1;
    }
    i
}

/// The ASCII-uppercase form of `c`.
pub fn upper_char(c: char) -> (r: char)
    ensures
        r == to_upper(c),
{
    if 'a' <= c && c <= 'z' {
        let u = c as u32;
        ((u - 32) as u8) as char
    } else {
        c
    }
}

/// `s` with every underscore replaced by a space.
pub fn replace_underscores(s: &str) -> (r: String)
    ensures
        r@ == underscores_to_spaces(s@),
{
    let n = s.unicode_len();
    let mut out = String::new();
    let mut i: usize = 0;
    while i < n
        invariant
            i <= n == s@.len(),
            out@.len() == i,
            forall|k: int|
                0 <= k < i ==> out@[k] == (if s@[k] == '_' {
                    ' '
                } else {
                    s@[k]
                }),
        decreases n - i,
    {
        let c = s.get_char(i);
        out.push(if c == '_' { ' ' } else { c });
        i += 1;
    }
    proof {
        assert(out@ =~= underscores_to_spaces(s@));
    }
    out
}

/// The lines of `s`, each as an owned string, in order.
pub fn split_to_lines(s: &str) -> (r: Vec<String>)
    ensures
        r.deep_view() == split_lines(s@),
{
    let n = s.unicode_len();
    let mut out: Vec<String> = Vec::new();
    let mut i: usize = 0;
    while i < n
        invariant
            i <= n == s@.len(),
            split_lines(s@) == out.deep_view() + split_lines_at(s@, i as int),
        decreases n - i,
    {
        let ghost out0 = out.deep_view();
        let j = find_char(s, '\n', i);
        proof {
            lemma_find_at(s@, '\n', i as int);
        }
        if j < n {
            let piece = if j > i && s.get_char(j - 1) == '\r' {
                s.substring_char(i, j - 1)
            } else {
                s.substring_char(i, j)
            };
            proof {
                assert(piece@ =~= strip_cr(s@.subrange(i as int, j as int)));
            }
            out.push(String::from_str(piece));
            proof {
                assert(out.deep_view() =~= out0 + seq![piece@]);
                assert(out.deep_view() + split_lines_at(s@, j + 1) =~= out0 + split_lines_at(
                    s@,
                    i as int,
                ));
            }
            i = j + 1;
        } else {
            let piece = s.substring_char(i, n);
            out.push(String::from_str(piece));
            proof {
                assert(out.deep_view() =~= out0 + seq![piece@]);
                assert(out.deep_view() + split_lines_at(s@, n as int) =~= out0 + split_lines_at(
                    s@,
                    i as int,
                ));
            }
            i = n;
        }
    }
    proof {
        assert(out.deep_view() =~= out.deep_view() + split_lines_at(s@, i as int));
    }
    out
}

} // verus!
