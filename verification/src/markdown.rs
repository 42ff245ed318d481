//! A small Markdown renderer for the terminal: headings, bullets, quotes,
//! bold and inline code, in colour or as plain text.

use vstd::prelude::*;
use vstd::string::StringExecFns;
use crate::text::{chars_of, lines, lines_seq, owned, starts_with, starts_with_seq, string_of, views};

verus! {

broadcast use vstd::string::group_string_axioms;

/// `text` with every `**` removed (left to right, without overlaps).
pub open spec fn remove_stars(s: Seq<char>) -> Seq<char>
    decreases s.len(),
{
    if s.len() == 0 {
        Seq::empty()
    } else if s.len() >= 2 && s[0] == '*' && s[1] == '*' {
        remove_stars(s.subrange(2, s.len() as int))
    } else {
        seq![s[0]] + remove_stars(s.drop_first())
    }
}

/// `text` with every backtick removed.
pub open spec fn remove_ticks(s: Seq<char>) -> Seq<char>
    decreases s.len(),
{
    if s.len() == 0 {
        Seq::empty()
    } else if s[0] == '`' {
        remove_ticks(s.drop_first())
    } else {
        seq![s[0]] + remove_ticks(s.drop_first())
    }
}

/// Inline text without colour: the `**` and backtick markers dropped.
pub open spec fn inline_plain(text: Seq<char>) -> Seq<char> {
    remove_ticks(remove_stars(text))
}

/// Inline text in colour: `**` turns bold on and off, a backtick turns
/// code colour on and off, with the escape codes for each.
pub open spec fn inline_color(rest: Seq<char>, bold: bool, code: bool) -> Seq<char>
    decreases rest.len(),
{
    if rest.len() == 0 {
        Seq::empty()
    } else if rest.len() >= 2 && rest[0] == '*' && rest[1] == '*' {
        (if !bold {
            "\x1b[1m"@
        } else {
            "\x1b[22m"@
        }) + inline_color(rest.subrange(2, rest.len() as int), !bold, code)
    } else if rest[0] == '`' {
        (if !code {
            "\x1b[38;5;215m"@
        } else {
            "\x1b[39m"@
        }) + inline_color(rest.drop_first(), bold, !code)
    } else {
        seq![rest[0]] + inline_color(rest.drop_first(), bold, code)
    }
}

/// Inline Markdown rendered in colour or without.
pub open spec fn inline_seq(text: Seq<char>, color: bool) -> Seq<char> {
    if color {
        inline_color(text, false, false)
    } else {
        inline_plain(text)
    }
}

fn remove_stars_exec(v: &Vec<char>) -> (r: Vec<char>)
    ensures
        r@ == remove_stars(v@),
{
    let mut out: Vec<char> = Vec::new();
    let mut i: usize = 0;
    assert(v@.subrange(0, v@.len() as int) =~= v@);
    while i < v.len()
        invariant
            i <= v@.len(),
            out@ + remove_stars(v@.subrange(i as int, v@.len() as int)) == remove_stars(v@),
        decreases v@.len() - i,
    {
        let ghost rest = v@.subrange(i as int, v@.len() as int);
        if i + 1 < v.len() && v[i] == '*' && v[i + 1] == '*' {
            assert(rest.subrange(2, rest.len() as int) =~= v@.subrange(i + 2, v@.len() as int));
            i = i + 2;
        } else {
            assert(rest.drop_first() =~= v@.subrange(i + 1, v@.len() as int));
            let ghost pre = out@;
            out.push(v[i]);
            assert(out@ + remove_stars(v@.subrange(i + 1, v@.len() as int)) =~= pre + (seq![v@[i as int]]
                + remove_stars(rest.drop_first())));
            i = i + 1;
        }
    }
    assert(v@.subrange(i as int, v@.len() as int) =~= Seq::<char>::empty());
    assert(out@ + Seq::<char>::empty() =~= out@);
    out
}

fn remove_ticks_exec(v: &Vec<char>) -> (r: Vec<char>)
    ensures
        r@ == remove_ticks(v@),
{
    let mut out: Vec<char> = Vec::new();
    let mut i: usize = 0;
    assert(v@.subrange(0, v@.len() as int) =~= v@);
    while i < v.len()
        invariant
            i <= v@.len(),
            out@ + remove_ticks(v@.subrange(i as int, v@.len() as int)) == remove_ticks(v@),
        decreases v@.len() - i,
    {
        let ghost rest = v@.subrange(i as int, v@.len() as int);
        assert(rest.drop_first() =~= v@.subrange(i + 1, v@.len() as int));
        if v[i] != '`' {
            let ghost pre = out@;
            out.push(v[i]);
            assert(out@ + remove_ticks(v@.subrange(i + 1, v@.len() as int)) =~= pre + (seq![v@[i as int]]
                + remove_ticks(rest.drop_first())));
        }
        i = i + 1;
    }
    assert(v@.subrange(i as int, v@.len() as int) =~= Seq::<char>::empty());
    assert(out@ + Seq::<char>::empty() =~= out@);
    out
}

fn push_str(out: &mut Vec<char>, s: &str)
    ensures
        final(out)@ == old(out)@ + s@,
{
    let v = chars_of(s);
    let mut i: usize = 0;
    let ghost start = out@;
    while i < v.len()
        invariant
            i <= v@.len(),
            v@ == s@,
            out@ == start + v@.subrange(0, i as int),
        decreases v@.len() - i,
    {
        out.push(v[i]);
        i = i + 1;
        assert(out@ =~= start + v@.subrange(0, i as int));
    }
    assert(v@.subrange(0, v@.len() as int) =~= v@);
}

/// Renders inline Markdown: in colour, `**` toggles bold and a backtick
/// toggles the code colour; without colour the markers are dropped.
pub fn inline(text: &str, color: bool) -> (r: String)
    ensures
        r@ == inline_seq(text@, color),
{
    let v = chars_of(text);
    if !color {
        let a = remove_stars_exec(&v);
        let b = remove_ticks_exec(&a);
        return string_of(b.as_slice());
    }
    let mut out: Vec<char> = Vec::new();
    let mut bold = false;
    let mut code = false;
    let mut i: usize = 0;
    assert(v@.subrange(0, v@.len() as int) =~= v@);
    while i < v.len()
        invariant
            i <= v@.len(),
            v@ == text@,
            out@ + inline_color(v@.subrange(i as int, v@.len() as int), bold, code) == inline_color(
                v@,
                false,
                false,
            ),
        decreases v@.len() - i,
    {
        let ghost rest = v@.subrange(i as int, v@.len() as int);
        let ghost pre = out@;
        if i + 1 < v.len() && v[i] == '*' && v[i + 1] == '*' {
            assert(rest.subrange(2, rest.len() as int) =~= v@.subrange(i + 2, v@.len() as int));
            let ghost tail = inline_color(v@.subrange(i + 2, v@.len() as int), !bold, code);
            if !bold {
                push_str(&mut out, "\x1b[1m");
            } else {
                push_str(&mut out, "\x1b[22m");
            }
            bold = !bold;
            assert(out@ + tail =~= pre + ((if !(!bold) {
                "\x1b[1m"@
            } else {
                "\x1b[22m"@
            }) + tail));
            i = i + 2;
        } else if v[i] == '`' {
            assert(rest.drop_first() =~= v@.subrange(i + 1, v@.len() as int));
            let ghost tail = inline_color(v@.subrange(i + 1, v@.len() as int), bold, !code);
            if !code {
                push_str(&mut out, "\x1b[38;5;215m");
            } else {
                push_str(&mut out, "\x1b[39m");
            }
            code = !code;
            assert(out@ + tail =~= pre + ((if !(!code) {
                "\x1b[38;5;215m"@
            } else {
                "\x1b[39m"@
            }) + tail));
            i = i + 1;
        } else {
            assert(rest.drop_first() =~= v@.subrange(i + 1, v@.len() as int));
            out.push(v[i]);
            assert(out@ + inline_color(v@.subrange(i + 1, v@.len() as int), bold, code) =~= pre + (
            seq![v@[i as int]] + inline_color(rest.drop_first(), bold, code)));
            i = i + 1;
        }
    }
    assert(v@.subrange(i as int, v@.len() as int) =~= Seq::<char>::empty());
    assert(out@ + Seq::<char>::empty() =~= out@);
    string_of(out.as_slice())
}

/// Whether a character is an ASCII letter.
pub open spec fn is_alpha(c: char) -> bool {
    ('a' <= c && c <= 'z') || ('A' <= c && c <= 'Z')
}

/// `strip_ansi` from a given state: outside an escape sequence, `ESC [`
/// starts one; inside, everything up to and including the first ASCII
/// letter is dropped.
pub open spec fn strip_from(s: Seq<char>, in_code: bool) -> Seq<char>
    decreases s.len(),
{
    if s.len() == 0 {
        Seq::empty()
    } else if in_code {
        strip_from(s.drop_first(), !is_alpha(s[0]))
    } else if s[0] == '\x1b' && s.len() > 1 && s[1] == '[' {
        strip_from(s.subrange(2, s.len() as int), true)
    } else {
        seq![s[0]] + strip_from(s.drop_first(), false)
    }
}

/// Text without its ANSI escape sequences (`ESC [` up to a letter).
pub open spec fn strip_ansi_seq(s: Seq<char>) -> Seq<char> {
    strip_from(s, false)
}

/// Removes the ANSI escape sequences from a text.
pub fn strip_ansi(text: &str) -> (r: String)
    ensures
        r@ == strip_ansi_seq(text@),
{
    let v = chars_of(text);
    let mut out: Vec<char> = Vec::new();
    let mut in_code = false;
    let mut i: usize = 0;
    assert(v@.subrange(0, v@.len() as int) =~= v@);
    while i < v.len()
        invariant
            i <= v@.len(),
            v@ == text@,
            out@ + strip_from(v@.subrange(i as int, v@.len() as int), in_code) == strip_ansi_seq(v@),
        decreases v@.len() - i,
    {
        let ghost rest = v@.subrange(i as int, v@.len() as int);
        let c = v[i];
        if in_code {
            assert(rest.drop_first() =~= v@.subrange(i + 1, v@.len() as int));
            in_code = !(('a' <= c && c <= 'z') || ('A' <= c && c <= 'Z'));
            i = i + 1;
        } else if c == '\x1b' && i + 1 < v.len() && v[i + 1] == '[' {
            assert(rest.subrange(2, rest.len() as int) =~= v@.subrange(i + 2, v@.len() as int));
            in_code = true;
            i = i + 2;
        } else {
            assert(rest.drop_first() =~= v@.subrange(i + 1, v@.len() as int));
            let ghost pre = out@;
            out.push(c);
            assert(out@ + strip_from(v@.subrange(i + 1, v@.len() as int), false) =~= pre + (seq![c]
                + strip_from(rest.drop_first(), false)));
            i = i + 1;
        }
    }
    assert(v@.subrange(i as int, v@.len() as int) =~= Seq::<char>::empty());
    assert(out@ + Seq::<char>::empty() =~= out@);
    string_of(out.as_slice())
}

/// How one Markdown line is rendered (in colour): `# ` and `## `
/// headings, `- ` bullets, `> ` quotes, an empty line, or indented text.
pub open spec fn render_line_seq(line: Seq<char>, color: bool) -> Seq<char> {
    if starts_with_seq(line, "# "@) {
        "\x1b[1;36m "@ + inline_seq(line.subrange(2, line.len() as int), color) + "\x1b[0m"@
    } else if starts_with_seq(line, "## "@) {
        "\x1b[1;34m  "@ + inline_seq(line.subrange(3, line.len() as int), color) + "\x1b[0m"@
    } else if starts_with_seq(line, "- "@) {
        "    \x1b[36m•\x1b[0m "@ + inline_seq(line.subrange(2, line.len() as int), color)
    } else if starts_with_seq(line, "> "@) {
        "  \x1b[33m│\x1b[0m \x1b[3m"@ + inline_seq(line.subrange(2, line.len() as int), color)
            + "\x1b[0m"@
    } else if line.len() == 0 {
        Seq::empty()
    } else {
        "  "@ + inline_seq(line, color)
    }
}

/// A line as written: the rendering, with its escape sequences removed
/// when there is no colour.
pub open spec fn output_line_seq(line: Seq<char>, color: bool) -> Seq<char> {
    if color {
        render_line_seq(line, color)
    } else {
        strip_ansi_seq(render_line_seq(line, color))
    }
}

/// The whole document: each line as written, followed by `eol`.
pub open spec fn render_markdown_seq(ls: Seq<Seq<char>>, color: bool, eol: Seq<char>) -> Seq<char>
    decreases ls.len(),
{
    if ls.len() == 0 {
        Seq::empty()
    } else {
        render_markdown_seq(ls.drop_last(), color, eol) + output_line_seq(ls.last(), color) + eol
    }
}

fn tail_from(line: &str, from: usize) -> (r: String)
    requires
        from <= line@.len(),
    ensures
        r@ == line@.subrange(from as int, line@.len() as int),
{
    let v = chars_of(line);
    let t = crate::text::slice_chars(v.as_slice(), from, v.len());
    string_of(t.as_slice())
}

/// Renders one Markdown line.
pub fn render_line(line: &str, color: bool) -> (r: String)
    ensures
        r@ == render_line_seq(line@, color),
{
    proof {
        reveal_strlit("# ");
        reveal_strlit("## ");
        reveal_strlit("- ");
        reveal_strlit("> ");
    }
    if starts_with(line, "# ") {
        let t = tail_from(line, 2);
        let mut r = owned("\x1b[1;36m ");
        let i = inline(t.as_str(), color);
        r.append(i.as_str());
        r.append("\x1b[0m");
        r
    } else if starts_with(line, "## ") {
        let t = tail_from(line, 3);
        let mut r = owned("\x1b[1;34m  ");
        let i = inline(t.as_str(), color);
        r.append(i.as_str());
        r.append("\x1b[0m");
        r
    } else if starts_with(line, "- ") {
        let t = tail_from(line, 2);
        let mut r = owned("    \x1b[36m•\x1b[0m ");
        let i = inline(t.as_str(), color);
        r.append(i.as_str());
        r
    } else if starts_with(line, "> ") {
        let t = tail_from(line, 2);
        let mut r = owned("  \x1b[33m│\x1b[0m \x1b[3m");
        let i = inline(t.as_str(), color);
        r.append(i.as_str());
        r.append("\x1b[0m");
        r
    } else if line.unicode_len() == 0 {
        String::new()
    } else {
        let mut r = owned("  ");
        let i = inline(line, color);
        r.append(i.as_str());
        r
    }
}

/// Renders a Markdown document line by line, each line followed by `eol`;
/// without colour the escape sequences are removed.
pub fn render_markdown(markdown: &str, color: bool, eol: &str) -> (r: String)
    ensures
        r@ == render_markdown_seq(lines_seq(markdown@), color, eol@),
{
    let ls = lines(markdown);
    let mut out = String::new();
    let mut i: usize = 0;
    assert(views(ls@).subrange(0, 0) =~= Seq::<Seq<char>>::empty());
    while i < ls.len()
        invariant
            i <= ls@.len(),
            views(ls@) == lines_seq(markdown@),
            out@ == render_markdown_seq(views(ls@).subrange(0, i as int), color, eol@),
        decreases ls@.len() - i,
    {
        let rendered = render_line(ls[i].as_str(), color);
        let l = if color {
            rendered
        } else {
            strip_ansi(rendered.as_str())
        };
        out.append(l.as_str());
        out.append(eol);
        assert(views(ls@)[i as int] == ls@[i as int]@);
        assert(views(ls@).subrange(0, i + 1).drop_last() =~= views(ls@).subrange(0, i as int));
        i = i + 1;
    }
    assert(views(ls@).subrange(0, ls@.len() as int) =~= views(ls@));
    out
}

/// No escape character in a text.
pub open spec fn no_esc(s: Seq<char>) -> bool {
    forall|i: int| 0 <= i < s.len() ==> #[trigger] s[i] != '\x1b'
}

proof fn lemma_remove_stars_no_esc(s: Seq<char>)
    requires
        no_esc(s),
    ensures
        no_esc(remove_stars(s)),
    decreases s.len(),
{
    if s.len() > 0 {
        if s.len() >= 2 && s[0] == '*' && s[1] == '*' {
            lemma_remove_stars_no_esc(s.subrange(2, s.len() as int));
        } else {
            lemma_remove_stars_no_esc(s.drop_first());
            let r = remove_stars(s.drop_first());
            assert forall|i: int| 0 <= i < (seq![s[0]] + r).len() implies #[trigger] (seq![s[0]]
                + r)[i] != '\x1b' by {
                if i > 0 {
                    assert((seq![s[0]] + r)[i] == r[i - 1]);
                }
            }
        }
    }
}

proof fn lemma_remove_ticks_no_esc(s: Seq<char>)
    requires
        no_esc(s),
    ensures
        no_esc(remove_ticks(s)),
    decreases s.len(),
{
    if s.len() > 0 {
        lemma_remove_ticks_no_esc(s.drop_first());
        if s[0] != '`' {
            let r = remove_ticks(s.drop_first());
            assert forall|i: int| 0 <= i < (seq![s[0]] + r).len() implies #[trigger] (seq![s[0]]
                + r)[i] != '\x1b' by {
                if i > 0 {
                    assert((seq![s[0]] + r)[i] == r[i - 1]);
                }
            }
        }
    }
}

proof fn lemma_strip_plain_prefix(x: Seq<char>, y: Seq<char>)
    requires
        no_esc(x),
    ensures
        strip_from(x + y, false) == x + strip_from(y, false),
    decreases x.len(),
{
    if x.len() > 0 {
        assert((x + y)[0] == x[0]);
        assert((x + y).drop_first() =~= x.drop_first() + y);
        lemma_strip_plain_prefix(x.drop_first(), y);
        assert(x =~= seq![x[0]] + x.drop_first());
        assert(seq![x[0]] + (x.drop_first() + strip_from(y, false)) =~= x + strip_from(y, false));
    } else {
        assert(x + y =~= y);
        assert(x + strip_from(y, false) =~= strip_from(y, false));
    }
}

proof fn lemma_strip_code(d: Seq<char>, m: char, y: Seq<char>)
    requires
        forall|i: int| 0 <= i < d.len() ==> !is_alpha(#[trigger] d[i]),
        is_alpha(m),
    ensures
        strip_from(d.push(m) + y, true) == strip_from(y, false),
    decreases d.len(),
{
    let s = d.push(m) + y;
    if d.len() == 0 {
        assert(s[0] == m);
        assert(s.drop_first() =~= y);
    } else {
        assert(s[0] == d[0]);
        assert(s.drop_first() =~= d.drop_first().push(m) + y);
        lemma_strip_code(d.drop_first(), m, y);
    }
}

/// Stripping a plain text followed by one escape sequence `ESC [ d m`.
proof fn lemma_strip_lit(pre: Seq<char>, d: Seq<char>, m: char, rest: Seq<char>)
    requires
        no_esc(pre),
        forall|i: int| 0 <= i < d.len() ==> !is_alpha(#[trigger] d[i]),
        is_alpha(m),
    ensures
        strip_from(pre + (seq!['\x1b', '['] + d.push(m)) + rest, false) == pre + strip_from(rest, false),
{
    let e = seq!['\x1b', '['] + d.push(m) + rest;
    assert(pre + (seq!['\x1b', '['] + d.push(m)) + rest =~= pre + e);
    lemma_strip_plain_prefix(pre, e);
    assert(e[0] == '\x1b' && e[1] == '[');
    assert(e.subrange(2, e.len() as int) =~= d.push(m) + rest);
    lemma_strip_code(d, m, rest);
}

/// A line as written without colour, for text that holds no escape
/// character: the marker replaced by its plain form, the `**` and backtick
/// markers removed.
pub open spec fn plain_line(line: Seq<char>) -> Seq<char> {
    if starts_with_seq(line, "# "@) {
        seq![' '] + inline_plain(line.subrange(2, line.len() as int))
    } else if starts_with_seq(line, "## "@) {
        seq![' ', ' '] + inline_plain(line.subrange(3, line.len() as int))
    } else if starts_with_seq(line, "- "@) {
        seq![' ', ' ', ' ', ' ', '•', ' '] + inline_plain(line.subrange(2, line.len() as int))
    } else if starts_with_seq(line, "> "@) {
        seq![' ', ' ', '│', ' '] + inline_plain(line.subrange(2, line.len() as int))
    } else if line.len() == 0 {
        Seq::empty()
    } else {
        seq![' ', ' '] + inline_plain(line)
    }
}

/// Without colour, no escape sequence reaches the output: a line whose
/// text holds no escape character is written as its plain form.
pub proof fn lemma_plain_output(line: Seq<char>)
    requires
        no_esc(line),
    ensures
        output_line_seq(line, false) == plain_line(line),
{
    reveal_strlit("# ");
    reveal_strlit("## ");
    reveal_strlit("- ");
    reveal_strlit("> ");
    reveal_strlit("\x1b[1;36m ");
    reveal_strlit("\x1b[1;34m  ");
    reveal_strlit("    \x1b[36m•\x1b[0m ");
    reveal_strlit("  \x1b[33m│\x1b[0m \x1b[3m");
    reveal_strlit("\x1b[0m");
    reveal_strlit("  ");
    let esc0 = seq!['\x1b', '['] + seq!['0'].push('m');
    assert("\x1b[0m"@ =~= esc0);
    assert(strip_from(esc0, false) == Seq::<char>::empty()) by {
        lemma_strip_lit(Seq::empty(), seq!['0'], 'm', Seq::empty());
        assert(Seq::<char>::empty() + esc0 + Seq::<char>::empty() =~= esc0);
        assert(Seq::<char>::empty() + Seq::<char>::empty() =~= Seq::<char>::empty());
    }
    let r = render_line_seq(line, false);
    if starts_with_seq(line, "# "@) {
        let t = line.subrange(2, line.len() as int);
        assert forall|i: int| 0 <= i < t.len() implies #[trigger] t[i] != '\x1b' by {
            assert(t[i] == line[i + 2]);
        }
        let p = inline_plain(t);
        lemma_remove_stars_no_esc(t);
        lemma_remove_ticks_no_esc(remove_stars(t));
        let a = seq![' '] + p;
        assert(no_esc(a)) by {
            assert forall|i: int| 0 <= i < a.len() implies #[trigger] a[i] != '\x1b' by {
                if i > 0 {
                    assert(a[i] == p[i - 1]);
                }
            }
        }
        assert(r =~= Seq::<char>::empty() + (seq!['\x1b', '['] + seq!['1', ';', '3', '6'].push('m'))
            + (a + esc0));
        lemma_strip_lit(Seq::empty(), seq!['1', ';', '3', '6'], 'm', a + esc0);
        lemma_strip_plain_prefix(a, esc0);
        assert(Seq::<char>::empty() + (a + Seq::<char>::empty()) =~= plain_line(line));
    } else if starts_with_seq(line, "## "@) {
        let t = line.subrange(3, line.len() as int);
        assert forall|i: int| 0 <= i < t.len() implies #[trigger] t[i] != '\x1b' by {
            assert(t[i] == line[i + 3]);
        }
        let p = inline_plain(t);
        lemma_remove_stars_no_esc(t);
        lemma_remove_ticks_no_esc(remove_stars(t));
        let a = seq![' ', ' '] + p;
        assert(no_esc(a)) by {
            assert forall|i: int| 0 <= i < a.len() implies #[trigger] a[i] != '\x1b' by {
                if i > 1 {
                    assert(a[i] == p[i - 2]);
                }
            }
        }
        assert(r =~= Seq::<char>::empty() + (seq!['\x1b', '['] + seq!['1', ';', '3', '4'].push('m'))
            + (a + esc0));
        lemma_strip_lit(Seq::empty(), seq!['1', ';', '3', '4'], 'm', a + esc0);
        lemma_strip_plain_prefix(a, esc0);
        assert(Seq::<char>::empty() + (a + Seq::<char>::empty()) =~= plain_line(line));
    } else if starts_with_seq(line, "- "@) {
        let t = line.subrange(2, line.len() as int);
        assert forall|i: int| 0 <= i < t.len() implies #[trigger] t[i] != '\x1b' by {
            assert(t[i] == line[i + 2]);
        }
        let p = inline_plain(t);
        lemma_remove_stars_no_esc(t);
        lemma_remove_ticks_no_esc(remove_stars(t));
        let sp = seq![' ', ' ', ' ', ' '];
        let b = seq!['•'];
        let c = seq![' '] + p;
        assert(no_esc(c)) by {
            assert forall|i: int| 0 <= i < c.len() implies #[trigger] c[i] != '\x1b' by {
                if i > 0 {
                    assert(c[i] == p[i - 1]);
                }
            }
        }
        assert(r =~= sp + (seq!['\x1b', '['] + seq!['3', '6'].push('m')) + (b + esc0 + c));
        lemma_strip_lit(sp, seq!['3', '6'], 'm', b + esc0 + c);
        assert(b + esc0 + c =~= b + (seq!['\x1b', '['] + seq!['0'].push('m')) + c);
        lemma_strip_lit(b, seq!['0'], 'm', c);
        lemma_strip_plain_prefix(c, Seq::empty());
        assert(c + Seq::<char>::empty() =~= c);
        assert(sp + (b + c) =~= plain_line(line));
    } else if starts_with_seq(line, "> "@) {
        let t = line.subrange(2, line.len() as int);
        assert forall|i: int| 0 <= i < t.len() implies #[trigger] t[i] != '\x1b' by {
            assert(t[i] == line[i + 2]);
        }
        let p = inline_plain(t);
        lemma_remove_stars_no_esc(t);
        lemma_remove_ticks_no_esc(remove_stars(t));
        let sp = seq![' ', ' '];
        let b = seq!['│'];
        let c = seq![' '];
        assert(r =~= sp + (seq!['\x1b', '['] + seq!['3', '3'].push('m')) + (b + esc0 + c + (
        seq!['\x1b', '['] + seq!['3'].push('m')) + (p + esc0)));
        lemma_strip_lit(sp, seq!['3', '3'], 'm', b + esc0 + c + (seq!['\x1b', '['] + seq!['3'].push(
            'm',
        )) + (p + esc0));
        assert(b + esc0 + c + (seq!['\x1b', '['] + seq!['3'].push('m')) + (p + esc0) =~= b + (seq![
            '\x1b',
            '[',
        ] + seq!['0'].push('m')) + (c + (seq!['\x1b', '['] + seq!['3'].push('m')) + (p + esc0)));
        lemma_strip_lit(b, seq!['0'], 'm', c + (seq!['\x1b', '['] + seq!['3'].push('m')) + (p + esc0));
        lemma_strip_lit(c, seq!['3'], 'm', p + esc0);
        lemma_strip_plain_prefix(p, esc0);
        assert(sp + (b + (c + (p + Seq::<char>::empty()))) =~= plain_line(line));
    } else if line.len() == 0 {
    } else {
        let p = inline_plain(line);
        lemma_remove_stars_no_esc(line);
        lemma_remove_ticks_no_esc(remove_stars(line));
        let a = seq![' ', ' '] + p;
        assert(no_esc(a)) by {
            assert forall|i: int| 0 <= i < a.len() implies #[trigger] a[i] != '\x1b' by {
                if i > 1 {
                    assert(a[i] == p[i - 2]);
                }
            }
        }
        lemma_strip_plain_prefix(a, Seq::empty());
        assert(a + Seq::<char>::empty() =~= a);
        assert(r =~= a);
    }
}

/// `text` with the `**` markers and the backticks dropped in one pass from
/// the left.
pub open spec fn drop_marks(s: Seq<char>) -> Seq<char>
    decreases s.len(),
{
    if s.len() == 0 {
        Seq::empty()
    } else if s.len() >= 2 && s[0] == '*' && s[1] == '*' {
        drop_marks(s.subrange(2, s.len() as int))
    } else if s[0] == '`' {
        drop_marks(s.drop_first())
    } else {
        seq![s[0]] + drop_marks(s.drop_first())
    }
}

proof fn lemma_remove_ticks_cons(c: char, r: Seq<char>)
    ensures
        remove_ticks(seq![c] + r) == if c == '`' {
            remove_ticks(r)
        } else {
            seq![c] + remove_ticks(r)
        },
{
    let s = seq![c] + r;
    assert(s[0] == c);
    assert(s.drop_first() =~= r);
}

proof fn lemma_inline_plain_one_pass(s: Seq<char>)
    ensures
        inline_plain(s) == drop_marks(s),
    decreases s.len(),
{
    if s.len() == 0 {
    } else if s.len() >= 2 && s[0] == '*' && s[1] == '*' {
        lemma_inline_plain_one_pass(s.subrange(2, s.len() as int));
    } else {
        lemma_inline_plain_one_pass(s.drop_first());
        lemma_remove_ticks_cons(s[0], remove_stars(s.drop_first()));
    }
}

proof fn lemma_strip_inline_color(t: Seq<char>, bold: bool, code: bool)
    requires
        no_esc(t),
    ensures
        strip_from(inline_color(t, bold, code), false) == drop_marks(t),
    decreases t.len(),
{
    reveal_strlit("\x1b[1m");
    reveal_strlit("\x1b[22m");
    reveal_strlit("\x1b[38;5;215m");
    reveal_strlit("\x1b[39m");
    let e: Seq<char> = Seq::empty();
    if t.len() == 0 {
    } else if t.len() >= 2 && t[0] == '*' && t[1] == '*' {
        let rest = t.subrange(2, t.len() as int);
        assert(no_esc(rest)) by {
            assert forall|i: int| 0 <= i < rest.len() implies #[trigger] rest[i] != '\x1b' by {
                assert(rest[i] == t[i + 2]);
            }
        }
        lemma_strip_inline_color(rest, !bold, code);
        let r = inline_color(rest, !bold, code);
        let d = if !bold {
            seq!['1']
        } else {
            seq!['2', '2']
        };
        assert forall|i: int| 0 <= i < d.len() implies !is_alpha(#[trigger] d[i]) by {}
        assert(inline_color(t, bold, code) =~= e + (seq!['\x1b', '['] + d.push('m')) + r);
        lemma_strip_lit(e, d, 'm', r);
        assert(e + strip_from(r, false) =~= drop_marks(t));
    } else if t[0] == '`' {
        let rest = t.drop_first();
        assert(no_esc(rest)) by {
            assert forall|i: int| 0 <= i < rest.len() implies #[trigger] rest[i] != '\x1b' by {
                assert(rest[i] == t[i + 1]);
            }
        }
        lemma_strip_inline_color(rest, bold, !code);
        let r = inline_color(rest, bold, !code);
        let d = if !code {
            seq!['3', '8', ';', '5', ';', '2', '1', '5']
        } else {
            seq!['3', '9']
        };
        assert forall|i: int| 0 <= i < d.len() implies !is_alpha(#[trigger] d[i]) by {}
        assert(inline_color(t, bold, code) =~= e + (seq!['\x1b', '['] + d.push('m')) + r);
        lemma_strip_lit(e, d, 'm', r);
        assert(e + strip_from(r, false) =~= drop_marks(t));
    } else {
        let rest = t.drop_first();
        assert(no_esc(rest)) by {
            assert forall|i: int| 0 <= i < rest.len() implies #[trigger] rest[i] != '\x1b' by {
                assert(rest[i] == t[i + 1]);
            }
        }
        lemma_strip_inline_color(rest, bold, code);
        let h = seq![t[0]];
        assert(no_esc(h)) by {
            assert forall|i: int| 0 <= i < h.len() implies #[trigger] h[i] != '\x1b' by {
                assert(h[i] == t[0]);
            }
        }
        lemma_strip_plain_prefix(h, inline_color(rest, bold, code));
    }
}

/// Stripping the escape codes from inline text rendered in colour gives the
/// same text rendered without colour, for text that holds no escape
/// character; such text is left as it is by stripping.
pub proof fn lemma_strip_inline(t: Seq<char>)
    requires
        no_esc(t),
    ensures
        strip_ansi_seq(inline_seq(t, true)) == inline_seq(t, false),
        strip_ansi_seq(t) == t,
{
    lemma_strip_inline_color(t, false, false);
    lemma_inline_plain_one_pass(t);
    lemma_strip_plain_prefix(t, Seq::empty());
    assert(t + Seq::<char>::empty() =~= t);
}

} // verus!
