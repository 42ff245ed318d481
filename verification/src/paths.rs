//! Unix path text: components, `join`, `file_name`, `strip_prefix` and
//! extensions, following the rules of `std::path` on Unix.

use vstd::prelude::*;
use crate::text::{chars_of, string_of, slice_chars};

verus! {

/// The kinds of path component.
#[derive(Clone, Copy, PartialEq, Eq, Structural, Debug)]
pub enum CompKind {
    Root,
    Cur,
    Parent,
    Normal,
}

/// A component of a path: its kind and where its text stands.
#[derive(Clone, Copy, PartialEq, Eq, Structural, Debug)]
pub struct Comp {
    pub kind: CompKind,
    pub start: usize,
    pub end: usize,
}

/// First index `>= i` holding `'/'`, or the length.
pub open spec fn next_sep(s: Seq<char>, i: int) -> int
    decreases s.len() - i,
{
    if i >= s.len() {
        s.len() as int
    } else if s[i] == '/' {
        i
    } else {
        next_sep(s, i + 1)
    }
}

/// The components of `s[i..]` after the start of a path: empty and `.`
/// segments are skipped.
pub open spec fn body_comps(s: Seq<char>, i: int) -> Seq<Comp>
    decreases s.len() - i,
{
    if i >= s.len() || i < 0 {
        Seq::empty()
    } else {
        let j = next_sep(s, i);
        let seg = s.subrange(i, j);
        let rest = if j < i || j >= s.len() { Seq::empty() } else { body_comps(s, j + 1) };
        if seg.len() == 0 || seg == seq!['.'] {
            rest
        } else if seg == seq!['.', '.'] {
            seq![Comp { kind: CompKind::Parent, start: i as usize, end: j as usize }] + rest
        } else {
            seq![Comp { kind: CompKind::Normal, start: i as usize, end: j as usize }] + rest
        }
    }
}

/// The components of a Unix path, as `Path::components` yields them.
pub open spec fn comps(s: Seq<char>) -> Seq<Comp> {
    if s.len() > 0 && s[0] == '/' {
        seq![Comp { kind: CompKind::Root, start: 0, end: 1 }] + body_comps(s, 1)
    } else if s.len() > 0 && s[0] == '.' && (s.len() == 1 || s[1] == '/') {
        seq![Comp { kind: CompKind::Cur, start: 0, end: 1 }] + body_comps(s, 1)
    } else {
        body_comps(s, 0)
    }
}

/// The text of a component.
pub open spec fn comp_text(s: Seq<char>, c: Comp) -> Seq<char> {
    s.subrange(c.start as int, c.end as int)
}

/// Two components compare equal as `std::path::Component`s.
pub open spec fn comp_same(s: Seq<char>, a: Comp, t: Seq<char>, b: Comp) -> bool {
    a.kind == b.kind && (a.kind == CompKind::Normal ==> comp_text(s, a) == comp_text(t, b))
}

/// `Path::new(s).file_name()`, as text (`None` when the path ends in
/// `/`-only, `.` or `..`).
pub open spec fn file_name_seq(s: Seq<char>) -> Option<Seq<char>> {
    let cs = comps(s);
    if cs.len() > 0 && cs.last().kind == CompKind::Normal {
        Some(comp_text(s, cs.last()))
    } else {
        None
    }
}

/// `target.strip_prefix(base)`, as text.
pub open spec fn strip_prefix_seq(target: Seq<char>, base: Seq<char>) -> Option<Seq<char>> {
    let t = comps(target);
    let b = comps(base);
    if b.len() <= t.len() && (forall|k: int|
        0 <= k < b.len() ==> #[trigger] comp_same(target, t[k], base, b[k])) {
        if b.len() == t.len() {
            Some(Seq::empty())
        } else {
            Some(target.subrange(t[b.len() as int].start as int, t.last().end as int))
        }
    } else {
        None
    }
}

/// `PathBuf::from(base).join(p)`, as text, on Unix.
pub open spec fn join_seq(base: Seq<char>, p: Seq<char>) -> Seq<char> {
    if p.len() > 0 && p[0] == '/' {
        p
    } else if base.len() > 0 && base.last() != '/' {
        base + seq!['/'] + p
    } else {
        base + p
    }
}

/// `Path::extension` of a file name, as text.
pub open spec fn extension_seq(name: Seq<char>) -> Option<Seq<char>> {
    if exists|i: int| 0 <= i < name.len() && name[i] == '.' {
        let i = choose|i: int|
            0 <= i < name.len() && name[i] == '.' && forall|k: int|
                i < k < name.len() ==> name[k] != '.';
        if i == 0 {
            None
        } else {
            Some(name.subrange(i + 1, name.len() as int))
        }
    } else {
        None
    }
}

fn next_sep_exec(v: &[char], i: usize) -> (j: usize)
    requires
        i <= v@.len(),
    ensures
        j == next_sep(v@, i as int),
        i <= j <= v@.len(),
{
    let mut j = i;
    while j < v.len() && v[j] != '/'
        invariant
            i <= j <= v@.len(),
            next_sep(v@, i as int) == next_sep(v@, j as int),
        decreases v@.len() - j,
    {
        j = j + 1;
    }
    j
}

fn is_dot(v: &[char], i: usize, j: usize) -> (b: bool)
    requires
        i <= j <= v@.len(),
    ensures
        b == (v@.subrange(i as int, j as int) == seq!['.']),
{
    if j - i == 1 && v[i] == '.' {
        assert(v@.subrange(i as int, j as int) =~= seq!['.']);
        true
    } else {
        assert(v@.subrange(i as int, j as int) != seq!['.']) by {
            if j - i == 1 {
                assert(v@.subrange(i as int, j as int)[0] != seq!['.'][0]);
            } else {
                assert(v@.subrange(i as int, j as int).len() != seq!['.'].len());
            }
        }
        false
    }
}

fn is_dot_dot(v: &[char], i: usize, j: usize) -> (b: bool)
    requires
        i <= j <= v@.len(),
    ensures
        b == (v@.subrange(i as int, j as int) == seq!['.', '.']),
{
    if j - i == 2 && v[i] == '.' && v[i + 1] == '.' {
        assert(v@.subrange(i as int, j as int) =~= seq!['.', '.']);
        true
    } else {
        assert(v@.subrange(i as int, j as int) != seq!['.', '.']) by {
            if j - i == 2 {
                if v@[i as int] != '.' {
                    assert(v@.subrange(i as int, j as int)[0] != seq!['.', '.'][0]);
                } else {
                    assert(v@.subrange(i as int, j as int)[1] != seq!['.', '.'][1]);
                }
            } else {
                assert(v@.subrange(i as int, j as int).len() != seq!['.', '.'].len());
            }
        }
        false
    }
}

/// The components of a path held as characters.
pub fn components(v: &[char]) -> (cs: Vec<Comp>)
    ensures
        cs@ == comps(v@),
{
    let mut cs: Vec<Comp> = Vec::new();
    let mut i: usize;
    if v.len() > 0 && v[0] == '/' {
        cs.push(Comp { kind: CompKind::Root, start: 0, end: 1 });
        i = 1;
    } else if v.len() > 0 && v[0] == '.' && (v.len() == 1 || v[1] == '/') {
        cs.push(Comp { kind: CompKind::Cur, start: 0, end: 1 });
        i = 1;
    } else {
        i = 0;
    }
    while i < v.len()
        invariant
            i <= v@.len(),
            cs@ + body_comps(v@, i as int) == comps(v@),
        decreases v@.len() - i,
    {
        let j = next_sep_exec(v, i);
        let ghost rest = body_comps(v@, j + 1);
        let ghost pre = cs@;
        if j == i || is_dot(v, i, j) {
            assert(body_comps(v@, i as int) == rest);
        } else if is_dot_dot(v, i, j) {
            cs.push(Comp { kind: CompKind::Parent, start: i, end: j });
            assert(cs@ + rest =~= pre + body_comps(v@, i as int));
        } else {
            cs.push(Comp { kind: CompKind::Normal, start: i, end: j });
            assert(cs@ + rest =~= pre + body_comps(v@, i as int));
        }
        if j >= v.len() || j + 1 >= v.len() {
            assert(rest =~= Seq::<Comp>::empty());
            i = v.len();
            assert(cs@ =~= comps(v@));
            assert(body_comps(v@, i as int) =~= Seq::<Comp>::empty());
        } else {
            i = j + 1;
        }
    }
    assert(cs@ =~= comps(v@));
    cs
}

/// Whether two character slices hold the same characters.
pub fn chars_eq(a: &[char], b: &[char]) -> (r: bool)
    ensures
        r == (a@ == b@),
{
    if a.len() != b.len() {
        return false;
    }
    let mut i: usize = 0;
    while i < a.len()
        invariant
            a@.len() == b@.len(),
            i <= a@.len(),
            forall|k: int| 0 <= k < i ==> a@[k] == b@[k],
        decreases a@.len() - i,
    {
        if a[i] != b[i] {
            return false;
        }
        i = i + 1;
    }
    assert(a@ =~= b@);
    true
}

fn comp_same_exec(s: &[char], a: Comp, t: &[char], b: Comp) -> (r: bool)
    requires
        a.start <= a.end <= s@.len(),
        b.start <= b.end <= t@.len(),
    ensures
        r == comp_same(s@, a, t@, b),
{
    if a.kind != b.kind {
        return false;
    }
    match a.kind {
        CompKind::Normal => {
            let x = slice_chars(s, a.start, a.end);
            let y = slice_chars(t, b.start, b.end);
            chars_eq(x.as_slice(), y.as_slice())
        },
        _ => true,
    }
}

/// Components stand inside `s`, each after the previous one.
pub open spec fn comps_fit(s: Seq<char>, cs: Seq<Comp>, lo: int) -> bool {
    &&& forall|k: int|
        0 <= k < cs.len() ==> lo <= (#[trigger] cs[k]).start <= cs[k].end <= s.len()
    &&& forall|a: int, b: int|
        0 <= a < b < cs.len() ==> (#[trigger] cs[a]).end <= (#[trigger] cs[b]).start
}

proof fn lemma_body_comps_fit(s: Seq<char>, i: int)
    requires
        i >= 0,
        s.len() <= usize::MAX,
    ensures
        comps_fit(s, body_comps(s, i), i),
    decreases s.len() - i,
{
    if i >= s.len() {
    } else {
        let j = next_sep(s, i);
        lemma_next_sep_bounds(s, i);
        if j < s.len() {
            lemma_body_comps_fit(s, j + 1);
            let rest = body_comps(s, j + 1);
            let seg = s.subrange(i, j);
            if seg.len() == 0 || seg == seq!['.'] {
                assert(body_comps(s, i) == rest);
            } else {
                let c = body_comps(s, i)[0];
                assert(body_comps(s, i) == seq![c] + rest);
                assert(c.end == j);
                assert forall|a: int, b: int|
                    0 <= a < b < body_comps(s, i).len() implies (#[trigger] body_comps(s, i)[a]).end
                    <= (#[trigger] body_comps(s, i)[b]).start by {
                    if a > 0 {
                        assert(body_comps(s, i)[a] == rest[a - 1]);
                        assert(body_comps(s, i)[b] == rest[b - 1]);
                    } else {
                        assert(body_comps(s, i)[b] == rest[b - 1]);
                    }
                }
                assert forall|k: int| 0 <= k < body_comps(s, i).len() implies i <= (
                #[trigger] body_comps(s, i)[k]).start <= body_comps(s, i)[k].end <= s.len() by {
                    if k > 0 {
                        assert(body_comps(s, i)[k] == rest[k - 1]);
                    }
                }
            }
        } else {
            let seg = s.subrange(i, j);
            if seg.len() == 0 || seg == seq!['.'] {
                assert(body_comps(s, i).len() == 0);
            } else {
                assert(body_comps(s, i).len() == 1);
            }
        }
    }
}

proof fn lemma_next_sep_bounds(s: Seq<char>, i: int)
    requires
        0 <= i <= s.len(),
    ensures
        i <= next_sep(s, i) <= s.len(),
    decreases s.len() - i,
{
    if i < s.len() && s[i] != '/' {
        lemma_next_sep_bounds(s, i + 1);
    }
}

/// Every component's text lies inside the path, in increasing order.
pub proof fn lemma_comps_fit(s: Seq<char>)
    requires
        s.len() <= usize::MAX,
    ensures
        comps_fit(s, comps(s), 0),
{
    lemma_body_comps_fit(s, 1);
    lemma_body_comps_fit(s, 0);
    if s.len() > 0 && (s[0] == '/' || (s[0] == '.' && (s.len() == 1 || s[1] == '/'))) {
        let b = body_comps(s, 1);
        let c = comps(s)[0];
        assert(comps(s) == seq![c] + b);
        assert forall|a: int, k: int|
            0 <= a < k < comps(s).len() implies (#[trigger] comps(s)[a]).end <= (
            #[trigger] comps(s)[k]).start by {
            assert(comps(s)[k] == b[k - 1]);
            if a > 0 {
                assert(comps(s)[a] == b[a - 1]);
            }
        }
        assert forall|k: int| 0 <= k < comps(s).len() implies 0 <= (
        #[trigger] comps(s)[k]).start <= comps(s)[k].end <= s.len() by {
            if k > 0 {
                assert(comps(s)[k] == b[k - 1]);
            }
        }
    }
}

/// `target.strip_prefix(base)` on text.
pub fn strip_prefix(target: &[char], base: &[char]) -> (r: Option<Vec<char>>)
    ensures
        r matches Some(v) ==> strip_prefix_seq(target@, base@) == Some(v@),
        r is None ==> strip_prefix_seq(target@, base@) is None,
{
    let t = components(target);
    let b = components(base);
    let tl = target.len();
    let bl = base.len();
    proof {
        lemma_comps_fit(target@);
        lemma_comps_fit(base@);
    }
    if b.len() > t.len() {
        return None;
    }
    let mut k: usize = 0;
    while k < b.len()
        invariant
            b@ == comps(base@),
            t@ == comps(target@),
            b@.len() <= t@.len(),
            k <= b@.len(),
            forall|m: int| 0 <= m < k ==> #[trigger] comp_same(target@, t@[m], base@, b@[m]),
            comps_fit(target@, t@, 0),
            comps_fit(base@, b@, 0),
        decreases b@.len() - k,
    {
        if !comp_same_exec(target, t[k], base, b[k]) {
            return None;
        }
        k = k + 1;
    }
    if b.len() == t.len() {
        Some(Vec::new())
    } else {
        let first = t[b.len()];
        let last = t[t.len() - 1];
        proof {
            if t@.len() - 1 > b@.len() {
                assert(t@[b@.len() as int].end <= t@[t@.len() - 1].start);
            }
        }
        Some(slice_chars(target, first.start, last.end))
    }
}

/// `Path::new(s).file_name()` on text.
pub fn file_name(v: &[char]) -> (r: Option<Vec<char>>)
    ensures
        r matches Some(x) ==> file_name_seq(v@) == Some(x@),
        r is None ==> file_name_seq(v@) is None,
{
    let cs = components(v);
    let vl = v.len();
    proof {
        lemma_comps_fit(v@);
    }
    if cs.len() > 0 && cs[cs.len() - 1].kind == CompKind::Normal {
        let c = cs[cs.len() - 1];
        Some(slice_chars(v, c.start, c.end))
    } else {
        None
    }
}

/// `file_name(...).unwrap_or_default()` as text.
pub open spec fn file_name_or_empty(s: Seq<char>) -> Seq<char> {
    match file_name_seq(s) {
        Some(n) => n,
        None => Seq::empty(),
    }
}

/// The file name of a path, or the empty string when it has none.
pub fn file_name_string(s: &str) -> (r: String)
    ensures
        r@ == file_name_or_empty(s@),
{
    let v = chars_of(s);
    match file_name(v.as_slice()) {
        Some(n) => string_of(n.as_slice()),
        None => String::new(),
    }
}

/// `PathBuf::from(base).join(p)` on Unix, as a string.
pub fn join_path(base: &str, p: &str) -> (r: String)
    ensures
        r@ == join_seq(base@, p@),
{
    let bv = chars_of(base);
    let pv = chars_of(p);
    let mut out: Vec<char> = Vec::new();
    if pv.len() > 0 && pv[0] == '/' {
        return string_of(pv.as_slice());
    }
    let mut i: usize = 0;
    while i < bv.len()
        invariant
            i <= bv@.len(),
            out@ == bv@.subrange(0, i as int),
        decreases bv@.len() - i,
    {
        out.push(bv[i]);
        i = i + 1;
        assert(out@ =~= bv@.subrange(0, i as int));
    }
    assert(out@ =~= bv@);
    if bv.len() > 0 && bv[bv.len() - 1] != '/' {
        out.push('/');
    }
    let ghost mid = out@;
    let mut k: usize = 0;
    while k < pv.len()
        invariant
            k <= pv@.len(),
            out@ == mid + pv@.subrange(0, k as int),
        decreases pv@.len() - k,
    {
        out.push(pv[k]);
        k = k + 1;
        assert(out@ =~= mid + pv@.subrange(0, k as int));
    }
    assert(pv@.subrange(0, pv@.len() as int) =~= pv@);
    string_of(out.as_slice())
}

/// `Path::extension` of a file name.
pub fn extension(name: &[char]) -> (r: Option<Vec<char>>)
    ensures
        r matches Some(x) ==> extension_seq(name@) == Some(x@),
        r is None ==> extension_seq(name@) is None,
{
    let mut i = name.len();
    while i > 0 && name[i - 1] != '.'
        invariant
            i <= name@.len(),
            forall|k: int| i <= k < name@.len() ==> name@[k] != '.',
        decreases i,
    {
        i = i - 1;
    }
    if i == 0 {
        assert(!exists|k: int| 0 <= k < name@.len() && name@[k] == '.');
        None
    } else {
        let ghost d = (i - 1) as int;
        proof {
            let c = choose|k: int|
                0 <= k < name@.len() && name@[k] == '.' && forall|m: int|
                    k < m < name@.len() ==> name@[m] != '.';
            assert(0 <= d < name@.len() && name@[d] == '.' && forall|m: int|
                d < m < name@.len() ==> name@[m] != '.');
            if c < d {
                assert(name@[d] != '.');
            }
            if c > d {
                assert(name@[c] != '.');
            }
            assert(c == d);
        }
        if i - 1 == 0 {
            None
        } else {
            Some(slice_chars(name, i, name.len()))
        }
    }
}

} // verus!

verus! {

/// Path equality as `Path`'s `==` decides it: same components.
pub open spec fn path_eq(a: Seq<char>, b: Seq<char>) -> bool {
    let ca = comps(a);
    let cb = comps(b);
    ca.len() == cb.len() && forall|k: int|
        0 <= k < ca.len() ==> #[trigger] comp_same(a, ca[k], b, cb[k])
}

/// `Path::new(a) == Path::new(b)`.
pub fn paths_equal(a: &str, b: &str) -> (r: bool)
    ensures
        r == path_eq(a@, b@),
{
    let av = chars_of(a);
    let bv = chars_of(b);
    let ca = components(av.as_slice());
    let cb = components(bv.as_slice());
    let al = av.len();
    let bl = bv.len();
    proof {
        lemma_comps_fit(av@);
        lemma_comps_fit(bv@);
    }
    if ca.len() != cb.len() {
        return false;
    }
    let mut k: usize = 0;
    while k < ca.len()
        invariant
            ca@ == comps(av@),
            cb@ == comps(bv@),
            ca@.len() == cb@.len(),
            av@ == a@,
            bv@ == b@,
            k <= ca@.len(),
            forall|m: int| 0 <= m < k ==> #[trigger] comp_same(av@, ca@[m], bv@, cb@[m]),
            comps_fit(av@, ca@, 0),
            comps_fit(bv@, cb@, 0),
        decreases ca@.len() - k,
    {
        if !comp_same_exec(av.as_slice(), ca[k], bv.as_slice(), cb[k]) {
            return false;
        }
        k = k + 1;
    }
    true
}

} // verus!
