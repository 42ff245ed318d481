//! The repository snapshot: its configuration file, which entries it
//! leaves out, the sizes it sums and the YAML text it writes.

use vstd::prelude::*;
use vstd::string::StringExecFns;
use vstd::string::StrSliceExecFns;
use crate::order::{is_perm, order_desc};
use crate::text::{
    chars_of, contains_char, first_piece, lines, lines_seq, owned, parse_unsigned, parse_unsigned_seq,
    split_chars, split_seq, starts_with, starts_with_seq, string_of, slice_chars, char_views,
    trim, trim_seq, str_eq, dec_seq, u64_to_string, usize_to_string, join_seq, trim_end_seq, trim_end_index, trim_char, trim_char_seq, views,
    lemma_split_nonempty,
};

verus! {

broadcast use vstd::string::group_string_axioms;

/// The snapshot's settings (`Admin/repo-info/config.yaml`).
pub struct RepoConfig {
    pub ignore_folders: Vec<String>,
    pub ignore_files: Vec<String>,
    pub history_limit: usize,
    pub history_expanded: bool,
}

/// The settings as values: (folders, files, history limit, expanded).
pub type ConfigView = (Seq<Seq<char>>, Seq<Seq<char>>, nat, bool);

impl View for RepoConfig {
    type V = ConfigView;

    open spec fn view(&self) -> ConfigView {
        (
            views(self.ignore_folders@),
            views(self.ignore_files@),
            self.history_limit as nat,
            self.history_expanded,
        )
    }
}

/// The settings used when the file is missing.
pub open spec fn default_config() -> ConfigView {
    (seq![".git"@], Seq::empty(), 20, false)
}

impl RepoConfig {
    /// The default settings: `.git` left out, twenty commits, folded.
    pub fn default_config() -> (c: RepoConfig)
        ensures
            c@ == default_config(),
    {
        let mut folders: Vec<String> = Vec::new();
        folders.push(owned(".git"));
        let c = RepoConfig {
            ignore_folders: folders,
            ignore_files: Vec::new(),
            history_limit: 20,
            history_expanded: false,
        };
        assert(c@.0 =~= default_config().0);
        assert(c@.1 =~= default_config().1);
        c
    }
}

/// A configuration line without its comment and trailing white space.
pub open spec fn config_line(raw: Seq<char>) -> Seq<char> {
    trim_end_seq(first_piece(raw, seq!['#']))
}

/// The item of a list line (`  - item` or `- item`).
pub open spec fn list_item(line: Seq<char>) -> Option<Seq<char>> {
    if starts_with_seq(line, seq![' ', ' ', '-', ' ']) {
        Some(line.subrange(4, line.len() as int))
    } else if starts_with_seq(line, seq!['-', ' ']) {
        Some(line.subrange(2, line.len() as int))
    } else {
        None
    }
}

/// Which list the following `- item` lines fill: none, folders or files.
pub enum ListTarget {
    Nothing,
    Folders,
    Files,
}

/// One line of the configuration file applied to the settings read so far.
pub open spec fn config_step(st: (ConfigView, ListTarget), raw: Seq<char>) -> (
    ConfigView,
    ListTarget,
) {
    let c = st.0;
    let line = config_line(raw);
    if trim_seq(line).len() == 0 {
        st
    } else if list_item(line) is Some {
        let v = trim_char_seq(trim_seq(list_item(line)->0), '"');
        match st.1 {
            ListTarget::Folders => ((c.0.push(v), c.1, c.2, c.3), st.1),
            ListTarget::Files => ((c.0, c.1.push(v), c.2, c.3), st.1),
            ListTarget::Nothing => st,
        }
    } else if line == "ignore_folders:"@ {
        ((Seq::empty(), c.1, c.2, c.3), ListTarget::Folders)
    } else if line == "ignore_files:"@ {
        ((c.0, Seq::empty(), c.2, c.3), ListTarget::Files)
    } else if starts_with_seq(line, "history_limit:"@) {
        let v = trim_seq(line.subrange("history_limit:"@.len() as int, line.len() as int));
        let limit = match parse_unsigned_seq(v, usize::MAX as nat) {
            Some(n) => n,
            None => c.2,
        };
        ((c.0, c.1, limit, c.3), ListTarget::Nothing)
    } else if starts_with_seq(line, "history_expanded:"@) {
        let v = trim_seq(line.subrange("history_expanded:"@.len() as int, line.len() as int));
        ((c.0, c.1, c.2, v == "true"@ || v == "yes"@ || v == "1"@), ListTarget::Nothing)
    } else {
        (c, ListTarget::Nothing)
    }
}

/// The lines applied one after another.
pub open spec fn config_fold(lines: Seq<Seq<char>>) -> (ConfigView, ListTarget)
    decreases lines.len(),
{
    if lines.len() == 0 {
        (default_config(), ListTarget::Nothing)
    } else {
        config_step(config_fold(lines.drop_last()), lines.last())
    }
}

/// The settings a configuration text gives.
pub open spec fn parse_config_seq(text: Seq<char>) -> ConfigView {
    config_fold(lines_seq(text)).0
}

/// The text of `line` from character `from` on.
fn tail_of(line: &str, from: usize) -> (r: String)
    requires
        from <= line@.len(),
    ensures
        r@ == line@.subrange(from as int, line@.len() as int),
{
    let v = chars_of(line);
    let t = slice_chars(v.as_slice(), from, v.len());
    string_of(t.as_slice())
}

/// `line.split('#').next()` with trailing white space trimmed.
fn config_line_exec(raw: &str) -> (r: String)
    ensures
        r@ == config_line(raw@),
{
    let v = chars_of(raw);
    let seps: [char; 1] = ['#'];
    assert(seps@ =~= seq!['#']);
    let pieces = split_chars(v.as_slice(), &seps);
    proof {
        lemma_split_nonempty(raw@, seq!['#']);
        assert(pieces@[0]@ == char_views(pieces@)[0]);
    }
    let head = &pieces[0];
    let j = trim_end_index(head.as_slice(), 0);
    assert(head@.subrange(0, head@.len() as int) =~= head@);
    let t = slice_chars(head.as_slice(), 0, j);
    string_of(t.as_slice())
}

/// One configuration line applied to the settings read so far.
fn config_step_exec(cfg: &mut RepoConfig, target: &mut ListTarget, raw: &str)
    ensures
        (final(cfg)@, *final(target)) == config_step((old(cfg)@, *old(target)), raw@),
{
    let line = config_line_exec(raw);
    let t = trim(line.as_str());
    if t.as_str().is_empty() {
        return;
    }
    proof {
        reveal_strlit("  - ");
        reveal_strlit("- ");
        reveal_strlit("history_limit:");
        reveal_strlit("history_expanded:");
        assert("  - "@ =~= seq![' ', ' ', '-', ' ']);
        assert("- "@ =~= seq!['-', ' ']);
    }
    let item: Option<String> = if starts_with(line.as_str(), "  - ") {
        assert("  - "@ =~= seq![' ', ' ', '-', ' ']);
        Some(tail_of(line.as_str(), 4))
    } else if starts_with(line.as_str(), "- ") {
        assert("- "@ =~= seq!['-', ' ']);
        assert(!starts_with_seq(line@, seq![' ', ' ', '-', ' ']));
        Some(tail_of(line.as_str(), 2))
    } else {
        assert(!starts_with_seq(line@, seq![' ', ' ', '-', ' ']));
        assert(!starts_with_seq(line@, seq!['-', ' ']));
        None
    };
    assert(item is Some <==> list_item(line@) is Some);
    match item {
        Some(it) => {
            assert(it@ == list_item(line@)->0);
            let ti = trim(it.as_str());
            let v = trim_char(ti.as_str(), '"');
            match *target {
                ListTarget::Folders => {
                    cfg.ignore_folders.push(v);
                    assert(views(cfg.ignore_folders@) =~= views(old(cfg).ignore_folders@).push(
                        trim_char_seq(trim_seq(list_item(line@)->0), '"'),
                    ));
                },
                ListTarget::Files => {
                    cfg.ignore_files.push(v);
                    assert(views(cfg.ignore_files@) =~= views(old(cfg).ignore_files@).push(
                        trim_char_seq(trim_seq(list_item(line@)->0), '"'),
                    ));
                },
                ListTarget::Nothing => {},
            }
        },
        None => {
            if str_eq(line.as_str(), "ignore_folders:") {
                cfg.ignore_folders = Vec::new();
                *target = ListTarget::Folders;
                assert(views(cfg.ignore_folders@) =~= Seq::<Seq<char>>::empty());
            } else if str_eq(line.as_str(), "ignore_files:") {
                cfg.ignore_files = Vec::new();
                *target = ListTarget::Files;
                assert(views(cfg.ignore_files@) =~= Seq::<Seq<char>>::empty());
            } else if starts_with(line.as_str(), "history_limit:") {
                let rest = tail_of(line.as_str(), 14);
                let v = trim(rest.as_str());
                match parse_unsigned(v.as_str(), usize::MAX as u64) {
                    Some(n) => {
                        cfg.history_limit = n as usize;
                    },
                    None => {},
                }
                *target = ListTarget::Nothing;
            } else if starts_with(line.as_str(), "history_expanded:") {
                let rest = tail_of(line.as_str(), 17);
                let v = trim(rest.as_str());
                let on = str_eq(v.as_str(), "true") || str_eq(v.as_str(), "yes") || str_eq(v.as_str(), "1");
                cfg.history_expanded = on;
                *target = ListTarget::Nothing;
            } else {
                *target = ListTarget::Nothing;
            }
        },
    }
}

/// Reads the snapshot settings from the text of the configuration file:
/// `key: value` scalars and the flat `ignore_folders:` / `ignore_files:`
/// lists; anything else is passed over.
pub fn parse_config(text: &str) -> (cfg: RepoConfig)
    ensures
        cfg@ == parse_config_seq(text@),
{
    let ls = lines(text);
    let mut cfg = RepoConfig::default_config();
    let mut target = ListTarget::Nothing;
    let mut i: usize = 0;
    assert(views(ls@).subrange(0, 0) =~= Seq::<Seq<char>>::empty());
    while i < ls.len()
        invariant
            i <= ls@.len(),
            views(ls@) == lines_seq(text@),
            (cfg@, target) == config_fold(views(ls@).subrange(0, i as int)),
        decreases ls@.len() - i,
    {
        config_step_exec(&mut cfg, &mut target, ls[i].as_str());
        assert(views(ls@).subrange(0, i + 1).drop_last() =~= views(ls@).subrange(0, i as int));
        i = i + 1;
    }
    assert(views(ls@).subrange(0, ls@.len() as int) =~= views(ls@));
    cfg
}

/// Whether one ignore pattern names an entry. A pattern holding `/` names
/// only the path relative to the root that it spells (its surrounding
/// `/` aside); any other pattern names an entry with that bare name at any
/// depth.
pub open spec fn pattern_hits(rel: Seq<char>, name: Seq<char>, pattern: Seq<char>) -> bool {
    if pattern.contains('/') {
        trim_char_seq(pattern, '/') == rel
    } else {
        pattern == name
    }
}

/// Whether any of the patterns names the entry.
pub open spec fn matches_ignore_seq(rel: Seq<char>, name: Seq<char>, patterns: Seq<Seq<char>>) -> bool {
    exists|k: int| 0 <= k < patterns.len() && pattern_hits(rel, name, #[trigger] patterns[k])
}

/// True if the entry at `rel` (path relative to the repository root) with
/// the given bare `name` is named by one of the patterns.
pub fn matches_ignore_pattern(rel: &str, name: &str, patterns: &[String]) -> (b: bool)
    ensures
        b == matches_ignore_seq(rel@, name@, views(patterns@)),
{
    let ghost ps = views(patterns@);
    let mut k: usize = 0;
    while k < patterns.len()
        invariant
            k <= patterns@.len(),
            ps == views(patterns@),
            forall|m: int| 0 <= m < k ==> !pattern_hits(rel@, name@, #[trigger] ps[m]),
        decreases patterns@.len() - k,
    {
        let pv = chars_of(patterns[k].as_str());
        let hit = if contains_char(pv.as_slice(), '/') {
            let t = trim_char(patterns[k].as_str(), '/');
            str_eq(t.as_str(), rel)
        } else {
            str_eq(patterns[k].as_str(), name)
        };
        assert(ps[k as int] == patterns@[k as int]@);
        if hit {
            assert(pattern_hits(rel@, name@, ps[k as int]));
            return true;
        }
        k = k + 1;
    }
    false
}

/// Whether an entry is left out: directories are matched against the
/// folder patterns, everything else against the file patterns.
pub open spec fn is_ignored_seq(
    rel: Seq<char>,
    name: Seq<char>,
    is_dir: bool,
    folders: Seq<Seq<char>>,
    files: Seq<Seq<char>>,
) -> bool {
    if is_dir {
        matches_ignore_seq(rel, name, folders)
    } else {
        matches_ignore_seq(rel, name, files)
    }
}

/// Whether an entry is left out of the snapshot.
pub fn is_ignored(rel: &str, name: &str, is_dir: bool, folders: &[String], files: &[String]) -> (b:
    bool)
    ensures
        b == is_ignored_seq(rel@, name@, is_dir, views(folders@), views(files@)),
{
    if is_dir {
        matches_ignore_pattern(rel, name, folders)
    } else {
        matches_ignore_pattern(rel, name, files)
    }
}

/// What the metadata of a directory entry says it is (without following
/// symbolic links): a directory, a regular file, or anything else
/// (including an entry whose metadata could not be read).
pub enum NodeKind {
    Dir,
    File,
    Other,
}

/// One entry of the tree as it was read: its name, kind, length (0 when
/// unknown) and, for a directory, what reading it gave (empty when it
/// could not be read).
pub struct RepoNode {
    pub name: String,
    pub kind: NodeKind,
    pub len: u64,
    pub children: Vec<RepoNode>,
}

/// Totals without any filtering (`raw_walk`): bytes and files of the
/// regular files under a node.
pub open spec fn node_raw(n: RepoNode) -> (int, int)
    decreases n, 1int,
{
    match n.kind {
        NodeKind::Dir => raw_total(n.children@),
        NodeKind::File => (n.len as int, 1),
        NodeKind::Other => (0, 0),
    }
}

pub open spec fn raw_total(es: Seq<RepoNode>) -> (int, int)
    decreases es, 0int,
{
    if es.len() == 0 {
        (0, 0)
    } else {
        let a = raw_total(es.drop_last());
        let b = node_raw(es.last());
        (a.0 + b.0, a.1 + b.1)
    }
}

/// Bytes and count of every entry that is not a directory: a bound on
/// every total the snapshot adds up.
pub open spec fn node_all(n: RepoNode) -> (int, int)
    decreases n, 1int,
{
    match n.kind {
        NodeKind::Dir => all_total(n.children@),
        _ => (n.len as int, 1),
    }
}

pub open spec fn all_total(es: Seq<RepoNode>) -> (int, int)
    decreases es, 0int,
{
    if es.len() == 0 {
        (0, 0)
    } else {
        let a = all_total(es.drop_last());
        let b = node_all(es.last());
        (a.0 + b.0, a.1 + b.1)
    }
}

/// An entry as written to the snapshot: (name, is_dir, bytes, files).
pub type EntryView = (Seq<char>, bool, int, int);

/// The path of a child relative to the root, given its parent's.
pub open spec fn child_rel(rel: Seq<char>, name: Seq<char>) -> Seq<char> {
    if rel.len() == 0 {
        name
    } else {
        rel + seq!['/'] + name
    }
}

/// The filtered walk (`walk`) over one entry whose parent is at `rel`:
/// (bytes, files, entries left out in the order met).
pub open spec fn walk_node(
    n: RepoNode,
    rel: Seq<char>,
    folders: Seq<Seq<char>>,
    files: Seq<Seq<char>>,
) -> (int, int, Seq<EntryView>)
    decreases n, 1int,
{
    let r = child_rel(rel, n.name@);
    let is_dir = n.kind is Dir;
    if is_ignored_seq(r, n.name@, is_dir, folders, files) {
        let t = if is_dir {
            raw_total(n.children@)
        } else {
            (n.len as int, 1)
        };
        (0, 0, seq![(r, is_dir, t.0, t.1)])
    } else {
        match n.kind {
            NodeKind::Dir => walk_entries(n.children@, r, folders, files),
            NodeKind::File => (n.len as int, 1, Seq::empty()),
            NodeKind::Other => (0, 0, Seq::empty()),
        }
    }
}

pub open spec fn walk_entries(
    es: Seq<RepoNode>,
    rel: Seq<char>,
    folders: Seq<Seq<char>>,
    files: Seq<Seq<char>>,
) -> (int, int, Seq<EntryView>)
    decreases es, 0int,
{
    if es.len() == 0 {
        (0, 0, Seq::empty())
    } else {
        let a = walk_entries(es.drop_last(), rel, folders, files);
        let b = walk_node(es.last(), rel, folders, files);
        (a.0 + b.0, a.1 + b.1, a.2 + b.2)
    }
}

/// The bytes and files of the entries in a list.
pub open spec fn entry_sum(s: Seq<EntryView>) -> (int, int)
    decreases s.len(),
{
    if s.len() == 0 {
        (0, 0)
    } else {
        let a = entry_sum(s.drop_last());
        (a.0 + s.last().2, a.1 + s.last().3)
    }
}

proof fn lemma_entry_sum_add(a: Seq<EntryView>, b: Seq<EntryView>)
    ensures
        entry_sum(a + b) == (entry_sum(a).0 + entry_sum(b).0, entry_sum(a).1 + entry_sum(b).1),
    decreases b.len(),
{
    if b.len() == 0 {
        assert(a + b =~= a);
    } else {
        lemma_entry_sum_add(a, b.drop_last());
        assert((a + b).drop_last() =~= a + b.drop_last());
    }
}

proof fn lemma_node_bounds(n: RepoNode, rel: Seq<char>, fo: Seq<Seq<char>>, fi: Seq<Seq<char>>)
    ensures
        0 <= node_raw(n).0 <= node_all(n).0,
        0 <= node_raw(n).1 <= node_all(n).1,
        0 <= walk_node(n, rel, fo, fi).0,
        0 <= walk_node(n, rel, fo, fi).1,
        walk_node(n, rel, fo, fi).0 + entry_sum(walk_node(n, rel, fo, fi).2).0 <= node_all(n).0,
        walk_node(n, rel, fo, fi).1 + entry_sum(walk_node(n, rel, fo, fi).2).1 <= node_all(n).1,
        entry_sum(walk_node(n, rel, fo, fi).2).0 >= 0,
        entry_sum(walk_node(n, rel, fo, fi).2).1 >= 0,
    decreases n, 1int,
{
    let r = child_rel(rel, n.name@);
    lemma_entries_bounds(n.children@, r, fo, fi);
    let w = walk_node(n, rel, fo, fi);
    if is_ignored_seq(r, n.name@, n.kind is Dir, fo, fi) {
        assert(w.2.drop_last() =~= Seq::<EntryView>::empty());
        assert(entry_sum(w.2.drop_last()) == (0int, 0int));
        assert(entry_sum(w.2) == (w.2[0].2, w.2[0].3));
        assert(w.0 == 0 && w.1 == 0);
    } else {
        if !(n.kind is Dir) {
            assert(w.2 =~= Seq::<EntryView>::empty());
        }
    }
}

proof fn lemma_entries_bounds(es: Seq<RepoNode>, rel: Seq<char>, fo: Seq<Seq<char>>, fi: Seq<Seq<char>>)
    ensures
        0 <= raw_total(es).0 <= all_total(es).0,
        0 <= raw_total(es).1 <= all_total(es).1,
        0 <= walk_entries(es, rel, fo, fi).0,
        0 <= walk_entries(es, rel, fo, fi).1,
        walk_entries(es, rel, fo, fi).0 + entry_sum(walk_entries(es, rel, fo, fi).2).0 <= all_total(es).0,
        walk_entries(es, rel, fo, fi).1 + entry_sum(walk_entries(es, rel, fo, fi).2).1 <= all_total(es).1,
        entry_sum(walk_entries(es, rel, fo, fi).2).0 >= 0,
        entry_sum(walk_entries(es, rel, fo, fi).2).1 >= 0,
    decreases es, 0int,
{
    if es.len() > 0 {
        lemma_entries_bounds(es.drop_last(), rel, fo, fi);
        lemma_node_bounds(es.last(), rel, fo, fi);
        let a = walk_entries(es.drop_last(), rel, fo, fi);
        let b = walk_node(es.last(), rel, fo, fi);
        lemma_entry_sum_add(a.2, b.2);
    }
}

proof fn lemma_all_prefix(es: Seq<RepoNode>, i: int)
    requires
        0 <= i <= es.len(),
    ensures
        all_total(es.subrange(0, i)).0 <= all_total(es).0,
        all_total(es.subrange(0, i)).1 <= all_total(es).1,
    decreases es.len() - i,
{
    if i < es.len() {
        lemma_all_prefix(es, i + 1);
        let p = es.subrange(0, i + 1);
        assert(p.drop_last() =~= es.subrange(0, i));
        lemma_node_bounds(p.last(), Seq::empty(), Seq::empty(), Seq::empty());
    } else {
        assert(es.subrange(0, i) =~= es);
    }
}

/// An entry of the snapshot, or one left out of it.
pub struct RepoEntry {
    pub name: String,
    pub is_dir: bool,
    pub bytes: u64,
    pub files: u64,
}

pub open spec fn entry_views(s: Seq<RepoEntry>) -> Seq<EntryView> {
    s.map_values(|e: RepoEntry| (e.name@, e.is_dir, e.bytes as int, e.files as int))
}

/// Facts about the first `i + 1` entries of a list, from those about the
/// first `i`.
proof fn lemma_step(es: Seq<RepoNode>, i: int, rel: Seq<char>, fo: Seq<Seq<char>>, fi: Seq<Seq<char>>)
    requires
        0 <= i < es.len(),
    ensures
        es.subrange(0, i + 1).drop_last() == es.subrange(0, i),
        es.subrange(0, i + 1).last() == es[i],
        all_total(es.subrange(0, i + 1)).0 <= all_total(es).0,
        all_total(es.subrange(0, i + 1)).1 <= all_total(es).1,
        node_all(es[i]).0 <= all_total(es).0,
        node_all(es[i]).1 <= all_total(es).1,
        walk_entries(es.subrange(0, i + 1), rel, fo, fi).0 <= all_total(es).0,
        walk_entries(es.subrange(0, i + 1), rel, fo, fi).1 <= all_total(es).1,
        raw_total(es.subrange(0, i + 1)).0 <= all_total(es).0,
        raw_total(es.subrange(0, i + 1)).1 <= all_total(es).1,
{
    assert(es.subrange(0, i + 1).drop_last() =~= es.subrange(0, i));
    lemma_all_prefix(es, i + 1);
    lemma_entries_bounds(es.subrange(0, i), rel, fo, fi);
    lemma_entries_bounds(es.subrange(0, i + 1), rel, fo, fi);
}

/// `raw_walk`: bytes and files under a node, nothing left out.
fn raw_node_exec(n: &RepoNode) -> (r: (u64, u64))
    requires
        node_all(*n).0 <= u64::MAX,
        node_all(*n).1 <= u64::MAX,
    ensures
        r.0 == node_raw(*n).0,
        r.1 == node_raw(*n).1,
    decreases *n,
{
    match n.kind {
        NodeKind::Dir => {
            let ghost es = n.children@;
            let mut b: u64 = 0;
            let mut f: u64 = 0;
            let mut i: usize = 0;
            assert(es.subrange(0, 0) =~= Seq::<RepoNode>::empty());
            while i < n.children.len()
                invariant
                    es == n.children@,
                    n.kind is Dir,
                    i <= es.len(),
                    all_total(es).0 <= u64::MAX,
                    all_total(es).1 <= u64::MAX,
                    b == raw_total(es.subrange(0, i as int)).0,
                    f == raw_total(es.subrange(0, i as int)).1,
                decreases es.len() - i,
            {
                proof {
                    lemma_step(es, i as int, Seq::empty(), Seq::empty(), Seq::empty());
                    lemma_node_bounds(es[i as int], Seq::empty(), Seq::empty(), Seq::empty());
                }
                let (cb, cf) = raw_node_exec(&n.children[i]);
                b = b + cb;
                f = f + cf;
                i = i + 1;
            }
            assert(es.subrange(0, es.len() as int) =~= es);
            (b, f)
        },
        NodeKind::File => (n.len, 1),
        NodeKind::Other => (0, 0),
    }
}

/// `child_rel`, computed.
fn child_rel_exec(rel: &str, name: &str) -> (r: String)
    ensures
        r@ == child_rel(rel@, name@),
{
    if rel.unicode_len() == 0 {
        owned(name)
    } else {
        let mut r = owned(rel);
        r.append("/");
        r.append(name);
        proof {
            reveal_strlit("/");
        }
        assert(r@ =~= rel@ + seq!['/'] + name@);
        r
    }
}

/// `walk` over one entry whose parent is at `rel`: returns its bytes and
/// files, and appends the entries left out, in the order met.
fn walk_node_exec(
    n: &RepoNode,
    rel: &str,
    folders: &[String],
    files: &[String],
    ignored: &mut Vec<RepoEntry>,
) -> (r: (u64, u64))
    requires
        node_all(*n).0 <= u64::MAX,
        node_all(*n).1 <= u64::MAX,
    ensures
        r.0 == walk_node(*n, rel@, views(folders@), views(files@)).0,
        r.1 == walk_node(*n, rel@, views(folders@), views(files@)).1,
        entry_views(final(ignored)@) == entry_views(old(ignored)@) + walk_node(
            *n,
            rel@,
            views(folders@),
            views(files@),
        ).2,
    decreases *n,
{
    let ghost fo = views(folders@);
    let ghost fi = views(files@);
    let r = child_rel_exec(rel, n.name.as_str());
    let is_dir = match n.kind {
        NodeKind::Dir => true,
        _ => false,
    };
    proof {
        lemma_node_bounds(*n, rel@, fo, fi);
        lemma_entries_bounds(n.children@, r@, fo, fi);
    }
    if is_ignored(r.as_str(), n.name.as_str(), is_dir, folders, files) {
        let t = if is_dir {
            raw_node_exec(n)
        } else {
            (n.len, 1)
        };
        let ghost before = ignored@;
        ignored.push(RepoEntry { name: r, is_dir, bytes: t.0, files: t.1 });
        assert(entry_views(ignored@) =~= entry_views(before) + walk_node(*n, rel@, fo, fi).2);
        return (0, 0);
    }
    match n.kind {
        NodeKind::Dir => {
            let ghost es = n.children@;
            let ghost ig0 = entry_views(ignored@);
            let mut b: u64 = 0;
            let mut f: u64 = 0;
            let mut i: usize = 0;
            assert(es.subrange(0, 0) =~= Seq::<RepoNode>::empty());
            assert(ig0 + Seq::<EntryView>::empty() =~= ig0);
            while i < n.children.len()
                invariant
                    es == n.children@,
                    fo == views(folders@),
                    fi == views(files@),
                    i <= es.len(),
                    all_total(es).0 <= u64::MAX,
                    all_total(es).1 <= u64::MAX,
                    b == walk_entries(es.subrange(0, i as int), r@, fo, fi).0,
                    f == walk_entries(es.subrange(0, i as int), r@, fo, fi).1,
                    entry_views(ignored@) == ig0 + walk_entries(es.subrange(0, i as int), r@, fo, fi).2,
                decreases es.len() - i,
            {
                proof {
                    lemma_step(es, i as int, r@, fo, fi);
                }
                let ghost ig1 = entry_views(ignored@);
                let (cb, cf) = walk_node_exec(&n.children[i], r.as_str(), folders, files, ignored);
                proof {
                    let a = walk_entries(es.subrange(0, i as int), r@, fo, fi);
                    let c = walk_node(es[i as int], r@, fo, fi);
                    assert(entry_views(ignored@) =~= ig0 + (a.2 + c.2));
                }
                b = b + cb;
                f = f + cf;
                i = i + 1;
            }
            assert(es.subrange(0, es.len() as int) =~= es);
            (b, f)
        },
        NodeKind::File => {
            assert(entry_views(ignored@) =~= entry_views(old(ignored)@) + Seq::<EntryView>::empty());
            (n.len, 1)
        },
        NodeKind::Other => {
            assert(entry_views(ignored@) =~= entry_views(old(ignored)@) + Seq::<EntryView>::empty());
            (0, 0)
        },
    }
}

/// The root's own entries as the snapshot lists them (before sorting):
/// each directory with its filtered totals, each file with its length;
/// entries left out, and entries that are neither, are not listed.
pub open spec fn top_entries(es: Seq<RepoNode>, fo: Seq<Seq<char>>, fi: Seq<Seq<char>>) -> Seq<
    EntryView,
>
    decreases es.len(),
{
    if es.len() == 0 {
        Seq::empty()
    } else {
        let a = top_entries(es.drop_last(), fo, fi);
        let n = es.last();
        if is_ignored_seq(n.name@, n.name@, n.kind is Dir, fo, fi) {
            a
        } else {
            match n.kind {
                NodeKind::Dir => {
                    let w = walk_entries(n.children@, n.name@, fo, fi);
                    a.push((n.name@, true, w.0, w.1))
                },
                NodeKind::File => a.push((n.name@, false, n.len as int, 1)),
                NodeKind::Other => a,
            }
        }
    }
}

/// The root's entries add up to the totals of the filtered walk.
pub proof fn lemma_top_entries_sum(es: Seq<RepoNode>, fo: Seq<Seq<char>>, fi: Seq<Seq<char>>)
    ensures
        entry_sum(top_entries(es, fo, fi)).0 == walk_entries(es, Seq::empty(), fo, fi).0,
        entry_sum(top_entries(es, fo, fi)).1 == walk_entries(es, Seq::empty(), fo, fi).1,
    decreases es.len(),
{
    if es.len() > 0 {
        lemma_top_entries_sum(es.drop_last(), fo, fi);
        let n = es.last();
        let a = top_entries(es.drop_last(), fo, fi);
        assert(child_rel(Seq::empty(), n.name@) == n.name@);
        let wa = walk_entries(es.drop_last(), Seq::empty(), fo, fi);
        let wb = walk_node(n, Seq::empty(), fo, fi);
        assert(walk_entries(es, Seq::empty(), fo, fi).0 == wa.0 + wb.0);
        if is_ignored_seq(n.name@, n.name@, n.kind is Dir, fo, fi) {
            assert(wb.0 == 0 && wb.1 == 0);
            assert(top_entries(es, fo, fi) == a);
        }
        if !is_ignored_seq(n.name@, n.name@, n.kind is Dir, fo, fi) {
            match n.kind {
                NodeKind::Dir => {
                    let w = walk_entries(n.children@, n.name@, fo, fi);
                    assert(a.push((n.name@, true, w.0, w.1)).drop_last() =~= a);
                },
                NodeKind::File => {
                    assert(a.push((n.name@, false, n.len as int, 1)).drop_last() =~= a);
                },
                NodeKind::Other => {},
            }
        }
    }
}

/// `items` reordered: larger byte counts first, equal ones in their first
/// order (what a stable `sort_by` on bytes, descending, gives).
pub open spec fn sorted_by_bytes(items: Seq<EntryView>, out: Seq<EntryView>) -> bool {
    exists|p: Seq<usize>|
        {
            &&& is_perm(p, items.len())
            &&& out.len() == items.len()
            &&& forall|i: int| 0 <= i < items.len() ==> #[trigger] out[i] == items[p[i] as int]
            &&& forall|i: int, j: int|
                #![trigger p[i], p[j]]
                0 <= i < j < items.len() ==> items[p[i] as int].2 > items[p[j] as int].2 || (
                items[p[i] as int].2 == items[p[j] as int].2 && p[i] < p[j])
        }
}

impl RepoEntry {
    /// An equal copy.
    pub fn duplicate(&self) -> (r: Self)
        ensures
            r == *self,
    {
        RepoEntry { name: self.name.clone(), is_dir: self.is_dir, bytes: self.bytes, files: self.files }
    }
}

/// Entries by bytes, largest first, ties in their first order.
pub fn sort_by_bytes(v: &Vec<RepoEntry>) -> (out: Vec<RepoEntry>)
    ensures
        sorted_by_bytes(entry_views(v@), entry_views(out@)),
{
    let mut keys: Vec<u64> = Vec::new();
    let mut i: usize = 0;
    while i < v.len()
        invariant
            i <= v@.len(),
            keys@.len() == i,
            forall|k: int| 0 <= k < i ==> keys@[k] == v@[k].bytes,
        decreases v@.len() - i,
    {
        keys.push(v[i].bytes);
        i = i + 1;
    }
    let p = order_desc(&keys);
    let mut out: Vec<RepoEntry> = Vec::new();
    let mut k: usize = 0;
    while k < p.len()
        invariant
            is_perm(p@, v@.len()),
            keys@.len() == v@.len(),
            k <= p@.len(),
            out@.len() == k,
            forall|m: int| 0 <= m < k ==> #[trigger] out@[m] == v@[p@[m] as int],
        decreases p@.len() - k,
    {
        out.push(v[p[k]].duplicate());
        k = k + 1;
    }
    proof {
        let items = entry_views(v@);
        assert(entry_views(out@).len() == items.len());
        assert forall|m: int| 0 <= m < items.len() implies #[trigger] entry_views(out@)[m]
            == items[p@[m] as int] by {
            assert(out@[m] == v@[p@[m] as int]);
        }
        assert forall|a: int, b: int|
            #![trigger p@[a], p@[b]]
            0 <= a < b < items.len() implies items[p@[a] as int].2 > items[p@[b] as int].2 || (
            items[p@[a] as int].2 == items[p@[b] as int].2 && p@[a] < p@[b]) by {
            assert(keys@[p@[a] as int] == v@[p@[a] as int].bytes);
            assert(keys@[p@[b] as int] == v@[p@[b] as int].bytes);
        }
    }
    out
}

/// What the scan of the root gives: its entries and the entries left out,
/// both largest first, and the totals of the entries.
pub struct RepoScan {
    pub entries: Vec<RepoEntry>,
    pub ignored: Vec<RepoEntry>,
    pub total_bytes: u64,
    pub total_files: u64,
}

/// Bytes and count of every entry that is not a directory, or nothing
/// when either does not fit in a `u64`.
pub fn tree_totals(es: &Vec<RepoNode>) -> (r: Option<(u64, u64)>)
    ensures
        match r {
            Some(t) => t.0 == all_total(es@).0 && t.1 == all_total(es@).1,
            None => all_total(es@).0 > u64::MAX || all_total(es@).1 > u64::MAX,
        },
    decreases es@,
{
    let ghost s = es@;
    let mut b: u64 = 0;
    let mut f: u64 = 0;
    let mut i: usize = 0;
    assert(s.subrange(0, 0) =~= Seq::<RepoNode>::empty());
    while i < es.len()
        invariant
            s == es@,
            i <= s.len(),
            b == all_total(s.subrange(0, i as int)).0,
            f == all_total(s.subrange(0, i as int)).1,
        decreases s.len() - i,
    {
        let n = &es[i];
        proof {
            assert(s.subrange(0, i + 1).drop_last() =~= s.subrange(0, i as int));
            lemma_all_prefix(s, i + 1);
            lemma_node_bounds(s[i as int], Seq::empty(), Seq::empty(), Seq::empty());
        }
        let (nb, nf) = match n.kind {
            NodeKind::Dir => match tree_totals(&n.children) {
                Some(t) => t,
                None => {
                    proof {
                        lemma_all_prefix(s, i + 1);
                    }
                    return None;
                },
            },
            _ => (n.len, 1u64),
        };
        if nb > u64::MAX - b || nf > u64::MAX - f {
            proof {
                lemma_all_prefix(s, i + 1);
            }
            return None;
        }
        b = b + nb;
        f = f + nf;
        i = i + 1;
    }
    assert(s.subrange(0, s.len() as int) =~= s);
    Some((b, f))
}

/// Scans the root's entries as `write_snapshot` does: entries named by
/// the ignore patterns are left out and listed with their unfiltered
/// totals; directories get the totals of the filtered walk below them.
pub fn scan_repo(es: &Vec<RepoNode>, cfg: &RepoConfig) -> (r: RepoScan)
    requires
        all_total(es@).0 <= u64::MAX,
        all_total(es@).1 <= u64::MAX,
    ensures
        sorted_by_bytes(top_entries(es@, cfg@.0, cfg@.1), entry_views(r.entries@)),
        sorted_by_bytes(walk_entries(es@, Seq::empty(), cfg@.0, cfg@.1).2, entry_views(r.ignored@)),
        r.total_bytes == entry_sum(top_entries(es@, cfg@.0, cfg@.1)).0,
        r.total_files == entry_sum(top_entries(es@, cfg@.0, cfg@.1)).1,
{
    let ghost s = es@;
    let ghost fo = cfg@.0;
    let ghost fi = cfg@.1;
    let folders = cfg.ignore_folders.as_slice();
    let files = cfg.ignore_files.as_slice();
    let mut entries: Vec<RepoEntry> = Vec::new();
    let mut ignored: Vec<RepoEntry> = Vec::new();
    let mut i: usize = 0;
    assert(s.subrange(0, 0) =~= Seq::<RepoNode>::empty());
    while i < es.len()
        invariant
            s == es@,
            fo == views(folders@),
            fi == views(files@),
            i <= s.len(),
            all_total(s).0 <= u64::MAX,
            all_total(s).1 <= u64::MAX,
            entry_views(entries@) == top_entries(s.subrange(0, i as int), fo, fi),
            entry_views(ignored@) == walk_entries(s.subrange(0, i as int), Seq::empty(), fo, fi).2,
        decreases s.len() - i,
    {
        let n = &es[i];
        proof {
            lemma_step(s, i as int, Seq::empty(), fo, fi);
            lemma_node_bounds(s[i as int], Seq::empty(), fo, fi);
            assert(child_rel(Seq::empty(), n.name@) == n.name@);
        }
        let is_dir = match n.kind {
            NodeKind::Dir => true,
            _ => false,
        };
        let ghost ig0 = entry_views(ignored@);
        let ghost en0 = entry_views(entries@);
        if is_ignored(n.name.as_str(), n.name.as_str(), is_dir, folders, files) {
            let t = if is_dir {
                raw_node_exec(n)
            } else {
                (n.len, 1)
            };
            ignored.push(RepoEntry { name: n.name.clone(), is_dir, bytes: t.0, files: t.1 });
            assert(entry_views(ignored@) =~= ig0 + walk_node(s[i as int], Seq::empty(), fo, fi).2);
        } else {
            match n.kind {
                NodeKind::Dir => {
                    let (b, f) = walk_node_exec(n, "", folders, files, &mut ignored);
                    proof {
                        reveal_strlit("");
                    }
                    entries.push(RepoEntry { name: n.name.clone(), is_dir: true, bytes: b, files: f });
                    assert(entry_views(entries@) =~= en0.push((n.name@, true, b as int, f as int)));
                },
                NodeKind::File => {
                    entries.push(RepoEntry { name: n.name.clone(), is_dir: false, bytes: n.len, files: 1 });
                    assert(entry_views(entries@) =~= en0.push((n.name@, false, n.len as int, 1)));
                    assert(ig0 + Seq::<EntryView>::empty() =~= ig0);
                },
                NodeKind::Other => {
                    assert(ig0 + Seq::<EntryView>::empty() =~= ig0);
                },
            }
        }
        i = i + 1;
    }
    assert(s.subrange(0, s.len() as int) =~= s);
    proof {
        lemma_top_entries_sum(s, fo, fi);
        lemma_entries_bounds(s, Seq::empty(), fo, fi);
    }
    let mut tb: u64 = 0;
    let mut tf: u64 = 0;
    let mut k: usize = 0;
    let ghost ev = entry_views(entries@);
    assert(ev.subrange(0, 0) =~= Seq::<EntryView>::empty());
    while k < entries.len()
        invariant
            ev == entry_views(entries@),
            k <= ev.len(),
            entry_sum(ev).0 <= u64::MAX,
            entry_sum(ev).1 <= u64::MAX,
            forall|m: int| 0 <= m < ev.len() ==> #[trigger] ev[m].2 >= 0 && ev[m].3 >= 0,
            tb == entry_sum(ev.subrange(0, k as int)).0,
            tf == entry_sum(ev.subrange(0, k as int)).1,
        decreases ev.len() - k,
    {
        proof {
            lemma_entry_sum_prefix(ev, k + 1);
            assert(ev.subrange(0, k + 1).drop_last() =~= ev.subrange(0, k as int));
            assert(ev[k as int].2 == entries@[k as int].bytes);
        }
        tb = tb + entries[k].bytes;
        tf = tf + entries[k].files;
        k = k + 1;
    }
    assert(ev.subrange(0, ev.len() as int) =~= ev);
    let sorted_entries = sort_by_bytes(&entries);
    let sorted_ignored = sort_by_bytes(&ignored);
    RepoScan { entries: sorted_entries, ignored: sorted_ignored, total_bytes: tb, total_files: tf }
}

proof fn lemma_entry_sum_prefix(s: Seq<EntryView>, i: int)
    requires
        0 <= i <= s.len(),
        forall|m: int| 0 <= m < s.len() ==> #[trigger] s[m].2 >= 0 && s[m].3 >= 0,
    ensures
        entry_sum(s.subrange(0, i)).0 <= entry_sum(s).0,
        entry_sum(s.subrange(0, i)).1 <= entry_sum(s).1,
    decreases s.len() - i,
{
    if i < s.len() {
        lemma_entry_sum_prefix(s, i + 1);
        assert(s.subrange(0, i + 1).drop_last() =~= s.subrange(0, i));
        assert(s.subrange(0, i + 1).last() == s[i]);
    } else {
        assert(s.subrange(0, i) =~= s);
    }
}

/// No entry that is left out is neither a directory nor a regular file.
pub open spec fn plain_left_out_node(n: RepoNode, rel: Seq<char>, fo: Seq<Seq<char>>, fi: Seq<Seq<char>>) -> bool
    decreases n, 1int,
{
    let r = child_rel(rel, n.name@);
    if is_ignored_seq(r, n.name@, n.kind is Dir, fo, fi) {
        !(n.kind is Other)
    } else {
        match n.kind {
            NodeKind::Dir => plain_left_out(n.children@, r, fo, fi),
            _ => true,
        }
    }
}

pub open spec fn plain_left_out(es: Seq<RepoNode>, rel: Seq<char>, fo: Seq<Seq<char>>, fi: Seq<Seq<char>>) -> bool
    decreases es, 0int,
{
    es.len() == 0 || (plain_left_out(es.drop_last(), rel, fo, fi) && plain_left_out_node(
        es.last(),
        rel,
        fo,
        fi,
    ))
}

/// Every regular file below a node is counted exactly once: in the
/// filtered walk's totals or in one entry left out.
pub proof fn lemma_counted_once_node(n: RepoNode, rel: Seq<char>, fo: Seq<Seq<char>>, fi: Seq<Seq<char>>)
    requires
        plain_left_out_node(n, rel, fo, fi),
    ensures
        walk_node(n, rel, fo, fi).0 + entry_sum(walk_node(n, rel, fo, fi).2).0 == node_raw(n).0,
        walk_node(n, rel, fo, fi).1 + entry_sum(walk_node(n, rel, fo, fi).2).1 == node_raw(n).1,
    decreases n, 1int,
{
    let r = child_rel(rel, n.name@);
    let w = walk_node(n, rel, fo, fi);
    if is_ignored_seq(r, n.name@, n.kind is Dir, fo, fi) {
        assert(w.2.drop_last() =~= Seq::<EntryView>::empty());
        assert(entry_sum(w.2.drop_last()) == (0int, 0int));
    } else {
        match n.kind {
            NodeKind::Dir => {
                lemma_counted_once(n.children@, r, fo, fi);
            },
            _ => {
                assert(w.2 =~= Seq::<EntryView>::empty());
            },
        }
    }
}

/// Every regular file below a list of entries is counted exactly once:
/// in the filtered walk's totals or in one entry left out.
pub proof fn lemma_counted_once(es: Seq<RepoNode>, rel: Seq<char>, fo: Seq<Seq<char>>, fi: Seq<Seq<char>>)
    requires
        plain_left_out(es, rel, fo, fi),
    ensures
        walk_entries(es, rel, fo, fi).0 + entry_sum(walk_entries(es, rel, fo, fi).2).0 == raw_total(es).0,
        walk_entries(es, rel, fo, fi).1 + entry_sum(walk_entries(es, rel, fo, fi).2).1 == raw_total(es).1,
    decreases es, 0int,
{
    if es.len() > 0 {
        lemma_counted_once(es.drop_last(), rel, fo, fi);
        lemma_counted_once_node(es.last(), rel, fo, fi);
        let a = walk_entries(es.drop_last(), rel, fo, fi);
        let b = walk_node(es.last(), rel, fo, fi);
        lemma_entry_sum_add(a.2, b.2);
    }
}

/// What a character becomes inside a double-quoted YAML scalar: `\` and
/// `"` are escaped, a line feed is written `\n`, a carriage return dropped.
pub open spec fn yaml_escape_char(c: char) -> Seq<char> {
    if c == '\\' {
        seq!['\\', '\\']
    } else if c == '"' {
        seq!['\\', '"']
    } else if c == '\n' {
        seq!['\\', 'n']
    } else if c == '\r' {
        Seq::empty()
    } else {
        seq![c]
    }
}

pub open spec fn yaml_escape(s: Seq<char>) -> Seq<char>
    decreases s.len(),
{
    if s.len() == 0 {
        Seq::empty()
    } else {
        yaml_escape(s.drop_last()) + yaml_escape_char(s.last())
    }
}

/// `s` as a double-quoted YAML scalar.
pub open spec fn yaml_quote_seq(s: Seq<char>) -> Seq<char> {
    seq!['"'] + yaml_escape(s) + seq!['"']
}

/// Writes `s` as a double-quoted YAML scalar.
pub fn yaml_quote(s: &str) -> (r: String)
    ensures
        r@ == yaml_quote_seq(s@),
{
    let v = chars_of(s);
    let mut out: Vec<char> = Vec::new();
    out.push('"');
    let mut i: usize = 0;
    assert(v@.subrange(0, 0) =~= Seq::<char>::empty());
    while i < v.len()
        invariant
            v@ == s@,
            i <= v@.len(),
            out@ == seq!['"'] + yaml_escape(v@.subrange(0, i as int)),
        decreases v@.len() - i,
    {
        let c = v[i];
        let ghost pre = out@;
        if c == '\\' {
            out.push('\\');
            out.push('\\');
        } else if c == '"' {
            out.push('\\');
            out.push('"');
        } else if c == '\n' {
            out.push('\\');
            out.push('n');
        } else if c == '\r' {
        } else {
            out.push(c);
        }
        assert(v@.subrange(0, i + 1).drop_last() =~= v@.subrange(0, i as int));
        assert(out@ =~= pre + yaml_escape_char(c));
        i = i + 1;
    }
    out.push('"');
    assert(v@.subrange(0, v@.len() as int) =~= v@);
    assert(out@ =~= yaml_quote_seq(s@));
    string_of(out.as_slice())
}

/// A record of the log without its leading line breaks.
pub open spec fn trim_start_breaks(s: Seq<char>) -> Seq<char>
    decreases s.len(),
{
    if s.len() > 0 && (s[0] == '\n' || s[0] == '\r') {
        trim_start_breaks(s.drop_first())
    } else {
        s
    }
}

/// The `k`-th field, empty when there are fewer.
pub open spec fn field_at(fs: Seq<Seq<char>>, k: int) -> Seq<char> {
    if 0 <= k < fs.len() {
        fs[k]
    } else {
        Seq::empty()
    }
}

/// A commit: (hash, date, author, subject, body).
pub type CommitView = (Seq<char>, Seq<char>, Seq<char>, Seq<char>, Seq<char>);

/// The commit a log record holds: fields separated by U+001F, the hash
/// and body trimmed.
pub open spec fn record_commit(rec: Seq<char>) -> CommitView {
    let fs = split_seq(trim_start_breaks(rec), seq!['\u{1f}']);
    (trim_seq(field_at(fs, 0)), field_at(fs, 1), field_at(fs, 2), field_at(fs, 3), trim_seq(field_at(fs, 4)))
}

/// The commits of a list of records, records with an empty hash passed over.
pub open spec fn commits_of(recs: Seq<Seq<char>>) -> Seq<CommitView>
    decreases recs.len(),
{
    if recs.len() == 0 {
        Seq::empty()
    } else {
        let a = commits_of(recs.drop_last());
        let c = record_commit(recs.last());
        if c.0.len() == 0 {
            a
        } else {
            a.push(c)
        }
    }
}

/// The commits of a `git log` output whose records end with U+001E.
pub open spec fn history_seq(log: Seq<char>) -> Seq<CommitView> {
    commits_of(split_seq(log, seq!['\u{1e}']))
}

/// A commit of the history.
pub struct Commit {
    pub hash: String,
    pub date: String,
    pub author: String,
    pub subject: String,
    pub body: String,
}

pub open spec fn commit_views(s: Seq<Commit>) -> Seq<CommitView> {
    s.map_values(|c: Commit| (c.hash@, c.date@, c.author@, c.subject@, c.body@))
}

fn field_exec(fs: &Vec<Vec<char>>, k: usize) -> (r: String)
    ensures
        r@ == field_at(char_views(fs@), k as int),
{
    if k < fs.len() {
        assert(char_views(fs@)[k as int] == fs@[k as int]@);
        string_of(fs[k].as_slice())
    } else {
        String::new()
    }
}

fn record_commit_exec(rec: &Vec<char>) -> (c: Commit)
    ensures
        (c.hash@, c.date@, c.author@, c.subject@, c.body@) == record_commit(rec@),
{
    let mut i: usize = 0;
    assert(rec@.subrange(0, rec@.len() as int) =~= rec@);
    while i < rec.len() && (rec[i] == '\n' || rec[i] == '\r')
        invariant
            i <= rec@.len(),
            trim_start_breaks(rec@) == trim_start_breaks(rec@.subrange(i as int, rec@.len() as int)),
        decreases rec@.len() - i,
    {
        assert(rec@.subrange(i as int, rec@.len() as int).drop_first() =~= rec@.subrange(
            i + 1,
            rec@.len() as int,
        ));
        i = i + 1;
    }
    let body = slice_chars(rec.as_slice(), i, rec.len());
    assert(body@ == trim_start_breaks(rec@));
    let seps: [char; 1] = ['\u{1f}'];
    assert(seps@ =~= seq!['\u{1f}']);
    let fs = split_chars(body.as_slice(), &seps);
    let h = field_exec(&fs, 0);
    let b = field_exec(&fs, 4);
    Commit {
        hash: trim(h.as_str()),
        date: field_exec(&fs, 1),
        author: field_exec(&fs, 2),
        subject: field_exec(&fs, 3),
        body: trim(b.as_str()),
    }
}

/// The commits of a `git log` output (records ending with U+001E, fields
/// separated by U+001F), in order, records with an empty hash passed over.
pub fn parse_history(log: &str) -> (r: Vec<Commit>)
    ensures
        commit_views(r@) == history_seq(log@),
{
    let v = chars_of(log);
    let seps: [char; 1] = ['\u{1e}'];
    assert(seps@ =~= seq!['\u{1e}']);
    let recs = split_chars(v.as_slice(), &seps);
    let ghost rs = char_views(recs@);
    let mut out: Vec<Commit> = Vec::new();
    let mut k: usize = 0;
    assert(rs.subrange(0, 0) =~= Seq::<Seq<char>>::empty());
    while k < recs.len()
        invariant
            rs == char_views(recs@),
            k <= recs@.len(),
            commit_views(out@) == commits_of(rs.subrange(0, k as int)),
        decreases recs@.len() - k,
    {
        let c = record_commit_exec(&recs[k]);
        assert(rs[k as int] == recs@[k as int]@);
        assert(rs.subrange(0, k + 1).drop_last() =~= rs.subrange(0, k as int));
        let ghost pre = commit_views(out@);
        if c.hash.unicode_len() > 0 {
            out.push(c);
            assert(commit_views(out@) =~= pre.push(record_commit(rs[k as int])));
        }
        k = k + 1;
    }
    assert(rs.subrange(0, rs.len() as int) =~= rs);
    out
}

/// `true` or `false`, as `format!` writes a `bool`.
pub open spec fn bool_text(b: bool) -> Seq<char> {
    if b {
        "true"@
    } else {
        "false"@
    }
}

fn bool_str(b: bool) -> (r: &'static str)
    ensures
        r@ == bool_text(b),
{
    if b {
        "true"
    } else {
        "false"
    }
}

/// One entry of the `entries:` or `ignored:` list.
pub open spec fn entry_yaml(e: EntryView) -> Seq<char> {
    "  - name: "@ + yaml_quote_seq(e.0) + "\n    is_dir: "@ + bool_text(e.1) + "\n    bytes: "@
        + dec_seq(e.2 as nat) + "\n    files: "@ + dec_seq(e.3 as nat) + "\n"@
}

pub open spec fn entries_yaml(s: Seq<EntryView>) -> Seq<char>
    decreases s.len(),
{
    if s.len() == 0 {
        Seq::empty()
    } else {
        entries_yaml(s.drop_last()) + entry_yaml(s.last())
    }
}

/// One commit of the `history:` list.
pub open spec fn commit_yaml(c: CommitView) -> Seq<char> {
    "  - hash: "@ + yaml_quote_seq(c.0) + "\n    date: "@ + yaml_quote_seq(c.1) + "\n    author: "@
        + yaml_quote_seq(c.2) + "\n    subject: "@ + yaml_quote_seq(c.3) + "\n    body: "@
        + yaml_quote_seq(c.4) + "\n"@
}

pub open spec fn commits_yaml(s: Seq<CommitView>) -> Seq<char>
    decreases s.len(),
{
    if s.len() == 0 {
        Seq::empty()
    } else {
        commits_yaml(s.drop_last()) + commit_yaml(s.last())
    }
}

/// Each item quoted.
pub open spec fn quoted(items: Seq<Seq<char>>) -> Seq<Seq<char>> {
    items.map_values(|i: Seq<char>| yaml_quote_seq(i))
}

/// What the snapshot records besides the scan: when it was made, the
/// root's path, what `git` answered, and the raw `git log` output.
pub struct SnapshotFacts {
    pub generated_unix: u64,
    pub repo_path: String,
    pub git_remote: String,
    pub git_branch: String,
    pub git_commit: String,
    pub git_log: String,
}

/// The text of `repo-info.yaml`.
pub open spec fn snapshot_text(
    f: SnapshotFacts,
    cfg: ConfigView,
    entries: Seq<EntryView>,
    ignored: Seq<EntryView>,
    total_bytes: nat,
    total_files: nat,
) -> Seq<char> {
    "# generated by repo-server on startup — do not edit (configure via Admin/repo-info/config.yaml)\n"@
        + "generated_unix: "@ + dec_seq(f.generated_unix as nat) + "\n"@ + "repo_path: "@
        + yaml_quote_seq(f.repo_path@) + "\n"@ + "git_remote: "@ + yaml_quote_seq(f.git_remote@)
        + "\n"@ + "git_branch: "@ + yaml_quote_seq(f.git_branch@) + "\n"@ + "git_commit: "@
        + yaml_quote_seq(f.git_commit@) + "\n"@ + "ignore_folders: ["@ + join_seq(
        quoted(cfg.0),
        ", "@,
    ) + "]\n"@ + "ignore_files: ["@ + join_seq(quoted(cfg.1), ", "@) + "]\n"@ + "total_bytes: "@
        + dec_seq(total_bytes) + "\n"@ + "total_files: "@ + dec_seq(total_files) + "\n"@
        + "history_expanded: "@ + bool_text(cfg.3) + "\n"@ + "entries:\n"@ + entries_yaml(entries)
        + "ignored:\n"@ + entries_yaml(ignored) + "history:\n"@ + commits_yaml(
        history_seq(f.git_log@),
    )
}

fn quoted_list(items: &Vec<String>) -> (r: String)
    ensures
        r@ == join_seq(quoted(views(items@)), ", "@),
{
    let mut q: Vec<String> = Vec::new();
    let mut i: usize = 0;
    while i < items.len()
        invariant
            i <= items@.len(),
            q@.len() == i,
            forall|k: int| 0 <= k < i ==> #[trigger] q@[k]@ == yaml_quote_seq(items@[k]@),
        decreases items@.len() - i,
    {
        q.push(yaml_quote(items[i].as_str()));
        i = i + 1;
    }
    assert(views(q@) =~= quoted(views(items@)));
    crate::text::join(&q, ", ")
}

fn push_entries_yaml(out: &mut String, es: &Vec<RepoEntry>)
    ensures
        final(out)@ == old(out)@ + entries_yaml(entry_views(es@)),
{
    let ghost ev = entry_views(es@);
    let ghost start = out@;
    let mut i: usize = 0;
    assert(ev.subrange(0, 0) =~= Seq::<EntryView>::empty());
    assert(start + Seq::<char>::empty() =~= start);
    while i < es.len()
        invariant
            ev == entry_views(es@),
            i <= es@.len(),
            out@ == start + entries_yaml(ev.subrange(0, i as int)),
        decreases es@.len() - i,
    {
        let e = &es[i];
        let ghost pre = out@;
        out.append("  - name: ");
        let q = yaml_quote(e.name.as_str());
        out.append(q.as_str());
        out.append("\n    is_dir: ");
        out.append(bool_str(e.is_dir));
        out.append("\n    bytes: ");
        let b = u64_to_string(e.bytes);
        out.append(b.as_str());
        out.append("\n    files: ");
        let f = u64_to_string(e.files);
        out.append(f.as_str());
        out.append("\n");
        assert(ev[i as int] == (e.name@, e.is_dir, e.bytes as int, e.files as int));
        assert(out@ =~= pre + entry_yaml(ev[i as int]));
        assert(ev.subrange(0, i + 1).drop_last() =~= ev.subrange(0, i as int));
        i = i + 1;
    }
    assert(ev.subrange(0, ev.len() as int) =~= ev);
}

fn push_commits_yaml(out: &mut String, cs: &Vec<Commit>)
    ensures
        final(out)@ == old(out)@ + commits_yaml(commit_views(cs@)),
{
    let ghost cv = commit_views(cs@);
    let ghost start = out@;
    let mut i: usize = 0;
    assert(cv.subrange(0, 0) =~= Seq::<CommitView>::empty());
    assert(start + Seq::<char>::empty() =~= start);
    while i < cs.len()
        invariant
            cv == commit_views(cs@),
            i <= cs@.len(),
            out@ == start + commits_yaml(cv.subrange(0, i as int)),
        decreases cs@.len() - i,
    {
        let c = &cs[i];
        let ghost pre = out@;
        out.append("  - hash: ");
        let q = yaml_quote(c.hash.as_str());
        out.append(q.as_str());
        out.append("\n    date: ");
        let q = yaml_quote(c.date.as_str());
        out.append(q.as_str());
        out.append("\n    author: ");
        let q = yaml_quote(c.author.as_str());
        out.append(q.as_str());
        out.append("\n    subject: ");
        let q = yaml_quote(c.subject.as_str());
        out.append(q.as_str());
        out.append("\n    body: ");
        let q = yaml_quote(c.body.as_str());
        out.append(q.as_str());
        out.append("\n");
        assert(cv[i as int] == (c.hash@, c.date@, c.author@, c.subject@, c.body@));
        assert(out@ =~= pre + commit_yaml(cv[i as int]));
        assert(cv.subrange(0, i + 1).drop_last() =~= cv.subrange(0, i as int));
        i = i + 1;
    }
    assert(cv.subrange(0, cv.len() as int) =~= cv);
}

/// Writes the snapshot text for a scan that is already sorted.
pub fn snapshot_yaml(facts: &SnapshotFacts, cfg: &RepoConfig, scan: &RepoScan) -> (y: String)
    ensures
        y@ == snapshot_text(
            *facts,
            cfg@,
            entry_views(scan.entries@),
            entry_views(scan.ignored@),
            scan.total_bytes as nat,
            scan.total_files as nat,
        ),
{
    let mut y = owned(
        "# generated by repo-server on startup — do not edit (configure via Admin/repo-info/config.yaml)\n",
    );
    y.append("generated_unix: ");
    let g = u64_to_string(facts.generated_unix);
    y.append(g.as_str());
    y.append("\n");
    y.append("repo_path: ");
    let q = yaml_quote(facts.repo_path.as_str());
    y.append(q.as_str());
    y.append("\n");
    y.append("git_remote: ");
    let q = yaml_quote(facts.git_remote.as_str());
    y.append(q.as_str());
    y.append("\n");
    y.append("git_branch: ");
    let q = yaml_quote(facts.git_branch.as_str());
    y.append(q.as_str());
    y.append("\n");
    y.append("git_commit: ");
    let q = yaml_quote(facts.git_commit.as_str());
    y.append(q.as_str());
    y.append("\n");
    y.append("ignore_folders: [");
    let l = quoted_list(&cfg.ignore_folders);
    y.append(l.as_str());
    y.append("]\n");
    y.append("ignore_files: [");
    let l = quoted_list(&cfg.ignore_files);
    y.append(l.as_str());
    y.append("]\n");
    y.append("total_bytes: ");
    let t = u64_to_string(scan.total_bytes);
    y.append(t.as_str());
    y.append("\n");
    y.append("total_files: ");
    let t = u64_to_string(scan.total_files);
    y.append(t.as_str());
    y.append("\n");
    y.append("history_expanded: ");
    y.append(bool_str(cfg.history_expanded));
    y.append("\n");
    y.append("entries:\n");
    push_entries_yaml(&mut y, &scan.entries);
    y.append("ignored:\n");
    push_entries_yaml(&mut y, &scan.ignored);
    y.append("history:\n");
    let cs = parse_history(facts.git_log.as_str());
    push_commits_yaml(&mut y, &cs);
    y
}

/// The snapshot of a repository: scans the root's entries, sorts them and
/// writes the YAML text.
pub fn build_snapshot(es: &Vec<RepoNode>, cfg: &RepoConfig, facts: &SnapshotFacts) -> (y: String)
    requires
        all_total(es@).0 <= u64::MAX,
        all_total(es@).1 <= u64::MAX,
    ensures
        exists|en: Seq<EntryView>, ig: Seq<EntryView>|
            {
                &&& sorted_by_bytes(top_entries(es@, cfg@.0, cfg@.1), en)
                &&& sorted_by_bytes(walk_entries(es@, Seq::empty(), cfg@.0, cfg@.1).2, ig)
                &&& y@ == snapshot_text(
                    *facts,
                    cfg@,
                    en,
                    ig,
                    entry_sum(top_entries(es@, cfg@.0, cfg@.1)).0 as nat,
                    entry_sum(top_entries(es@, cfg@.0, cfg@.1)).1 as nat,
                )
            },
{
    let scan = scan_repo(es, cfg);
    snapshot_yaml(facts, cfg, &scan)
}

/// The `-N` argument of `git log` for the history: at least one commit.
pub fn history_arg(limit: usize) -> (r: String)
    ensures
        r@ == seq!['-'] + dec_seq(if limit >= 1 { limit as nat } else { 1 }),
{
    let n: usize = if limit >= 1 { limit } else { 1 };
    let d = usize_to_string(n);
    let mut r = owned("-");
    r.append(d.as_str());
    proof {
        reveal_strlit("-");
    }
    assert(r@ =~= seq!['-'] + dec_seq(n as nat));
    r
}

/// What a `git` command printed, trimmed; empty when it failed.
pub fn git_text(stdout: Option<&str>) -> (r: String)
    ensures
        r@ == match stdout {
            Some(s) => trim_seq(s@),
            None => Seq::empty(),
        },
{
    match stdout {
        Some(s) => trim(s),
        None => String::new(),
    }
}

/// The settings from the configuration file's text, or the defaults when
/// the file could not be read.
pub fn config_from_file(text: Option<&str>) -> (cfg: RepoConfig)
    ensures
        cfg@ == match text {
            Some(t) => parse_config_seq(t@),
            None => default_config(),
        },
{
    match text {
        Some(t) => parse_config(t),
        None => RepoConfig::default_config(),
    }
}

/// A quoted value stays on one line: the escaped text holds no line feed
/// and no carriage return.
pub proof fn lemma_yaml_quote_one_line(s: Seq<char>)
    ensures
        !yaml_quote_seq(s).contains('\n'),
        !yaml_quote_seq(s).contains('\r'),
{
    lemma_yaml_escape_one_line(s);
    let q = yaml_quote_seq(s);
    assert forall|i: int| 0 <= i < q.len() implies q[i] != '\n' && q[i] != '\r' by {
        if 0 < i < q.len() - 1 {
            assert(q[i] == yaml_escape(s)[i - 1]);
        }
    }
}

proof fn lemma_yaml_escape_one_line(s: Seq<char>)
    ensures
        forall|i: int| 0 <= i < yaml_escape(s).len() ==> #[trigger] yaml_escape(s)[i] != '\n'
            && yaml_escape(s)[i] != '\r',
    decreases s.len(),
{
    if s.len() > 0 {
        lemma_yaml_escape_one_line(s.drop_last());
        let a = yaml_escape(s.drop_last());
        let b = yaml_escape_char(s.last());
        assert forall|i: int| 0 <= i < (a + b).len() implies #[trigger] (a + b)[i] != '\n' && (a
            + b)[i] != '\r' by {
            if i >= a.len() {
                assert((a + b)[i] == b[i - a.len()]);
            } else {
                assert((a + b)[i] == a[i]);
            }
        }
    }
}

/// What an escape `\x` inside a double-quoted YAML scalar stands for, for
/// the escapes the snapshot writes.
pub open spec fn yaml_unescape_char(c: char) -> Seq<char> {
    if c == 'n' {
        seq!['\n']
    } else if c == '\\' || c == '"' {
        seq![c]
    } else {
        seq!['\\', c]
    }
}

/// The text between the quotes of a double-quoted YAML scalar, read back.
pub open spec fn yaml_unescape(e: Seq<char>) -> Seq<char>
    decreases e.len(),
{
    if e.len() == 0 {
        Seq::empty()
    } else if e.len() >= 2 && e[0] == '\\' {
        yaml_unescape_char(e[1]) + yaml_unescape(e.subrange(2, e.len() as int))
    } else {
        seq![e[0]] + yaml_unescape(e.drop_first())
    }
}

/// A double-quoted YAML scalar read back: its text between the quotes,
/// unescaped.
pub open spec fn yaml_read(q: Seq<char>) -> Seq<char> {
    yaml_unescape(q.subrange(1, q.len() - 1))
}

/// `s` without its carriage returns.
pub open spec fn without_cr(s: Seq<char>) -> Seq<char>
    decreases s.len(),
{
    if s.len() == 0 {
        Seq::empty()
    } else if s[0] == '\r' {
        without_cr(s.drop_first())
    } else {
        seq![s[0]] + without_cr(s.drop_first())
    }
}

proof fn lemma_yaml_escape_cons(c: char, s: Seq<char>)
    ensures
        yaml_escape(seq![c] + s) == yaml_escape_char(c) + yaml_escape(s),
    decreases s.len(),
{
    let t = seq![c] + s;
    if s.len() == 0 {
        assert(t.drop_last() =~= Seq::<char>::empty());
        assert(t.last() == c);
        assert(yaml_escape(t) == yaml_escape(t.drop_last()) + yaml_escape_char(c));
        assert(yaml_escape(t.drop_last()) == Seq::<char>::empty());
        assert(yaml_escape(s) == Seq::<char>::empty());
        assert(yaml_escape(t) =~= yaml_escape_char(c) + yaml_escape(s));
    } else {
        lemma_yaml_escape_cons(c, s.drop_last());
        assert(t.drop_last() =~= seq![c] + s.drop_last());
        assert(t.last() == s.last());
        assert(yaml_escape(t) == yaml_escape(t.drop_last()) + yaml_escape_char(s.last()));
        assert(yaml_escape(s) == yaml_escape(s.drop_last()) + yaml_escape_char(s.last()));
        assert(yaml_escape(t) =~= yaml_escape_char(c) + yaml_escape(s));
    }
}

proof fn lemma_unescape_escape(s: Seq<char>)
    ensures
        yaml_unescape(yaml_escape(s)) == without_cr(s),
    decreases s.len(),
{
    if s.len() == 0 {
    } else {
        let c = s[0];
        let rest = s.drop_first();
        assert(s =~= seq![c] + rest);
        lemma_yaml_escape_cons(c, rest);
        lemma_unescape_escape(rest);
        let x = yaml_escape(rest);
        let e = yaml_escape_char(c) + x;
        if c == '\\' || c == '"' || c == '\n' {
            assert(e.len() >= 2 && e[0] == '\\');
            assert(e.subrange(2, e.len() as int) =~= x);
        } else if c == '\r' {
            assert(e =~= x);
        } else {
            assert(e[0] == c);
            assert(e.drop_first() =~= x);
        }
    }
}

/// A quoted value reads back, as a YAML double-quoted scalar, as the text
/// it was made from without its carriage returns.
pub proof fn lemma_yaml_quote_reads_back(s: Seq<char>)
    ensures
        yaml_quote_seq(s)[0] == '"',
        yaml_quote_seq(s).last() == '"',
        yaml_read(yaml_quote_seq(s)) == without_cr(s),
{
    let q = yaml_quote_seq(s);
    assert(q.subrange(1, q.len() - 1) =~= yaml_escape(s));
    lemma_unescape_escape(s);
}

} // verus!
