//! Directory scanning: ignore lists, listing order, sizes and the tree.
//!
//! Reading the disk is the caller's part: it lists each directory (through
//! [`list_dir_entries`], which applies the ignore lists and the order) and
//! hands the result over as a [`DirListing`] tree. Everything computed
//! from it (sizes, counts, the tree drawing, the largest files) is here.

use vstd::prelude::*;
use crate::text::{views, trim, trim_seq, owned, chars_of, string_of, split_chars, split_seq, char_views, trim_chars};
use crate::order::{order_desc, is_perm, desc_stable, dirs_then_names, positions, sort_positions_dirs_first, lemma_perm_onto};
use crate::paths::{strip_prefix, strip_prefix_seq};
use crate::size::{human_size, human_size_seq};

verus! {

pub const DEFAULT_SCAN_ROOT: &'static str = ".";
pub const OUTPUT_BASENAME: &'static str = "tree_output";
pub const OUTPUT_EXT: &'static str = ".txt";
pub const SHOW_HIDDEN: bool = true;
pub const FOLLOW_SYMLINKS: bool = false;
pub const SCAN_EVERYTHING: bool = false;
pub const MAX_DEPTH: usize = 50;
pub const TOP_N_FILES: usize = 25;
pub const TOP_N_DIRS: usize = 50;
pub const SAVE_OUTPUT: bool = true;
pub const APPEND_TIMESTAMP_SUFFIX: bool = true;
pub const HARD_DEPTH_LIMIT: usize = 200;

/// Names skipped while scanning: directory names and file names, each a
/// set (a list without repeats).
#[derive(Clone)]
pub struct ScanOptions {
    pub ignore_dir_names: Vec<String>,
    pub ignore_file_names: Vec<String>,
}

/// The set of names a list holds.
pub open spec fn name_set(v: Seq<String>) -> Set<Seq<char>> {
    views(v).to_set()
}

impl ScanOptions {
    /// Both lists are without repeats.
    pub open spec fn wf(&self) -> bool {
        &&& views(self.ignore_dir_names@).no_duplicates()
        &&& views(self.ignore_file_names@).no_duplicates()
    }

    pub open spec fn dir_names(&self) -> Set<Seq<char>> {
        name_set(self.ignore_dir_names@)
    }

    pub open spec fn file_names(&self) -> Set<Seq<char>> {
        name_set(self.ignore_file_names@)
    }
}

/// The directory names skipped by default.
pub open spec fn default_dir_names() -> Set<Seq<char>> {
    set![".git"@, "node_modules"@, ".venv"@, "__pycache__"@]
}

/// The file names skipped by default.
pub open spec fn default_file_names() -> Set<Seq<char>> {
    set![".DS_Store"@]
}

/// Whether `list` holds `name`.
pub fn list_contains(list: &Vec<String>, name: &String) -> (b: bool)
    ensures
        b == views(list@).contains(name@),
{
    let mut i: usize = 0;
    while i < list.len()
        invariant
            i <= list@.len(),
            forall|k: int| 0 <= k < i ==> list@[k]@ != name@,
        decreases list@.len() - i,
    {
        if list[i] == *name {
            assert(views(list@)[i as int] == name@);
            return true;
        }
        i = i + 1;
    }
    assert forall|k: int| 0 <= k < views(list@).len() implies views(list@)[k] != name@ by {
        assert(views(list@)[k] == list@[k]@);
    }
    false
}

/// Adds `name` to a set held as a list.
pub fn set_insert(list: &mut Vec<String>, name: String)
    requires
        views(old(list)@).no_duplicates(),
    ensures
        views(final(list)@).no_duplicates(),
        name_set(final(list)@) == name_set(old(list)@).insert(name@),
{
    if !list_contains(list, &name) {
        let ghost pre = views(list@);
        list.push(name);
        assert(views(list@) =~= pre.push(name@));
        proof {
            pre.lemma_push_to_set_commute(name@);
        }
        assert(name_set(list@) =~= name_set(old(list)@).insert(name@));
    } else {
        assert(name_set(list@) =~= name_set(old(list)@).insert(name@));
    }
}

impl ScanOptions {
    /// The default ignore lists: `.git`, `node_modules`, `.venv` and
    /// `__pycache__` directories, `.DS_Store` files.
    pub fn with_defaults() -> (options: Self)
        ensures
            options.wf(),
            options.dir_names() == default_dir_names(),
            options.file_names() == default_file_names(),
    {
        let mut options = ScanOptions { ignore_dir_names: Vec::new(), ignore_file_names: Vec::new() };
        assert(views(options.ignore_dir_names@) =~= Seq::empty());
        assert(views(options.ignore_file_names@) =~= Seq::empty());
        set_insert(&mut options.ignore_dir_names, owned(".git"));
        set_insert(&mut options.ignore_dir_names, owned("node_modules"));
        set_insert(&mut options.ignore_dir_names, owned(".venv"));
        set_insert(&mut options.ignore_dir_names, owned("__pycache__"));
        set_insert(&mut options.ignore_file_names, owned(".DS_Store"));
        assert(options.dir_names() =~= default_dir_names());
        assert(options.file_names() =~= default_file_names());
        options
    }

    /// The defaults plus the given names, each trimmed; names that are
    /// empty once trimmed are left out.
    pub fn with_extra_ignores(ignore_dirs: &[String], ignore_files: &[String]) -> (options: Self)
        ensures
            options.wf(),
            options.dir_names() == default_dir_names().union(trimmed_names(ignore_dirs@)),
            options.file_names() == default_file_names().union(trimmed_names(ignore_files@)),
    {
        let mut options = Self::with_defaults();
        add_trimmed(&mut options.ignore_dir_names, ignore_dirs);
        add_trimmed(&mut options.ignore_file_names, ignore_files);
        options
    }
}

/// The non-empty trimmed forms of the given names.
pub open spec fn trimmed_names(names: Seq<String>) -> Set<Seq<char>> {
    Set::new(
        |t: Seq<char>|
            t.len() > 0 && exists|i: int| 0 <= i < names.len() && trim_seq(names[i]@) == t,
    )
}

fn add_trimmed(list: &mut Vec<String>, names: &[String])
    requires
        views(old(list)@).no_duplicates(),
    ensures
        views(final(list)@).no_duplicates(),
        name_set(final(list)@) == name_set(old(list)@).union(trimmed_names(names@)),
{
    let mut i: usize = 0;
    while i < names.len()
        invariant
            i <= names@.len(),
            views(list@).no_duplicates(),
            name_set(list@) == name_set(old(list)@).union(trimmed_names(names@.subrange(0, i as int))),
        decreases names@.len() - i,
    {
        let t = trim(names[i].as_str());
        let ghost before = name_set(list@);
        if !t.as_str().is_empty() {
            set_insert(list, t);
        }
        proof {
            let pre = names@.subrange(0, i as int);
            let nxt = names@.subrange(0, i + 1);
            assert(trimmed_names(nxt) =~= if trim_seq(names@[i as int]@).len() > 0 {
                trimmed_names(pre).insert(trim_seq(names@[i as int]@))
            } else {
                trimmed_names(pre)
            }) by {
                assert forall|x: Seq<char>| trimmed_names(nxt).contains(x) implies (if trim_seq(
                    names@[i as int]@,
                ).len() > 0 {
                    trimmed_names(pre).insert(trim_seq(names@[i as int]@))
                } else {
                    trimmed_names(pre)
                }).contains(x) by {
                    let k = choose|k: int| 0 <= k < nxt.len() && trim_seq(nxt[k]@) == x;
                    if k < i {
                        assert(pre[k] == nxt[k]);
                    }
                }
                assert forall|x: Seq<char>| trimmed_names(pre).contains(x) implies trimmed_names(
                    nxt,
                ).contains(x) by {
                    let k = choose|k: int| 0 <= k < pre.len() && trim_seq(pre[k]@) == x;
                    assert(nxt[k] == pre[k]);
                }
                if trim_seq(names@[i as int]@).len() > 0 {
                    assert(nxt[i as int] == names@[i as int]);
                }
            }
            assert(name_set(list@) =~= name_set(old(list)@).union(trimmed_names(nxt)));
        }
        i = i + 1;
    }
    assert(names@.subrange(0, names@.len() as int) =~= names@);
}

/// The pieces kept by `parse_ignore_list`: each trimmed, empty ones dropped.
pub open spec fn keep_trimmed(ps: Seq<Seq<char>>) -> Seq<Seq<char>>
    decreases ps.len(),
{
    if ps.len() == 0 {
        Seq::empty()
    } else {
        let r = keep_trimmed(ps.drop_last());
        let t = trim_seq(ps.last());
        if t.len() > 0 {
            r.push(t)
        } else {
            r
        }
    }
}

/// The separators of an ignore list: commas and new lines.
pub open spec fn ignore_list_seps() -> Seq<char> {
    seq![',', '\n']
}

/// Splits a list typed by the user at commas and new lines, trims each
/// name and drops the empty ones.
pub fn parse_ignore_list(value: &str) -> (names: Vec<String>)
    ensures
        views(names@) == keep_trimmed(split_seq(value@, ignore_list_seps())),
{
    let v = chars_of(value);
    let seps: [char; 2] = [',', '\n'];
    assert(seps@ =~= ignore_list_seps());
    let pieces = split_chars(v.as_slice(), seps.as_slice());
    let ghost ps = char_views(pieces@);
    let mut out: Vec<String> = Vec::new();
    let mut i: usize = 0;
    while i < pieces.len()
        invariant
            i <= pieces@.len(),
            ps == char_views(pieces@),
            views(out@) == keep_trimmed(ps.subrange(0, i as int)),
        decreases pieces@.len() - i,
    {
        let t = trim_chars(pieces[i].as_slice());
        let ghost pre = views(out@);
        proof {
            assert(ps.subrange(0, i + 1).drop_last() =~= ps.subrange(0, i as int));
            assert(ps.subrange(0, i + 1).last() == pieces@[i as int]@);
        }
        if t.len() > 0 {
            out.push(string_of(t.as_slice()));
            assert(views(out@) =~= pre.push(t@));
        }
        i = i + 1;
    }
    assert(ps.subrange(0, pieces@.len() as int) =~= ps);
    out
}

/// Whether a directory entry of this name is skipped.
pub fn should_skip(name: &str, is_dir: bool, options: &ScanOptions) -> (b: bool)
    ensures
        b == if is_dir {
            options.dir_names().contains(name@)
        } else {
            options.file_names().contains(name@)
        },
{
    let n = owned(name);
    if is_dir {
        list_contains(&options.ignore_dir_names, &n)
    } else {
        list_contains(&options.ignore_file_names, &n)
    }
}

/// `root` relative to which `target` is shown: the rest of `target` after
/// `root`, or `.` when it is not under `root` or is `root` itself.
pub open spec fn relative_path_seq(root: Seq<char>, target: Seq<char>) -> Seq<char> {
    match strip_prefix_seq(target, root) {
        Some(p) => if p.len() > 0 {
            p
        } else {
            "."@
        },
        None => "."@,
    }
}

/// The path of `target` relative to `root`, `.` when there is none.
pub fn relative_path(root: &str, target: &str) -> (r: String)
    ensures
        r@ == relative_path_seq(root@, target@),
{
    let rv = chars_of(root);
    let tv = chars_of(target);
    match strip_prefix(tv.as_slice(), rv.as_slice()) {
        Some(p) => if p.len() > 0 {
            string_of(p.as_slice())
        } else {
            owned(".")
        },
        None => owned("."),
    }
}

} // verus!

verus! {

/// A directory entry as listed: full path, name, kind and size in bytes
/// (0 for anything that is not a regular file).
#[derive(Clone)]
pub struct EntryInfo {
    pub path: String,
    pub name: String,
    pub is_dir: bool,
    pub size: u64,
}

/// A directory entry as the disk reports it, before the ignore lists and
/// the order are applied.
pub struct RawEntry {
    pub path: String,
    pub name: String,
    pub is_dir: bool,
    pub is_file: bool,
    pub len: u64,
}

/// Whether a raw entry is kept in a listing.
pub open spec fn keeps(options: ScanOptions, e: RawEntry) -> bool {
    &&& (SHOW_HIDDEN || !(e.name@.len() > 0 && e.name@[0] == '.'))
    &&& !(if e.is_dir {
        options.dir_names().contains(e.name@)
    } else {
        options.file_names().contains(e.name@)
    })
}

/// The entry a kept raw entry becomes.
pub open spec fn entry_of(e: RawEntry) -> EntryInfo {
    EntryInfo {
        path: e.path,
        name: e.name,
        is_dir: e.is_dir,
        size: if e.is_file {
            e.len
        } else {
            0
        },
    }
}

/// The kept entries, in the order the disk gave them.
pub open spec fn kept_entries(options: ScanOptions, raw: Seq<RawEntry>) -> Seq<EntryInfo>
    decreases raw.len(),
{
    if raw.len() == 0 {
        Seq::empty()
    } else {
        let r = kept_entries(options, raw.drop_last());
        if keeps(options, raw.last()) {
            r.push(entry_of(raw.last()))
        } else {
            r
        }
    }
}

/// What `str::to_lowercase` returns for `s`.
pub uninterp spec fn lowercase(s: Seq<char>) -> Seq<char>;

/// `str::to_lowercase`: its result is named by [`lowercase`], a function of
/// the text alone; nothing more of it is stated here.
#[verifier::external_body]
pub(crate) fn to_lowercase(s: &str) -> (r: String)
    ensures
        r@ == lowercase(s@),
{
    s.to_lowercase()
}

/// `sorted` is `kept` in the listing order: directories first, then by
/// lower-cased name, then in the order read.
pub open spec fn listing_order(kept: Seq<EntryInfo>, sorted: Seq<EntryInfo>) -> bool {
    exists|p: Seq<usize>|
        {
            &&& is_perm(p, kept.len())
            &&& dirs_then_names(
                kept.map_values(|e: EntryInfo| e.is_dir),
                kept.map_values(|e: EntryInfo| lowercase(e.name@)),
                p,
            )
            &&& sorted.len() == kept.len()
            &&& forall|i: int| 0 <= i < kept.len() ==> #[trigger] sorted[i] == kept[p[i] as int]
        }
}

impl EntryInfo {
    /// An equal copy.
    pub fn duplicate(&self) -> (r: Self)
        ensures
            r == *self,
    {
        EntryInfo {
            path: self.path.clone(),
            name: self.name.clone(),
            is_dir: self.is_dir,
            size: self.size,
        }
    }
}

fn starts_with_dot(s: &str) -> (b: bool)
    ensures
        b == (s@.len() > 0 && s@[0] == '.'),
{
    let cs = chars_of(s);
    cs.len() > 0 && cs[0] == '.'
}

/// The listing of one directory: drops the ignored names and sorts
/// directories first, then by lower-cased name (stable).
pub fn list_dir_entries(raw: &Vec<RawEntry>, options: &ScanOptions) -> (entries: Vec<EntryInfo>)
    ensures
        listing_order(kept_entries(*options, raw@), entries@),
{
    let mut kept: Vec<EntryInfo> = Vec::new();
    let mut dirs: Vec<bool> = Vec::new();
    let mut lows: Vec<String> = Vec::new();
    let mut i: usize = 0;
    while i < raw.len()
        invariant
            i <= raw@.len(),
            kept@ == kept_entries(*options, raw@.subrange(0, i as int)),
            dirs@ == kept@.map_values(|e: EntryInfo| e.is_dir),
            views(lows@) == kept@.map_values(|e: EntryInfo| lowercase(e.name@)),
        decreases raw@.len() - i,
    {
        let e = &raw[i];
        proof {
            assert(raw@.subrange(0, i + 1).drop_last() =~= raw@.subrange(0, i as int));
            assert(raw@.subrange(0, i + 1).last() == raw@[i as int]);
        }
        if (SHOW_HIDDEN || !starts_with_dot(e.name.as_str())) && !should_skip(
            e.name.as_str(),
            e.is_dir,
            options,
        ) {
            let low = to_lowercase(e.name.as_str());
            let ghost k0 = kept@;
            let ghost l0 = views(lows@);
            dirs.push(e.is_dir);
            lows.push(low);
            let size = if e.is_file {
                e.len
            } else {
                0
            };
            let info = EntryInfo { path: e.path.clone(), name: e.name.clone(), is_dir: e.is_dir, size };
            kept.push(info);
            assert(views(lows@) =~= l0.push(lowercase(info.name@)));
            assert(dirs@ =~= kept@.map_values(|e: EntryInfo| e.is_dir));
            assert(views(lows@) =~= kept@.map_values(|e: EntryInfo| lowercase(e.name@)));
        }
        i = i + 1;
    }
    assert(raw@.subrange(0, raw@.len() as int) =~= raw@);
    let mut p = positions(kept.len());
    sort_positions_dirs_first(&mut p, &dirs, &lows);
    let mut out: Vec<EntryInfo> = Vec::new();
    let mut k: usize = 0;
    while k < p.len()
        invariant
            is_perm(p@, kept@.len()),
            k <= p@.len(),
            out@.len() == k,
            forall|m: int| 0 <= m < k ==> #[trigger] out@[m] == kept@[p@[m] as int],
        decreases p@.len() - k,
    {
        out.push(kept[p[k]].duplicate());
        k = k + 1;
    }
    proof {
        let kk = kept_entries(*options, raw@);
        assert(dirs_then_names(
            kk.map_values(|e: EntryInfo| e.is_dir),
            kk.map_values(|e: EntryInfo| lowercase(e.name@)),
            p@,
        ));
    }
    out
}


proof fn lemma_kept_has(options: ScanOptions, raw: Seq<RawEntry>, i: int)
    requires
        0 <= i < raw.len(),
        keeps(options, raw[i]),
    ensures
        exists|j: int|
            0 <= j < kept_entries(options, raw).len() && kept_entries(options, raw)[j] == entry_of(
                raw[i],
            ),
    decreases raw.len(),
{
    let init = raw.drop_last();
    let ki = kept_entries(options, init);
    let k = kept_entries(options, raw);
    if i < raw.len() - 1 {
        assert(init[i] == raw[i]);
        lemma_kept_has(options, init, i);
        let j = choose|j: int| 0 <= j < ki.len() && ki[j] == entry_of(init[i]);
        assert(k[j] == ki[j]);
    } else {
        assert(k[ki.len() as int] == entry_of(raw[i]));
    }
}

proof fn lemma_kept_from(options: ScanOptions, raw: Seq<RawEntry>, j: int)
    requires
        0 <= j < kept_entries(options, raw).len(),
    ensures
        exists|i: int|
            0 <= i < raw.len() && keeps(options, raw[i]) && kept_entries(options, raw)[j]
                == entry_of(raw[i]),
    decreases raw.len(),
{
    let init = raw.drop_last();
    let ki = kept_entries(options, init);
    let k = kept_entries(options, raw);
    if j < ki.len() {
        lemma_kept_from(options, init, j);
        let i = choose|i: int|
            0 <= i < init.len() && keeps(options, init[i]) && ki[j] == entry_of(init[i]);
        assert(init[i] == raw[i]);
        assert(k[j] == ki[j]);
    } else {
        let i = raw.len() - 1;
        assert(raw[i] == raw.last());
        assert(k[j] == entry_of(raw[i]));
    }
}

/// Whether a raw entry's name is on the ignore list for its kind.
pub open spec fn on_ignore_list(options: ScanOptions, e: RawEntry) -> bool {
    if e.is_dir {
        options.dir_names().contains(e.name@)
    } else {
        options.file_names().contains(e.name@)
    }
}

/// A listing shows every entry whose name is not on the ignore list for its
/// kind, hidden names (starting with `.`) included, with its size when it
/// is a file.
pub proof fn lemma_listing_shows(options: ScanOptions, raw: Seq<RawEntry>, listed: Seq<EntryInfo>, i: int)
    requires
        listing_order(kept_entries(options, raw), listed),
        0 <= i < raw.len(),
        !on_ignore_list(options, raw[i]),
    ensures
        exists|j: int|
            0 <= j < listed.len() && listed[j] == entry_of(raw[i]) && listed[j].path == raw[i].path
                && listed[j].name == raw[i].name && listed[j].is_dir == raw[i].is_dir && listed[j].size
                == (if raw[i].is_file {
                raw[i].len
            } else {
                0
            }),
{
    let kept = kept_entries(options, raw);
    let p = choose|p: Seq<usize>|
        {
            &&& is_perm(p, kept.len())
            &&& dirs_then_names(
                kept.map_values(|e: EntryInfo| e.is_dir),
                kept.map_values(|e: EntryInfo| lowercase(e.name@)),
                p,
            )
            &&& listed.len() == kept.len()
            &&& forall|i: int| 0 <= i < kept.len() ==> #[trigger] listed[i] == kept[p[i] as int]
        };
    assert(keeps(options, raw[i]));
    lemma_kept_has(options, raw, i);
    let m = choose|m: int| 0 <= m < kept.len() && kept[m] == entry_of(raw[i]);
    lemma_perm_onto(p, kept.len(), m);
    let j = choose|j: int| 0 <= j < kept.len() && #[trigger] p[j] == m;
    assert(listed[j] == kept[p[j] as int]);
}

/// Each entry of a listing is a raw entry whose name is not on the ignore
/// list for its kind.
pub proof fn lemma_listing_only(options: ScanOptions, raw: Seq<RawEntry>, listed: Seq<EntryInfo>, j: int)
    requires
        listing_order(kept_entries(options, raw), listed),
        0 <= j < listed.len(),
    ensures
        exists|i: int|
            0 <= i < raw.len() && !on_ignore_list(options, raw[i]) && listed[j] == entry_of(raw[i])
                && listed[j].path == raw[i].path && listed[j].name == raw[i].name && listed[j].is_dir
                == raw[i].is_dir && listed[j].size == (if raw[i].is_file {
                raw[i].len
            } else {
                0
            }),
{
    let kept = kept_entries(options, raw);
    let p = choose|p: Seq<usize>|
        {
            &&& is_perm(p, kept.len())
            &&& dirs_then_names(
                kept.map_values(|e: EntryInfo| e.is_dir),
                kept.map_values(|e: EntryInfo| lowercase(e.name@)),
                p,
            )
            &&& listed.len() == kept.len()
            &&& forall|i: int| 0 <= i < kept.len() ==> #[trigger] listed[i] == kept[p[i] as int]
        };
    assert(listed[j] == kept[p[j] as int]);
    assert(p[j] < kept.len());
    lemma_kept_from(options, raw, p[j] as int);
}

} // verus!

verus! {

/// One directory as it was read. `node` numbers the directory's path (equal
/// paths, equal numbers); `real` numbers the path it resolves to (what
/// `fs::canonicalize` gives, or the path itself when that fails). Its
/// entries are already in listing order ([`list_dir_entries`]).
pub struct DirListing {
    pub node: usize,
    pub real: usize,
    pub entries: Vec<ScanEntry>,
}

/// A listed entry; for a directory, `dir` is what reading it gave (empty
/// when it could not be read). For other entries `dir` is not looked at.
pub struct ScanEntry {
    pub info: EntryInfo,
    pub dir: DirListing,
}

/// What was read of a whole tree, with the number of path and resolved
/// path numbers in use.
pub struct FsSnapshot {
    pub root: DirListing,
    pub node_count: usize,
    pub real_count: usize,
}

/// Every number in the listing is below the given counts.
pub open spec fn listing_wf(d: DirListing, nodes: nat, reals: nat) -> bool
    decreases d, 1int,
{
    &&& d.node < nodes
    &&& d.real < reals
    &&& entries_wf(d.entries@, nodes, reals)
}

pub open spec fn entries_wf(es: Seq<ScanEntry>, nodes: nat, reals: nat) -> bool
    decreases es, 0int,
{
    if es.len() == 0 {
        true
    } else {
        &&& entries_wf(es.drop_last(), nodes, reals)
        &&& (es.last().info.is_dir ==> listing_wf(es.last().dir, nodes, reals))
    }
}

/// A directory's totals: (node, path, bytes, files).
pub type DirStatView = (int, Seq<char>, int, int);

/// Size pass state: (bytes, files, resolved paths seen, totals recorded in
/// order).
pub type SizeAcc = (int, int, Seq<bool>, Seq<DirStatView>);

/// The size pass over one directory (`scan_dir_size`): a directory whose
/// resolved path was seen counts nothing; otherwise its files and
/// subdirectories are summed and its totals recorded after theirs.
pub open spec fn size_dir(path: Seq<char>, d: DirListing, vis: Seq<bool>) -> SizeAcc
    decreases d, 1int,
{
    if vis[d.real as int] {
        (0, 0, vis, Seq::empty())
    } else {
        let r = size_entries(d.entries@, vis.update(d.real as int, true));
        (r.0, r.1, r.2, r.3.push((d.node as int, path, r.0, r.1)))
    }
}

/// The size pass over a directory's entries, in order.
pub open spec fn size_entries(es: Seq<ScanEntry>, vis: Seq<bool>) -> SizeAcc
    decreases es, 0int,
{
    if es.len() == 0 {
        (0, 0, vis, Seq::empty())
    } else {
        let a = size_entries(es.drop_last(), vis);
        let e = es.last();
        if e.info.is_dir {
            let b = size_dir(e.info.path@, e.dir, a.2);
            (a.0 + b.0, a.1 + b.1, b.2, a.3 + b.3)
        } else {
            (a.0 + e.info.size, a.1 + 1, a.2, a.3)
        }
    }
}

proof fn lemma_size_shape(path: Seq<char>, d: DirListing, vis: Seq<bool>, n: nat, r: nat)
    requires
        listing_wf(d, n, r),
        vis.len() == r,
    ensures
        size_dir(path, d, vis).0 >= 0,
        size_dir(path, d, vis).1 >= 0,
        size_dir(path, d, vis).2.len() == r,
    decreases d, 1int,
{
    if !vis[d.real as int] {
        lemma_size_entries_shape(d.entries@, vis.update(d.real as int, true), n, r);
    }
}

proof fn lemma_size_entries_shape(es: Seq<ScanEntry>, vis: Seq<bool>, n: nat, r: nat)
    requires
        entries_wf(es, n, r),
        vis.len() == r,
    ensures
        size_entries(es, vis).0 >= 0,
        size_entries(es, vis).1 >= 0,
        size_entries(es, vis).2.len() == r,
    decreases es, 0int,
{
    if es.len() > 0 {
        lemma_size_entries_shape(es.drop_last(), vis, n, r);
        let a = size_entries(es.drop_last(), vis);
        if es.last().info.is_dir {
            lemma_size_shape(es.last().info.path@, es.last().dir, a.2, n, r);
        }
    }
}

proof fn lemma_size_prefix(es: Seq<ScanEntry>, vis: Seq<bool>, i: int, n: nat, r: nat)
    requires
        entries_wf(es, n, r),
        vis.len() == r,
        0 <= i <= es.len(),
    ensures
        size_entries(es.subrange(0, i), vis).0 <= size_entries(es, vis).0,
        size_entries(es.subrange(0, i), vis).1 <= size_entries(es, vis).1,
        entries_wf(es.subrange(0, i), n, r),
    decreases es.len() - i,
{
    if i < es.len() {
        lemma_size_prefix(es, vis, i + 1, n, r);
        let p = es.subrange(0, i + 1);
        assert(p.drop_last() =~= es.subrange(0, i));
        let a = size_entries(p.drop_last(), vis);
        lemma_size_entries_shape(p.drop_last(), vis, n, r);
        if p.last().info.is_dir {
            lemma_size_shape(p.last().info.path@, p.last().dir, a.2, n, r);
        }
    } else {
        assert(es.subrange(0, i) =~= es);
    }
}

/// A directory's recorded totals.
pub struct DirStat {
    pub node: usize,
    pub path: String,
    pub total: u64,
    pub files: usize,
}

pub open spec fn stat_views(s: Seq<DirStat>) -> Seq<DirStatView> {
    s.map_values(|x: DirStat| (x.node as int, x.path@, x.total as int, x.files as int))
}

/// The bytes last recorded for a node, if any.
pub open spec fn recorded(stats: Seq<DirStatView>, node: int) -> Option<int>
    decreases stats.len(),
{
    if stats.len() == 0 {
        None
    } else if stats.last().0 == node {
        Some(stats.last().2)
    } else {
        recorded(stats.drop_last(), node)
    }
}

/// `sizes` holds, for every node, the bytes last recorded for it.
pub open spec fn sizes_match(stats: Seq<DirStatView>, sizes: Seq<Option<u64>>) -> bool {
    forall|k: int|
        0 <= k < sizes.len() ==> match #[trigger] sizes[k] {
            Some(t) => recorded(stats, k) == Some(t as int),
            None => recorded(stats, k) is None,
        }
}

fn size_dir_exec(
    path: &String,
    d: &DirListing,
    vis: &mut Vec<bool>,
    sizes: &mut Vec<Option<u64>>,
    stats: &mut Vec<DirStat>,
) -> (res: (u64, usize))
    requires
        listing_wf(*d, old(sizes)@.len(), old(vis)@.len()),
        size_dir(path@, *d, old(vis)@).0 <= u64::MAX,
        size_dir(path@, *d, old(vis)@).1 <= usize::MAX,
        sizes_match(stat_views(old(stats)@), old(sizes)@),
    ensures
        res.0 == size_dir(path@, *d, old(vis)@).0,
        res.1 == size_dir(path@, *d, old(vis)@).1,
        final(vis)@ == size_dir(path@, *d, old(vis)@).2,
        stat_views(final(stats)@) == stat_views(old(stats)@) + size_dir(path@, *d, old(vis)@).3,
        sizes_match(stat_views(final(stats)@), final(sizes)@),
        final(sizes)@.len() == old(sizes)@.len(),
    decreases *d,
{
    let ghost nn = sizes@.len();
    let ghost rr = vis@.len();
    if vis[d.real] {
        assert(stat_views(stats@) =~= stat_views(old(stats)@) + Seq::empty());
        return (0, 0);
    }
    vis.set(d.real, true);
    let ghost vis0 = vis@;
    let ghost stats0 = stat_views(stats@);
    let ghost es = d.entries@;
    proof {
        lemma_size_prefix(es, vis0, 0, nn, rr);
        lemma_size_prefix(es, vis0, es.len() as int, nn, rr);
        assert(es.subrange(0, 0) =~= Seq::<ScanEntry>::empty());
    }
    let mut total: u64 = 0;
    let mut files: usize = 0;
    let mut i: usize = 0;
    while i < d.entries.len()
        invariant
            es == d.entries@,
            i <= es.len(),
            listing_wf(*d, nn, rr),
            sizes@.len() == nn,
            vis@.len() == rr,
            vis0.len() == rr,
            entries_wf(es, nn, rr),
            size_entries(es, vis0).0 <= u64::MAX,
            size_entries(es, vis0).1 <= usize::MAX,
            total == size_entries(es.subrange(0, i as int), vis0).0,
            files == size_entries(es.subrange(0, i as int), vis0).1,
            vis@ == size_entries(es.subrange(0, i as int), vis0).2,
            stat_views(stats@) == stats0 + size_entries(es.subrange(0, i as int), vis0).3,
            sizes_match(stat_views(stats@), sizes@),
        decreases es.len() - i,
    {
        let e = &d.entries[i];
        let ghost pre = es.subrange(0, i as int);
        let ghost nxt = es.subrange(0, i + 1);
        proof {
            assert(nxt.drop_last() =~= pre);
            assert(nxt.last() == es[i as int]);
            lemma_size_prefix(es, vis0, i + 1, nn, rr);
            lemma_size_prefix(es, vis0, i as int, nn, rr);
            lemma_size_entries_shape(pre, vis0, nn, rr);
            assert(entries_wf(nxt, nn, rr));
        }
        if e.info.is_dir {
            proof {
                lemma_size_shape(e.info.path@, e.dir, vis@, nn, rr);
            }
            let ghost st_before = stat_views(stats@);
            let (t, f) = size_dir_exec(&e.info.path, &e.dir, vis, sizes, stats);
            total = total + t;
            files = files + f;
            proof {
                let a = size_entries(pre, vis0);
                let b = size_dir(e.info.path@, e.dir, a.2);
                assert(stat_views(stats@) =~= stats0 + (a.3 + b.3));
            }
        } else {
            total = total + e.info.size;
            files = files + 1;
        }
        i = i + 1;
    }
    assert(es.subrange(0, es.len() as int) =~= es);
    let ghost st1 = stat_views(stats@);
    stats.push(DirStat { node: d.node, path: path.clone(), total, files });
    sizes.set(d.node, Some(total));
    proof {
        let r = size_entries(es, vis0);
        assert(stat_views(stats@) =~= st1.push((d.node as int, path@, total as int, files as int)));
        assert(stat_views(stats@) =~= stat_views(old(stats)@) + r.3.push((d.node as int, path@, r.0, r.1)));
        assert forall|k: int| 0 <= k < sizes@.len() implies match #[trigger] sizes@[k] {
            Some(t) => recorded(stat_views(stats@), k) == Some(t as int),
            None => recorded(stat_views(stats@), k) is None,
        } by {
            assert(stat_views(stats@).drop_last() =~= st1);
        }
    }
    (total, files)
}

} // verus!

verus! {

/// Tree pass state: (lines, directories, files, file bytes, deepest level,
/// files seen as (path, bytes), resolved paths seen).
pub type TreeAcc = (Seq<Seq<char>>, int, int, int, int, Seq<(Seq<char>, int)>, Seq<bool>);

/// The bytes recorded for a node by the size pass, 0 when none.
pub open spec fn size_or_zero(sizes: Seq<Option<u64>>, node: int) -> nat {
    match sizes[node] {
        Some(t) => t as nat,
        None => 0,
    }
}

/// The connector drawn before an entry.
pub open spec fn connector(is_last: bool) -> Seq<char> {
    if is_last {
        "└── "@
    } else {
        "├── "@
    }
}

/// What the prefix grows by below an entry.
pub open spec fn indent(is_last: bool) -> Seq<char> {
    if is_last {
        "    "@
    } else {
        "│   "@
    }
}

/// A directory's line in the tree.
pub open spec fn dir_line(prefix: Seq<char>, is_last: bool, name: Seq<char>, bytes: nat) -> Seq<
    char,
> {
    prefix + connector(is_last) + "□ "@ + name + "/  ◌ "@ + human_size_seq(bytes)
}

/// A file's line in the tree.
pub open spec fn file_line(prefix: Seq<char>, is_last: bool, name: Seq<char>, bytes: nat) -> Seq<
    char,
> {
    prefix + connector(is_last) + "▪ "@ + name + "  ◌ "@ + human_size_seq(bytes)
}

/// Whether the tree stops at this depth.
pub open spec fn too_deep(depth: int) -> bool {
    depth >= HARD_DEPTH_LIMIT || (!SCAN_EVERYTHING && depth >= MAX_DEPTH)
}

/// The tree pass over one directory (`build_tree_lines`).
pub open spec fn tree_dir(
    d: DirListing,
    depth: int,
    prefix: Seq<char>,
    sizes: Seq<Option<u64>>,
    acc: TreeAcc,
) -> TreeAcc
    decreases d, 1int, 0int,
{
    if too_deep(depth) {
        acc
    } else {
        let m = if acc.4 >= depth {
            acc.4
        } else {
            depth
        };
        tree_entries(
            d.entries@,
            d.entries@.len() as int,
            depth,
            prefix,
            sizes,
            (acc.0, acc.1, acc.2, acc.3, m, acc.5, acc.6),
        )
    }
}

/// The tree pass over the first `k` entries of a directory.
pub open spec fn tree_entries(
    es: Seq<ScanEntry>,
    k: int,
    depth: int,
    prefix: Seq<char>,
    sizes: Seq<Option<u64>>,
    acc: TreeAcc,
) -> TreeAcc
    decreases es, 0int, k,
{
    if k <= 0 || k > es.len() {
        acc
    } else {
        let a = tree_entries(es, k - 1, depth, prefix, sizes, acc);
        let e = es[k - 1];
        let is_last = k == es.len();
        if e.info.is_dir {
            if a.6[e.dir.real as int] {
                a
            } else {
                let line = dir_line(
                    prefix,
                    is_last,
                    e.info.name@,
                    size_or_zero(sizes, e.dir.node as int),
                );
                tree_dir(
                    e.dir,
                    depth + 1,
                    prefix + indent(is_last),
                    sizes,
                    (a.0.push(line), a.1 + 1, a.2, a.3, a.4, a.5, a.6.update(e.dir.real as int, true)),
                )
            }
        } else {
            let line = file_line(prefix, is_last, e.info.name@, e.info.size as nat);
            (
                a.0.push(line),
                a.1,
                a.2 + 1,
                a.3 + e.info.size,
                a.4,
                a.5.push((e.info.path@, e.info.size as int)),
                a.6,
            )
        }
    }
}

/// The counters of a tree pass never go down.
pub open spec fn grows(a: TreeAcc, b: TreeAcc) -> bool {
    &&& a.1 <= b.1
    &&& a.2 <= b.2
    &&& a.3 <= b.3
    &&& a.6.len() == b.6.len()
}

proof fn lemma_tree_grows(
    d: DirListing,
    depth: int,
    prefix: Seq<char>,
    sizes: Seq<Option<u64>>,
    acc: TreeAcc,
    n: nat,
    r: nat,
)
    requires
        listing_wf(d, n, r),
        acc.6.len() == r,
    ensures
        grows(acc, tree_dir(d, depth, prefix, sizes, acc)),
    decreases d, 1int, 0int,
{
    if !too_deep(depth) {
        let m = if acc.4 >= depth {
            acc.4
        } else {
            depth
        };
        lemma_tree_entries_grows(
            d.entries@,
            d.entries@.len() as int,
            depth,
            prefix,
            sizes,
            (acc.0, acc.1, acc.2, acc.3, m, acc.5, acc.6),
            n,
            r,
        );
    }
}

proof fn lemma_entries_wf_at(es: Seq<ScanEntry>, i: int, n: nat, r: nat)
    requires
        entries_wf(es, n, r),
        0 <= i < es.len(),
    ensures
        es[i].info.is_dir ==> listing_wf(es[i].dir, n, r),
    decreases es.len(),
{
    if i < es.len() - 1 {
        lemma_entries_wf_at(es.drop_last(), i, n, r);
    }
}

proof fn lemma_tree_entries_grows(
    es: Seq<ScanEntry>,
    k: int,
    depth: int,
    prefix: Seq<char>,
    sizes: Seq<Option<u64>>,
    acc: TreeAcc,
    n: nat,
    r: nat,
)
    requires
        entries_wf(es, n, r),
        acc.6.len() == r,
    ensures
        grows(acc, tree_entries(es, k, depth, prefix, sizes, acc)),
    decreases es, 0int, k,
{
    if k > 0 && k <= es.len() {
        lemma_tree_entries_grows(es, k - 1, depth, prefix, sizes, acc, n, r);
        let a = tree_entries(es, k - 1, depth, prefix, sizes, acc);
        let e = es[k - 1];
        lemma_entries_wf_at(es, k - 1, n, r);
        if e.info.is_dir && !a.6[e.dir.real as int] {
            let is_last = k == es.len();
            let line = dir_line(prefix, is_last, e.info.name@, size_or_zero(sizes, e.dir.node as int));
            lemma_tree_grows(
                e.dir,
                depth + 1,
                prefix + indent(is_last),
                sizes,
                (a.0.push(line), a.1 + 1, a.2, a.3, a.4, a.5, a.6.update(e.dir.real as int, true)),
                n,
                r,
            );
        }
    }
}

proof fn lemma_tree_entries_mono(
    es: Seq<ScanEntry>,
    i: int,
    j: int,
    depth: int,
    prefix: Seq<char>,
    sizes: Seq<Option<u64>>,
    acc: TreeAcc,
    n: nat,
    r: nat,
)
    requires
        entries_wf(es, n, r),
        acc.6.len() == r,
        0 <= i <= j <= es.len(),
    ensures
        grows(
            tree_entries(es, i, depth, prefix, sizes, acc),
            tree_entries(es, j, depth, prefix, sizes, acc),
        ),
    decreases j - i,
{
    if i < j {
        lemma_tree_entries_mono(es, i, j - 1, depth, prefix, sizes, acc, n, r);
        lemma_tree_entries_grows(es, j - 1, depth, prefix, sizes, acc, n, r);
        let a = tree_entries(es, j - 1, depth, prefix, sizes, acc);
        let e = es[j - 1];
        lemma_entries_wf_at(es, j - 1, n, r);
        if e.info.is_dir && !a.6[e.dir.real as int] {
            let is_last = j == es.len();
            let line = dir_line(prefix, is_last, e.info.name@, size_or_zero(sizes, e.dir.node as int));
            lemma_tree_grows(
                e.dir,
                depth + 1,
                prefix + indent(is_last),
                sizes,
                (a.0.push(line), a.1 + 1, a.2, a.3, a.4, a.5, a.6.update(e.dir.real as int, true)),
                n,
                r,
            );
        }
    }
}

} // verus!

verus! {

/// A file and its size.
#[derive(Clone)]
pub struct FileSize {
    pub path: String,
    pub size: u64,
}

impl FileSize {
    /// An equal copy.
    pub fn duplicate(&self) -> (r: Self)
        ensures
            r == *self,
    {
        FileSize { path: self.path.clone(), size: self.size }
    }
}

pub open spec fn file_views(v: Seq<FileSize>) -> Seq<(Seq<char>, int)> {
    v.map_values(|f: FileSize| (f.path@, f.size as int))
}

/// The tree pass state while it runs.
pub struct TreeState {
    pub lines: Vec<String>,
    pub dir_count: usize,
    pub file_count: usize,
    pub scanned_file_bytes: u64,
    pub max_depth_reached: usize,
    pub files: Vec<FileSize>,
}

pub open spec fn tree_view(st: TreeState, vis: Seq<bool>) -> TreeAcc {
    (
        views(st.lines@),
        st.dir_count as int,
        st.file_count as int,
        st.scanned_file_bytes as int,
        st.max_depth_reached as int,
        file_views(st.files@),
        vis,
    )
}

fn make_dir_line(prefix: &String, is_last: bool, name: &String, bytes: u64) -> (r: String)
    ensures
        r@ == dir_line(prefix@, is_last, name@, bytes as nat),
{
    let mut r = prefix.clone();
    if is_last {
        r.append("└── ");
    } else {
        r.append("├── ");
    }
    r.append("□ ");
    r.append(name.as_str());
    r.append("/  ◌ ");
    let h = human_size(bytes);
    r.append(h.as_str());
    r
}

fn make_file_line(prefix: &String, is_last: bool, name: &String, bytes: u64) -> (r: String)
    ensures
        r@ == file_line(prefix@, is_last, name@, bytes as nat),
{
    let mut r = prefix.clone();
    if is_last {
        r.append("└── ");
    } else {
        r.append("├── ");
    }
    r.append("▪ ");
    r.append(name.as_str());
    r.append("  ◌ ");
    let h = human_size(bytes);
    r.append(h.as_str());
    r
}

fn grow_prefix(prefix: &String, is_last: bool) -> (r: String)
    ensures
        r@ == prefix@ + indent(is_last),
{
    let mut r = prefix.clone();
    if is_last {
        r.append("    ");
    } else {
        r.append("│   ");
    }
    r
}

fn tree_dir_exec(
    d: &DirListing,
    depth: usize,
    prefix: &String,
    sizes: &Vec<Option<u64>>,
    vis: &mut Vec<bool>,
    st: &mut TreeState,
)
    requires
        listing_wf(*d, sizes@.len(), old(vis)@.len()),
        depth <= HARD_DEPTH_LIMIT,
        tree_dir(*d, depth as int, prefix@, sizes@, tree_view(*old(st), old(vis)@)).1 <= usize::MAX,
        tree_dir(*d, depth as int, prefix@, sizes@, tree_view(*old(st), old(vis)@)).2 <= usize::MAX,
        tree_dir(*d, depth as int, prefix@, sizes@, tree_view(*old(st), old(vis)@)).3 <= u64::MAX,
    ensures
        tree_view(*final(st), final(vis)@) == tree_dir(
            *d,
            depth as int,
            prefix@,
            sizes@,
            tree_view(*old(st), old(vis)@),
        ),
    decreases *d,
{
    let ghost nn = sizes@.len();
    let ghost rr = vis@.len();
    if depth >= HARD_DEPTH_LIMIT || (!SCAN_EVERYTHING && depth >= MAX_DEPTH) {
        return ;
    }
    if st.max_depth_reached < depth {
        st.max_depth_reached = depth;
    }
    let ghost acc1 = tree_view(*st, vis@);
    let ghost es = d.entries@;
    let n = d.entries.len();
    assert(tree_entries(es, 0, depth as int, prefix@, sizes@, acc1) == acc1);
    let mut i: usize = 0;
    while i < n
        invariant
            es == d.entries@,
            n == es.len(),
            i <= n,
            depth < MAX_DEPTH,
            entries_wf(es, nn, rr),
            sizes@.len() == nn,
            vis@.len() == rr,
            acc1.6.len() == rr,
            tree_view(*st, vis@) == tree_entries(es, i as int, depth as int, prefix@, sizes@, acc1),
            tree_entries(es, n as int, depth as int, prefix@, sizes@, acc1).1 <= usize::MAX,
            tree_entries(es, n as int, depth as int, prefix@, sizes@, acc1).2 <= usize::MAX,
            tree_entries(es, n as int, depth as int, prefix@, sizes@, acc1).3 <= u64::MAX,
        decreases n - i,
    {
        let e = &d.entries[i];
        let is_last = i + 1 == n;
        proof {
            lemma_entries_wf_at(es, i as int, nn, rr);
            lemma_tree_entries_mono(es, i + 1, n as int, depth as int, prefix@, sizes@, acc1, nn, rr);
        }
        let ghost a = tree_view(*st, vis@);
        if e.info.is_dir {
            if vis[e.dir.real] {
                i = i + 1;
                continue;
            }
            vis.set(e.dir.real, true);
            let bytes = match sizes[e.dir.node] {
                Some(t) => t,
                None => 0,
            };
            let line = make_dir_line(prefix, is_last, &e.info.name, bytes);
            proof {
                let line_s = dir_line(prefix@, is_last, e.info.name@, size_or_zero(sizes@, e.dir.node as int));
                let a2 = (a.0.push(line_s), a.1 + 1, a.2, a.3, a.4, a.5, a.6.update(e.dir.real as int, true));
                lemma_tree_grows(e.dir, depth + 1, prefix@ + indent(is_last), sizes@, a2, nn, rr);
            }
            let ghost l0 = views(st.lines@);
            st.lines.push(line);
            assert(views(st.lines@) =~= l0.push(line@));
            st.dir_count = st.dir_count + 1;
            let next_prefix = grow_prefix(prefix, is_last);
            tree_dir_exec(&e.dir, depth + 1, &next_prefix, sizes, vis, st);
        } else {
            let line = make_file_line(prefix, is_last, &e.info.name, e.info.size);
            let ghost l0 = views(st.lines@);
            let ghost f0 = file_views(st.files@);
            st.lines.push(line);
            st.file_count = st.file_count + 1;
            st.scanned_file_bytes = st.scanned_file_bytes + e.info.size;
            st.files.push(FileSize { path: e.info.path.clone(), size: e.info.size });
            assert(views(st.lines@) =~= l0.push(line@));
            assert(file_views(st.files@) =~= f0.push((e.info.path@, e.info.size as int)));
        }
        i = i + 1;
    }
}

} // verus!

verus! {

/// A directory's total size in bytes.
pub struct DirSize {
    pub path: String,
    pub size: u64,
}

/// A directory's number of files.
pub struct DirFileCount {
    pub path: String,
    pub count: usize,
}

/// An entry that was skipped, with its size and file count.
pub struct IgnoredEntry {
    pub path: String,
    pub name: String,
    pub is_dir: bool,
    pub size: u64,
    pub file_count: usize,
}

/// Everything a scan finds.
pub struct ScanData {
    pub root_path: String,
    pub root_total_size: u64,
    pub root_entries: Vec<EntryInfo>,
    pub tree_lines: Vec<String>,
    pub file_count: usize,
    pub dir_count: usize,
    pub scanned_file_bytes: u64,
    pub max_depth_reached: usize,
    pub largest_files: Vec<FileSize>,
    pub dir_sizes: Vec<DirSize>,
    pub dir_file_counts: Vec<DirFileCount>,
    pub ignored_entries: Vec<IgnoredEntry>,
}

/// `out` is `items` ordered by their second part, largest first, equal ones
/// in their first order (a stable sort).
pub open spec fn ranked_desc<A>(items: Seq<(A, int)>, out: Seq<(A, int)>) -> bool {
    exists|p: Seq<usize>|
        {
            &&& is_perm(p, items.len())
            &&& out.len() == items.len()
            &&& forall|i: int| 0 <= i < items.len() ==> #[trigger] out[i] == items[p[i] as int]
            &&& forall|i: int, j: int|
                #![trigger p[i], p[j]]
                0 <= i < j < items.len() ==> items[p[i] as int].1 > items[p[j] as int].1 || (
                items[p[i] as int].1 == items[p[j] as int].1 && p[i] < p[j])
        }
}

/// The snapshot's numbers are all in range.
pub open spec fn snapshot_wf(s: FsSnapshot) -> bool {
    listing_wf(s.root, s.node_count as nat, s.real_count as nat)
}

/// No resolved path seen yet.
pub open spec fn none_seen(n: nat) -> Seq<bool> {
    Seq::new(n, |i: int| false)
}

/// The size pass over the whole snapshot.
pub open spec fn size_pass(root_path: Seq<char>, s: FsSnapshot) -> SizeAcc {
    size_dir(root_path, s.root, none_seen(s.real_count as nat))
}

/// The bytes recorded per node by the size pass.
pub open spec fn sizes_from(stats: Seq<DirStatView>, n: nat) -> Seq<Option<u64>> {
    Seq::new(
        n,
        |k: int|
            match recorded(stats, k) {
                Some(t) => Some(t as u64),
                None => None,
            },
    )
}

/// The tree pass over the whole snapshot.
pub open spec fn tree_pass(root_path: Seq<char>, s: FsSnapshot) -> TreeAcc {
    tree_dir(
        s.root,
        0,
        Seq::empty(),
        sizes_from(size_pass(root_path, s).3, s.node_count as nat),
        (Seq::empty(), 0, 0, 0, 0, Seq::empty(), none_seen(s.real_count as nat)),
    )
}

/// The totals fit the integer types the scan counts in.
pub open spec fn scan_fits(root_path: Seq<char>, s: FsSnapshot) -> bool {
    &&& size_pass(root_path, s).0 <= u64::MAX
    &&& size_pass(root_path, s).1 <= usize::MAX
    &&& tree_pass(root_path, s).1 <= usize::MAX
    &&& tree_pass(root_path, s).2 <= usize::MAX
    &&& tree_pass(root_path, s).3 <= u64::MAX
}

pub open spec fn entry_infos(es: Seq<ScanEntry>) -> Seq<EntryInfo> {
    es.map_values(|e: ScanEntry| e.info)
}

pub open spec fn dir_size_views(v: Seq<DirSize>) -> Seq<(Seq<char>, int)> {
    v.map_values(|x: DirSize| (x.path@, x.size as int))
}

pub open spec fn dir_count_views(v: Seq<DirFileCount>) -> Seq<(Seq<char>, int)> {
    v.map_values(|x: DirFileCount| (x.path@, x.count as int))
}

/// (path, bytes) of each recorded directory, in the order recorded.
pub open spec fn stat_sizes(stats: Seq<DirStatView>) -> Seq<(Seq<char>, int)> {
    stats.map_values(|x: DirStatView| (x.1, x.2))
}

/// (path, files) of each recorded directory, in the order recorded.
pub open spec fn stat_counts(stats: Seq<DirStatView>) -> Seq<(Seq<char>, int)> {
    stats.map_values(|x: DirStatView| (x.1, x.3))
}

/// What scanning a snapshot gives: the size pass's totals, the root's
/// entries, the tree pass's lines and counts, the files by size.
pub open spec fn scan_result(root_path: Seq<char>, snapshot: FsSnapshot, data: ScanData) -> bool {
    &&& data.root_path@ == root_path
    &&& data.root_total_size == size_pass(root_path, snapshot).0
    &&& data.root_entries@ == entry_infos(snapshot.root.entries@)
    &&& dir_size_views(data.dir_sizes@) == stat_sizes(size_pass(root_path, snapshot).3)
    &&& dir_count_views(data.dir_file_counts@) == stat_counts(size_pass(root_path, snapshot).3)
    &&& views(data.tree_lines@) == tree_pass(root_path, snapshot).0
    &&& data.dir_count == tree_pass(root_path, snapshot).1
    &&& data.file_count == tree_pass(root_path, snapshot).2
    &&& data.scanned_file_bytes == tree_pass(root_path, snapshot).3
    &&& data.max_depth_reached == tree_pass(root_path, snapshot).4
    &&& ranked_desc(tree_pass(root_path, snapshot).5, file_views(data.largest_files@))
    &&& data.ignored_entries@.len() == 0
}

/// Scans the tree read under `root_path`: directory totals (each resolved
/// directory counted once), the drawn tree down to `MAX_DEPTH` levels, the
/// counts, and the files by size, largest first.
pub fn scan_tree(root_path: &str, snapshot: &FsSnapshot) -> (data: ScanData)
    requires
        snapshot_wf(*snapshot),
        scan_fits(root_path@, *snapshot),
    ensures
        scan_result(root_path@, *snapshot, data),
{
    let path = owned(root_path);
    let mut vis: Vec<bool> = Vec::new();
    let mut k: usize = 0;
    while k < snapshot.real_count
        invariant
            k <= snapshot.real_count,
            vis@ == none_seen(k as nat),
        decreases snapshot.real_count - k,
    {
        vis.push(false);
        k = k + 1;
        assert(vis@ =~= none_seen(k as nat));
    }
    let mut sizes: Vec<Option<u64>> = Vec::new();
    k = 0;
    while k < snapshot.node_count
        invariant
            k <= snapshot.node_count,
            sizes@.len() == k,
            forall|m: int| 0 <= m < k ==> sizes@[m] is None,
        decreases snapshot.node_count - k,
    {
        sizes.push(None);
        k = k + 1;
    }
    let mut stats: Vec<DirStat> = Vec::new();
    assert(stat_views(stats@) =~= Seq::empty());
    let (root_total, _root_files) = size_dir_exec(&path, &snapshot.root, &mut vis, &mut sizes, &mut stats);
    let ghost sp = size_pass(root_path@, *snapshot);
    assert(stat_views(stats@) =~= sp.3);
    proof {
        assert forall|m: int| 0 <= m < sizes@.len() implies #[trigger] sizes@[m] == sizes_from(
            sp.3,
            snapshot.node_count as nat,
        )[m] by {
            match sizes@[m] {
                Some(t) => {},
                None => {},
            }
        }
        assert(sizes@ =~= sizes_from(sp.3, snapshot.node_count as nat));
    }
    let mut tvis: Vec<bool> = Vec::new();
    k = 0;
    while k < snapshot.real_count
        invariant
            k <= snapshot.real_count,
            tvis@ == none_seen(k as nat),
        decreases snapshot.real_count - k,
    {
        tvis.push(false);
        k = k + 1;
        assert(tvis@ =~= none_seen(k as nat));
    }
    let mut st = TreeState {
        lines: Vec::new(),
        dir_count: 0,
        file_count: 0,
        scanned_file_bytes: 0,
        max_depth_reached: 0,
        files: Vec::new(),
    };
    assert(tree_view(st, tvis@) =~= (
        Seq::empty(),
        0int,
        0int,
        0int,
        0int,
        Seq::empty(),
        none_seen(snapshot.real_count as nat),
    ));
    let empty_prefix = String::new();
    tree_dir_exec(&snapshot.root, 0, &empty_prefix, &sizes, &mut tvis, &mut st);
    let ghost tp = tree_pass(root_path@, *snapshot);
    let mut root_entries: Vec<EntryInfo> = Vec::new();
    let mut i: usize = 0;
    while i < snapshot.root.entries.len()
        invariant
            i <= snapshot.root.entries@.len(),
            root_entries@ == entry_infos(snapshot.root.entries@.subrange(0, i as int)),
        decreases snapshot.root.entries@.len() - i,
    {
        root_entries.push(snapshot.root.entries[i].info.duplicate());
        i = i + 1;
        assert(root_entries@ =~= entry_infos(snapshot.root.entries@.subrange(0, i as int)));
    }
    assert(snapshot.root.entries@.subrange(0, snapshot.root.entries@.len() as int)
        =~= snapshot.root.entries@);
    let mut dir_sizes: Vec<DirSize> = Vec::new();
    let mut dir_file_counts: Vec<DirFileCount> = Vec::new();
    i = 0;
    while i < stats.len()
        invariant
            i <= stats@.len(),
            stat_views(stats@) == sp.3,
            dir_size_views(dir_sizes@) == stat_sizes(sp.3.subrange(0, i as int)),
            dir_count_views(dir_file_counts@) == stat_counts(sp.3.subrange(0, i as int)),
        decreases stats@.len() - i,
    {
        let ghost a = dir_size_views(dir_sizes@);
        let ghost b = dir_count_views(dir_file_counts@);
        dir_sizes.push(DirSize { path: stats[i].path.clone(), size: stats[i].total });
        dir_file_counts.push(DirFileCount { path: stats[i].path.clone(), count: stats[i].files });
        assert(stat_views(stats@)[i as int] == (
            stats@[i as int].node as int,
            stats@[i as int].path@,
            stats@[i as int].total as int,
            stats@[i as int].files as int,
        ));
        assert(dir_size_views(dir_sizes@) =~= a.push((stats@[i as int].path@, stats@[i as int].total as int)));
        assert(dir_count_views(dir_file_counts@) =~= b.push((stats@[i as int].path@, stats@[i as int].files as int)));
        assert(sp.3.subrange(0, i + 1) =~= sp.3.subrange(0, i as int).push(sp.3[i as int]));
        assert(stat_sizes(sp.3.subrange(0, i + 1)) =~= stat_sizes(sp.3.subrange(0, i as int)).push((sp.3[i as int].1, sp.3[i as int].2)));
        assert(stat_counts(sp.3.subrange(0, i + 1)) =~= stat_counts(sp.3.subrange(0, i as int)).push((sp.3[i as int].1, sp.3[i as int].3)));
        i = i + 1;
    }
    assert(sp.3.subrange(0, stats@.len() as int) =~= sp.3);
    let largest = rank_files(&st.files);
    ScanData {
        root_path: path,
        root_total_size: root_total,
        root_entries,
        tree_lines: st.lines,
        file_count: st.file_count,
        dir_count: st.dir_count,
        scanned_file_bytes: st.scanned_file_bytes,
        max_depth_reached: st.max_depth_reached,
        largest_files: largest,
        dir_sizes,
        dir_file_counts,
        ignored_entries: Vec::new(),
    }
}

/// Files by size, largest first, ties in their first order.
pub fn rank_files(files: &Vec<FileSize>) -> (out: Vec<FileSize>)
    ensures
        ranked_desc(file_views(files@), file_views(out@)),
{
    let mut keys: Vec<u64> = Vec::new();
    let mut i: usize = 0;
    while i < files.len()
        invariant
            i <= files@.len(),
            keys@.len() == i,
            forall|k: int| 0 <= k < i ==> keys@[k] == files@[k].size,
        decreases files@.len() - i,
    {
        keys.push(files[i].size);
        i = i + 1;
    }
    let p = order_desc(&keys);
    let mut out: Vec<FileSize> = Vec::new();
    let mut k: usize = 0;
    while k < p.len()
        invariant
            is_perm(p@, files@.len()),
            keys@.len() == files@.len(),
            k <= p@.len(),
            out@.len() == k,
            forall|m: int| 0 <= m < k ==> #[trigger] out@[m] == files@[p@[m] as int],
        decreases p@.len() - k,
    {
        out.push(files[p[k]].duplicate());
        k = k + 1;
    }
    proof {
        let items = file_views(files@);
        assert(file_views(out@).len() == items.len());
        assert forall|m: int| 0 <= m < items.len() implies #[trigger] file_views(out@)[m]
            == items[p@[m] as int] by {
            assert(out@[m] == files@[p@[m] as int]);
        }
        assert forall|a: int, b: int|
            #![trigger p@[a], p@[b]]
            0 <= a < b < items.len() implies items[p@[a] as int].1 > items[p@[b] as int].1 || (
            items[p@[a] as int].1 == items[p@[b] as int].1 && p@[a] < p@[b]) by {
            assert(keys@[p@[a] as int] == files@[p@[a] as int].size);
            assert(keys@[p@[b] as int] == files@[p@[b] as int].size);
        }
    }
    out
}

/// Bytes of the files, number of files and number of directories in
/// every listing of a snapshot (a listing counted as often as it appears).
pub open spec fn listing_total(d: DirListing) -> (int, int, int)
    decreases d, 1int,
{
    entries_total(d.entries@)
}

pub open spec fn entries_total(es: Seq<ScanEntry>) -> (int, int, int)
    decreases es, 0int,
{
    if es.len() == 0 {
        (0, 0, 0)
    } else {
        let a = entries_total(es.drop_last());
        let e = es.last();
        if e.info.is_dir {
            let b = listing_total(e.dir);
            (a.0 + b.0, a.1 + b.1, a.2 + b.2 + 1)
        } else {
            (a.0 + e.info.size, a.1 + 1, a.2)
        }
    }
}

proof fn lemma_total_nonneg(d: DirListing)
    ensures
        listing_total(d).0 >= 0,
        listing_total(d).1 >= 0,
        listing_total(d).2 >= 0,
    decreases d, 1int,
{
    lemma_entries_total_nonneg(d.entries@);
}

proof fn lemma_entries_total_nonneg(es: Seq<ScanEntry>)
    ensures
        entries_total(es).0 >= 0,
        entries_total(es).1 >= 0,
        entries_total(es).2 >= 0,
    decreases es, 0int,
{
    if es.len() > 0 {
        lemma_entries_total_nonneg(es.drop_last());
        if es.last().info.is_dir {
            lemma_total_nonneg(es.last().dir);
        }
    }
}

proof fn lemma_entries_total_prefix(es: Seq<ScanEntry>, k: int)
    requires
        0 <= k <= es.len(),
    ensures
        entries_total(es.subrange(0, k)).0 <= entries_total(es).0,
        entries_total(es.subrange(0, k)).1 <= entries_total(es).1,
        entries_total(es.subrange(0, k)).2 <= entries_total(es).2,
    decreases es.len() - k,
{
    if k < es.len() {
        lemma_entries_total_prefix(es, k + 1);
        let p = es.subrange(0, k + 1);
        assert(p.drop_last() =~= es.subrange(0, k));
        if p.last().info.is_dir {
            lemma_total_nonneg(p.last().dir);
        }
    } else {
        assert(es.subrange(0, k) =~= es);
    }
}

/// The size pass adds up no more than the snapshot holds.
proof fn lemma_size_bounded(path: Seq<char>, d: DirListing, vis: Seq<bool>)
    ensures
        size_dir(path, d, vis).0 <= listing_total(d).0,
        size_dir(path, d, vis).1 <= listing_total(d).1,
    decreases d, 1int,
{
    lemma_total_nonneg(d);
    if !vis[d.real as int] {
        lemma_size_entries_bounded(d.entries@, vis.update(d.real as int, true));
    }
}

proof fn lemma_size_entries_bounded(es: Seq<ScanEntry>, vis: Seq<bool>)
    ensures
        size_entries(es, vis).0 <= entries_total(es).0,
        size_entries(es, vis).1 <= entries_total(es).1,
    decreases es, 0int,
{
    if es.len() > 0 {
        lemma_size_entries_bounded(es.drop_last(), vis);
        let a = size_entries(es.drop_last(), vis);
        let e = es.last();
        if e.info.is_dir {
            lemma_size_bounded(e.info.path@, e.dir, a.2);
        }
    }
}

/// The tree pass counts no more directories, files and bytes than the
/// snapshot holds.
proof fn lemma_tree_bounded(d: DirListing, depth: int, prefix: Seq<char>, sizes: Seq<Option<u64>>, acc: TreeAcc)
    ensures
        acc.1 <= tree_dir(d, depth, prefix, sizes, acc).1 <= acc.1 + listing_total(d).2,
        acc.2 <= tree_dir(d, depth, prefix, sizes, acc).2 <= acc.2 + listing_total(d).1,
        acc.3 <= tree_dir(d, depth, prefix, sizes, acc).3 <= acc.3 + listing_total(d).0,
    decreases d, 1int, 0int,
{
    lemma_total_nonneg(d);
    if !too_deep(depth) {
        let m = if acc.4 >= depth {
            acc.4
        } else {
            depth
        };
        let es = d.entries@;
        lemma_tree_entries_bounded(es, es.len() as int, depth, prefix, sizes, (acc.0, acc.1, acc.2, acc.3, m, acc.5, acc.6));
        assert(es.subrange(0, es.len() as int) =~= es);
    }
}

proof fn lemma_tree_entries_bounded(
    es: Seq<ScanEntry>,
    k: int,
    depth: int,
    prefix: Seq<char>,
    sizes: Seq<Option<u64>>,
    acc: TreeAcc,
)
    requires
        0 <= k <= es.len(),
    ensures
        acc.1 <= tree_entries(es, k, depth, prefix, sizes, acc).1 <= acc.1 + entries_total(es.subrange(0, k)).2,
        acc.2 <= tree_entries(es, k, depth, prefix, sizes, acc).2 <= acc.2 + entries_total(es.subrange(0, k)).1,
        acc.3 <= tree_entries(es, k, depth, prefix, sizes, acc).3 <= acc.3 + entries_total(es.subrange(0, k)).0,
    decreases es, 0int, k,
{
    if k == 0 {
        assert(es.subrange(0, 0) =~= Seq::<ScanEntry>::empty());
    } else {
        lemma_tree_entries_bounded(es, k - 1, depth, prefix, sizes, acc);
        let a = tree_entries(es, k - 1, depth, prefix, sizes, acc);
        let e = es[k - 1];
        let p = es.subrange(0, k);
        assert(p.drop_last() =~= es.subrange(0, k - 1));
        assert(p.last() == e);
        let is_last = k == es.len();
        if e.info.is_dir {
            lemma_total_nonneg(e.dir);
            if !a.6[e.dir.real as int] {
                let line = dir_line(prefix, is_last, e.info.name@, size_or_zero(sizes, e.dir.node as int));
                lemma_tree_bounded(
                    e.dir,
                    depth + 1,
                    prefix + indent(is_last),
                    sizes,
                    (a.0.push(line), a.1 + 1, a.2, a.3, a.4, a.5, a.6.update(e.dir.real as int, true)),
                );
            }
        }
    }
}

/// The snapshot is well formed and its totals fit the scan's counters.
pub open spec fn snapshot_ok(s: FsSnapshot) -> bool {
    &&& snapshot_wf(s)
    &&& listing_total(s.root).0 <= u64::MAX
    &&& listing_total(s.root).1 <= usize::MAX
    &&& listing_total(s.root).2 <= usize::MAX
}

/// A snapshot that is fine can be scanned.
pub proof fn lemma_snapshot_ok_fits(root_path: Seq<char>, s: FsSnapshot)
    requires
        snapshot_ok(s),
    ensures
        scan_fits(root_path, s),
{
    lemma_size_bounded(root_path, s.root, none_seen(s.real_count as nat));
    lemma_tree_bounded(
        s.root,
        0,
        Seq::empty(),
        sizes_from(size_pass(root_path, s).3, s.node_count as nat),
        (Seq::empty(), 0, 0, 0, 0, Seq::empty(), none_seen(s.real_count as nat)),
    );
}

fn check_listing(d: &DirListing, nodes: usize, reals: usize) -> (r: Option<(u64, usize, usize)>)
    ensures
        match r {
            Some(t) => listing_wf(*d, nodes as nat, reals as nat) && t.0 == listing_total(*d).0
                && t.1 == listing_total(*d).1 && t.2 == listing_total(*d).2,
            None => !(listing_wf(*d, nodes as nat, reals as nat) && listing_total(*d).0 <= u64::MAX
                && listing_total(*d).1 <= usize::MAX && listing_total(*d).2 <= usize::MAX),
        },
    decreases *d,
{
    if d.node >= nodes || d.real >= reals {
        return None;
    }
    let ghost es = d.entries@;
    let ghost n = nodes as nat;
    let ghost r = reals as nat;
    let mut b: u64 = 0;
    let mut f: usize = 0;
    let mut dirs: usize = 0;
    let mut i: usize = 0;
    assert(es.subrange(0, 0) =~= Seq::<ScanEntry>::empty());
    while i < d.entries.len()
        invariant
            es == d.entries@,
            n == nodes as nat,
            r == reals as nat,
            d.node < nodes,
            d.real < reals,
            i <= es.len(),
            entries_wf(es.subrange(0, i as int), n, r),
            b == entries_total(es.subrange(0, i as int)).0,
            f == entries_total(es.subrange(0, i as int)).1,
            dirs == entries_total(es.subrange(0, i as int)).2,
        decreases es.len() - i,
    {
        let e = &d.entries[i];
        let ghost p = es.subrange(0, i + 1);
        proof {
            assert(p.drop_last() =~= es.subrange(0, i as int));
            assert(p.last() == es[i as int]);
            lemma_entries_total_prefix(es, i + 1);
        }
        if e.info.is_dir {
            match check_listing(&e.dir, nodes, reals) {
                Some(t) => {
                    if t.0 > u64::MAX - b || t.1 > usize::MAX - f || dirs >= usize::MAX - t.2 {
                        proof {
                            lemma_entries_total_prefix(es, i + 1);
                        }
                        return None;
                    }
                    b = b + t.0;
                    f = f + t.1;
                    dirs = dirs + t.2 + 1;
                },
                None => {
                    proof {
                        if listing_wf(*d, n, r) {
                            lemma_size_prefix(es, none_seen(r), i + 1, n, r);
                            lemma_entries_total_prefix(es, i + 1);
                            lemma_total_nonneg(e.dir);
                            lemma_entries_total_nonneg(es.subrange(0, i as int));
                        }
                    }
                    return None;
                },
            }
        } else {
            if e.info.size > u64::MAX - b || f >= usize::MAX {
                return None;
            }
            b = b + e.info.size;
            f = f + 1;
        }
        i = i + 1;
    }
    assert(es.subrange(0, es.len() as int) =~= es);
    Some((b, f, dirs))
}

/// Scans a snapshot after checking that it is well formed and that its
/// totals fit the counters; nothing when they do not.
pub fn scan_checked(root_path: &str, snapshot: &FsSnapshot) -> (r: Option<ScanData>)
    ensures
        r is Some <==> snapshot_ok(*snapshot),
        r matches Some(data) ==> scan_result(root_path@, *snapshot, data),
{
    match check_listing(&snapshot.root, snapshot.node_count, snapshot.real_count) {
        Some(_) => {
            proof {
                lemma_snapshot_ok_fits(root_path@, *snapshot);
            }
            Some(scan_tree(root_path, snapshot))
        },
        None => None,
    }
}

} // verus!
