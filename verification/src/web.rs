//! The web server's scan requests: what a query asks to leave out and
//! which folder it scans.

use vstd::prelude::*;
use crate::scan::{
    DEFAULT_SCAN_ROOT, ScanOptions, default_dir_names, default_file_names, ignore_list_seps,
    keep_trimmed, parse_ignore_list, trimmed_names,
};
use vstd::string::StringExecFns;
use crate::console::Config;
use crate::text::{lemma_trim_idempotent, owned, split_seq, trim, trim_seq, views};

verus! {

/// The query of `/api/scan` and `/api/save`.
pub struct ScanQuery {
    pub root: Option<String>,
    pub ignore_dirs: Option<String>,
    pub ignore_files: Option<String>,
}

/// The names a query field lists: its pieces between commas and new
/// lines, trimmed, the empty ones dropped; none when the field is absent.
pub open spec fn query_names(field: Option<String>) -> Seq<Seq<char>> {
    match field {
        Some(v) => keep_trimmed(split_seq(v@, ignore_list_seps())),
        None => Seq::empty(),
    }
}

/// Every name `keep_trimmed` keeps is nonempty and already trimmed.
pub proof fn lemma_keep_trimmed_clean(ps: Seq<Seq<char>>)
    ensures
        forall|i: int|
            0 <= i < keep_trimmed(ps).len() ==> #[trigger] keep_trimmed(ps)[i].len() > 0
                && trim_seq(keep_trimmed(ps)[i]) == keep_trimmed(ps)[i],
    decreases ps.len(),
{
    if ps.len() > 0 {
        lemma_keep_trimmed_clean(ps.drop_last());
        lemma_trim_idempotent(ps.last());
        let r = keep_trimmed(ps.drop_last());
        let t = trim_seq(ps.last());
        if t.len() > 0 {
            assert forall|i: int| 0 <= i < r.push(t).len() implies #[trigger] r.push(t)[i].len() > 0
                && trim_seq(r.push(t)[i]) == r.push(t)[i] by {
                if i < r.len() {
                    assert(r.push(t)[i] == r[i]);
                }
            }
        }
    }
}

proof fn lemma_trimmed_names_of_clean(names: Seq<String>)
    requires
        forall|i: int|
            0 <= i < names.len() ==> (#[trigger] names[i])@.len() > 0 && trim_seq(names[i]@)
                == names[i]@,
    ensures
        trimmed_names(names) == views(names).to_set(),
{
    assert forall|t: Seq<char>| #[trigger] trimmed_names(names).contains(t) implies views(
        names,
    ).to_set().contains(t) by {
        let i = choose|i: int| 0 <= i < names.len() && trim_seq(names[i]@) == t;
        assert(views(names)[i] == t);
    }
    assert forall|t: Seq<char>| #[trigger] views(names).to_set().contains(t) implies trimmed_names(
        names,
    ).contains(t) by {
        let i = choose|i: int| 0 <= i < views(names).len() && views(names)[i] == t;
        assert(names[i]@ == t);
    }
    assert(trimmed_names(names) =~= views(names).to_set());
}

fn field_names(field: &Option<String>) -> (names: Vec<String>)
    ensures
        views(names@) == query_names(*field),
        trimmed_names(names@) == query_names(*field).to_set(),
{
    let names = match field {
        Some(v) => parse_ignore_list(v.as_str()),
        None => Vec::new(),
    };
    proof {
        assert(views(names@) =~= query_names(*field));
        if let Some(v) = field {
            lemma_keep_trimmed_clean(split_seq(v@, ignore_list_seps()));
        }
        assert forall|i: int| 0 <= i < names@.len() implies (#[trigger] names@[i])@.len() > 0
            && trim_seq(names@[i]@) == names@[i]@ by {
            assert(views(names@)[i] == names@[i]@);
        }
        lemma_trimmed_names_of_clean(names@);
    }
    names
}

/// The scan options of a query: the default names left out, plus the
/// names the query lists.
pub fn scan_options_from_query(query: &ScanQuery) -> (options: ScanOptions)
    ensures
        options.wf(),
        options.dir_names() == default_dir_names().union(query_names(query.ignore_dirs).to_set()),
        options.file_names() == default_file_names().union(query_names(query.ignore_files).to_set()),
{
    let dirs = field_names(&query.ignore_dirs);
    let files = field_names(&query.ignore_files);
    ScanOptions::with_extra_ignores(dirs.as_slice(), files.as_slice())
}

/// The folder a query scans: its `root`, or the default.
pub fn scan_root(query: &ScanQuery) -> (r: String)
    ensures
        r@ == match query.root {
            Some(v) => v@,
            None => DEFAULT_SCAN_ROOT@,
        },
{
    match &query.root {
        Some(v) => v.clone(),
        None => owned(DEFAULT_SCAN_ROOT),
    }
}

/// The folder the folder picker answered: its output trimmed, nothing
/// when it failed or answered nothing.
pub fn picked_folder(stdout: Option<&str>) -> (r: Option<String>)
    ensures
        match r {
            Some(p) => stdout matches Some(s) && trim_seq(s@).len() > 0 && p@ == trim_seq(s@),
            None => stdout is None || trim_seq(stdout->0@).len() == 0,
        },
{
    match stdout {
        Some(s) => {
            let t = trim(s);
            if t.unicode_len() == 0 {
                None
            } else {
                Some(t)
            }
        },
        None => None,
    }
}

/// The folder the terminal viewer scans: the first argument, else the
/// `SCAN_ROOT` variable, else the default.
pub fn scan_root_choice(arg: Option<String>, env: Option<String>) -> (r: String)
    ensures
        r@ == match arg {
            Some(a) => a@,
            None => match env {
                Some(e) => e@,
                None => DEFAULT_SCAN_ROOT@,
            },
        },
{
    match arg {
        Some(a) => a,
        None => match env {
            Some(e) => e,
            None => owned(DEFAULT_SCAN_ROOT),
        },
    }
}

/// The ignore lists the web page starts with.
pub struct UiConfig {
    pub ignore_dirs: String,
    pub ignore_files: String,
}

/// The page's starting ignore lists, from the server's settings.
pub fn ui_config(cfg: &Config) -> (u: UiConfig)
    ensures
        u.ignore_dirs@ == cfg.ignore_dirs@,
        u.ignore_files@ == cfg.ignore_files@,
{
    UiConfig { ignore_dirs: cfg.ignore_dirs.clone(), ignore_files: cfg.ignore_files.clone() }
}

} // verus!
