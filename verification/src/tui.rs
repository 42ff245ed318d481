//! The terminal viewer of a scan: its tabs, its state and how keys change
//! it, and the text of each tab's rows.

use vstd::prelude::*;
use vstd::string::StringExecFns;
use crate::paths::{file_name_or_empty, file_name_string};
use crate::ranking::{drop_path, lookup_path, top_dirs, top_dirs_by_files, top_ranked, dir_size_of};
use crate::report::{depth_label, depth_label_seq, row_views, strings4};
use crate::scan::{
    ScanData, dir_count_views, dir_size_views, file_views, relative_path, relative_path_seq,
    TOP_N_DIRS, TOP_N_FILES,
};
use crate::size::{human_size, human_size_seq};
use crate::text::{dec_seq, owned, usize_to_string, views};

verus! {

broadcast use vstd::string::group_string_axioms;

/// The tabs, in the order they are shown.
#[derive(Clone, Copy, PartialEq, Eq, Structural)]
pub enum Tab {
    Summary,
    System,
    Root,
    TopFiles,
    TopDirs,
    TopDirsByFiles,
    Tree,
}

/// The position of a tab in the tab bar.
pub open spec fn tab_index(t: Tab) -> nat {
    match t {
        Tab::Summary => 0,
        Tab::System => 1,
        Tab::Root => 2,
        Tab::TopFiles => 3,
        Tab::TopDirs => 4,
        Tab::TopDirsByFiles => 5,
        Tab::Tree => 6,
    }
}

/// The tab at a position of the tab bar.
pub open spec fn tab_at(i: nat) -> Tab {
    if i == 0 {
        Tab::Summary
    } else if i == 1 {
        Tab::System
    } else if i == 2 {
        Tab::Root
    } else if i == 3 {
        Tab::TopFiles
    } else if i == 4 {
        Tab::TopDirs
    } else if i == 5 {
        Tab::TopDirsByFiles
    } else {
        Tab::Tree
    }
}

/// The number of tabs.
pub const TAB_COUNT: usize = 7;

pub open spec fn tab_title(t: Tab) -> Seq<char> {
    match t {
        Tab::Summary => "Summary"@,
        Tab::System => "System"@,
        Tab::Root => "Root"@,
        Tab::TopFiles => "Top Files"@,
        Tab::TopDirs => "Top Dirs"@,
        Tab::TopDirsByFiles => "Top by Files"@,
        Tab::Tree => "Tree"@,
    }
}

impl Tab {
    /// Every tab, in order.
    pub fn all() -> (v: Vec<Tab>)
        ensures
            v@.len() == TAB_COUNT,
            forall|i: int| 0 <= i < TAB_COUNT ==> #[trigger] v@[i] == tab_at(i as nat),
    {
        let v = vec![
            Tab::Summary,
            Tab::System,
            Tab::Root,
            Tab::TopFiles,
            Tab::TopDirs,
            Tab::TopDirsByFiles,
            Tab::Tree,
        ];
        v
    }

    /// The tab's title.
    pub fn title(self) -> (s: &'static str)
        ensures
            s@ == tab_title(self),
    {
        match self {
            Tab::Summary => "Summary",
            Tab::System => "System",
            Tab::Root => "Root",
            Tab::TopFiles => "Top Files",
            Tab::TopDirs => "Top Dirs",
            Tab::TopDirsByFiles => "Top by Files",
            Tab::Tree => "Tree",
        }
    }

    fn index(self) -> (i: usize)
        ensures
            i == tab_index(self),
    {
        match self {
            Tab::Summary => 0,
            Tab::System => 1,
            Tab::Root => 2,
            Tab::TopFiles => 3,
            Tab::TopDirs => 4,
            Tab::TopDirsByFiles => 5,
            Tab::Tree => 6,
        }
    }

    /// The tab at a position (below the number of tabs).
    pub fn at(i: usize) -> (t: Tab)
        requires
            i < TAB_COUNT,
        ensures
            t == tab_at(i as nat),
    {
        if i == 0 {
            Tab::Summary
        } else if i == 1 {
            Tab::System
        } else if i == 2 {
            Tab::Root
        } else if i == 3 {
            Tab::TopFiles
        } else if i == 4 {
            Tab::TopDirs
        } else if i == 5 {
            Tab::TopDirsByFiles
        } else {
            Tab::Tree
        }
    }

    /// The tab to the right, the first after the last.
    pub fn next(self) -> (t: Tab)
        ensures
            t == tab_at(((tab_index(self) + 1) % 7) as nat),
    {
        Tab::at((self.index() + 1) % TAB_COUNT)
    }

    /// The tab to the left, the last before the first.
    pub fn prev(self) -> (t: Tab)
        ensures
            t == tab_at(((tab_index(self) + 6) % 7) as nat),
    {
        Tab::at((self.index() + TAB_COUNT - 1) % TAB_COUNT)
    }
}

/// Going to the next tab and back, or back and then on, returns to the
/// same tab; seven steps either way go all around.
pub proof fn lemma_tab_cycle(t: Tab)
    ensures
        tab_at(((tab_index(tab_at(((tab_index(t) + 1) % 7) as nat)) + 6) % 7) as nat) == t,
        tab_at(((tab_index(tab_at(((tab_index(t) + 6) % 7) as nat)) + 1) % 7) as nat) == t,
        tab_at(tab_index(t)) == t,
{
}

/// What the viewer is doing.
pub enum AppMode {
    Scanning { tick: u8 },
    Ready,
    Saved(String),
    Error(String),
}

/// The viewer's state.
pub struct App {
    pub mode: AppMode,
    pub data: Option<ScanData>,
    pub tab: Tab,
    pub scroll: u16,
    pub status: String,
}

/// The offset after scrolling up: `saturating_sub`.
pub open spec fn scrolled_up(scroll: u16, amount: u16) -> u16 {
    if scroll >= amount {
        (scroll - amount) as u16
    } else {
        0
    }
}

/// The offset after scrolling down: `saturating_add`.
pub open spec fn scrolled_down(scroll: u16, amount: u16) -> u16 {
    if scroll + amount <= u16::MAX {
        (scroll + amount) as u16
    } else {
        u16::MAX
    }
}

/// Scrolling down and back up by the same amount returns to the same
/// offset unless the bottom stop was hit; scrolling never passes the
/// top, and up never moves down nor down up.
pub proof fn lemma_scroll_round_trip(scroll: u16, amount: u16)
    ensures
        scroll + amount <= u16::MAX ==> scrolled_up(scrolled_down(scroll, amount), amount) == scroll,
        scrolled_up(scroll, amount) <= scroll,
        scrolled_down(scroll, amount) >= scroll,
        amount >= scroll ==> scrolled_up(scroll, amount) == 0,
{
}

/// The status line once a scan is shown.
pub open spec fn ready_status() -> Seq<char> {
    "q quit  Tab next  Shift+Tab prev  s save  ↑↓ scroll"@
}

impl App {
    /// A viewer waiting for its scan, on the summary tab.
    pub fn new_scanning() -> (app: Self)
        ensures
            app.mode == (AppMode::Scanning { tick: 0 }),
            app.data is None,
            app.tab == Tab::Summary,
            app.scroll == 0,
            app.status@ == "Scanning…"@,
    {
        App {
            mode: AppMode::Scanning { tick: 0 },
            data: None,
            tab: Tab::Summary,
            scroll: 0,
            status: owned("Scanning…"),
        }
    }

    /// Shows a finished scan.
    pub fn set_data(&mut self, data: ScanData)
        ensures
            final(self).data == Some(data),
            final(self).mode == AppMode::Ready,
            final(self).status@ == ready_status(),
            final(self).tab == old(self).tab,
            final(self).scroll == old(self).scroll,
    {
        self.data = Some(data);
        self.mode = AppMode::Ready;
        self.status = owned("q quit  Tab next  Shift+Tab prev  s save  ↑↓ scroll");
    }

    /// Shows an error.
    pub fn set_error(&mut self, message: String)
        ensures
            final(self).mode == AppMode::Error(message),
            final(self).status@ == "q quit"@,
            final(self).data == old(self).data,
            final(self).tab == old(self).tab,
            final(self).scroll == old(self).scroll,
    {
        self.mode = AppMode::Error(message);
        self.status = owned("q quit");
    }

    /// Advances the spinner while scanning (wrapping at 256); otherwise
    /// nothing changes.
    pub fn tick(&mut self)
        ensures
            match old(self).mode {
                AppMode::Scanning { tick } => final(self).mode == (AppMode::Scanning {
                    tick: if tick == 255 { 0 } else { (tick + 1) as u8 },
                }),
                _ => final(self).mode == old(self).mode,
            },
            final(self).data == old(self).data,
            final(self).tab == old(self).tab,
            final(self).scroll == old(self).scroll,
            final(self).status == old(self).status,
    {
        match self.mode {
            AppMode::Scanning { tick } => {
                let t: u8 = if tick == 255 {
                    0
                } else {
                    tick + 1
                };
                self.mode = AppMode::Scanning { tick: t };
            },
            _ => {},
        }
    }

    /// Moves to the next tab, back at the top.
    pub fn next_tab(&mut self)
        ensures
            final(self).tab == tab_at(((tab_index(old(self).tab) + 1) % 7) as nat),
            final(self).scroll == 0,
            final(self).mode == old(self).mode,
            final(self).data == old(self).data,
            final(self).status == old(self).status,
    {
        self.tab = self.tab.next();
        self.scroll = 0;
    }

    /// Moves to the previous tab, back at the top.
    pub fn prev_tab(&mut self)
        ensures
            final(self).tab == tab_at(((tab_index(old(self).tab) + 6) % 7) as nat),
            final(self).scroll == 0,
            final(self).mode == old(self).mode,
            final(self).data == old(self).data,
            final(self).status == old(self).status,
    {
        self.tab = self.tab.prev();
        self.scroll = 0;
    }

    /// Scrolls up, stopping at the top.
    pub fn scroll_up(&mut self, amount: u16)
        ensures
            final(self).scroll == scrolled_up(old(self).scroll, amount),
            final(self).tab == old(self).tab,
            final(self).mode == old(self).mode,
            final(self).data == old(self).data,
            final(self).status == old(self).status,
    {
        self.scroll = if self.scroll >= amount {
            self.scroll - amount
        } else {
            0
        };
    }

    /// Scrolls down, stopping at the largest offset.
    pub fn scroll_down(&mut self, amount: u16)
        ensures
            final(self).scroll == scrolled_down(old(self).scroll, amount),
            final(self).tab == old(self).tab,
            final(self).mode == old(self).mode,
            final(self).data == old(self).data,
            final(self).status == old(self).status,
    {
        self.scroll = if self.scroll <= u16::MAX - amount {
            self.scroll + amount
        } else {
            u16::MAX
        };
    }

    /// Records how saving the report went: the path it was written to, or
    /// why it failed. Without a scan there is nothing to save and nothing
    /// changes.
    pub fn save(&mut self, outcome: Result<String, String>)
        ensures
            old(self).data is None ==> *final(self) == *old(self),
            old(self).data is Some ==> match outcome {
                Ok(path) => final(self).mode == AppMode::Saved(path) && final(self).status@ == "Saved "@
                    + path@ + " — q quit  Tab browse"@,
                Err(e) => final(self).mode == AppMode::Error(e) && final(self).status@ == "q quit"@,
            },
            final(self).data == old(self).data,
            final(self).tab == old(self).tab,
            final(self).scroll == old(self).scroll,
    {
        if self.data.is_none() {
            return;
        }
        match outcome {
            Ok(path) => {
                let mut status = owned("Saved ");
                status.append(path.as_str());
                status.append(" — q quit  Tab browse");
                self.mode = AppMode::Saved(path);
                self.status = status;
            },
            Err(e) => {
                self.mode = AppMode::Error(e);
                self.status = owned("q quit");
            },
        }
    }
}

/// A key as the viewer sees it.
pub enum Key {
    Char(char),
    Esc,
    Tab,
    BackTab,
    Down,
    Up,
    PageDown,
    PageUp,
    Other,
}

/// What the event loop does after a key.
pub enum KeyOutcome {
    /// Leave the viewer.
    Quit,
    /// Write the report, then record the outcome with [`App::save`].
    Save,
    /// Go on.
    Continue,
}

impl App {
    /// Handles a key press: `q` or Esc quits, `s` saves a shown scan, Tab
    /// and Shift+Tab change tab, `j`/`k`, the arrows and the page keys
    /// scroll, `1` to `7` jump to a tab.
    pub fn on_key(&mut self, key: Key) -> (out: KeyOutcome)
        ensures
            match key {
                Key::Char(c) => if c == 'q' || c == 'Q' {
                    out is Quit && *final(self) == *old(self)
                } else if (c == 's' || c == 'S') && old(self).mode is Ready {
                    out is Save && *final(self) == *old(self)
                } else if c == 'j' {
                    out is Continue && final(self).scroll == scrolled_down(old(self).scroll, 1)
                        && final(self).tab == old(self).tab
                } else if c == 'k' {
                    out is Continue && final(self).scroll == scrolled_up(old(self).scroll, 1)
                        && final(self).tab == old(self).tab
                } else if '1' <= c && c <= '7' {
                    out is Continue && final(self).tab == tab_at((c as nat - '1' as nat) as nat)
                        && final(self).scroll == 0
                } else {
                    out is Continue && *final(self) == *old(self)
                },
                Key::Esc => out is Quit && *final(self) == *old(self),
                Key::Tab => out is Continue && final(self).tab == tab_at(
                    ((tab_index(old(self).tab) + 1) % 7) as nat,
                ) && final(self).scroll == 0,
                Key::BackTab => out is Continue && final(self).tab == tab_at(
                    ((tab_index(old(self).tab) + 6) % 7) as nat,
                ) && final(self).scroll == 0,
                Key::Down => out is Continue && final(self).scroll == scrolled_down(old(self).scroll, 1)
                    && final(self).tab == old(self).tab,
                Key::Up => out is Continue && final(self).scroll == scrolled_up(old(self).scroll, 1)
                    && final(self).tab == old(self).tab,
                Key::PageDown => out is Continue && final(self).scroll == scrolled_down(
                    old(self).scroll,
                    10,
                ) && final(self).tab == old(self).tab,
                Key::PageUp => out is Continue && final(self).scroll == scrolled_up(old(self).scroll, 10)
                    && final(self).tab == old(self).tab,
                Key::Other => out is Continue && *final(self) == *old(self),
            },
            final(self).mode == old(self).mode,
            final(self).data == old(self).data,
            final(self).status == old(self).status,
    {
        match key {
            Key::Char(c) => {
                if c == 'q' || c == 'Q' {
                    KeyOutcome::Quit
                } else if (c == 's' || c == 'S') && matches!(self.mode, AppMode::Ready) {
                    KeyOutcome::Save
                } else if c == 'j' {
                    self.scroll_down(1);
                    KeyOutcome::Continue
                } else if c == 'k' {
                    self.scroll_up(1);
                    KeyOutcome::Continue
                } else if '1' <= c && c <= '7' {
                    let i: u32 = (c as u32) - ('1' as u32);
                    self.tab = Tab::at(i as usize);
                    self.scroll = 0;
                    KeyOutcome::Continue
                } else {
                    KeyOutcome::Continue
                }
            },
            Key::Esc => KeyOutcome::Quit,
            Key::Tab => {
                self.next_tab();
                KeyOutcome::Continue
            },
            Key::BackTab => {
                self.prev_tab();
                KeyOutcome::Continue
            },
            Key::Down => {
                self.scroll_down(1);
                KeyOutcome::Continue
            },
            Key::Up => {
                self.scroll_up(1);
                KeyOutcome::Continue
            },
            Key::PageDown => {
                self.scroll_down(10);
                KeyOutcome::Continue
            },
            Key::PageUp => {
                self.scroll_up(10);
                KeyOutcome::Continue
            },
            Key::Other => KeyOutcome::Continue,
        }
    }

    /// The line shown under the tabs: the saved path while a report is
    /// saved, the status otherwise.
    pub fn status_line(&self) -> (s: String)
        ensures
            s@ == match self.mode {
                AppMode::Saved(p) => "Saved "@ + p@,
                _ => self.status@,
            },
    {
        match &self.mode {
            AppMode::Saved(p) => {
                let mut s = owned("Saved ");
                s.append(p.as_str());
                s
            },
            _ => self.status.clone(),
        }
    }
}

/// The spinner frames.
pub open spec fn spinner_frames() -> Seq<Seq<char>> {
    seq!["⠋"@, "⠙"@, "⠹"@, "⠸"@, "⠼"@, "⠴"@, "⠦"@, "⠧"@, "⠇"@, "⠏"@]
}

/// The spinner frame for a tick.
pub fn spinner_frame(tick: u8) -> (f: &'static str)
    ensures
        f@ == spinner_frames()[(tick % 10) as int],
{
    let frames: [&'static str; 10] = ["⠋", "⠙", "⠹", "⠸", "⠼", "⠴", "⠦", "⠧", "⠇", "⠏"];
    let i = (tick % 10) as usize;
    assert(frames@[i as int]@ == spinner_frames()[i as int]);
    frames[i]
}

/// The tab bar labels: the current tab marked with `▸`.
pub fn tab_labels(current: Tab) -> (labels: Vec<String>)
    ensures
        labels@.len() == TAB_COUNT,
        forall|i: int|
            0 <= i < TAB_COUNT ==> (#[trigger] labels@[i])@ == (if tab_at(i as nat) == current {
                "▸ "@
            } else {
                "  "@
            }) + tab_title(tab_at(i as nat)),
{
    let tabs = Tab::all();
    let mut labels: Vec<String> = Vec::new();
    let mut i: usize = 0;
    while i < tabs.len()
        invariant
            tabs@.len() == TAB_COUNT,
            forall|k: int| 0 <= k < TAB_COUNT ==> #[trigger] tabs@[k] == tab_at(k as nat),
            i <= TAB_COUNT,
            labels@.len() == i,
            forall|k: int|
                0 <= k < i ==> (#[trigger] labels@[k])@ == (if tab_at(k as nat) == current {
                    "▸ "@
                } else {
                    "  "@
                }) + tab_title(tab_at(k as nat)),
        decreases TAB_COUNT - i,
    {
        let t = tabs[i];
        let mut s = if t == current {
            owned("▸ ")
        } else {
            owned("  ")
        };
        s.append(t.title());
        labels.push(s);
        i = i + 1;
    }
    labels
}

/// The rows from the `scroll`-th on.
pub fn slice_rows<T>(rows: Vec<T>, scroll: u16) -> (out: Vec<T>)
    ensures
        out@ == rows@.skip(if (scroll as int) < rows@.len() { scroll as int } else { rows@.len() as int }),
{
    let n = rows.len();
    let start: usize = if (scroll as usize) < n {
        scroll as usize
    } else {
        n
    };
    let mut out: Vec<T> = Vec::new();
    let mut rest = rows;
    let mut k: usize = 0;
    let ghost orig = rest@;
    while rest.len() > 0
        invariant
            orig.len() == n,
            start <= n,
            k + rest@.len() == n,
            rest@ == orig.skip(k as int),
            k <= start ==> out@.len() == 0,
            k > start ==> out@ == orig.subrange(start as int, k as int),
        decreases rest@.len(),
    {
        let item = rest.remove(0);
        assert(item == orig[k as int]);
        if k >= start {
            out.push(item);
            assert(out@ =~= orig.subrange(start as int, k + 1));
        }
        assert(rest@ =~= orig.skip(k + 1));
        k = k + 1;
    }
    assert(k == n);
    if start == n {
        assert(orig.skip(start as int) =~= Seq::<T>::empty());
        assert(out@ =~= Seq::<T>::empty());
    } else {
        assert(out@ =~= orig.skip(start as int));
    }
    out
}

/// The summary tab's lines: (label, value); a blank line after the total.
pub open spec fn summary_lines_seq(data: ScanData) -> Seq<(Seq<char>, Seq<char>)> {
    seq![
        ("root "@, data.root_path@),
        ("total "@, human_size_seq(data.root_total_size as nat)),
        (Seq::empty(), Seq::empty()),
        ("depth      "@, depth_label_seq(data.max_depth_reached as nat)),
        ("dirs       "@, dec_seq(data.dir_count as nat)),
        ("files      "@, dec_seq(data.file_count as nat)),
        ("scanned    "@, human_size_seq(data.scanned_file_bytes as nat)),
        ("root items "@, dec_seq(data.root_entries@.len())),
    ]
}

pub open spec fn line_views(v: Seq<(String, String)>) -> Seq<(Seq<char>, Seq<char>)> {
    v.map_values(|p: (String, String)| (p.0@, p.1@))
}

fn line(label: &str, value: String) -> (r: (String, String))
    ensures
        r.0@ == label@,
        r.1@ == value@,
{
    (owned(label), value)
}

/// The summary tab's lines.
pub fn summary_lines(data: &ScanData) -> (lines: Vec<(String, String)>)
    ensures
        line_views(lines@) == summary_lines_seq(*data),
{
    let lines = vec![
        line("root ", data.root_path.clone()),
        line("total ", human_size(data.root_total_size)),
        (String::new(), String::new()),
        line("depth      ", depth_label(data.max_depth_reached)),
        line("dirs       ", usize_to_string(data.dir_count)),
        line("files      ", usize_to_string(data.file_count)),
        line("scanned    ", human_size(data.scanned_file_bytes)),
        line("root items ", usize_to_string(data.root_entries.len())),
    ];
    proof {
        let want = summary_lines_seq(*data);
        assert forall|k: int| 0 <= k < want.len() implies line_views(lines@)[k] == want[k] by {
            assert(line_views(lines@)[k] == (lines@[k].0@, lines@[k].1@));
        }
        assert(line_views(lines@) =~= want);
    }
    lines
}

/// The summary tab's `dirs` line shows the number of directories scanned
/// and its `files` line the number of files: each line so labelled holds
/// that count in decimal, and there is one of each.
pub proof fn lemma_summary_counts(data: ScanData)
    ensures
        forall|k: int|
            0 <= k < summary_lines_seq(data).len() && #[trigger] summary_lines_seq(data)[k].0
                == "dirs       "@ ==> summary_lines_seq(data)[k].1 == dec_seq(data.dir_count as nat),
        forall|k: int|
            0 <= k < summary_lines_seq(data).len() && #[trigger] summary_lines_seq(data)[k].0
                == "files      "@ ==> summary_lines_seq(data)[k].1 == dec_seq(data.file_count as nat),
        exists|k: int|
            0 <= k < summary_lines_seq(data).len() && #[trigger] summary_lines_seq(data)[k]
                == ("dirs       "@, dec_seq(data.dir_count as nat)),
        exists|k: int|
            0 <= k < summary_lines_seq(data).len() && #[trigger] summary_lines_seq(data)[k]
                == ("files      "@, dec_seq(data.file_count as nat)),
        summary_lines_seq(data)[0] == ("root "@, data.root_path@),
        summary_lines_seq(data)[1] == ("total "@, human_size_seq(data.root_total_size as nat)),
        summary_lines_seq(data)[6] == ("scanned    "@, human_size_seq(data.scanned_file_bytes as nat)),
        summary_lines_seq(data)[7] == ("root items "@, dec_seq(data.root_entries@.len())),
{
    reveal_strlit("root ");
    reveal_strlit("total ");
    reveal_strlit("depth      ");
    reveal_strlit("dirs       ");
    reveal_strlit("files      ");
    reveal_strlit("scanned    ");
    reveal_strlit("root items ");
    let s = summary_lines_seq(data);
    assert(s[4] == ("dirs       "@, dec_seq(data.dir_count as nat)));
    assert(s[5] == ("files      "@, dec_seq(data.file_count as nat)));
    assert(forall|k: int| 0 <= k < s.len() && k != 4 ==> #[trigger] s[k].0 != "dirs       "@) by {
        assert forall|k: int| 0 <= k < s.len() && k != 4 implies #[trigger] s[k].0 != "dirs       "@ by {
            if k == 5 {
                assert(s[k].0[0] != "dirs       "@[0]);
            } else if k == 2 {
                assert(s[k].0.len() == 0);
            } else if k == 3 {
                assert(s[k].0[1] != "dirs       "@[1]);
            } else if k == 6 || k == 7 {
                assert(s[k].0[0] != "dirs       "@[0]);
            } else {
                assert(s[k].0.len() != "dirs       "@.len());
            }
        }
    }
    assert(forall|k: int| 0 <= k < s.len() && k != 5 ==> #[trigger] s[k].0 != "files      "@) by {
        assert forall|k: int| 0 <= k < s.len() && k != 5 implies #[trigger] s[k].0 != "files      "@ by {
            if k == 4 {
                assert(s[k].0[0] != "files      "@[0]);
            } else if k == 2 {
                assert(s[k].0.len() == 0);
            } else if k == 3 || k == 6 || k == 7 {
                assert(s[k].0[0] != "files      "@[0]);
            } else {
                assert(s[k].0.len() != "files      "@.len());
            }
        }
    }
}

/// The root tab's rows: number, `dir` or `file`, name (a directory's with
/// `/`), size (a directory's as the scan summed it).
pub open spec fn root_tab_rows(data: ScanData) -> Seq<Seq<Seq<char>>> {
    Seq::new(
        data.root_entries@.len(),
        |i: int|
            {
                let e = data.root_entries@[i];
                if e.is_dir {
                    seq![
                        dec_seq((i + 1) as nat),
                        "dir"@,
                        e.name@ + "/"@,
                        human_size_seq(lookup_path(dir_size_views(data.dir_sizes@), e.path@) as nat),
                    ]
                } else {
                    seq![dec_seq((i + 1) as nat), "file"@, e.name@, human_size_seq(e.size as nat)]
                }
            },
    )
}

/// The root tab's rows.
pub fn root_tab(data: &ScanData) -> (rows: Vec<Vec<String>>)
    ensures
        row_views(rows@) == root_tab_rows(*data),
{
    let mut rows: Vec<Vec<String>> = Vec::new();
    let mut i: usize = 0;
    while i < data.root_entries.len()
        invariant
            i <= data.root_entries@.len(),
            row_views(rows@) == root_tab_rows(*data).subrange(0, i as int),
        decreases data.root_entries@.len() - i,
    {
        let e = &data.root_entries[i];
        let row = if e.is_dir {
            let mut name = e.name.clone();
            name.append("/");
            strings4(usize_to_string(i + 1), owned("dir"), name, human_size(dir_size_of(data, &e.path)))
        } else {
            strings4(usize_to_string(i + 1), owned("file"), e.name.clone(), human_size(e.size))
        };
        let ghost r0 = row_views(rows@);
        rows.push(row);
        assert(row_views(rows@) =~= r0.push(views(row@)));
        assert(views(row@) =~= root_tab_rows(*data)[i as int]);
        i = i + 1;
        assert(row_views(rows@) =~= root_tab_rows(*data).subrange(0, i as int));
    }
    assert(root_tab_rows(*data).subrange(0, data.root_entries@.len() as int) =~= root_tab_rows(*data));
    rows
}

/// The top files tab's rows: number, file name, path from the root, size.
pub open spec fn files_tab_rows(root: Seq<char>, files: Seq<(Seq<char>, int)>) -> Seq<Seq<Seq<char>>> {
    Seq::new(
        files.len(),
        |i: int|
            seq![
                dec_seq((i + 1) as nat),
                file_name_or_empty(files[i].0),
                relative_path_seq(root, files[i].0),
                human_size_seq(files[i].1 as nat),
            ],
    )
}

/// The top files tab's rows, for the largest files the scan kept.
pub fn files_tab(data: &ScanData) -> (rows: Vec<Vec<String>>)
    ensures
        row_views(rows@) == files_tab_rows(
            data.root_path@,
            file_views(data.largest_files@).take(
                if TOP_N_FILES < data.largest_files@.len() {
                    TOP_N_FILES as int
                } else {
                    data.largest_files@.len() as int
                },
            ),
        ),
{
    let n: usize = if TOP_N_FILES < data.largest_files.len() {
        TOP_N_FILES
    } else {
        data.largest_files.len()
    };
    let ghost fv = file_views(data.largest_files@).take(n as int);
    let mut rows: Vec<Vec<String>> = Vec::new();
    let mut i: usize = 0;
    while i < n
        invariant
            n <= data.largest_files@.len(),
            i <= n,
            fv == file_views(data.largest_files@).take(n as int),
            row_views(rows@) == files_tab_rows(data.root_path@, fv).subrange(0, i as int),
        decreases n - i,
    {
        let f = &data.largest_files[i];
        assert(fv[i as int] == (f.path@, f.size as int));
        let row = strings4(
            usize_to_string(i + 1),
            file_name_string(f.path.as_str()),
            relative_path(data.root_path.as_str(), f.path.as_str()),
            human_size(f.size),
        );
        let ghost r0 = row_views(rows@);
        rows.push(row);
        assert(row_views(rows@) =~= r0.push(views(row@)));
        assert(views(row@) =~= files_tab_rows(data.root_path@, fv)[i as int]);
        i = i + 1;
        assert(row_views(rows@) =~= files_tab_rows(data.root_path@, fv).subrange(0, i as int));
    }
    assert(files_tab_rows(data.root_path@, fv).subrange(0, n as int) =~= files_tab_rows(data.root_path@, fv));
    rows
}

/// A ranked directory tab's rows: number, name with `/`, path from the
/// root, and the value (a size or a count, as given).
pub open spec fn dirs_tab_rows(root: Seq<char>, dirs: Seq<(Seq<char>, int)>, values: Seq<Seq<char>>) -> Seq<Seq<Seq<char>>> {
    Seq::new(
        dirs.len(),
        |i: int|
            seq![
                dec_seq((i + 1) as nat),
                file_name_or_empty(dirs[i].0) + "/"@,
                relative_path_seq(root, dirs[i].0),
                values[i],
            ],
    )
}

/// The largest directories tab's rows.
pub fn top_dirs_tab(data: &ScanData) -> (rows: Vec<Vec<String>>)
    ensures
        exists|td: Seq<(Seq<char>, int)>|
            {
                &&& top_ranked(
                    drop_path(dir_size_views(data.dir_sizes@), data.root_path@),
                    TOP_N_DIRS as nat,
                    td,
                )
                &&& row_views(rows@) == dirs_tab_rows(
                    data.root_path@,
                    td,
                    Seq::new(td.len(), |i: int| human_size_seq(td[i].1 as nat)),
                )
            },
{
    let dirs = top_dirs(data);
    let ghost dv = dir_size_views(dirs@);
    let ghost vals = Seq::new(dv.len(), |i: int| human_size_seq(dv[i].1 as nat));
    let mut rows: Vec<Vec<String>> = Vec::new();
    let mut i: usize = 0;
    while i < dirs.len()
        invariant
            i <= dirs@.len(),
            dv == dir_size_views(dirs@),
            vals == Seq::new(dv.len(), |i: int| human_size_seq(dv[i].1 as nat)),
            row_views(rows@) == dirs_tab_rows(data.root_path@, dv, vals).subrange(0, i as int),
        decreases dirs@.len() - i,
    {
        let d = &dirs[i];
        let mut name = file_name_string(d.path.as_str());
        name.append("/");
        let row = strings4(
            usize_to_string(i + 1),
            name,
            relative_path(data.root_path.as_str(), d.path.as_str()),
            human_size(d.size),
        );
        let ghost r0 = row_views(rows@);
        rows.push(row);
        assert(row_views(rows@) =~= r0.push(views(row@)));
        assert(views(row@) =~= dirs_tab_rows(data.root_path@, dv, vals)[i as int]);
        i = i + 1;
        assert(row_views(rows@) =~= dirs_tab_rows(data.root_path@, dv, vals).subrange(0, i as int));
    }
    assert(dirs_tab_rows(data.root_path@, dv, vals).subrange(0, dirs@.len() as int) =~= dirs_tab_rows(
        data.root_path@,
        dv,
        vals,
    ));
    rows
}

/// The directories by file count tab's rows.
pub fn top_counts_tab(data: &ScanData) -> (rows: Vec<Vec<String>>)
    ensures
        exists|tc: Seq<(Seq<char>, int)>|
            {
                &&& top_ranked(
                    drop_path(dir_count_views(data.dir_file_counts@), data.root_path@),
                    TOP_N_DIRS as nat,
                    tc,
                )
                &&& row_views(rows@) == dirs_tab_rows(
                    data.root_path@,
                    tc,
                    Seq::new(tc.len(), |i: int| dec_seq(tc[i].1 as nat)),
                )
            },
{
    let dirs = top_dirs_by_files(data);
    let ghost dv = dir_count_views(dirs@);
    let ghost vals = Seq::new(dv.len(), |i: int| dec_seq(dv[i].1 as nat));
    let mut rows: Vec<Vec<String>> = Vec::new();
    let mut i: usize = 0;
    while i < dirs.len()
        invariant
            i <= dirs@.len(),
            dv == dir_count_views(dirs@),
            vals == Seq::new(dv.len(), |i: int| dec_seq(dv[i].1 as nat)),
            row_views(rows@) == dirs_tab_rows(data.root_path@, dv, vals).subrange(0, i as int),
        decreases dirs@.len() - i,
    {
        let d = &dirs[i];
        let mut name = file_name_string(d.path.as_str());
        name.append("/");
        let row = strings4(
            usize_to_string(i + 1),
            name,
            relative_path(data.root_path.as_str(), d.path.as_str()),
            usize_to_string(d.count),
        );
        let ghost r0 = row_views(rows@);
        rows.push(row);
        assert(row_views(rows@) =~= r0.push(views(row@)));
        assert(views(row@) =~= dirs_tab_rows(data.root_path@, dv, vals)[i as int]);
        i = i + 1;
        assert(row_views(rows@) =~= dirs_tab_rows(data.root_path@, dv, vals).subrange(0, i as int));
    }
    assert(dirs_tab_rows(data.root_path@, dv, vals).subrange(0, dirs@.len() as int) =~= dirs_tab_rows(
        data.root_path@,
        dv,
        vals,
    ));
    rows
}

/// The tree tab's heading: the root and its total size.
pub fn tree_heading(data: &ScanData) -> (h: (String, String))
    ensures
        h.0@ == data.root_path@,
        h.1@ == human_size_seq(data.root_total_size as nat),
{
    (data.root_path.clone(), human_size(data.root_total_size))
}

} // verus!
