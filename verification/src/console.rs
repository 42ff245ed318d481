//! What the two servers show on the terminal: their settings, the boxed
//! start-up banner, the request log line and the hotkeys.

use vstd::prelude::*;
use vstd::string::StringExecFns;
use vstd::string::StrSliceExecFns;
use unicode_width::UnicodeWidthStr;
use crate::http::{StatusColor, server_status_color};
use crate::paths::{join_path, join_seq};
use crate::text::{dec_seq, owned, pad_right, pad_seq, u64_to_string};

verus! {

broadcast use vstd::string::group_string_axioms;

/// Settings of the directory-scanner web server (`config.json`).
pub struct Config {
    pub port: u16,
    pub host: String,
    pub open_on_start: bool,
    pub log_requests: bool,
    pub ignore_dirs: String,
    pub ignore_files: String,
}

impl Default for Config {
    /// Port 8011 on the loopback address, requests logged, the browser not
    /// opened, `target` and `builds` folders and the Finder and Explorer
    /// metadata files left out.
    fn default() -> (c: Self)
        ensures
            c.port == 8011,
            c.host@ == "127.0.0.1"@,
            !c.open_on_start,
            c.log_requests,
            c.ignore_dirs@ == "target, builds"@,
            c.ignore_files@ == "Thumbs.db, .DS_Store"@,
    {
        Config {
            port: 8011,
            host: owned("127.0.0.1"),
            open_on_start: false,
            log_requests: true,
            ignore_dirs: owned("target, builds"),
            ignore_files: owned("Thumbs.db, .DS_Store"),
        }
    }
}

/// Settings of the static file server (`server/config.json`).
pub struct ServerConfig {
    pub port: u16,
    pub host: String,
    pub open_on_start: bool,
    pub log_requests: bool,
}

impl Default for ServerConfig {
    /// Port 8008 on the loopback address, requests logged, the browser not
    /// opened.
    fn default() -> (c: Self)
        ensures
            c.port == 8008,
            c.host@ == "127.0.0.1"@,
            !c.open_on_start,
            c.log_requests,
    {
        ServerConfig { port: 8008, host: owned("127.0.0.1"), open_on_start: false, log_requests: true }
    }
}

/// The address the web server is reached at: `http://host:port`.
pub fn url(cfg: &Config) -> (u: String)
    ensures
        u@ == "http://"@ + cfg.host@ + ":"@ + dec_seq(cfg.port as nat),
{
    let mut u = owned("http://");
    u.append(cfg.host.as_str());
    u.append(":");
    let p = u64_to_string(cfg.port as u64);
    u.append(p.as_str());
    u
}

/// The address the file server announces: `http://localhost:port`.
pub fn server_url(port: u16) -> (u: String)
    ensures
        u@ == "http://localhost:"@ + dec_seq(port as nat),
{
    let mut u = owned("http://localhost:");
    let p = u64_to_string(port as u64);
    u.append(p.as_str());
    u
}

/// The directory of the web page files: `static` in the crate directory.
pub fn static_dir(manifest_dir: &str) -> (d: String)
    ensures
        d@ == join_seq(manifest_dir@, "static"@),
{
    join_path(manifest_dir, "static")
}

/// One request of the web server's log, before colouring: the status
/// (green for 200, yellow for a client error, red otherwise), the method
/// padded to six characters, and the path.
pub struct RequestLog {
    pub color: StatusColor,
    pub status: String,
    pub method: String,
    pub path: String,
}

/// The log line for a request, without the time it took.
pub fn log_request(method: &str, path: &str, status: u16) -> (l: RequestLog)
    ensures
        status == 200 ==> l.color is Green,
        status != 200 && 400 <= status <= 499 ==> l.color is Yellow,
        status != 200 && !(400 <= status <= 499) ==> l.color is Red,
        l.status@ == dec_seq(status as nat),
        l.method@ == pad_seq(method@, 6),
        l.path@ == path@,
{
    let color = if status == 200 {
        StatusColor::Green
    } else if 400 <= status && status <= 499 {
        StatusColor::Yellow
    } else {
        StatusColor::Red
    };
    RequestLog {
        color,
        status: u64_to_string(status as u64),
        method: pad_right(method, 6),
        path: owned(path),
    }
}

/// The file server's log line for a request, without the time it took:
/// the status green for 200, red for 403, yellow otherwise.
pub fn server_log_request(method: &str, path: &str, status: u16) -> (l: RequestLog)
    ensures
        l.color == (if status == 200 {
            StatusColor::Green
        } else if status == 403 {
            StatusColor::Red
        } else {
            StatusColor::Yellow
        }),
        l.status@ == dec_seq(status as nat),
        l.method@ == pad_seq(method@, 6),
        l.path@ == path@,
{
    RequestLog {
        color: server_status_color(status),
        status: u64_to_string(status as u64),
        method: pad_right(method, 6),
        path: owned(path),
    }
}

/// A key as the hotkey loop sees it.
pub enum HotKey {
    Char(char),
    Other,
}

/// What a key press does while a server runs.
pub enum HotkeyAction {
    OpenBrowser,
    Quit,
    Nothing,
}

/// `o` opens the browser; Ctrl+C, Ctrl+D and `q` quit; other keys do
/// nothing.
pub fn hotkey_action(key: HotKey, ctrl: bool) -> (a: HotkeyAction)
    ensures
        a == match key {
            HotKey::Char(c) => if (c == 'o' || c == 'O') && !ctrl {
                HotkeyAction::OpenBrowser
            } else if (c == 'c' || c == 'd') && ctrl {
                HotkeyAction::Quit
            } else if c == 'q' {
                HotkeyAction::Quit
            } else {
                HotkeyAction::Nothing
            },
            HotKey::Other => HotkeyAction::Nothing,
        },
{
    match key {
        HotKey::Char(c) => {
            if (c == 'o' || c == 'O') && !ctrl {
                HotkeyAction::OpenBrowser
            } else if (c == 'c' || c == 'd') && ctrl {
                HotkeyAction::Quit
            } else if c == 'q' {
                HotkeyAction::Quit
            } else {
                HotkeyAction::Nothing
            }
        },
        HotKey::Other => HotkeyAction::Nothing,
    }
}

/// The displayed width of a string in terminal columns, as the
/// `unicode-width` crate counts it (ambiguous characters one column).
pub uninterp spec fn display_width(s: Seq<char>) -> usize;

/// `UnicodeWidthStr::width`. Its result is named: the crate computes it
/// from its Unicode tables and the string alone.
#[verifier::external_body]
fn str_width(s: &str) -> (w: usize)
    ensures
        w == display_width(s@),
{
    s.width()
}

/// The widest of the widths given (separators have none), 0 when there
/// are none.
pub open spec fn max_width(ws: Seq<Option<usize>>) -> nat
    decreases ws.len(),
{
    if ws.len() == 0 {
        0
    } else {
        let m = max_width(ws.drop_last());
        match ws.last() {
            Some(w) => if w > m {
                w as nat
            } else {
                m
            },
            None => m,
        }
    }
}

/// `n` copies of `c`.
pub open spec fn repeat(c: char, n: nat) -> Seq<char> {
    Seq::new(n, |i: int| c)
}

/// The frame of a banner: the top, separator and bottom lines, and for
/// each row the spaces after its text (0 for a separator).
pub struct BannerLayout {
    pub content_width: usize,
    pub top: String,
    pub separator: String,
    pub bottom: String,
    pub pads: Vec<usize>,
}

pub open spec fn layout_ok(ws: Seq<Option<usize>>, l: BannerLayout) -> bool {
    let cw = max_width(ws);
    let line = repeat('─', cw + 4);
    &&& l.content_width == cw
    &&& l.top@ == seq!['╭'] + line + seq!['╮']
    &&& l.separator@ == seq!['├'] + line + seq!['┤']
    &&& l.bottom@ == seq!['╰'] + line + seq!['╯']
    &&& l.pads@.len() == ws.len()
    &&& forall|i: int|
        0 <= i < ws.len() ==> #[trigger] l.pads@[i] == match ws[i] {
            Some(w) => cw - w + 2,
            None => 0,
        }
}

fn framed(left: char, n: usize, right: char) -> (r: String)
    ensures
        r@ == seq![left] + repeat('─', n as nat) + seq![right],
{
    let mut v: Vec<char> = Vec::new();
    v.push(left);
    let mut i: usize = 0;
    while i < n
        invariant
            i <= n,
            v@ == seq![left] + repeat('─', i as nat),
        decreases n - i,
    {
        v.push('─');
        i = i + 1;
        assert(v@ =~= seq![left] + repeat('─', i as nat));
    }
    v.push(right);
    crate::text::string_of(v.as_slice())
}

/// Lays out a banner whose rows have the given widths: the box is four
/// columns wider than the widest row, each row padded to that width.
pub fn banner_layout(widths: &Vec<Option<usize>>) -> (l: BannerLayout)
    requires
        max_width(widths@) + 4 <= usize::MAX,
    ensures
        layout_ok(widths@, l),
{
    let mut cw: usize = 0;
    let mut i: usize = 0;
    assert(widths@.subrange(0, 0) =~= Seq::<Option<usize>>::empty());
    while i < widths.len()
        invariant
            i <= widths@.len(),
            cw == max_width(widths@.subrange(0, i as int)),
        decreases widths@.len() - i,
    {
        assert(widths@.subrange(0, i + 1).drop_last() =~= widths@.subrange(0, i as int));
        match widths[i] {
            Some(w) => {
                if w > cw {
                    cw = w;
                }
            },
            None => {},
        }
        i = i + 1;
    }
    assert(widths@.subrange(0, widths@.len() as int) =~= widths@);
    let inner = cw + 4;
    let mut pads: Vec<usize> = Vec::new();
    let mut k: usize = 0;
    while k < widths.len()
        invariant
            k <= widths@.len(),
            cw == max_width(widths@),
            cw + 4 <= usize::MAX,
            pads@.len() == k,
            forall|j: int|
                0 <= j < k ==> #[trigger] pads@[j] == match widths@[j] {
                    Some(w) => cw - w + 2,
                    None => 0,
                },
        decreases widths@.len() - k,
    {
        proof {
            lemma_max_width(widths@, k as int);
        }
        match widths[k] {
            Some(w) => pads.push(cw - w + 2),
            None => pads.push(0),
        }
        k = k + 1;
    }
    BannerLayout {
        content_width: cw,
        top: framed('╭', inner, '╮'),
        separator: framed('├', inner, '┤'),
        bottom: framed('╰', inner, '╯'),
        pads,
    }
}

proof fn lemma_max_width(ws: Seq<Option<usize>>, i: int)
    requires
        0 <= i < ws.len(),
    ensures
        match ws[i] {
            Some(w) => w <= max_width(ws),
            None => true,
        },
    decreases ws.len(),
{
    if i < ws.len() - 1 {
        lemma_max_width(ws.drop_last(), i);
    }
}

/// The widths of the rows of a banner (none for a separator).
pub open spec fn row_widths(rows: Seq<Option<String>>) -> Seq<Option<usize>> {
    rows.map_values(|r: Option<String>| match r {
        Some(s) => Some(display_width(s@)),
        None => None,
    })
}

/// Lays out a banner around rows of plain text (`None` for a separator
/// line), measuring them in terminal columns; nothing when the box would
/// be wider than a `usize` counts.
pub fn banner(rows: &Vec<Option<String>>) -> (l: Option<BannerLayout>)
    ensures
        match l {
            Some(b) => layout_ok(row_widths(rows@), b),
            None => max_width(row_widths(rows@)) + 4 > usize::MAX,
        },
{
    let mut ws: Vec<Option<usize>> = Vec::new();
    let mut i: usize = 0;
    while i < rows.len()
        invariant
            i <= rows@.len(),
            ws@ == row_widths(rows@).subrange(0, i as int),
        decreases rows@.len() - i,
    {
        let w = match &rows[i] {
            Some(s) => Some(str_width(s.as_str())),
            None => None,
        };
        ws.push(w);
        i = i + 1;
        assert(ws@ =~= row_widths(rows@).subrange(0, i as int));
    }
    assert(ws@ =~= row_widths(rows@));
    let mut cw: usize = 0;
    let mut k: usize = 0;
    assert(ws@.subrange(0, 0) =~= Seq::<Option<usize>>::empty());
    while k < ws.len()
        invariant
            k <= ws@.len(),
            cw == max_width(ws@.subrange(0, k as int)),
        decreases ws@.len() - k,
    {
        assert(ws@.subrange(0, k + 1).drop_last() =~= ws@.subrange(0, k as int));
        match ws[k] {
            Some(w) => {
                if w > cw {
                    cw = w;
                }
            },
            None => {},
        }
        k = k + 1;
    }
    assert(ws@.subrange(0, ws@.len() as int) =~= ws@);
    if cw > usize::MAX - 4 {
        return None;
    }
    Some(banner_layout(&ws))
}

/// The plain text of the web server's banner rows.
pub fn web_banner_rows(static_dir: &str, url: &str) -> (rows: Vec<Option<String>>)
    ensures
        rows@.len() == 5,
        rows@[0] matches Some(s) && s@ == "📂 dir-scanner-web  ready"@,
        rows@[1] is None,
        rows@[2] matches Some(s) && s@ == "Static  "@ + static_dir@,
        rows@[3] matches Some(s) && s@ == "Local   "@ + url@,
        rows@[4] matches Some(s) && s@ == "Keys    o open browser  q quit  Ctrl+C / Ctrl+D quit"@,
{
    let mut rows: Vec<Option<String>> = Vec::new();
    rows.push(Some(owned("📂 dir-scanner-web  ready")));
    rows.push(None);
    let mut s = owned("Static  ");
    s.append(static_dir);
    rows.push(Some(s));
    let mut l = owned("Local   ");
    l.append(url);
    rows.push(Some(l));
    rows.push(Some(owned("Keys    o open browser  q quit  Ctrl+C / Ctrl+D quit")));
    rows
}

/// The plain text of the file server's banner rows.
pub fn server_banner_rows(root: &str, url: &str) -> (rows: Vec<Option<String>>)
    ensures
        rows@.len() == 5,
        rows@[0] matches Some(s) && s@ == "🦀 repo-server  ready"@,
        rows@[1] is None,
        rows@[2] matches Some(s) && s@ == "Serving "@ + root@,
        rows@[3] matches Some(s) && s@ == "Local   "@ + url@,
        rows@[4] matches Some(s) && s@ == "Keys    o open browser  q quit  Ctrl+C / Ctrl+D quit"@,
{
    let mut rows: Vec<Option<String>> = Vec::new();
    rows.push(Some(owned("🦀 repo-server  ready")));
    rows.push(None);
    let mut s = owned("Serving ");
    s.append(root);
    rows.push(Some(s));
    let mut l = owned("Local   ");
    l.append(url);
    rows.push(Some(l));
    rows.push(Some(owned("Keys    o open browser  q quit  Ctrl+C / Ctrl+D quit")));
    rows
}

} // verus!
