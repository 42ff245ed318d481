//! Running commands for the guide's "Run" buttons: which requests may run
//! a script, what a request asks for, and the JSON reply.

use vstd::prelude::*;
use vstd::string::StringExecFns;
use vstd::string::StrSliceExecFns;
use crate::text::{
    chars_of, dec_seq, first_piece, join, join_seq, lines, lines_seq, owned, slice_chars,
    split_chars, split_seq, str_eq, string_of, trim, trim_seq, u64_to_string, views, int_text,
    i32_to_string,
    lemma_split_nonempty, char_views,
};

verus! {

broadcast use vstd::string::group_string_axioms;

/// The index of the first occurrence of `pat` in `s` at or after `i`.
pub open spec fn find_from(s: Seq<char>, pat: Seq<char>, i: int) -> Option<int>
    decreases s.len() + 1 - i,
{
    if i < 0 || i + pat.len() > s.len() {
        None
    } else if s.subrange(i, i + pat.len()) == pat {
        Some(i)
    } else {
        find_from(s, pat, i + 1)
    }
}

/// The index of the last `c` in `s`.
pub open spec fn last_index_of(s: Seq<char>, c: char) -> Option<int>
    decreases s.len(),
{
    if s.len() == 0 {
        None
    } else if s.last() == c {
        Some(s.len() - 1)
    } else {
        last_index_of(s.drop_last(), c)
    }
}

/// The index of the first `c` in `s`.
pub open spec fn first_index_of(s: Seq<char>, c: char) -> Option<int>
    decreases s.len(),
{
    if s.len() == 0 {
        None
    } else if s[0] == c {
        Some(0)
    } else {
        match first_index_of(s.drop_first(), c) {
            Some(i) => Some(i + 1),
            None => None,
        }
    }
}

/// A host without its `:port`. A bracketed IPv6 host (`[::1]`) is kept
/// whole, and only a `:port` after its `]` is dropped; another host loses
/// what follows its last `:`.
pub open spec fn without_port(host: Seq<char>) -> Seq<char> {
    if host.len() > 0 && host[0] == '[' && first_index_of(host, ']') is Some {
        let j = first_index_of(host, ']')->0;
        if j + 1 == host.len() || host[j + 1] == ':' {
            host.subrange(0, j + 1)
        } else {
            host
        }
    } else {
        match last_index_of(host, ':') {
            Some(j) => host.subrange(0, j),
            None => host,
        }
    }
}

/// The host an `Origin` header names: what follows the first `://` (or
/// the whole value), up to the first `/`, without its `:port`.
pub open spec fn origin_host(origin: Seq<char>) -> Seq<char> {
    let after = match find_from(origin, "://"@, 0) {
        Some(i) => origin.subrange(i + 3, origin.len() as int),
        None => origin,
    };
    without_port(first_piece(after, seq!['/']))
}

/// Whether a host is the local machine.
pub open spec fn is_loopback(host: Seq<char>) -> bool {
    host == "localhost"@ || host == "127.0.0.1"@ || host == "[::1]"@ || host == "::1"@
}

fn find_pattern(v: &Vec<char>, pat: &Vec<char>) -> (r: Option<usize>)
    ensures
        match r {
            Some(i) => find_from(v@, pat@, 0) == Some(i as int) && i + pat@.len() <= v@.len(),
            None => find_from(v@, pat@, 0) is None,
        },
{
    let mut i: usize = 0;
    if pat.len() > v.len() {
        return None;
    }
    while i <= v.len() - pat.len()
        invariant
            pat@.len() <= v@.len(),
            find_from(v@, pat@, 0) == find_from(v@, pat@, i as int),
        decreases v@.len() + 1 - i,
    {
        let mut k: usize = 0;
        let mut same = true;
        while k < pat.len()
            invariant
                i + pat@.len() <= v@.len(),
                k <= pat@.len(),
                same == (forall|m: int| 0 <= m < k ==> v@[i + m] == pat@[m]),
            decreases pat@.len() - k,
        {
            let vl = v.len();
            assert(i + k < vl);
            if v[i + k] != pat[k] {
                same = false;
            }
            k = k + 1;
        }
        if same {
            assert(v@.subrange(i as int, i + pat@.len()) =~= pat@);
            return Some(i);
        }
        assert(v@.subrange(i as int, i + pat@.len()) != pat@) by {
            let j = choose|m: int| 0 <= m < pat@.len() && v@[i + m] != pat@[m];
            assert(v@.subrange(i as int, i + pat@.len())[j] != pat@[j]);
        }
        i = i + 1;
    }
    None
}

fn last_colon(v: &Vec<char>) -> (r: Option<usize>)
    ensures
        match r {
            Some(j) => last_index_of(v@, ':') == Some(j as int) && j < v@.len(),
            None => last_index_of(v@, ':') is None,
        },
{
    let mut j: usize = v.len();
    assert(v@.subrange(0, v@.len() as int) =~= v@);
    while j > 0
        invariant
            j <= v@.len(),
            last_index_of(v@, ':') == last_index_of(v@.subrange(0, j as int), ':'),
        decreases j,
    {
        if v[j - 1] == ':' {
            return Some(j - 1);
        }
        assert(v@.subrange(0, j as int).drop_last() =~= v@.subrange(0, j - 1));
        j = j - 1;
    }
    None
}

fn first_index_char(v: &Vec<char>, c: char) -> (r: Option<usize>)
    ensures
        match r {
            Some(j) => first_index_of(v@, c) == Some(j as int) && j < v@.len(),
            None => first_index_of(v@, c) is None,
        },
{
    let mut i: usize = 0;
    assert(v@.subrange(0, v@.len() as int) =~= v@);
    while i < v.len()
        invariant
            i <= v@.len(),
            first_index_of(v@, c) == match first_index_of(v@.subrange(i as int, v@.len() as int), c) {
                Some(k) => Some(k + i),
                None => None,
            },
        decreases v@.len() - i,
    {
        if v[i] == c {
            assert(v@.subrange(i as int, v@.len() as int)[0] == c);
            return Some(i);
        }
        assert(v@.subrange(i as int, v@.len() as int).drop_first() =~= v@.subrange(
            i + 1,
            v@.len() as int,
        ));
        i = i + 1;
    }
    None
}

fn without_port_exec(host: &Vec<char>) -> (r: Vec<char>)
    ensures
        r@ == without_port(host@),
{
    assert(host@.subrange(0, host@.len() as int) =~= host@);
    if host.len() > 0 && host[0] == '[' {
        match first_index_char(host, ']') {
            Some(j) => {
                if j + 1 == host.len() || host[j + 1] == ':' {
                    return slice_chars(host.as_slice(), 0, j + 1);
                } else {
                    return slice_chars(host.as_slice(), 0, host.len());
                }
            },
            None => {},
        }
    }
    match last_colon(host) {
        Some(j) => slice_chars(host.as_slice(), 0, j),
        None => slice_chars(host.as_slice(), 0, host.len()),
    }
}

/// True if a script request may run: no `Origin` header (a client that is
/// not a browser, or a same-origin navigation), or an `Origin` whose host
/// is the loopback address.
pub fn origin_ok(origin: Option<&str>) -> (ok: bool)
    ensures
        ok == match origin {
            None => true,
            Some(o) => is_loopback(origin_host(o@)),
        },
{
    let o = match origin {
        None => {
            return true;
        },
        Some(o) => o,
    };
    let v = chars_of(o);
    let pat = chars_of("://");
    let after: Vec<char> = match find_pattern(&v, &pat) {
        Some(i) => {
            proof {
                reveal_strlit("://");
                assert("://"@.len() == 3);
                assert(pat@.len() == 3);
            }
            let vl = v.len();
            assert(i + 3 <= vl);
            slice_chars(v.as_slice(), i + 3, v.len())
        },
        None => v,
    };
    let seps: [char; 1] = ['/'];
    assert(seps@ =~= seq!['/']);
    let pieces = split_chars(after.as_slice(), &seps);
    proof {
        lemma_split_nonempty(after@, seq!['/']);
        assert(pieces@[0]@ == char_views(pieces@)[0]);
    }
    let host = without_port_exec(&pieces[0]);
    let h = string_of(host.as_slice());
    str_eq(h.as_str(), "localhost") || str_eq(h.as_str(), "127.0.0.1") || str_eq(h.as_str(), "[::1]")
        || str_eq(h.as_str(), "::1")
}

/// A hexadecimal digit, in lower case.
pub open spec fn hex_digit(d: nat) -> char {
    seq!['0', '1', '2', '3', '4', '5', '6', '7', '8', '9', 'a', 'b', 'c', 'd', 'e', 'f'][d as int]
}

/// How a character is written inside a JSON string: `"` and `\` escaped,
/// the control characters with a short form escaped with it, the others
/// below U+0020 as `\u00XX`, everything else as it is.
pub open spec fn json_escape_char(c: char) -> Seq<char> {
    if c == '"' {
        seq!['\\', '"']
    } else if c == '\\' {
        seq!['\\', '\\']
    } else if c == '\u{8}' {
        seq!['\\', 'b']
    } else if c == '\t' {
        seq!['\\', 't']
    } else if c == '\n' {
        seq!['\\', 'n']
    } else if c == '\u{c}' {
        seq!['\\', 'f']
    } else if c == '\r' {
        seq!['\\', 'r']
    } else if (c as nat) < 0x20 {
        seq!['\\', 'u', '0', '0', hex_digit((c as nat) / 16), hex_digit((c as nat) % 16)]
    } else {
        seq![c]
    }
}

pub open spec fn json_escape(s: Seq<char>) -> Seq<char>
    decreases s.len(),
{
    if s.len() == 0 {
        Seq::empty()
    } else {
        json_escape(s.drop_last()) + json_escape_char(s.last())
    }
}

/// A string as a JSON string literal.
pub open spec fn json_quote_seq(s: Seq<char>) -> Seq<char> {
    seq!['"'] + json_escape(s) + seq!['"']
}

/// `serde_json::to_string` on a string slice. The contract states what the
/// serializer's source shows (`format_escaped_str` and its `ESCAPE`
/// table): the text between double quotes, with `"`, `\` and the control
/// characters below U+0020 escaped. Serializing a string into memory does
/// not fail.
#[verifier::external_body]
fn json_string(s: &str) -> (r: String)
    ensures
        r@ == json_quote_seq(s@),
{
    match serde_json::to_string(s) {
        Ok(t) => t,
        Err(_) => String::new(),
    }
}

/// The JSON object `{"error": msg}` as `serde_json` writes it.
pub open spec fn error_json(msg: Seq<char>) -> Seq<char> {
    "{\"error\":"@ + json_quote_seq(msg) + "}"@
}

fn error_body(msg: &str) -> (r: String)
    ensures
        r@ == error_json(msg@),
{
    let mut r = owned("{\"error\":");
    let q = json_string(msg);
    r.append(q.as_str());
    r.append("}");
    r
}

/// The `script` and `id` string fields of a request body, read with
/// `serde_json`: nothing when the body is not JSON; a field that is
/// missing or not a string is `None`.
pub uninterp spec fn run_request_fields(body: Seq<u8>) -> Option<(Option<Seq<char>>, Option<Seq<char>>)>;

/// What a run request asks for.
pub struct RunRequest {
    pub script: Option<String>,
    pub id: Option<String>,
}

pub open spec fn opt_view(o: Option<String>) -> Option<Seq<char>> {
    match o {
        Some(s) => Some(s@),
        None => None,
    }
}

pub open spec fn request_view(r: Option<RunRequest>) -> Option<(Option<Seq<char>>, Option<Seq<char>>)> {
    match r {
        Some(q) => Some((opt_view(q.script), opt_view(q.id))),
        None => None,
    }
}

/// `serde_json::from_slice::<Value>` on a request body, then the string
/// values of its `script` and `id` keys (`Value::get` and
/// `Value::as_str`). The result is named, not described: it depends on
/// the body alone.
#[verifier::external_body]
fn read_run_request(body: &[u8]) -> (r: Option<RunRequest>)
    ensures
        request_view(r) == run_request_fields(body@),
{
    match serde_json::from_slice::<serde_json::Value>(body) {
        Ok(v) => Some(RunRequest {
            script: v.get("script").and_then(serde_json::Value::as_str).map(str::to_string),
            id: v.get("id").and_then(serde_json::Value::as_str).map(str::to_string),
        }),
        Err(_) => None,
    }
}

/// The fixed commands runnable by id: (id, program, arguments). The client
/// sends only the id, so it can never choose the program or arguments.
pub open spec fn whitelist() -> Seq<(Seq<char>, Seq<char>, Seq<Seq<char>>)> {
    seq![
        ("sw_vers"@, "sw_vers"@, seq![]),
        ("uname"@, "uname"@, seq!["-a"@]),
        ("whoami"@, "whoami"@, seq![]),
        ("date"@, "date"@, seq![]),
        ("uptime"@, "uptime"@, seq![]),
        ("open_about"@, "open"@, seq!["x-apple.systempreferences:com.apple.SystemProfiler.AboutExtension"@]),
        ("open_users"@, "open"@, seq!["x-apple.systempreferences:com.apple.preferences.users"@]),
        ("rustc_version"@, "rustc"@, seq!["--version"@]),
        ("cargo_version"@, "cargo"@, seq!["--version"@]),
        ("brew_version"@, "brew"@, seq!["--version"@]),
        ("go_version"@, "go"@, seq!["version"@]),
        ("uv_version"@, "uv"@, seq!["--version"@]),
        ("deno_version"@, "deno"@, seq!["--version"@]),
    ]
}

/// The first whitelist entry with the given id.
pub open spec fn lookup_from(id: Seq<char>, k: int) -> Option<(Seq<char>, Seq<Seq<char>>)>
    decreases whitelist().len() - k,
{
    if k < 0 || k >= whitelist().len() {
        None
    } else if whitelist()[k].0 == id {
        Some((whitelist()[k].1, whitelist()[k].2))
    } else {
        lookup_from(id, k + 1)
    }
}

pub open spec fn lookup_command(id: Seq<char>) -> Option<(Seq<char>, Seq<Seq<char>>)> {
    lookup_from(id, 0)
}

fn lit_vec(items: &[&'static str]) -> (r: Vec<String>)
    ensures
        r@.len() == items@.len(),
        forall|i: int| 0 <= i < items@.len() ==> #[trigger] r@[i]@ == items@[i]@,
{
    let mut r: Vec<String> = Vec::new();
    let mut i: usize = 0;
    while i < items.len()
        invariant
            i <= items@.len(),
            r@.len() == i,
            forall|k: int| 0 <= k < i ==> #[trigger] r@[k]@ == items@[k]@,
        decreases items@.len() - i,
    {
        r.push(owned(items[i]));
        i = i + 1;
    }
    r
}

/// The program and arguments registered under `id`.
pub fn lookup_whitelist(id: &str) -> (r: Option<(String, Vec<String>)>)
    ensures
        match r {
            Some((p, a)) => lookup_command(id@) == Some((p@, views(a@))),
            None => lookup_command(id@) is None,
        },
{
    let ids: [&'static str; 13] = [
        "sw_vers", "uname", "whoami", "date", "uptime", "open_about", "open_users",
        "rustc_version", "cargo_version", "brew_version", "go_version", "uv_version",
        "deno_version",
    ];
    let progs: [&'static str; 13] = [
        "sw_vers", "uname", "whoami", "date", "uptime", "open", "open", "rustc", "cargo", "brew",
        "go", "uv", "deno",
    ];
    let mut k: usize = 0;
    while k < 13
        invariant
            k <= 13,
            ids@ == seq!["sw_vers", "uname", "whoami", "date", "uptime", "open_about", "open_users",
                "rustc_version", "cargo_version", "brew_version", "go_version", "uv_version",
                "deno_version"],
            progs@ == seq!["sw_vers", "uname", "whoami", "date", "uptime", "open", "open", "rustc",
                "cargo", "brew", "go", "uv", "deno"],
            lookup_command(id@) == lookup_from(id@, k as int),
        decreases 13 - k,
    {
        assert(whitelist()[k as int].0 == ids@[k as int]@);
        if str_eq(ids[k], id) {
            let p = owned(progs[k]);
            let a: Vec<String> = if k == 1 {
                lit_vec(&["-a"])
            } else if k == 5 {
                lit_vec(&["x-apple.systempreferences:com.apple.SystemProfiler.AboutExtension"])
            } else if k == 6 {
                lit_vec(&["x-apple.systempreferences:com.apple.preferences.users"])
            } else if k == 10 {
                lit_vec(&["version"])
            } else if k >= 7 {
                lit_vec(&["--version"])
            } else {
                Vec::new()
            };
            assert(views(a@) =~= whitelist()[k as int].2);
            assert(p@ == whitelist()[k as int].1);
            return Some((p, a));
        }
        k = k + 1;
    }
    None
}

/// The first line that is not blank, trimmed.
pub open spec fn first_nonblank(ls: Seq<Seq<char>>) -> Option<Seq<char>>
    decreases ls.len(),
{
    if ls.len() == 0 {
        None
    } else if trim_seq(ls[0]).len() > 0 {
        Some(trim_seq(ls[0]))
    } else {
        first_nonblank(ls.drop_first())
    }
}

/// How a script is named in the reply: its first line that is not blank.
pub open spec fn script_label(script: Seq<char>) -> Seq<char> {
    match first_nonblank(lines_seq(script)) {
        Some(l) => l,
        None => "(script)"@,
    }
}

/// The reply to a request that runs nothing, if it is one.
pub open spec fn run_reply(req: Option<(Option<Seq<char>>, Option<Seq<char>>)>, allow_script: bool) -> Option<(u16, Seq<char>)> {
    match req {
        None => Some((400, "{\"error\":\"invalid JSON body\"}"@)),
        Some((Some(script), _)) => if !allow_script {
            Some((403, error_json("script execution is only allowed from this server's own pages"@)))
        } else if trim_seq(script).len() == 0 {
            Some((400, error_json("empty script"@)))
        } else {
            None
        },
        Some((None, id)) => {
            let idv = match id {
                Some(i) => i,
                None => Seq::empty(),
            };
            match lookup_command(idv) {
                Some(_) => None,
                None => Some((400, error_json("unknown command id: "@ + idv))),
            }
        },
    }
}

/// The command a request runs, if it runs one: (label, program, arguments).
pub open spec fn run_spawn(req: Option<(Option<Seq<char>>, Option<Seq<char>>)>, allow_script: bool) -> Option<(Seq<char>, Seq<char>, Seq<Seq<char>>)> {
    match req {
        Some((Some(script), _)) => if allow_script && trim_seq(script).len() > 0 {
            Some(("zsh: "@ + script_label(script), "zsh"@, seq!["-lc"@, script]))
        } else {
            None
        },
        Some((None, id)) => {
            let idv = match id {
                Some(i) => i,
                None => Seq::empty(),
            };
            match lookup_command(idv) {
                Some((prog, args)) => Some((trim_seq(prog + " "@ + join_seq(args, " "@)), prog, args)),
                None => None,
            }
        },
        None => None,
    }
}

/// What to do for a run request: answer at once, or run a command and
/// answer with its output ([`finish`]).
pub enum RunPlan {
    Reply { status: u16, body: String },
    Spawn { command: String, program: String, args: Vec<String> },
}

fn label_of(script: &str) -> (r: String)
    ensures
        r@ == script_label(script@),
{
    let ls = lines(script);
    let mut k: usize = 0;
    assert(views(ls@).subrange(0, ls@.len() as int) =~= views(ls@));
    while k < ls.len()
        invariant
            k <= ls@.len(),
            views(ls@) == lines_seq(script@),
            first_nonblank(views(ls@)) == first_nonblank(views(ls@).subrange(k as int, ls@.len() as int)),
        decreases ls@.len() - k,
    {
        let t = trim(ls[k].as_str());
        assert(views(ls@)[k as int] == ls@[k as int]@);
        if t.unicode_len() > 0 {
            assert(views(ls@).subrange(k as int, ls@.len() as int)[0] == views(ls@)[k as int]);
            return t;
        }
        assert(views(ls@).subrange(k as int, ls@.len() as int).drop_first() =~= views(ls@).subrange(
            k + 1,
            ls@.len() as int,
        ));
        k = k + 1;
    }
    assert(views(ls@).subrange(k as int, ls@.len() as int) =~= Seq::<Seq<char>>::empty());
    owned("(script)")
}

/// Decides a request whose fields have been read.
pub fn run_plan(req: Option<RunRequest>, allow_script: bool) -> (p: RunPlan)
    ensures
        match p {
            RunPlan::Reply { status, body } => run_reply(request_view(req), allow_script) == Some(
                (status, body@),
            ) && run_spawn(request_view(req), allow_script) is None,
            RunPlan::Spawn { command, program, args } => run_spawn(request_view(req), allow_script)
                == Some((command@, program@, views(args@))) && run_reply(request_view(req), allow_script) is None,
        },
{
    let q = match req {
        None => {
            return RunPlan::Reply { status: 400, body: owned("{\"error\":\"invalid JSON body\"}") };
        },
        Some(q) => q,
    };
    match q.script {
        Some(script) => {
            if !allow_script {
                return RunPlan::Reply {
                    status: 403,
                    body: error_body("script execution is only allowed from this server's own pages"),
                };
            }
            let t = trim(script.as_str());
            if t.unicode_len() == 0 {
                return RunPlan::Reply { status: 400, body: error_body("empty script") };
            }
            let label = label_of(script.as_str());
            let mut command = owned("zsh: ");
            command.append(label.as_str());
            let mut args: Vec<String> = Vec::new();
            args.push(owned("-lc"));
            args.push(script);
            assert(views(args@) =~= seq!["-lc"@, q.script->0@]);
            RunPlan::Spawn { command, program: owned("zsh"), args }
        },
        None => {
            let idv: String = match q.id {
                Some(i) => i,
                None => String::new(),
            };
            match lookup_whitelist(idv.as_str()) {
                Some((prog, args)) => {
                    let joined = join(&args, " ");
                    let mut line = prog.clone();
                    line.append(" ");
                    line.append(joined.as_str());
                    let command = trim(line.as_str());
                    RunPlan::Spawn { command, program: prog, args }
                },
                None => {
                    let mut msg = owned("unknown command id: ");
                    msg.append(idv.as_str());
                    RunPlan::Reply { status: 400, body: error_body(msg.as_str()) }
                },
            }
        },
    }
}

/// Handles a `POST /api/run` body: reads it as JSON and decides what to
/// run or answer. `allow_script` comes from [`origin_ok`].
pub fn api_run(body: &[u8], allow_script: bool) -> (p: RunPlan)
    ensures
        match p {
            RunPlan::Reply { status, body: b } => run_reply(run_request_fields(body@), allow_script)
                == Some((status, b@)),
            RunPlan::Spawn { command, program, args } => run_spawn(run_request_fields(body@), allow_script)
                == Some((command@, program@, views(args@))),
        },
{
    let req = read_run_request(body);
    run_plan(req, allow_script)
}

/// How long a command may run before it is killed, in seconds.
pub const RUN_TIMEOUT_SECS: u64 = 120;

/// What a finished (or killed) command left: its exit code (none when it
/// was killed or ended by a signal) and what it printed.
pub struct RunOutput {
    pub exit_code: Option<i32>,
    pub stdout: String,
    pub stderr: String,
}

/// The line added to the error output of a command that ran too long.
pub open spec fn timeout_note() -> Seq<char> {
    "\n[killed: exceeded "@ + dec_seq(RUN_TIMEOUT_SECS as nat)
        + "s timeout — interactive commands (sudo, prompts) can't run here]"@
}

/// The output of a command once it has ended: a command killed for running
/// too long has no exit code, and its error output says why.
pub fn settle_output(exit_code: Option<i32>, timed_out: bool, stdout: String, stderr: String) -> (o:
    RunOutput)
    ensures
        o.exit_code == (if timed_out {
            None
        } else {
            exit_code
        }),
        o.stdout@ == stdout@,
        o.stderr@ == (if timed_out {
            stderr@ + timeout_note()
        } else {
            stderr@
        }),
{
    if timed_out {
        let mut e = stderr;
        e.append("\n[killed: exceeded ");
        let secs = u64_to_string(RUN_TIMEOUT_SECS);
        e.append(secs.as_str());
        e.append("s timeout — interactive commands (sudo, prompts) can't run here]");
        RunOutput { exit_code: None, stdout, stderr: e }
    } else {
        RunOutput { exit_code, stdout, stderr }
    }
}

/// What the wait for a command does next.
pub enum WaitStep {
    /// The command has exited: collect its output.
    Done,
    /// The deadline has passed: kill it.
    Kill,
    /// Sleep a little and look again.
    Sleep,
}

/// One look at a running command: done once it has exited, killed once
/// the deadline is reached, otherwise wait.
pub fn wait_step(exited: bool, now_ms: u64, deadline_ms: u64) -> (w: WaitStep)
    ensures
        exited ==> w is Done,
        !exited && now_ms >= deadline_ms ==> w is Kill,
        !exited && now_ms < deadline_ms ==> w is Sleep,
{
    if exited {
        WaitStep::Done
    } else if now_ms >= deadline_ms {
        WaitStep::Kill
    } else {
        WaitStep::Sleep
    }
}

/// The JSON value of an exit code.
pub open spec fn exit_code_json(c: Option<i32>) -> Seq<char> {
    match c {
        Some(n) => int_text(n as int),
        None => "null"@,
    }
}

/// The reply for a command that was run (keys in `serde_json`'s sorted
/// order), or for one that could not be started.
pub open spec fn finish_reply(command: Seq<char>, result: Result<(Option<i32>, Seq<char>, Seq<char>), Seq<char>>) -> (u16, Seq<char>) {
    match result {
        Ok((code, out, err)) => (
            200,
            "{\"command\":"@ + json_quote_seq(command) + ",\"exit_code\":"@ + exit_code_json(code)
                + ",\"stderr\":"@ + json_quote_seq(err) + ",\"stdout\":"@ + json_quote_seq(out)
                + "}"@,
        ),
        Err(e) => (500, error_json("failed to run: "@ + e)),
    }
}

pub open spec fn output_view(r: Result<RunOutput, String>) -> Result<(Option<i32>, Seq<char>, Seq<char>), Seq<char>> {
    match r {
        Ok(o) => Ok((o.exit_code, o.stdout@, o.stderr@)),
        Err(e) => Err(e@),
    }
}

/// Turns what running a command gave (its output, or why it could not be
/// started) into the HTTP status and JSON body of the reply.
pub fn finish(command: &str, result: Result<RunOutput, String>) -> (r: (u16, String))
    ensures
        (r.0, r.1@) == finish_reply(command@, output_view(result)),
{
    match result {
        Ok(out) => {
            let mut b = owned("{\"command\":");
            let q = json_string(command);
            b.append(q.as_str());
            b.append(",\"exit_code\":");
            match out.exit_code {
                Some(n) => {
                    let t = i32_to_string(n);
                    b.append(t.as_str());
                },
                None => {
                    b.append("null");
                },
            }
            b.append(",\"stderr\":");
            let q = json_string(out.stderr.as_str());
            b.append(q.as_str());
            b.append(",\"stdout\":");
            let q = json_string(out.stdout.as_str());
            b.append(q.as_str());
            b.append("}");
            (200, b)
        },
        Err(e) => {
            let mut m = owned("failed to run: ");
            m.append(e.as_str());
            (500, error_body(m.as_str()))
        },
    }
}

proof fn lemma_lookup_from(id: Seq<char>, k: int)
    requires
        0 <= k,
    ensures
        match lookup_from(id, k) {
            Some((p, a)) => exists|j: int|
                0 <= j < whitelist().len() && #[trigger] whitelist()[j].0 == id && whitelist()[j].1
                    == p && whitelist()[j].2 == a,
            None => true,
        },
    decreases whitelist().len() - k,
{
    if k < whitelist().len() && whitelist()[k].0 != id {
        lemma_lookup_from(id, k + 1);
    }
}

proof fn lemma_lookup_at(id: Seq<char>, k: int, m: int)
    requires
        0 <= k <= m < whitelist().len(),
        forall|j: int| k <= j < m ==> #[trigger] whitelist()[j].0 != id,
        whitelist()[m].0 == id,
    ensures
        lookup_from(id, k) == Some((whitelist()[m].1, whitelist()[m].2)),
    decreases m - k,
{
    if k < m {
        assert(whitelist()[k].0 != id);
        lemma_lookup_at(id, k + 1, m);
    }
}

/// Each id of the table runs its own program with its own fixed
/// arguments; an id `X_version` runs `X`.
pub proof fn lemma_whitelist_table()
    ensures
        lookup_command("sw_vers"@) == Some(("sw_vers"@, Seq::<Seq<char>>::empty())),
        lookup_command("uname"@) == Some(("uname"@, seq!["-a"@])),
        lookup_command("whoami"@) == Some(("whoami"@, Seq::<Seq<char>>::empty())),
        lookup_command("date"@) == Some(("date"@, Seq::<Seq<char>>::empty())),
        lookup_command("uptime"@) == Some(("uptime"@, Seq::<Seq<char>>::empty())),
        lookup_command("open_about"@) == Some(("open"@, seq!["x-apple.systempreferences:com.apple.SystemProfiler.AboutExtension"@])),
        lookup_command("open_users"@) == Some(("open"@, seq!["x-apple.systempreferences:com.apple.preferences.users"@])),
        lookup_command("rustc_version"@) == Some(("rustc"@, seq!["--version"@])),
        lookup_command("cargo_version"@) == Some(("cargo"@, seq!["--version"@])),
        lookup_command("brew_version"@) == Some(("brew"@, seq!["--version"@])),
        lookup_command("go_version"@) == Some(("go"@, seq!["version"@])),
        lookup_command("uv_version"@) == Some(("uv"@, seq!["--version"@])),
        lookup_command("deno_version"@) == Some(("deno"@, seq!["--version"@])),
{
    reveal_strlit("--version");
    reveal_strlit("-a");
    reveal_strlit("_version");
    reveal_strlit("brew");
    reveal_strlit("brew_version");
    reveal_strlit("cargo");
    reveal_strlit("cargo_version");
    reveal_strlit("date");
    reveal_strlit("deno");
    reveal_strlit("deno_version");
    reveal_strlit("go");
    reveal_strlit("go_version");
    reveal_strlit("open");
    reveal_strlit("open_about");
    reveal_strlit("open_users");
    reveal_strlit("rustc");
    reveal_strlit("rustc_version");
    reveal_strlit("sw_vers");
    reveal_strlit("uname");
    reveal_strlit("uptime");
    reveal_strlit("uv");
    reveal_strlit("uv_version");
    reveal_strlit("version");
    reveal_strlit("whoami");
    reveal_strlit("x-apple.systempreferences:com.apple.SystemProfiler.AboutExtension");
    reveal_strlit("x-apple.systempreferences:com.apple.preferences.users");
    assert(lookup_command("sw_vers"@) == Some(("sw_vers"@, Seq::<Seq<char>>::empty()))) by {
        lemma_lookup_at("sw_vers"@, 0, 0);
        assert(whitelist()[0].2 =~= Seq::<Seq<char>>::empty());
    }
    assert(lookup_command("uname"@) == Some(("uname"@, seq!["-a"@]))) by {
        assert("sw_vers"@.len() != "uname"@.len());
        lemma_lookup_at("uname"@, 0, 1);
        assert(whitelist()[1].2 =~= seq!["-a"@]);
    }
    assert(lookup_command("whoami"@) == Some(("whoami"@, Seq::<Seq<char>>::empty()))) by {
        assert("sw_vers"@.len() != "whoami"@.len());
        assert("uname"@.len() != "whoami"@.len());
        lemma_lookup_at("whoami"@, 0, 2);
        assert(whitelist()[2].2 =~= Seq::<Seq<char>>::empty());
    }
    assert(lookup_command("date"@) == Some(("date"@, Seq::<Seq<char>>::empty()))) by {
        assert("sw_vers"@.len() != "date"@.len());
        assert("uname"@.len() != "date"@.len());
        assert("whoami"@.len() != "date"@.len());
        lemma_lookup_at("date"@, 0, 3);
        assert(whitelist()[3].2 =~= Seq::<Seq<char>>::empty());
    }
    assert(lookup_command("uptime"@) == Some(("uptime"@, Seq::<Seq<char>>::empty()))) by {
        assert("sw_vers"@.len() != "uptime"@.len());
        assert("uname"@.len() != "uptime"@.len());
        assert("whoami"@[0] != "uptime"@[0]);
        assert("date"@.len() != "uptime"@.len());
        lemma_lookup_at("uptime"@, 0, 4);
        assert(whitelist()[4].2 =~= Seq::<Seq<char>>::empty());
    }
    assert(lookup_command("open_about"@) == Some(("open"@, seq!["x-apple.systempreferences:com.apple.SystemProfiler.AboutExtension"@]))) by {
        assert("sw_vers"@.len() != "open_about"@.len());
        assert("uname"@.len() != "open_about"@.len());
        assert("whoami"@.len() != "open_about"@.len());
        assert("date"@.len() != "open_about"@.len());
        assert("uptime"@.len() != "open_about"@.len());
        lemma_lookup_at("open_about"@, 0, 5);
        assert(whitelist()[5].2 =~= seq!["x-apple.systempreferences:com.apple.SystemProfiler.AboutExtension"@]);
    }
    assert(lookup_command("open_users"@) == Some(("open"@, seq!["x-apple.systempreferences:com.apple.preferences.users"@]))) by {
        assert("sw_vers"@.len() != "open_users"@.len());
        assert("uname"@.len() != "open_users"@.len());
        assert("whoami"@.len() != "open_users"@.len());
        assert("date"@.len() != "open_users"@.len());
        assert("uptime"@.len() != "open_users"@.len());
        assert("open_about"@[5] != "open_users"@[5]);
        lemma_lookup_at("open_users"@, 0, 6);
        assert(whitelist()[6].2 =~= seq!["x-apple.systempreferences:com.apple.preferences.users"@]);
    }
    assert(lookup_command("rustc_version"@) == Some(("rustc"@, seq!["--version"@]))) by {
        assert("sw_vers"@.len() != "rustc_version"@.len());
        assert("uname"@.len() != "rustc_version"@.len());
        assert("whoami"@.len() != "rustc_version"@.len());
        assert("date"@.len() != "rustc_version"@.len());
        assert("uptime"@.len() != "rustc_version"@.len());
        assert("open_about"@.len() != "rustc_version"@.len());
        assert("open_users"@.len() != "rustc_version"@.len());
        lemma_lookup_at("rustc_version"@, 0, 7);
        assert(whitelist()[7].2 =~= seq!["--version"@]);
    }
    assert(lookup_command("cargo_version"@) == Some(("cargo"@, seq!["--version"@]))) by {
        assert("sw_vers"@.len() != "cargo_version"@.len());
        assert("uname"@.len() != "cargo_version"@.len());
        assert("whoami"@.len() != "cargo_version"@.len());
        assert("date"@.len() != "cargo_version"@.len());
        assert("uptime"@.len() != "cargo_version"@.len());
        assert("open_about"@.len() != "cargo_version"@.len());
        assert("open_users"@.len() != "cargo_version"@.len());
        assert("rustc_version"@[0] != "cargo_version"@[0]);
        lemma_lookup_at("cargo_version"@, 0, 8);
        assert(whitelist()[8].2 =~= seq!["--version"@]);
    }
    assert(lookup_command("brew_version"@) == Some(("brew"@, seq!["--version"@]))) by {
        assert("sw_vers"@.len() != "brew_version"@.len());
        assert("uname"@.len() != "brew_version"@.len());
        assert("whoami"@.len() != "brew_version"@.len());
        assert("date"@.len() != "brew_version"@.len());
        assert("uptime"@.len() != "brew_version"@.len());
        assert("open_about"@.len() != "brew_version"@.len());
        assert("open_users"@.len() != "brew_version"@.len());
        assert("rustc_version"@.len() != "brew_version"@.len());
        assert("cargo_version"@.len() != "brew_version"@.len());
        lemma_lookup_at("brew_version"@, 0, 9);
        assert(whitelist()[9].2 =~= seq!["--version"@]);
    }
    assert(lookup_command("go_version"@) == Some(("go"@, seq!["version"@]))) by {
        assert("sw_vers"@.len() != "go_version"@.len());
        assert("uname"@.len() != "go_version"@.len());
        assert("whoami"@.len() != "go_version"@.len());
        assert("date"@.len() != "go_version"@.len());
        assert("uptime"@.len() != "go_version"@.len());
        assert("open_about"@[0] != "go_version"@[0]);
        assert("open_users"@[0] != "go_version"@[0]);
        assert("rustc_version"@.len() != "go_version"@.len());
        assert("cargo_version"@.len() != "go_version"@.len());
        assert("brew_version"@.len() != "go_version"@.len());
        lemma_lookup_at("go_version"@, 0, 10);
        assert(whitelist()[10].2 =~= seq!["version"@]);
    }
    assert(lookup_command("uv_version"@) == Some(("uv"@, seq!["--version"@]))) by {
        assert("sw_vers"@.len() != "uv_version"@.len());
        assert("uname"@.len() != "uv_version"@.len());
        assert("whoami"@.len() != "uv_version"@.len());
        assert("date"@.len() != "uv_version"@.len());
        assert("uptime"@.len() != "uv_version"@.len());
        assert("open_about"@[0] != "uv_version"@[0]);
        assert("open_users"@[0] != "uv_version"@[0]);
        assert("rustc_version"@.len() != "uv_version"@.len());
        assert("cargo_version"@.len() != "uv_version"@.len());
        assert("brew_version"@.len() != "uv_version"@.len());
        assert("go_version"@[0] != "uv_version"@[0]);
        lemma_lookup_at("uv_version"@, 0, 11);
        assert(whitelist()[11].2 =~= seq!["--version"@]);
    }
    assert(lookup_command("deno_version"@) == Some(("deno"@, seq!["--version"@]))) by {
        assert("sw_vers"@.len() != "deno_version"@.len());
        assert("uname"@.len() != "deno_version"@.len());
        assert("whoami"@.len() != "deno_version"@.len());
        assert("date"@.len() != "deno_version"@.len());
        assert("uptime"@.len() != "deno_version"@.len());
        assert("open_about"@.len() != "deno_version"@.len());
        assert("open_users"@.len() != "deno_version"@.len());
        assert("rustc_version"@.len() != "deno_version"@.len());
        assert("cargo_version"@.len() != "deno_version"@.len());
        assert("brew_version"@[0] != "deno_version"@[0]);
        assert("go_version"@.len() != "deno_version"@.len());
        assert("uv_version"@.len() != "deno_version"@.len());
        lemma_lookup_at("deno_version"@, 0, 12);
        assert(whitelist()[12].2 =~= seq!["--version"@]);
    }
}

/// Whether a text ends in `_version`.
pub open spec fn is_version_id(id: Seq<char>) -> bool {
    id.len() >= 8 && id.subrange(id.len() - 8, id.len() as int) == "_version"@
}

/// An id `X_version` only ever runs the program `X`, asking it for its
/// version (`--version`, or `version` where that is its spelling).
pub proof fn lemma_version_ids(id: Seq<char>)
    ensures
        match lookup_command(id) {
            Some((p, a)) => is_version_id(id) ==> id == p + "_version"@ && (a == seq!["--version"@]
                || a == seq!["version"@]),
            None => true,
        },
{
    reveal_strlit("--version");
    reveal_strlit("-a");
    reveal_strlit("_version");
    reveal_strlit("brew");
    reveal_strlit("brew_version");
    reveal_strlit("cargo");
    reveal_strlit("cargo_version");
    reveal_strlit("date");
    reveal_strlit("deno");
    reveal_strlit("deno_version");
    reveal_strlit("go");
    reveal_strlit("go_version");
    reveal_strlit("open");
    reveal_strlit("open_about");
    reveal_strlit("open_users");
    reveal_strlit("rustc");
    reveal_strlit("rustc_version");
    reveal_strlit("sw_vers");
    reveal_strlit("uname");
    reveal_strlit("uptime");
    reveal_strlit("uv");
    reveal_strlit("uv_version");
    reveal_strlit("version");
    reveal_strlit("whoami");
    reveal_strlit("x-apple.systempreferences:com.apple.SystemProfiler.AboutExtension");
    reveal_strlit("x-apple.systempreferences:com.apple.preferences.users");
    lemma_lookup_from(id, 0);
    if let Some((p, a)) = lookup_command(id) {
        let j = choose|j: int|
            0 <= j < whitelist().len() && #[trigger] whitelist()[j].0 == id && whitelist()[j].1 == p
                && whitelist()[j].2 == a;
        assert(whitelist()[j].0 == id);
        if j == 0 {
            assert(id.len() < 8);
        } else if j == 1 {
            assert(id.len() < 8);
        } else if j == 2 {
            assert(id.len() < 8);
        } else if j == 3 {
            assert(id.len() < 8);
        } else if j == 4 {
            assert(id.len() < 8);
        } else if j == 5 {
            assert(id.subrange(id.len() - 8, id.len() as int)[0] == id[id.len() - 8]);
            assert(id[id.len() - 8] != "_version"@[0]);
        } else if j == 6 {
            assert(id.subrange(id.len() - 8, id.len() as int)[0] == id[id.len() - 8]);
            assert(id[id.len() - 8] != "_version"@[0]);
        } else if j == 7 {
            assert(id =~= "rustc"@ + "_version"@);
            assert(a =~= seq!["--version"@]);
        } else if j == 8 {
            assert(id =~= "cargo"@ + "_version"@);
            assert(a =~= seq!["--version"@]);
        } else if j == 9 {
            assert(id =~= "brew"@ + "_version"@);
            assert(a =~= seq!["--version"@]);
        } else if j == 10 {
            assert(id =~= "go"@ + "_version"@);
            assert(a =~= seq!["version"@]);
        } else if j == 11 {
            assert(id =~= "uv"@ + "_version"@);
            assert(a =~= seq!["--version"@]);
        } else if j == 12 {
            assert(id =~= "deno"@ + "_version"@);
            assert(a =~= seq!["--version"@]);
        }
    }
}

/// A request without a script only ever runs a whitelisted program with
/// its fixed arguments, whatever id it sends.
pub proof fn lemma_id_runs_whitelisted(id: Option<Seq<char>>, allow_script: bool)
    ensures
        match run_spawn(Some((None, id)), allow_script) {
            Some((_, p, a)) => exists|j: int|
                0 <= j < whitelist().len() && #[trigger] whitelist()[j].1 == p && whitelist()[j].2
                    == a,
            None => true,
        },
{
    let idv = match id {
        Some(i) => i,
        None => Seq::empty(),
    };
    lemma_lookup_from(idv, 0);
    if let Some((p, a)) = lookup_command(idv) {
        let j = choose|j: int|
            0 <= j < whitelist().len() && #[trigger] whitelist()[j].0 == idv && whitelist()[j].1 == p
                && whitelist()[j].2 == a;
        assert(whitelist()[j].1 == p);
    }
}

/// No script runs unless the request's origin allows it.
pub proof fn lemma_script_needs_origin(script: Seq<char>, id: Option<Seq<char>>)
    ensures
        run_spawn(Some((Some(script), id)), false) is None,
        run_reply(Some((Some(script), id)), false) == Some(
            (403u16, error_json("script execution is only allowed from this server's own pages"@)),
        ),
{
}

/// Every request is either answered at once or runs exactly one command.
pub proof fn lemma_reply_or_spawn(req: Option<(Option<Seq<char>>, Option<Seq<char>>)>, allow_script: bool)
    ensures
        run_reply(req, allow_script) is None <==> run_spawn(req, allow_script) is Some,
{
}

} // verus!
