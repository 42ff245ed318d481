//! The small static file server: reading a request, choosing the file,
//! and writing the response, as decisions over text and bytes.

use vstd::prelude::*;
use vstd::utf8::encode_utf8;
use vstd::string::StringExecFns;
use crate::text::{
    chars_of, string_of, owned, views, words, words_seq, split_chars, split_seq, char_views,
    first_piece, lemma_split_nonempty, starts_with_seq, contains_seq, starts_with, contains,
    ascii_lower_seq, to_ascii_lowercase, dec_seq, u64_to_string, usize_to_string, slice_chars,
};
use crate::paths::{
    comps, CompKind, components, join_seq, join_path, file_name, file_name_seq, extension,
    extension_seq, chars_eq,
};

verus! {

/// The method and the path (without query or fragment) of a request line;
/// `GET` and `/` stand in for missing words.
pub open spec fn request_parts(line: Seq<char>) -> (Seq<char>, Seq<char>) {
    let w = words_seq(line);
    let method = if w.len() > 0 {
        w[0]
    } else {
        "GET"@
    };
    let raw = if w.len() > 1 {
        w[1]
    } else {
        "/"@
    };
    (method, first_piece(raw, seq!['?', '#']))
}

/// The method and path of a request line.
pub fn parse_request_line(line: &str) -> (r: (String, String))
    ensures
        r.0@ == request_parts(line@).0,
        r.1@ == request_parts(line@).1,
{
    let w = words(line);
    let method = if w.len() > 0 {
        w[0].clone()
    } else {
        owned("GET")
    };
    let raw = if w.len() > 1 {
        w[1].clone()
    } else {
        owned("/")
    };
    assert(w.len() > 0 ==> views(w@)[0] == w@[0]@);
    assert(w.len() > 1 ==> views(w@)[1] == w@[1]@);
    let rv = chars_of(raw.as_str());
    let seps: [char; 2] = ['?', '#'];
    assert(seps@ =~= seq!['?', '#']);
    let pieces = split_chars(rv.as_slice(), seps.as_slice());
    proof {
        lemma_split_nonempty(rv@, seps@);
        assert(char_views(pieces@)[0] == pieces@[0]@);
    }
    let path = string_of(pieces[0].as_slice());
    (method, path)
}

/// The request line without its line ending, as the debug log shows it.
pub open spec fn trim_line_end(s: Seq<char>) -> Seq<char>
    decreases s.len(),
{
    if s.len() > 0 && (s.last() == '\r' || s.last() == '\n') {
        trim_line_end(s.drop_last())
    } else {
        s
    }
}

/// `line.trim_end_matches(['\r', '\n'])`.
pub fn request_line_text(line: &str) -> (r: String)
    ensures
        r@ == trim_line_end(line@),
{
    let v = chars_of(line);
    let mut j = v.len();
    assert(v@.subrange(0, j as int) =~= v@);
    while j > 0 && (v[j - 1] == '\r' || v[j - 1] == '\n')
        invariant
            j <= v@.len(),
            trim_line_end(line@) == trim_line_end(v@.subrange(0, j as int)),
            v@ == line@,
        decreases j,
    {
        assert(v@.subrange(0, j as int).drop_last() =~= v@.subrange(0, j - 1));
        j = j - 1;
    }
    let t = slice_chars(v.as_slice(), 0, j);
    string_of(t.as_slice())
}

/// The blank line that ends the headers.
pub open spec fn is_header_end_seq(line: Seq<char>) -> bool {
    line == "\r\n"@ || line == "\n"@
}

/// Whether a header line is `Connection: ... close ...` (any case).
pub open spec fn asks_close_seq(line: Seq<char>) -> bool {
    let lower = ascii_lower_seq(line);
    starts_with_seq(lower, "connection:"@) && contains_seq(lower, "close"@)
}

/// Whether this line ends the headers.
pub fn is_header_end(line: &str) -> (b: bool)
    ensures
        b == is_header_end_seq(line@),
{
    let l = owned(line);
    l == owned("\r\n") || l == owned("\n")
}

/// Whether this header asks to close the connection.
pub fn asks_close(line: &str) -> (b: bool)
    ensures
        b == asks_close_seq(line@),
{
    let lower = to_ascii_lowercase(line);
    starts_with(lower.as_str(), "connection:") && contains(lower.as_str(), "close")
}

/// Where a connection stands between requests.
pub enum ConnState {
    /// Waiting for a request line.
    AwaitingRequest,
    /// Reading the headers of a request.
    ReadingHeaders { method: String, path: String, client_close: bool },
    /// A request that asked to close was answered: nothing more is read.
    Closing,
}

/// What happened on the connection.
pub enum ConnEvent {
    /// A line was read.
    Line(String),
    /// The response to the request just answered was written.
    Sent,
    /// The client closed its end.
    Closed,
    /// Reading or writing failed.
    Failed,
}

/// What the connection does next.
pub enum ConnAction {
    /// Read another line.
    ReadLine,
    /// Answer the request just read.
    Serve { method: String, path: String, keep_alive: bool },
    /// Close the connection.
    Stop,
}

/// The request being read, as values: `None` while waiting for a request
/// line (or once closing), else its method, path and whether it asked to
/// close.
pub type ReadingView = Option<(Seq<char>, Seq<char>, bool)>;

/// The connection's state as values: whether it is closing, and the
/// request being read.
pub open spec fn state_view(s: ConnState) -> (bool, ReadingView) {
    match s {
        ConnState::AwaitingRequest => (false, None),
        ConnState::ReadingHeaders { method, path, client_close } => (false, Some((method@, path@, client_close))),
        ConnState::Closing => (true, None),
    }
}

/// The request a step answers, as values: method, path, keep-alive.
pub open spec fn served_view(a: ConnAction) -> Option<(Seq<char>, Seq<char>, bool)> {
    match a {
        ConnAction::Serve { method, path, keep_alive } => Some((method@, path@, keep_alive)),
        _ => None,
    }
}

/// One line read on a connection: a request line starts a request, header
/// lines are read (noting `Connection: close`) until the blank line, which
/// answers the request; after answering a request that asked to close,
/// the connection is closing and reads nothing more.
pub open spec fn line_step(st: (bool, ReadingView), line: Seq<char>) -> (
    (bool, ReadingView),
    Option<(Seq<char>, Seq<char>, bool)>,
) {
    if st.0 {
        (st, None)
    } else {
        match st.1 {
            None => ((false, Some((request_parts(line).0, request_parts(line).1, false))), None),
            Some((m, p, c)) => if is_header_end_seq(line) {
                ((c, None), Some((m, p, !c)))
            } else {
                ((false, Some((m, p, c || asks_close_seq(line)))), None)
            },
        }
    }
}

/// One step of a keep-alive connection. A line moves it as [`line_step`]
/// says (reading on, or answering a request). Once the response is sent
/// it reads the next line, unless the request asked to close: then, and
/// on any event while closing, at the end of input or on an error, it
/// stops.
pub fn conn_step(state: ConnState, event: ConnEvent) -> (r: (ConnState, ConnAction))
    ensures
        state_view(state).0 ==> state_view(r.0) == state_view(state) && r.1 is Stop,
        !state_view(state).0 ==> match event {
            ConnEvent::Line(l) => {
                &&& state_view(r.0) == line_step(state_view(state), l@).0
                &&& served_view(r.1) == line_step(state_view(state), l@).1
                &&& !(r.1 is Stop)
            },
            ConnEvent::Sent => state_view(r.0) == state_view(state) && r.1 is ReadLine,
            _ => state_view(r.0) == state_view(state) && r.1 is Stop,
        },
{
    match (state, event) {
        (ConnState::Closing, _) => (ConnState::Closing, ConnAction::Stop),
        (ConnState::AwaitingRequest, ConnEvent::Line(l)) => {
            let (method, path) = parse_request_line(l.as_str());
            (ConnState::ReadingHeaders { method, path, client_close: false }, ConnAction::ReadLine)
        },
        (ConnState::ReadingHeaders { method, path, client_close }, ConnEvent::Line(l)) => {
            if is_header_end(l.as_str()) {
                let next = if client_close {
                    ConnState::Closing
                } else {
                    ConnState::AwaitingRequest
                };
                (next, ConnAction::Serve { method, path, keep_alive: !client_close })
            } else {
                let close = client_close || asks_close(l.as_str());
                (ConnState::ReadingHeaders { method, path, client_close: close }, ConnAction::ReadLine)
            }
        },
        (s, ConnEvent::Sent) => (s, ConnAction::ReadLine),
        (s, _) => (s, ConnAction::Stop),
    }
}

/// The lines read in turn from a state: the state reached and the
/// requests answered, in order.
pub open spec fn run_lines(st: (bool, ReadingView), lines: Seq<Seq<char>>) -> (
    (bool, ReadingView),
    Seq<(Seq<char>, Seq<char>, bool)>,
)
    decreases lines.len(),
{
    if lines.len() == 0 {
        (st, Seq::empty())
    } else {
        let a = run_lines(st, lines.drop_last());
        let b = line_step(a.0, lines.last());
        (
            b.0,
            match b.1 {
                Some(x) => a.1.push(x),
                None => a.1,
            },
        )
    }
}

/// A request as a client sends it: the request line, then header lines
/// (none of them blank), then the blank line.
pub open spec fn request_lines(req: (Seq<char>, Seq<Seq<char>>)) -> Seq<Seq<char>> {
    seq![req.0] + req.1 + seq!["\r\n"@]
}

/// Several requests sent one after another on one connection.
pub open spec fn pipelined(reqs: Seq<(Seq<char>, Seq<Seq<char>>)>) -> Seq<Seq<char>>
    decreases reqs.len(),
{
    if reqs.len() == 0 {
        Seq::empty()
    } else {
        pipelined(reqs.drop_last()) + request_lines(reqs.last())
    }
}

/// Whether a request's headers ask to close the connection.
pub open spec fn any_close(headers: Seq<Seq<char>>) -> bool {
    exists|i: int| 0 <= i < headers.len() && asks_close_seq(#[trigger] headers[i])
}

/// What answering a request serves: its method and path, and keep-alive
/// unless a header asked to close.
pub open spec fn answer(req: (Seq<char>, Seq<Seq<char>>)) -> (Seq<char>, Seq<char>, bool) {
    (request_parts(req.0).0, request_parts(req.0).1, !any_close(req.1))
}

/// The requests answered on a connection, in order: each one up to and
/// including the first that asks to close; and whether the connection
/// ends up closing.
pub open spec fn answered(reqs: Seq<(Seq<char>, Seq<Seq<char>>)>) -> (bool, Seq<(Seq<char>, Seq<char>, bool)>)
    decreases reqs.len(),
{
    if reqs.len() == 0 {
        (false, Seq::empty())
    } else {
        let a = answered(reqs.drop_last());
        if a.0 {
            a
        } else {
            (any_close(reqs.last().1), a.1.push(answer(reqs.last())))
        }
    }
}

/// No header line is blank.
pub open spec fn headers_ok(reqs: Seq<(Seq<char>, Seq<Seq<char>>)>) -> bool {
    forall|k: int, i: int|
        0 <= k < reqs.len() && 0 <= i < reqs[k].1.len() ==> !is_header_end_seq(#[trigger] reqs[k].1[i])
}

proof fn lemma_run_concat(st: (bool, ReadingView), a: Seq<Seq<char>>, b: Seq<Seq<char>>)
    ensures
        run_lines(st, a + b) == (run_lines(run_lines(st, a).0, b).0, run_lines(st, a).1 + run_lines(
            run_lines(st, a).0,
            b,
        ).1),
    decreases b.len(),
{
    if b.len() == 0 {
        assert(a + b =~= a);
        assert(run_lines(st, a).1 + Seq::<(Seq<char>, Seq<char>, bool)>::empty() =~= run_lines(st, a).1);
    } else {
        lemma_run_concat(st, a, b.drop_last());
        assert((a + b).drop_last() =~= a + b.drop_last());
        assert((a + b).last() == b.last());
        let mid = run_lines(st, a);
        let r = run_lines(mid.0, b.drop_last());
        let x = line_step(r.0, b.last());
        match x.1 {
            Some(v) => {
                assert(mid.1 + r.1.push(v) =~= (mid.1 + r.1).push(v));
            },
            None => {},
        }
    }
}

proof fn lemma_closing_reads_nothing(lines: Seq<Seq<char>>)
    ensures
        run_lines((true, None), lines) == ((true, None::<(Seq<char>, Seq<char>, bool)>), Seq::<(Seq<char>, Seq<char>, bool)>::empty()),
    decreases lines.len(),
{
    if lines.len() > 0 {
        lemma_closing_reads_nothing(lines.drop_last());
    }
}

proof fn lemma_headers(m: Seq<char>, p: Seq<char>, c: bool, hs: Seq<Seq<char>>)
    requires
        forall|i: int| 0 <= i < hs.len() ==> !is_header_end_seq(#[trigger] hs[i]),
    ensures
        run_lines((false, Some((m, p, c))), hs) == (
            (false, Some((m, p, c || any_close(hs)))),
            Seq::<(Seq<char>, Seq<char>, bool)>::empty(),
        ),
    decreases hs.len(),
{
    if hs.len() > 0 {
        let init = hs.drop_last();
        assert forall|i: int| 0 <= i < init.len() implies !is_header_end_seq(#[trigger] init[i]) by {
            assert(init[i] == hs[i]);
        }
        lemma_headers(m, p, c, init);
        assert(!is_header_end_seq(hs[hs.len() - 1]));
        if c || any_close(hs) {
            if !(c || any_close(init)) {
                assert(asks_close_seq(hs.last())) by {
                    let i = choose|i: int| 0 <= i < hs.len() && asks_close_seq(#[trigger] hs[i]);
                    if i < hs.len() - 1 {
                        assert(init[i] == hs[i]);
                    }
                }
            }
        } else {
            assert(!asks_close_seq(hs[hs.len() - 1]));
        }
        if any_close(init) {
            let i = choose|i: int| 0 <= i < init.len() && asks_close_seq(#[trigger] init[i]);
            assert(hs[i] == init[i]);
        }
    }
}

proof fn lemma_one_request(req: (Seq<char>, Seq<Seq<char>>))
    requires
        forall|i: int| 0 <= i < req.1.len() ==> !is_header_end_seq(#[trigger] req.1[i]),
    ensures
        run_lines((false, None), request_lines(req)) == ((any_close(req.1), None::<(Seq<char>, Seq<char>, bool)>), seq![answer(req)]),
{
    let rl = request_parts(req.0);
    let one = seq![req.0];
    let hs = req.1;
    let end = seq!["\r\n"@];
    let none: ReadingView = None;
    let empty = Seq::<(Seq<char>, Seq<char>, bool)>::empty();
    assert(request_lines(req) =~= one + hs + end);
    lemma_run_concat((false, none), one + hs, end);
    lemma_run_concat((false, none), one, hs);
    assert(one.drop_last() =~= Seq::<Seq<char>>::empty());
    assert(one.last() == req.0);
    assert(run_lines((false, none), Seq::<Seq<char>>::empty()) == ((false, none), empty));
    assert(run_lines((false, none), one) == ((false, Some((rl.0, rl.1, false))), empty));
    lemma_headers(rl.0, rl.1, false, hs);
    let st2 = (false, Some((rl.0, rl.1, false || any_close(hs))));
    assert(empty + empty =~= empty);
    assert(run_lines((false, none), one + hs) == (st2, empty));
    assert(end.drop_last() =~= Seq::<Seq<char>>::empty());
    assert(run_lines(st2, Seq::<Seq<char>>::empty()) == (st2, empty));
    assert(end.last() == "\r\n"@);
    assert(line_step(st2, end.last()) == ((any_close(hs), none), Some(answer(req))));
    assert(empty.push(answer(req)) =~= seq![answer(req)]);
    assert(empty + seq![answer(req)] =~= seq![answer(req)]);
}

/// Requests sent one after another on a kept-alive connection are
/// answered in order, each once with its own method and path, kept alive
/// unless one of its headers asks to close. After answering a request
/// that asks to close, the connection is closing: no later request is
/// answered.
pub proof fn lemma_pipelined_requests(reqs: Seq<(Seq<char>, Seq<Seq<char>>)>)
    requires
        headers_ok(reqs),
    ensures
        run_lines((false, None), pipelined(reqs)) == (
            (answered(reqs).0, None::<(Seq<char>, Seq<char>, bool)>),
            answered(reqs).1,
        ),
    decreases reqs.len(),
{
    if reqs.len() == 0 {
    } else {
        let init = reqs.drop_last();
        assert(headers_ok(init)) by {
            assert forall|k: int, i: int|
                0 <= k < init.len() && 0 <= i < init[k].1.len() implies !is_header_end_seq(
                #[trigger] init[k].1[i],
            ) by {
                assert(init[k] == reqs[k]);
            }
        }
        lemma_pipelined_requests(init);
        let req = reqs.last();
        assert forall|i: int| 0 <= i < req.1.len() implies !is_header_end_seq(#[trigger] req.1[i]) by {
            assert(reqs[reqs.len() - 1] == req);
        }
        lemma_run_concat((false, None), pipelined(init), request_lines(req));
        let a = answered(init);
        if a.0 {
            lemma_closing_reads_nothing(request_lines(req));
            assert(a.1 + Seq::<(Seq<char>, Seq<char>, bool)>::empty() =~= a.1);
        } else {
            lemma_one_request(req);
            assert(a.1 + seq![answer(req)] =~= a.1.push(answer(req)));
        }
    }
}

/// The answers are the first requests, in order, and none follows a
/// request that asks to close.
pub proof fn lemma_no_answer_after_close(reqs: Seq<(Seq<char>, Seq<Seq<char>>)>, i: int)
    requires
        0 <= i < reqs.len(),
        any_close(reqs[i].1),
    ensures
        answered(reqs).1.len() <= i + 1,
        answered(reqs).0,
    decreases reqs.len(),
{
    lemma_answered_prefix(reqs);
    if i < reqs.len() - 1 {
        let init = reqs.drop_last();
        assert(init[i] == reqs[i]);
        lemma_no_answer_after_close(init, i);
    } else {
        lemma_answered_prefix(reqs.drop_last());
    }
}

/// Each answer is the answer to the request at its position.
pub proof fn lemma_answered_prefix(reqs: Seq<(Seq<char>, Seq<Seq<char>>)>)
    ensures
        answered(reqs).1.len() <= reqs.len(),
        forall|j: int| 0 <= j < answered(reqs).1.len() ==> #[trigger] answered(reqs).1[j] == answer(reqs[j]),
        !answered(reqs).0 ==> answered(reqs).1.len() == reqs.len(),
    decreases reqs.len(),
{
    if reqs.len() > 0 {
        let init = reqs.drop_last();
        lemma_answered_prefix(init);
        let a = answered(init);
        assert forall|j: int| 0 <= j < answered(reqs).1.len() implies #[trigger] answered(reqs).1[j] == answer(reqs[j]) by {
            if j < a.1.len() {
                assert(init[j] == reqs[j]);
            }
        }
    }
}

/// `s` without its leading `/` characters.
pub open spec fn trim_slashes(s: Seq<char>) -> Seq<char>
    decreases s.len(),
{
    if s.len() > 0 && s[0] == '/' {
        trim_slashes(s.drop_first())
    } else {
        s
    }
}

/// Whether a relative path holds a `..` component.
pub open spec fn has_parent_dir(rel: Seq<char>) -> bool {
    exists|k: int| 0 <= k < comps(rel).len() && #[trigger] comps(rel)[k].kind == CompKind::Parent
}

/// Where a request goes.
pub enum Route {
    /// The path climbs out of the root.
    Forbidden,
    /// The file (or directory) the path names under the root.
    File(String),
}

/// The target of a request path under `root`: refused when it holds `..`.
pub fn route(root: &str, path: &str) -> (r: Route)
    ensures
        match r {
            Route::Forbidden => has_parent_dir(trim_slashes(path@)),
            Route::File(f) => !has_parent_dir(trim_slashes(path@)) && f@ == join_seq(
                root@,
                trim_slashes(path@),
            ),
        },
{
    let v = chars_of(path);
    let mut i: usize = 0;
    assert(v@.subrange(0, v@.len() as int) =~= v@);
    while i < v.len() && v[i] == '/'
        invariant
            i <= v@.len(),
            v@ == path@,
            trim_slashes(path@) == trim_slashes(v@.subrange(i as int, v@.len() as int)),
        decreases v@.len() - i,
    {
        assert(v@.subrange(i as int, v@.len() as int).drop_first() =~= v@.subrange(
            i + 1,
            v@.len() as int,
        ));
        i = i + 1;
    }
    let rel = slice_chars(v.as_slice(), i, v.len());
    assert(rel@ == trim_slashes(path@));
    let cs = components(rel.as_slice());
    let mut k: usize = 0;
    while k < cs.len()
        invariant
            k <= cs@.len(),
            cs@ == comps(rel@),
            rel@ == trim_slashes(path@),
            forall|m: int| 0 <= m < k ==> cs@[m].kind != CompKind::Parent,
        decreases cs@.len() - k,
    {
        if cs[k].kind == CompKind::Parent {
            return Route::Forbidden;
        }
        k = k + 1;
    }
    let rel_s = string_of(rel.as_slice());
    Route::File(join_path(root, rel_s.as_str()))
}

/// The file answering a request for a directory.
pub fn index_file(dir: &str) -> (r: String)
    ensures
        r@ == join_seq(dir@, "index.html"@),
{
    join_path(dir, "index.html")
}

/// The content type for a file extension.
pub open spec fn mime_of_ext(ext: Seq<char>) -> Seq<char> {
    if ext == "html"@ || ext == "htm"@ {
        "text/html; charset=utf-8"@
    } else if ext == "css"@ {
        "text/css"@
    } else if ext == "js"@ {
        "application/javascript"@
    } else if ext == "json"@ {
        "application/json"@
    } else if ext == "md"@ || ext == "txt"@ {
        "text/plain; charset=utf-8"@
    } else if ext == "png"@ {
        "image/png"@
    } else if ext == "jpg"@ || ext == "jpeg"@ {
        "image/jpeg"@
    } else if ext == "gif"@ {
        "image/gif"@
    } else if ext == "svg"@ {
        "image/svg+xml"@
    } else if ext == "ico"@ {
        "image/x-icon"@
    } else if ext == "pdf"@ {
        "application/pdf"@
    } else if ext == "wasm"@ {
        "application/wasm"@
    } else {
        "application/octet-stream"@
    }
}

/// The content type for a path, by its extension (none counts as empty).
pub open spec fn mime_seq(path: Seq<char>) -> Seq<char> {
    let ext = match file_name_seq(path) {
        Some(n) => match extension_seq(n) {
            Some(e) => e,
            None => Seq::empty(),
        },
        None => Seq::empty(),
    };
    mime_of_ext(ext)
}

fn is_lit(v: &[char], lit: &str) -> (b: bool)
    ensures
        b == (v@ == lit@),
{
    let l = chars_of(lit);
    chars_eq(v, l.as_slice())
}

/// The content type for a path, by its extension.
pub fn mime(path: &str) -> (m: &'static str)
    ensures
        m@ == mime_seq(path@),
{
    let v = chars_of(path);
    let ext: Vec<char> = match file_name(v.as_slice()) {
        Some(n) => match extension(n.as_slice()) {
            Some(e) => e,
            None => Vec::new(),
        },
        None => Vec::new(),
    };
    let e = ext.as_slice();
    if is_lit(e, "html") || is_lit(e, "htm") {
        "text/html; charset=utf-8"
    } else if is_lit(e, "css") {
        "text/css"
    } else if is_lit(e, "js") {
        "application/javascript"
    } else if is_lit(e, "json") {
        "application/json"
    } else if is_lit(e, "md") || is_lit(e, "txt") {
        "text/plain; charset=utf-8"
    } else if is_lit(e, "png") {
        "image/png"
    } else if is_lit(e, "jpg") || is_lit(e, "jpeg") {
        "image/jpeg"
    } else if is_lit(e, "gif") {
        "image/gif"
    } else if is_lit(e, "svg") {
        "image/svg+xml"
    } else if is_lit(e, "ico") {
        "image/x-icon"
    } else if is_lit(e, "pdf") {
        "application/pdf"
    } else if is_lit(e, "wasm") {
        "application/wasm"
    } else {
        "application/octet-stream"
    }
}

/// The content type sent for a file, by the extension of its name: the
/// fixed table of known types, `application/octet-stream` for anything else.
pub proof fn lemma_mime_table(path: Seq<char>, name: Seq<char>, ext: Seq<char>)
    requires
        file_name_seq(path) == Some(name),
        extension_seq(name) == Some(ext),
    ensures
        ext == "html"@ ==> mime_seq(path) == "text/html; charset=utf-8"@,
        ext == "htm"@ ==> mime_seq(path) == "text/html; charset=utf-8"@,
        ext == "css"@ ==> mime_seq(path) == "text/css"@,
        ext == "js"@ ==> mime_seq(path) == "application/javascript"@,
        ext == "json"@ ==> mime_seq(path) == "application/json"@,
        ext == "md"@ ==> mime_seq(path) == "text/plain; charset=utf-8"@,
        ext == "txt"@ ==> mime_seq(path) == "text/plain; charset=utf-8"@,
        ext == "png"@ ==> mime_seq(path) == "image/png"@,
        ext == "jpg"@ ==> mime_seq(path) == "image/jpeg"@,
        ext == "jpeg"@ ==> mime_seq(path) == "image/jpeg"@,
        ext == "gif"@ ==> mime_seq(path) == "image/gif"@,
        ext == "svg"@ ==> mime_seq(path) == "image/svg+xml"@,
        ext == "ico"@ ==> mime_seq(path) == "image/x-icon"@,
        ext == "pdf"@ ==> mime_seq(path) == "application/pdf"@,
        ext == "wasm"@ ==> mime_seq(path) == "application/wasm"@,
        ext == "exe"@ ==> mime_seq(path) == "application/octet-stream"@,
{
    reveal_strlit("html");
    reveal_strlit("htm");
    reveal_strlit("css");
    reveal_strlit("js");
    reveal_strlit("json");
    reveal_strlit("md");
    reveal_strlit("txt");
    reveal_strlit("png");
    reveal_strlit("jpg");
    reveal_strlit("jpeg");
    reveal_strlit("gif");
    reveal_strlit("svg");
    reveal_strlit("ico");
    reveal_strlit("pdf");
    reveal_strlit("wasm");
    reveal_strlit("exe");
    if ext == "html"@ {
        assert(ext.len() == 4 && ext[0] == 'h' && ext[1] == 't' && ext[2] == 'm' && ext[3] == 'l');
    }
    if ext == "htm"@ {
        assert(ext.len() == 3 && ext[0] == 'h' && ext[1] == 't' && ext[2] == 'm');
    }
    if ext == "css"@ {
        assert(ext.len() == 3 && ext[0] == 'c' && ext[1] == 's' && ext[2] == 's');
    }
    if ext == "js"@ {
        assert(ext.len() == 2 && ext[0] == 'j' && ext[1] == 's');
    }
    if ext == "json"@ {
        assert(ext.len() == 4 && ext[0] == 'j' && ext[1] == 's' && ext[2] == 'o' && ext[3] == 'n');
    }
    if ext == "md"@ {
        assert(ext.len() == 2 && ext[0] == 'm' && ext[1] == 'd');
    }
    if ext == "txt"@ {
        assert(ext.len() == 3 && ext[0] == 't' && ext[1] == 'x' && ext[2] == 't');
    }
    if ext == "png"@ {
        assert(ext.len() == 3 && ext[0] == 'p' && ext[1] == 'n' && ext[2] == 'g');
    }
    if ext == "jpg"@ {
        assert(ext.len() == 3 && ext[0] == 'j' && ext[1] == 'p' && ext[2] == 'g');
    }
    if ext == "jpeg"@ {
        assert(ext.len() == 4 && ext[0] == 'j' && ext[1] == 'p' && ext[2] == 'e' && ext[3] == 'g');
    }
    if ext == "gif"@ {
        assert(ext.len() == 3 && ext[0] == 'g' && ext[1] == 'i' && ext[2] == 'f');
    }
    if ext == "svg"@ {
        assert(ext.len() == 3 && ext[0] == 's' && ext[1] == 'v' && ext[2] == 'g');
    }
    if ext == "ico"@ {
        assert(ext.len() == 3 && ext[0] == 'i' && ext[1] == 'c' && ext[2] == 'o');
    }
    if ext == "pdf"@ {
        assert(ext.len() == 3 && ext[0] == 'p' && ext[1] == 'd' && ext[2] == 'f');
    }
    if ext == "wasm"@ {
        assert(ext.len() == 4 && ext[0] == 'w' && ext[1] == 'a' && ext[2] == 's' && ext[3] == 'm');
    }
    if ext == "exe"@ {
        assert(ext.len() == 3 && ext[0] == 'e' && ext[1] == 'x' && ext[2] == 'e');
    }
    assert(mime_seq(path) == mime_of_ext(ext));
}

/// A file whose name has no extension is sent as
/// `application/octet-stream`.
pub proof fn lemma_mime_no_extension(path: Seq<char>, name: Seq<char>)
    requires
        file_name_seq(path) == Some(name),
        extension_seq(name) is None,
    ensures
        mime_seq(path) == "application/octet-stream"@,
{
    reveal_strlit("html");
    assert("html"@.len() == 4);
    reveal_strlit("htm");
    assert("htm"@.len() == 3);
    reveal_strlit("css");
    assert("css"@.len() == 3);
    reveal_strlit("js");
    assert("js"@.len() == 2);
    reveal_strlit("json");
    assert("json"@.len() == 4);
    reveal_strlit("md");
    assert("md"@.len() == 2);
    reveal_strlit("txt");
    assert("txt"@.len() == 3);
    reveal_strlit("png");
    assert("png"@.len() == 3);
    reveal_strlit("jpg");
    assert("jpg"@.len() == 3);
    reveal_strlit("jpeg");
    assert("jpeg"@.len() == 4);
    reveal_strlit("gif");
    assert("gif"@.len() == 3);
    reveal_strlit("svg");
    assert("svg"@.len() == 3);
    reveal_strlit("ico");
    assert("ico"@.len() == 3);
    reveal_strlit("pdf");
    assert("pdf"@.len() == 3);
    reveal_strlit("wasm");
    assert("wasm"@.len() == 4);
    assert(mime_seq(path) == mime_of_ext(Seq::empty()));
}

/// The reason phrase sent with a status.
pub open spec fn reason_seq(status: u16) -> Seq<char> {
    if status == 200 {
        "OK"@
    } else if status == 403 {
        "Forbidden"@
    } else {
        "Not Found"@
    }
}

/// The response head: status line and headers, then a blank line.
pub open spec fn response_head(status: u16, ctype: Seq<char>, len: nat, keep_alive: bool) -> Seq<
    char,
> {
    "HTTP/1.1 "@ + dec_seq(status as nat) + " "@ + reason_seq(status) + "\r\nContent-Type: "@
        + ctype + "\r\nContent-Length: "@ + dec_seq(len) + "\r\nCache-Control: "@ + (
    if starts_with_seq(ctype, "text/html"@) {
        "no-cache"@
    } else {
        "max-age=60"@
    }) + "\r\nConnection: "@ + (if keep_alive {
        "keep-alive"@
    } else {
        "close"@
    }) + "\r\n\r\n"@
}

/// The bytes sent for a response: the head, then the body unless the
/// method is `HEAD`.
pub open spec fn response_seq(
    method: Seq<char>,
    status: u16,
    ctype: Seq<char>,
    body: Seq<u8>,
    keep_alive: bool,
) -> Seq<u8> {
    encode_utf8(response_head(status, ctype, body.len(), keep_alive)) + if method != "HEAD"@ {
        body
    } else {
        Seq::empty()
    }
}

/// The bytes of a response, written with a single write.
pub fn response_bytes(method: &str, status: u16, ctype: &str, body: &[u8], keep_alive: bool) -> (r:
    Vec<u8>)
    ensures
        r@ == response_seq(method@, status, ctype@, body@, keep_alive),
{
    let mut head = owned("HTTP/1.1 ");
    let st = u64_to_string(status as u64);
    head.append(st.as_str());
    head.append(" ");
    if status == 200 {
        head.append("OK");
    } else if status == 403 {
        head.append("Forbidden");
    } else {
        head.append("Not Found");
    }
    head.append("\r\nContent-Type: ");
    head.append(ctype);
    head.append("\r\nContent-Length: ");
    let n = usize_to_string(body.len());
    head.append(n.as_str());
    head.append("\r\nCache-Control: ");
    if starts_with(ctype, "text/html") {
        head.append("no-cache");
    } else {
        head.append("max-age=60");
    }
    head.append("\r\nConnection: ");
    if keep_alive {
        head.append("keep-alive");
    } else {
        head.append("close");
    }
    head.append("\r\n\r\n");
    assert(head@ == response_head(status, ctype@, body@.len(), keep_alive));
    let hb = head.as_str().as_bytes();
    let mut out: Vec<u8> = Vec::new();
    let mut i: usize = 0;
    while i < hb.len()
        invariant
            i <= hb@.len(),
            out@ == hb@.subrange(0, i as int),
        decreases hb@.len() - i,
    {
        out.push(hb[i]);
        i = i + 1;
        assert(out@ =~= hb@.subrange(0, i as int));
    }
    assert(hb@.subrange(0, hb@.len() as int) =~= hb@);
    let is_head = owned(method) == owned("HEAD");
    if !is_head {
        let ghost h = out@;
        let mut k: usize = 0;
        while k < body.len()
            invariant
                k <= body@.len(),
                out@ == h + body@.subrange(0, k as int),
            decreases body@.len() - k,
        {
            out.push(body[k]);
            k = k + 1;
            assert(out@ =~= h + body@.subrange(0, k as int));
        }
        assert(body@.subrange(0, body@.len() as int) =~= body@);
    }
    assert(out@ =~= response_seq(method@, status, ctype@, body@, keep_alive));
    out
}

/// The bytes of a text in UTF-8.
fn bytes_of(s: &str) -> (b: Vec<u8>)
    ensures
        b@ == encode_utf8(s@),
{
    let sb = s.as_bytes();
    let mut out: Vec<u8> = Vec::new();
    let mut i: usize = 0;
    while i < sb.len()
        invariant
            i <= sb@.len(),
            sb@ == encode_utf8(s@),
            out@ == sb@.subrange(0, i as int),
        decreases sb@.len() - i,
    {
        out.push(sb[i]);
        i = i + 1;
        assert(out@ =~= sb@.subrange(0, i as int));
    }
    assert(sb@.subrange(0, sb@.len() as int) =~= sb@);
    out
}

/// The file read for a routed path: the path itself, or its
/// `index.html` when it is a directory.
pub fn target_file(routed: &str, is_dir: bool) -> (f: String)
    ensures
        f@ == if is_dir {
            join_seq(routed@, "index.html"@)
        } else {
            routed@
        },
{
    if is_dir {
        index_file(routed)
    } else {
        owned(routed)
    }
}

/// The response to a request: 403 `Forbidden` for a path that climbs out
/// of the root; otherwise the file's bytes with the content type of its
/// extension when it could be read, else 404 `404 Not Found`. Returns the
/// status, the content type and the body.
pub fn choose_response(route: &Route, file: &str, read: Option<Vec<u8>>) -> (r: (u16, String, Vec<u8>))
    ensures
        route is Forbidden ==> r.0 == 403 && r.1@ == "text/plain"@ && r.2@ == encode_utf8("Forbidden"@),
        route is File && read is Some ==> r.0 == 200 && r.1@ == mime_seq(file@) && r.2@ == read->0@,
        route is File && read is None ==> r.0 == 404 && r.1@ == "text/plain"@ && r.2@ == encode_utf8(
            "404 Not Found"@,
        ),
{
    match route {
        Route::Forbidden => (403, owned("text/plain"), bytes_of("Forbidden")),
        Route::File(_) => match read {
            Some(body) => (200, owned(mime(file)), body),
            None => (404, owned("text/plain"), bytes_of("404 Not Found")),
        },
    }
}

/// How a status is coloured in the request log.
#[derive(PartialEq, Eq, Structural, Clone, Copy, Debug)]
pub enum StatusColor {
    Green,
    Yellow,
    Red,
}

/// The file server's log colour: 200 green, 403 red, the rest yellow.
pub fn server_status_color(status: u16) -> (c: StatusColor)
    ensures
        c == (if status == 200 {
            StatusColor::Green
        } else if status == 403 {
            StatusColor::Red
        } else {
            StatusColor::Yellow
        }),
{
    if status == 200 {
        StatusColor::Green
    } else if status == 403 {
        StatusColor::Red
    } else {
        StatusColor::Yellow
    }
}

/// Whether the per-connection debug log is on.
#[derive(Clone, Copy)]
pub struct Diagnostics {
    pub enabled: bool,
}

/// Numbers connections in the order they are accepted, from 1.
pub struct ConnectionCounter {
    pub next: u64,
}

impl ConnectionCounter {
    /// A counter whose first number is 1.
    pub fn new() -> (c: Self)
        ensures
            c.next == 1,
    {
        ConnectionCounter { next: 1 }
    }
}

/// The counter after one number is handed out (wrapping like
/// `AtomicU64::fetch_add`).
pub open spec fn next_count(n: u64) -> u64 {
    if n == u64::MAX {
        0
    } else {
        (n + 1) as u64
    }
}

/// The counter after `k` numbers are handed out.
pub open spec fn count_after(n: u64, k: nat) -> u64
    decreases k,
{
    if k == 0 {
        n
    } else {
        next_count(count_after(n, (k - 1) as nat))
    }
}

/// Connection numbers handed out one after another from a counter at `n`
/// are `n`, `n + 1`, ... as long as they stay below the wrap at
/// `u64::MAX`: each call's number is larger than every earlier one, so no
/// two calls get the same number. A new counter starts at 1.
pub proof fn lemma_connection_ids_increase(n: u64, k: nat)
    requires
        n + k <= u64::MAX + 1,
    ensures
        forall|i: nat| i < k ==> #[trigger] count_after(n, i) == n + i,
        forall|i: nat, j: nat| i < j < k ==> #[trigger] count_after(n, i) < #[trigger] count_after(n, j),
    decreases k,
{
    if k > 0 {
        lemma_connection_ids_increase(n, (k - 1) as nat);
        assert forall|i: nat| i < k implies #[trigger] count_after(n, i) == n + i by {
            if i == k - 1 && i > 0 {
                assert(count_after(n, (i - 1) as nat) == n + i - 1);
            }
        }
    }
}

impl Diagnostics {
    /// The next connection number from the counter the server keeps
    /// (wrapping like `AtomicU64::fetch_add`).
    pub fn next_connection_id(self, counter: &mut ConnectionCounter) -> (id: u64)
        ensures
            id == old(counter).next,
            final(counter).next == next_count(old(counter).next),
    {
        let id = counter.next;
        counter.next = if counter.next == u64::MAX {
            0
        } else {
            counter.next + 1
        };
        id
    }
}

impl Diagnostics {
    /// The text of a debug line after the word `debug`, or nothing when
    /// the log is off.
    pub fn log(self, connection_id: u64, request_id: u64, message: &str) -> (r: Option<String>)
        ensures
            !self.enabled ==> r is None,
            self.enabled ==> (r matches Some(s) && s@ == " conn="@ + dec_seq(connection_id as nat)
                + " req="@ + dec_seq(request_id as nat) + " "@ + message@ + "\r\n"@),
    {
        if !self.enabled {
            return None;
        }
        let mut s = owned(" conn=");
        let c = u64_to_string(connection_id);
        s.append(c.as_str());
        s.append(" req=");
        let q = u64_to_string(request_id);
        s.append(q.as_str());
        s.append(" ");
        s.append(message);
        s.append("\r\n");
        Some(s)
    }
}

} // verus!
