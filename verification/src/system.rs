//! The machine facts shown by the scanner, and where its reports are
//! saved.

use vstd::prelude::*;
use vstd::string::StringExecFns;
use crate::paths::{join_path, join_seq};
use crate::payload::KeyValue;
use crate::report::ReportContext;
use crate::scan::{APPEND_TIMESTAMP_SUFFIX, OUTPUT_BASENAME, OUTPUT_EXT, SAVE_OUTPUT};
use crate::size::{human_size, human_size_seq};
use crate::text::{dec_seq, owned, parse_unsigned, parse_unsigned_seq, trim, trim_seq, u64_to_string};

verus! {

broadcast use vstd::string::group_string_axioms;

/// What a command printed, trimmed, or `—` when it failed or printed
/// nothing but white space.
pub open spec fn command_text_seq(stdout: Option<Seq<char>>) -> Seq<char> {
    match stdout {
        Some(s) => if trim_seq(s).len() > 0 {
            trim_seq(s)
        } else {
            "—"@
        },
        None => "—"@,
    }
}

/// The text shown for a command's output: trimmed, `—` when the command
/// failed or printed nothing.
pub fn command_text(stdout: Option<&str>) -> (r: String)
    ensures
        r@ == command_text_seq(
            match stdout {
                Some(s) => Some(s@),
                None => None,
            },
        ),
{
    match stdout {
        Some(s) => {
            let t = trim(s);
            if t.unicode_len() > 0 {
                t
            } else {
                owned("—")
            }
        },
        None => owned("—"),
    }
}

/// An environment variable's value, or the fallback when it is unset.
pub fn env_or(value: Option<&str>, fallback: &str) -> (r: String)
    ensures
        r@ == match value {
            Some(v) => v@,
            None => fallback@,
        },
{
    match value {
        Some(v) => owned(v),
        None => owned(fallback),
    }
}

/// The memory size shown: the byte count a command printed, in human
/// units, or `—` when it is not a number.
pub open spec fn memory_text_seq(stdout: Option<Seq<char>>) -> Seq<char> {
    match parse_unsigned_seq(command_text_seq(stdout), u64::MAX as nat) {
        Some(n) => human_size_seq(n),
        None => "—"@,
    }
}

/// What was read of the machine: each command's output when it succeeded,
/// each environment variable when it is set, and the time of reading.
pub struct SystemProbe {
    pub user: Option<String>,
    pub hostname: Option<String>,
    pub os_name: Option<String>,
    pub os_version: Option<String>,
    pub os_build: Option<String>,
    pub platform_os: String,
    pub platform_arch: String,
    pub lang: Option<String>,
    pub processor: Option<String>,
    pub cores: Option<String>,
    pub memory: Option<String>,
    pub uptime: Option<String>,
    pub date: String,
    pub home: Option<String>,
    pub shell: Option<String>,
    pub term: Option<String>,
    pub rustc: Option<String>,
    pub cargo: Option<String>,
}

pub open spec fn ov(o: Option<String>) -> Option<Seq<char>> {
    match o {
        Some(s) => Some(s@),
        None => None,
    }
}

pub open spec fn or_dash(o: Option<String>) -> Seq<char> {
    match o {
        Some(s) => s@,
        None => "—"@,
    }
}

/// The System Info rows, in order.
pub open spec fn system_rows_seq(p: SystemProbe) -> Seq<(Seq<char>, Seq<char>)> {
    seq![
        ("User"@, command_text_seq(ov(p.user))),
        ("Hostname"@, command_text_seq(ov(p.hostname))),
        ("OS"@, command_text_seq(ov(p.os_name))),
        ("OS Version"@, command_text_seq(ov(p.os_version))),
        ("Build"@, command_text_seq(ov(p.os_build))),
        ("Platform"@, p.platform_os@ + " "@ + p.platform_arch@),
        ("User Lang"@, or_dash(p.lang)),
        ("Processor"@, command_text_seq(ov(p.processor))),
        ("Cores"@, command_text_seq(ov(p.cores))),
        ("Memory"@, memory_text_seq(ov(p.memory))),
        ("Uptime"@, command_text_seq(ov(p.uptime))),
        ("Date"@, p.date@),
        ("Home"@, or_dash(p.home)),
        ("Shell"@, or_dash(p.shell)),
        ("Term"@, or_dash(p.term)),
        ("Rust"@, command_text_seq(ov(p.rustc))),
        ("Cargo"@, command_text_seq(ov(p.cargo))),
    ]
}

pub open spec fn pair_views(v: Seq<(String, String)>) -> Seq<(Seq<char>, Seq<char>)> {
    v.map_values(|p: (String, String)| (p.0@, p.1@))
}

fn opt_str(o: &Option<String>) -> (r: Option<&str>)
    ensures
        match r {
            Some(s) => ov(*o) == Some(s@),
            None => ov(*o) is None,
        },
{
    match o {
        Some(s) => Some(s.as_str()),
        None => None,
    }
}

fn memory_text(stdout: Option<&str>) -> (r: String)
    ensures
        r@ == memory_text_seq(
            match stdout {
                Some(s) => Some(s@),
                None => None,
            },
        ),
{
    let t = command_text(stdout);
    match parse_unsigned(t.as_str(), u64::MAX) {
        Some(n) => human_size(n),
        None => owned("—"),
    }
}

fn row(key: &str, value: String) -> (r: (String, String))
    ensures
        r.0@ == key@,
        r.1@ == value@,
{
    (owned(key), value)
}

/// The System Info rows: each command's trimmed output (`—` when it
/// failed), the memory in human units, each variable (`—` when unset).
pub fn system_rows(p: &SystemProbe) -> (rows: Vec<(String, String)>)
    ensures
        pair_views(rows@) == system_rows_seq(*p),
{
    let user = command_text(opt_str(&p.user));
    let hostname = command_text(opt_str(&p.hostname));
    let os = command_text(opt_str(&p.os_name));
    let os_version = command_text(opt_str(&p.os_version));
    let build = command_text(opt_str(&p.os_build));
    let mut platform = p.platform_os.clone();
    platform.append(" ");
    platform.append(p.platform_arch.as_str());
    let lang = env_or(opt_str(&p.lang), "—");
    let processor = command_text(opt_str(&p.processor));
    let cores = command_text(opt_str(&p.cores));
    let memory = memory_text(opt_str(&p.memory));
    let uptime = command_text(opt_str(&p.uptime));
    let date = p.date.clone();
    let home = env_or(opt_str(&p.home), "—");
    let shell = env_or(opt_str(&p.shell), "—");
    let term = env_or(opt_str(&p.term), "—");
    let rust = command_text(opt_str(&p.rustc));
    let cargo = command_text(opt_str(&p.cargo));
    let rows = vec![
        row("User", user),
        row("Hostname", hostname),
        row("OS", os),
        row("OS Version", os_version),
        row("Build", build),
        row("Platform", platform),
        row("User Lang", lang),
        row("Processor", processor),
        row("Cores", cores),
        row("Memory", memory),
        row("Uptime", uptime),
        row("Date", date),
        row("Home", home),
        row("Shell", shell),
        row("Term", term),
        row("Rust", rust),
        row("Cargo", cargo),
    ];
    proof {
        let want = system_rows_seq(*p);
        assert(pair_views(rows@).len() == want.len());
        assert forall|k: int| 0 <= k < want.len() implies pair_views(rows@)[k] == want[k] by {
            assert(pair_views(rows@)[k] == (rows@[k].0@, rows@[k].1@));
        }
        assert(pair_views(rows@) =~= want);
    }
    rows
}

/// The System Info rows as key/value pairs for the web page.
pub fn system_info(p: &SystemProbe) -> (info: Vec<KeyValue>)
    ensures
        info@.len() == system_rows_seq(*p).len(),
        forall|i: int|
            0 <= i < info@.len() ==> (#[trigger] info@[i]).key@ == system_rows_seq(*p)[i].0
                && info@[i].value@ == system_rows_seq(*p)[i].1,
{
    let rows = system_rows(p);
    let mut info: Vec<KeyValue> = Vec::new();
    let mut i: usize = 0;
    while i < rows.len()
        invariant
            i <= rows@.len(),
            pair_views(rows@) == system_rows_seq(*p),
            info@.len() == i,
            forall|k: int|
                0 <= k < i ==> (#[trigger] info@[k]).key@ == system_rows_seq(*p)[k].0
                    && info@[k].value@ == system_rows_seq(*p)[k].1,
        decreases rows@.len() - i,
    {
        assert(pair_views(rows@)[i as int] == (rows@[i as int].0@, rows@[i as int].1@));
        info.push(KeyValue { key: rows[i].0.clone(), value: rows[i].1.clone() });
        i = i + 1;
    }
    info
}

/// The folder reports are saved in: `Developer/macos-reset` in the home
/// folder.
pub fn output_dir(home: &str) -> (d: String)
    ensures
        d@ == join_seq(join_seq(home@, "Developer"@), "macos-reset"@),
{
    let a = join_path(home, "Developer");
    join_path(a.as_str(), "macos-reset")
}

/// A local date and time, to the minute.
pub struct Stamp {
    pub year: i32,
    pub month: u32,
    pub day: u32,
    pub hour: u32,
    pub minute: u32,
}

/// Whether a year is a leap year (proleptic Gregorian calendar).
pub open spec fn is_leap(y: int) -> bool {
    y % 4 == 0 && (y % 100 != 0 || y % 400 == 0)
}

pub open spec fn days_in_month(y: int, m: int) -> int {
    if m == 2 {
        if is_leap(y) {
            29
        } else {
            28
        }
    } else if m == 4 || m == 6 || m == 9 || m == 11 {
        30
    } else {
        31
    }
}

/// A date and time that exists, within the years `chrono` represents.
pub open spec fn stamp_valid(s: Stamp) -> bool {
    &&& -262143 <= s.year <= 262142
    &&& 1 <= s.month <= 12
    &&& 1 <= s.day <= days_in_month(s.year as int, s.month as int)
    &&& s.hour < 24
    &&& s.minute < 60
}

/// Two digits, zero first when below ten.
pub open spec fn two_digits(n: nat) -> Seq<char> {
    if n < 10 {
        seq!['0'] + dec_seq(n)
    } else {
        dec_seq(n)
    }
}

/// The hour on a twelve-hour clock (12 for midnight and noon).
pub open spec fn hour12(h: nat) -> nat {
    if h % 12 == 0 {
        12
    } else {
        h % 12
    }
}

/// `format("%y.%-m.%-d_%-I.%M%P")`: the year's last two digits, month,
/// day, twelve-hour clock hour, two-digit minute and `am`/`pm`.
pub open spec fn stamp_text(s: Stamp) -> Seq<char> {
    two_digits((s.year as int % 100) as nat) + seq!['.'] + dec_seq(s.month as nat) + seq!['.']
        + dec_seq(s.day as nat) + seq!['_'] + dec_seq(hour12(s.hour as nat)) + seq!['.'] + two_digits(
        s.minute as nat,
    ) + if s.hour < 12 {
        seq!['a', 'm']
    } else {
        seq!['p', 'm']
    }
}

/// `NaiveDate::from_ymd_opt(..).and_hms_opt(..)` then
/// `format("%y.%-m.%-d_%-I.%M%P").to_string()` from `chrono`. The contract
/// states what chrono's strftime documentation gives for these
/// specifiers: `%y` the year modulo 100 on two digits, `%-m`, `%-d` and
/// `%-I` without padding, `%M` on two digits, `%P` `am` or `pm`. The date
/// must exist, so that neither constructor returns `None`.
#[verifier::external_body]
fn format_stamp(s: &Stamp) -> (r: String)
    requires
        stamp_valid(*s),
    ensures
        r@ == stamp_text(*s),
{
    let d = chrono::NaiveDate::from_ymd_opt(s.year, s.month, s.day).unwrap();
    d.and_hms_opt(s.hour, s.minute, 0).unwrap().format("%y.%-m.%-d_%-I.%M%P").to_string()
}

/// The file name of a report.
pub open spec fn report_file_name(now: Stamp) -> Seq<char> {
    OUTPUT_BASENAME@ + (if APPEND_TIMESTAMP_SUFFIX {
        seq!['-'] + stamp_text(now)
    } else {
        Seq::empty()
    }) + OUTPUT_EXT@
}

/// Where a report written at `now` is saved.
pub fn make_output_path(home: &str, now: &Stamp) -> (p: String)
    requires
        stamp_valid(*now),
    ensures
        p@ == join_seq(join_seq(join_seq(home@, "Developer"@), "macos-reset"@), report_file_name(*now)),
{
    let mut name = owned(OUTPUT_BASENAME);
    if APPEND_TIMESTAMP_SUFFIX {
        name.append("-");
        let t = format_stamp(now);
        name.append(t.as_str());
        proof {
            reveal_strlit("-");
        }
    }
    name.append(OUTPUT_EXT);
    assert(name@ =~= report_file_name(*now));
    let dir = output_dir(home);
    join_path(dir.as_str(), name.as_str())
}

/// What a report says besides the scan: the machine facts, where reports
/// go, the file this one is written to, and when it was made.
pub fn report_context(
    system_rows: Vec<(String, String)>,
    home: &str,
    now: &Stamp,
    generated: String,
) -> (ctx: ReportContext)
    requires
        stamp_valid(*now),
    ensures
        ctx.system_rows@ == system_rows@,
        ctx.output_dir@ == join_seq(join_seq(home@, "Developer"@), "macos-reset"@),
        SAVE_OUTPUT ==> (ctx.output_file matches Some(f) && f@ == join_seq(
            join_seq(join_seq(home@, "Developer"@), "macos-reset"@),
            report_file_name(*now),
        )),
        !SAVE_OUTPUT ==> ctx.output_file is None,
        ctx.generated@ == generated@,
{
    let output_file = if SAVE_OUTPUT {
        Some(make_output_path(home, now))
    } else {
        None
    };
    ReportContext { system_rows, output_dir: output_dir(home), output_file, generated }
}

} // verus!
