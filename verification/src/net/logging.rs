//! One log file per run, so a test on real hardware can be handed over whole.
//!
//! One file per run rather than one rolling file, because the question is
//! always "what happened that time", and a run is the unit a person can point
//! at.
//!
//! What a log contains, so that handing one over is an informed act: the
//! command line, this machine's OS and architecture, the exe's path, and then
//! the run itself - display names, Wi-Fi Direct device names, and the IP
//! addresses of the peer-to-peer link. It does not contain pairing PINs, the
//! identity key, or anything about paired peers; none of those are logged
//! anywhere, at any level.
//!
//! Here is what decides *what* to write, keep and delete; the disk is touched
//! elsewhere.
use vstd::prelude::*;
use crate::net::calendar::{
    civil_from_days, day_number, is_date, law_a_day_has_one_date, lemma_date, lemma_since_1970,
};
use crate::number::{dec, push_dec_wide, space_fill, space_filled, zero_fill};
use crate::text::{
    comes_before, ends_with, find_char, find_from, has_prefix, has_suffix, less, push_chars,
    push_str, starts_with, to_chars, to_string,
};

verus! {

/// How many runs to keep. Enough to cover a testing session and still find the
/// one that mattered; the alternative is a directory that grows for ever on a
/// Pi's SD card. Note that short runs count too - twenty `--help`s will age out
/// a cast worth reading, so a log worth keeping is worth copying out.
pub const KEEP: usize = 30;

/// The directory that logs live in: one for both binaries, since a machine only
/// ever runs one of them and a single folder is easier to describe to someone
/// who has to find it.
pub const LOG_DIR: &'static str = "logs";

/// Where logs live below a directory. A slash goes between, unless one is there
/// or there is nothing before it.
pub open spec fn dir_text(config_dir: Seq<char>) -> Seq<char> {
    if config_dir.len() == 0 || config_dir.last() == '/' {
        config_dir + LOG_DIR@
    } else {
        config_dir + "/"@ + LOG_DIR@
    }
}

/// Where logs live.
pub fn dir(config_dir: &str) -> (r: String)
    ensures
        r@ == dir_text(config_dir@),
{
    let mut v = to_chars(config_dir);
    let n: usize = v.len();
    if n > 0 && v[n - 1] != '/' {
        push_str(&mut v, "/");
    }
    push_str(&mut v, LOG_DIR);
    assert(v@ =~= dir_text(config_dir@));
    to_string(&v)
}

// ---- moments ----

/// A moment in UTC.
pub struct Moment {
    pub y: int,
    pub mo: int,
    pub d: int,
    pub h: int,
    pub mi: int,
    pub s: int,
}

/// Whether these are the parts of a moment, in seconds since the epoch.
pub open spec fn is_moment(secs: u64, t: Moment) -> bool {
    &&& is_date(t.y, t.mo, t.d)
    &&& day_number(t.y, t.mo, t.d) == secs / 86_400
    &&& t.h == secs % 86_400 / 3600
    &&& t.mi == secs % 86_400 % 3600 / 60
    &&& t.s == secs % 86_400 % 60
}

/// The parts of a moment: there is one set of them.
pub open spec fn moment(secs: u64) -> Moment {
    choose|t: Moment| is_moment(secs, t)
}

/// The parts that are handed out: years are cut to what an `i32` holds.
pub open spec fn parts_of(t: Moment) -> (i32, u32, u32, u32, u32, u32) {
    (t.y as i32, t.mo as u32, t.d as u32, t.h as u32, t.mi as u32, t.s as u32)
}

pub proof fn lemma_one_moment(secs: u64, t: Moment)
    requires
        is_moment(secs, t),
    ensures
        moment(secs) == t,
        is_moment(secs, moment(secs)),
{
    let u = moment(secs);
    assert(is_moment(secs, u));
    law_a_day_has_one_date((t.y, t.mo, t.d), (u.y, u.mo, u.d));
}

/// Every moment has its parts.
pub proof fn lemma_moment(secs: u64)
    ensures
        is_moment(secs, moment(secs)),
        moment(secs).y >= 1970,
{
    let (y, mo, d) = lemma_date((secs / 86_400) as int);
    let t = Moment {
        y,
        mo,
        d,
        h: (secs % 86_400 / 3600) as int,
        mi: (secs % 86_400 % 3600 / 60) as int,
        s: (secs % 86_400 % 60) as int,
    };
    lemma_one_moment(secs, t);
    lemma_since_1970(y, mo, d);
}

/// Year, month, day, hour, minute, second in UTC.
pub fn parts(secs: u64) -> (r: (i32, u32, u32, u32, u32, u32))
    ensures
        is_moment(secs, moment(secs)),
        r == parts_of(moment(secs)),
{
    let (y, m, d) = civil_from_days(secs / 86_400);
    let rem: u64 = secs % 86_400;
    let h: u64 = rem / 3600;
    let mi: u64 = rem % 3600 / 60;
    let s: u64 = rem % 60;
    proof {
        let t = Moment {
            y: y as int,
            mo: m as int,
            d: d as int,
            h: h as int,
            mi: mi as int,
            s: s as int,
        };
        lemma_one_moment(secs, t);
    }
    (y as i32, m, d, h as u32, mi as u32, s as u32)
}

/// A year in four places, a sign among them if need be.
pub open spec fn year_text(y: i32) -> Seq<char> {
    if y >= 0 {
        zero_fill(dec(y as nat), 4)
    } else {
        "-"@ + zero_fill(dec((-y) as nat), 3)
    }
}

pub open spec fn two(n: u32) -> Seq<char> {
    zero_fill(dec(n as nat), 2)
}

pub open spec fn timestamp_text(p: (i32, u32, u32, u32, u32, u32)) -> Seq<char> {
    year_text(p.0) + "-"@ + two(p.1) + "-"@ + two(p.2) + " "@ + two(p.3) + ":"@ + two(p.4) + ":"@
        + two(p.5) + "Z"@
}

pub open spec fn file_stamp_text(p: (i32, u32, u32, u32, u32, u32)) -> Seq<char> {
    year_text(p.0) + two(p.1) + two(p.2) + "-"@ + two(p.3) + two(p.4) + two(p.5)
}

fn push_year(out: &mut Vec<char>, y: i32)
    ensures
        final(out)@ == old(out)@ + year_text(y),
{
    if y >= 0 {
        push_dec_wide(out, y as u64, 4);
    } else {
        push_str(out, "-");
        push_dec_wide(out, (-(y as i64)) as u64, 3);
        assert(out@ =~= old(out)@ + year_text(y));
    }
}

fn push_two(out: &mut Vec<char>, n: u32)
    ensures
        final(out)@ == old(out)@ + two(n),
{
    push_dec_wide(out, n as u64, 2);
}

/// The header's timestamp: readable, unambiguous, and explicitly UTC so a log
/// from another timezone cannot be misread as local.
pub fn timestamp(secs: u64) -> (s: String)
    ensures
        s@ == timestamp_text(parts_of(moment(secs))),
{
    let (y, mo, d, h, mi, s) = parts(secs);
    let mut v: Vec<char> = Vec::new();
    push_year(&mut v, y);
    push_str(&mut v, "-");
    push_two(&mut v, mo);
    push_str(&mut v, "-");
    push_two(&mut v, d);
    push_str(&mut v, " ");
    push_two(&mut v, h);
    push_str(&mut v, ":");
    push_two(&mut v, mi);
    push_str(&mut v, ":");
    push_two(&mut v, s);
    push_str(&mut v, "Z");
    assert(v@ =~= timestamp_text((y, mo, d, h, mi, s)));
    to_string(&v)
}

fn push_stamp(v: &mut Vec<char>, secs: u64)
    ensures
        final(v)@ == old(v)@ + file_stamp_text(parts_of(moment(secs))),
{
    let (y, mo, d, h, mi, s) = parts(secs);
    push_year(v, y);
    push_two(v, mo);
    push_two(v, d);
    push_str(v, "-");
    push_two(v, h);
    push_two(v, mi);
    push_two(v, s);
    assert(v@ =~= old(v)@ + file_stamp_text((y, mo, d, h, mi, s)));
}

/// The filename's timestamp. Sorts chronologically as text, which is what
/// `prunable` and `newest` rely on instead of asking the filesystem for times.
pub fn file_stamp(secs: u64) -> (s: String)
    ensures
        s@ == file_stamp_text(parts_of(moment(secs))),
{
    let mut v: Vec<char> = Vec::new();
    push_stamp(&mut v, secs);
    assert(v@ =~= file_stamp_text(parts_of(moment(secs))));
    to_string(&v)
}

// ---- names ----

pub open spec fn log_name_text(app: Seq<char>, secs: u64, pid: u32) -> Seq<char> {
    app + "-"@ + file_stamp_text(parts_of(moment(secs))) + "-"@ + zero_fill(dec(pid as nat), 5)
        + ".log"@
}

/// `castr-sender-20260910-140311-04216.log`.
///
/// The pid is in the name because two runs can start inside the same second -
/// a script casting in a loop does exactly that - and a log that overwrote the
/// previous run's would lose the very thing being looked for.
pub fn log_name(app: &str, secs: u64, pid: u32) -> (s: String)
    ensures
        s@ == log_name_text(app@, secs, pid),
{
    let mut v = to_chars(app);
    push_str(&mut v, "-");
    push_stamp(&mut v, secs);
    push_str(&mut v, "-");
    push_dec_wide(&mut v, pid as u64, 5);
    push_str(&mut v, ".log");
    assert(v@ =~= log_name_text(app@, secs, pid));
    to_string(&v)
}

pub open spec fn texts_of(v: Seq<String>) -> Seq<Seq<char>> {
    Seq::new(v.len(), |i: int| v[i]@)
}

/// Whether a name is that of one of the application's logs.
pub open spec fn is_ours(app: Seq<char>, name: Seq<char>) -> bool {
    has_prefix(name, app + "-"@) && has_suffix(name, ".log"@)
}

/// The application's logs among the names from `i` on.
pub open spec fn ours_from(app: Seq<char>, names: Seq<Seq<char>>, i: int) -> Seq<Seq<char>>
    decreases names.len() - i,
{
    if i >= names.len() || i < 0 {
        seq![]
    } else if is_ours(app, names[i]) {
        seq![names[i]] + ours_from(app, names, i + 1)
    } else {
        ours_from(app, names, i + 1)
    }
}

/// The first place from `i` on that holds a text after `x`.
pub open spec fn place_after(v: Seq<Seq<char>>, x: Seq<char>, i: int) -> int
    decreases v.len() - i,
{
    if i >= v.len() || i < 0 {
        v.len() as int
    } else if less(x, v[i]) {
        i
    } else {
        place_after(v, x, i + 1)
    }
}

/// The first `n` texts in order.
pub open spec fn sorted(v: Seq<Seq<char>>, n: int) -> Seq<Seq<char>>
    decreases n,
{
    if n <= 0 {
        seq![]
    } else {
        let s = sorted(v, n - 1);
        s.insert(place_after(s, v[n - 1], 0), v[n - 1])
    }
}

/// Which of the names to delete: all but the newest `keep`.
pub open spec fn pruned(app: Seq<char>, names: Seq<Seq<char>>, keep: int) -> Seq<Seq<char>> {
    let ours = ours_from(app, names, 0);
    let s = sorted(ours, ours.len() as int);
    if s.len() > keep {
        s.take(s.len() - keep)
    } else {
        seq![]
    }
}

/// The application's newest log.
pub open spec fn newest_text(app: Seq<char>, names: Seq<Seq<char>>) -> Option<Seq<char>> {
    let ours = ours_from(app, names, 0);
    let s = sorted(ours, ours.len() as int);
    if s.len() > 0 {
        Some(s.last())
    } else {
        None
    }
}

/// The application's logs, oldest first.
fn our_logs(app: &str, names: &[String]) -> (out: Vec<String>)
    ensures
        ({
            let ours = ours_from(app@, texts_of(names@), 0);
            texts_of(out@) == sorted(ours, ours.len() as int)
        }),
{
    let mut prefix = to_chars(app);
    push_str(&mut prefix, "-");
    let prefix = to_string(&prefix);
    assert(prefix@ =~= app@ + "-"@);
    let mut out: Vec<String> = Vec::new();
    let ghost mut ours: Seq<Seq<char>> = seq![];
    let ghost all = texts_of(names@);
    let n: usize = names.len();
    let mut i: usize = 0;
    assert(texts_of(out@) =~= seq![]);
    while i < n
        invariant
            i <= n,
            n == names@.len(),
            all == texts_of(names@),
            prefix@ == app@ + "-"@,
            ours + ours_from(app@, all, i as int) =~= ours_from(app@, all, 0),
            texts_of(out@) == sorted(ours, ours.len() as int),
        decreases n - i,
    {
        let name = to_chars(names[i].as_str());
        assert(all[i as int] == name@);
        if starts_with(&name, prefix.as_str()) && ends_with(&name, ".log") {
            let ghost before = out@;
            let ghost was = ours;
            insert_sorted(&mut out, &name);
            proof {
                ours = was.push(name@);
                assert(ours.take(was.len() as int) =~= was);
                lemma_sorted_prefix(ours, was, was.len() as int);
                assert(texts_of(out@) == sorted(ours, ours.len() as int));
            }
        }
        i = i + 1;
    }
    out
}

/// What is put in order does not depend on what comes later.
proof fn lemma_sorted_prefix(v: Seq<Seq<char>>, w: Seq<Seq<char>>, n: int)
    requires
        0 <= n <= w.len() <= v.len(),
        v.take(w.len() as int) == w,
    ensures
        sorted(v, n) == sorted(w, n),
    decreases n,
{
    if n > 0 {
        lemma_sorted_prefix(v, w, n - 1);
        assert(v[n - 1] == v.take(w.len() as int)[n - 1]);
    }
}

fn insert_sorted(out: &mut Vec<String>, name: &Vec<char>)
    ensures
        texts_of(final(out)@) == texts_of(old(out)@).insert(
            place_after(texts_of(old(out)@), name@, 0),
            name@,
        ),
{
    let n: usize = out.len();
    let mut k: usize = 0;
    let ghost before = texts_of(out@);
    while k < n
        invariant_except_break
            k <= n,
            n == out@.len(),
            before == texts_of(out@),
            place_after(before, name@, 0) == place_after(before, name@, k as int),
        ensures
            k <= n,
            k == place_after(before, name@, 0),
        decreases n - k,
    {
        let there = to_chars(out[k].as_str());
        assert(before[k as int] == there@);
        if comes_before(name, &there) {
            break;
        }
        k = k + 1;
    }
    out.insert(k, to_string(name));
    assert(texts_of(out@) =~= before.insert(k as int, name@));
}

/// Which of `names` to delete, keeping the newest `keep`.
///
/// Sorted as text, which the timestamp in the name makes chronological. Names
/// that are not ours are never returned: a directory someone put something
/// else in is not this function's to tidy.
pub fn prunable(app: &str, names: &[String], keep: usize) -> (out: Vec<String>)
    ensures
        texts_of(out@) == pruned(app@, texts_of(names@), keep as int),
{
    let mut ours = our_logs(app, names);
    let ghost s = texts_of(ours@);
    let n: usize = ours.len();
    if n <= keep {
        ours.clear();
        assert(texts_of(ours@) =~= seq![]);
    } else {
        ours.truncate(n - keep);
        assert(texts_of(ours@) =~= s.take(n - keep));
    }
    ours
}

/// The most recent of some logs, by the timestamp in its name.
pub fn newest(app: &str, names: &[String]) -> (r: Option<String>)
    ensures
        match newest_text(app@, texts_of(names@)) {
            Some(t) => r matches Some(s) && s@ == t,
            None => r is None,
        },
{
    let mut ours = our_logs(app, names);
    let ghost s = texts_of(ours@);
    assert(s.len() == ours@.len());
    assert(s.len() > 0 ==> s.last() == ours@.last()@);
    ours.pop()
}

// ---- the header ----

pub open spec fn line_text(k: Seq<char>, v: Seq<char>) -> Seq<char> {
    space_fill(k, 10) + " "@ + v + "\n"@
}

/// An argument as it was given: one with spaces in it stays one argument,
/// rather than being re-split into something that was never typed.
pub open spec fn arg_text(a: Seq<char>) -> Seq<char> {
    if find_from(a, ' ', 0) < a.len() {
        "\""@ + a + "\""@
    } else {
        a
    }
}

/// The first `n` arguments with spaces between them.
pub open spec fn command_text(args: Seq<Seq<char>>, n: int) -> Seq<char>
    decreases n,
{
    if n <= 0 {
        seq![]
    } else if n == 1 {
        arg_text(args[0])
    } else {
        command_text(args, n - 1) + " "@ + arg_text(args[n - 1])
    }
}

/// What the caller knows, of the first `n` facts.
pub open spec fn facts_text(facts: Seq<(Seq<char>, Seq<char>)>, n: int) -> Seq<char>
    decreases n,
{
    if n <= 0 {
        seq![]
    } else {
        facts_text(facts, n - 1) + line_text(facts[n - 1].0, facts[n - 1].1)
    }
}

pub open spec fn fact_views(facts: Seq<(String, String)>) -> Seq<(Seq<char>, Seq<char>)> {
    Seq::new(facts.len(), |i: int| (facts[i].0@, facts[i].1@))
}

pub open spec fn header_text(
    app: Seq<char>,
    version: Seq<char>,
    secs: u64,
    args: Seq<Seq<char>>,
    facts: Seq<(Seq<char>, Seq<char>)>,
    os: Seq<char>,
    arch: Seq<char>,
) -> Seq<char> {
    line_text("app"@, app + " "@ + version) + line_text(
        "started"@,
        timestamp_text(parts_of(moment(secs))),
    ) + line_text("command"@, command_text(args, args.len() as int)) + line_text(
        "os"@,
        os + " "@ + arch,
    ) + facts_text(facts, facts.len() as int) + Seq::new(72, |i: int| '-') + "\n"@
}

fn push_line(out: &mut Vec<char>, k: &str, v: &[char])
    ensures
        final(out)@ == old(out)@ + line_text(k@, v@),
{
    let key = to_chars(k);
    let filled = space_filled(&key, 10);
    push_chars(out, &filled);
    push_str(out, " ");
    push_chars(out, v);
    push_str(out, "\n");
    assert(out@ =~= old(out)@ + line_text(k@, v@));
}

fn command_of(args: &[String]) -> (v: Vec<char>)
    ensures
        v@ == command_text(texts_of(args@), args@.len() as int),
{
    let mut v: Vec<char> = Vec::new();
    let n: usize = args.len();
    let mut i: usize = 0;
    while i < n
        invariant
            i <= n,
            n == args@.len(),
            v@ == command_text(texts_of(args@), i as int),
        decreases n - i,
    {
        let ghost before = v@;
        if i > 0 {
            push_str(&mut v, " ");
        }
        let a = to_chars(args[i].as_str());
        assert(texts_of(args@)[i as int] == a@);
        if find_char(&a, ' ', 0) < a.len() {
            push_str(&mut v, "\"");
            push_chars(&mut v, &a);
            push_str(&mut v, "\"");
        } else {
            push_chars(&mut v, &a);
        }
        i = i + 1;
        assert(v@ =~= command_text(texts_of(args@), i as int));
    }
    v
}

fn push_facts(out: &mut Vec<char>, facts: &[(String, String)])
    ensures
        final(out)@ == old(out)@ + facts_text(fact_views(facts@), facts@.len() as int),
{
    let n: usize = facts.len();
    let mut i: usize = 0;
    assert(out@ =~= old(out)@ + facts_text(fact_views(facts@), 0));
    while i < n
        invariant
            i <= n,
            n == facts@.len(),
            out@ == old(out)@ + facts_text(fact_views(facts@), i as int),
        decreases n - i,
    {
        let v = to_chars(facts[i].1.as_str());
        assert(fact_views(facts@)[i as int] == (facts@[i as int].0@, facts@[i as int].1@));
        push_line(out, facts[i].0.as_str(), &v);
        i = i + 1;
        assert(out@ =~= old(out)@ + facts_text(fact_views(facts@), i as int));
    }
}

/// The header written above the events, as lines of `key  value`.
///
/// `facts` is whatever only the caller knows, and `os` and `arch` what it runs
/// on.
pub fn header(
    app: &str,
    version: &str,
    secs: u64,
    args: &[String],
    facts: &[(String, String)],
    os: &str,
    arch: &str,
) -> (s: String)
    ensures
        s@ == header_text(
            app@,
            version@,
            secs,
            texts_of(args@),
            fact_views(facts@),
            os@,
            arch@,
        ),
{
    let mut out: Vec<char> = Vec::new();
    let mut v = to_chars(app);
    push_str(&mut v, " ");
    push_str(&mut v, version);
    assert(v@ =~= app@ + " "@ + version@);
    push_line(&mut out, "app", &v);
    let started = to_chars(timestamp(secs).as_str());
    push_line(&mut out, "started", &started);
    let command = command_of(args);
    push_line(&mut out, "command", &command);
    let mut v = to_chars(os);
    push_str(&mut v, " ");
    push_str(&mut v, arch);
    assert(v@ =~= os@ + " "@ + arch@);
    push_line(&mut out, "os", &v);
    push_facts(&mut out, facts);
    let ghost above = out@;
    let mut i: usize = 0;
    while i < 72
        invariant
            i <= 72,
            out@ =~= above + Seq::new(i as nat, |j: int| '-'),
        decreases 72 - i,
    {
        out.push('-');
        i = i + 1;
    }
    push_str(&mut out, "\n");
    assert(out@ =~= header_text(
        app@,
        version@,
        secs,
        texts_of(args@),
        fact_views(facts@),
        os@,
        arch@,
    ));
    to_string(&out)
}

} // verus!
