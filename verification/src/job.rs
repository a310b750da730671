//! yt-dlp's output, one line at a time.
//!
//! yt-dlp is asked to emit tagged lines (`@DL`, `@PP`, `@META`, `@FILE`) via
//! `--progress-template` and `--print`, which is far steadier to parse than
//! its human-facing output. Numbers are handed on as the text yt-dlp wrote;
//! the caller reads them as floating point.

use vstd::prelude::*;
use crate::text::{
    Class, before, chars_of, find, find_in, first_of, first_piece_end, from_lo, matches_at,
    push_char, push_range, sooner,
    same_text, starts_with, string_of, trim_end_class_in, trim_end_in, trim_in, trim_ws,
    word_spans, words, copy_text,
};

verus! {

/// What one line of yt-dlp's output says about job `id`.
pub enum Msg {
    /// Title, uploader and length, before the download.
    Meta { id: usize, uploader: Option<String>, duration: Option<String>, title: Option<String> },
    /// Bytes so far, the total (exact, or yt-dlp's estimate), speed and time left.
    Progress {
        id: usize,
        done: Option<String>,
        total: Option<String>,
        total_estimate: Option<String>,
        speed: Option<String>,
        eta: Option<String>,
    },
    /// The post-processing stage (the mp3 conversion).
    Post { id: usize, status: String },
    /// Where the finished file was moved to.
    File { id: usize, path: String },
    /// An error yt-dlp reported, cleaned for display.
    Error { id: usize, msg: String },
    /// Any other output.
    Log { id: usize, line: String },
    /// The process ended, with its exit code if it had one.
    Exit { id: usize, code: Option<i32> },
}

/// A message, its texts taken as character sequences.
pub enum MsgView {
    Meta {
        id: usize,
        uploader: Option<Seq<char>>,
        duration: Option<Seq<char>>,
        title: Option<Seq<char>>,
    },
    Progress {
        id: usize,
        done: Option<Seq<char>>,
        total: Option<Seq<char>>,
        total_estimate: Option<Seq<char>>,
        speed: Option<Seq<char>>,
        eta: Option<Seq<char>>,
    },
    Post { id: usize, status: Seq<char> },
    File { id: usize, path: Seq<char> },
    Error { id: usize, msg: Seq<char> },
    Log { id: usize, line: Seq<char> },
    Exit { id: usize, code: Option<i32> },
}

pub open spec fn opt_view(o: Option<String>) -> Option<Seq<char>> {
    match o {
        Some(s) => Some(s@),
        None => None,
    }
}

pub open spec fn opt_str_view(o: Option<&str>) -> Option<Seq<char>> {
    match o {
        Some(s) => Some(s@),
        None => None,
    }
}

impl View for Msg {
    type V = MsgView;

    open spec fn view(&self) -> MsgView {
        match self {
            Msg::Meta { id, uploader, duration, title } => MsgView::Meta {
                id: *id,
                uploader: opt_view(*uploader),
                duration: opt_view(*duration),
                title: opt_view(*title),
            },
            Msg::Progress { id, done, total, total_estimate, speed, eta } => MsgView::Progress {
                id: *id,
                done: opt_view(*done),
                total: opt_view(*total),
                total_estimate: opt_view(*total_estimate),
                speed: opt_view(*speed),
                eta: opt_view(*eta),
            },
            Msg::Post { id, status } => MsgView::Post { id: *id, status: status@ },
            Msg::File { id, path } => MsgView::File { id: *id, path: path@ },
            Msg::Error { id, msg } => MsgView::Error { id: *id, msg: msg@ },
            Msg::Log { id, line } => MsgView::Log { id: *id, line: line@ },
            Msg::Exit { id, code } => MsgView::Exit { id: *id, code: *code },
        }
    }
}

/// A field of a tagged line: yt-dlp writes `NA` (or `None`) where it has no
/// value, and an absent or empty field has none either.
pub open spec fn field_value(f: Option<Seq<char>>) -> Option<Seq<char>> {
    match f {
        Some(v) => if v == "NA"@ || v == "None"@ || v.len() == 0 {
            None
        } else {
            Some(v)
        },
        None => None,
    }
}

/// The `i`-th of `fs`, if there is one.
pub open spec fn nth(fs: Seq<Seq<char>>, i: int) -> Option<Seq<char>> {
    if 0 <= i < fs.len() {
        Some(fs[i])
    } else {
        None
    }
}

/// The text after the first `c`, if there is a `c`.
pub open spec fn after(s: Seq<char>, c: char) -> Option<Seq<char>> {
    match find(s, seq![c]) {
        Some(k) => Some(s.skip(k + 1)),
        None => None,
    }
}

/// The first three tab-separated fields of `s` (`split('\t')`): the first
/// is always there.
pub open spec fn tab_fields(s: Seq<char>) -> (Option<Seq<char>>, Option<Seq<char>>, Option<Seq<char>>) {
    let r1 = after(s, '\t');
    let f1 = match r1 {
        Some(t) => Some(before(t, '\t')),
        None => None,
    };
    let f2 = match r1 {
        Some(t) => match after(t, '\t') {
            Some(u) => Some(before(u, '\t')),
            None => None,
        },
        None => None,
    };
    (Some(before(s, '\t')), f1, f2)
}

/// Drops a leading `[Extractor] ` tag, and the video id that may follow it
/// (a first word ending in `: `).
pub open spec fn drop_tag(t: Seq<char>) -> Seq<char> {
    if t.len() > 0 && t[0] == '[' && find(t.drop_first(), "] "@) is Some {
        let o = t.drop_first().skip(find(t.drop_first(), "] "@).unwrap() + "] "@.len());
        match find(o, ": "@) {
            Some(j) => if !o.take(j).contains(' ') {
                o.skip(j + ": "@.len())
            } else {
                o
            },
            None => o,
        }
    } else {
        t
    }
}

/// Everything from the first link or "please report" on is advice for a bug
/// report, not for the user: the text before the earliest place where one of
/// these markers starts.
pub open spec fn advice_at(u: Seq<char>) -> Option<int> {
    first_of(
        first_of(find(u, " See http"@), find(u, " Please report"@)),
        first_of(find(u, "; please report"@), find(u, " http"@)),
    )
}

pub open spec fn cut_advice(u: Seq<char>) -> Seq<char> {
    match advice_at(u) {
        Some(k) => u.take(k),
        None => u,
    }
}

/// A yt-dlp error message as the dashboard shows it: the extractor tag, the
/// video id and the advice tail dropped, trailing `.` and `,` removed, and
/// cut to 180 characters.
pub open spec fn clean_error_of(m: Seq<char>) -> Seq<char> {
    let w = trim_end_in(trim_ws(cut_advice(drop_tag(trim_ws(m)))), Class::Stop);
    if w.len() > 180 {
        w.take(179).push('…')
    } else {
        w
    }
}

/// What a (trimmed) line of output says; `None` for an empty line.
pub open spec fn parse_of(id: usize, s: Seq<char>) -> Option<MsgView> {
    if starts_with(s, "@DL "@) {
        let f = words(s.skip("@DL "@.len() as int));
        Some(
            MsgView::Progress {
                id,
                done: field_value(nth(f, 0)),
                total: field_value(nth(f, 1)),
                total_estimate: field_value(nth(f, 2)),
                speed: field_value(nth(f, 3)),
                eta: field_value(nth(f, 4)),
            },
        )
    } else if starts_with(s, "@PP "@) {
        let f = words(s.skip("@PP "@.len() as int));
        Some(MsgView::Post { id, status: if f.len() > 0 { f[0] } else { seq![] } })
    } else if starts_with(s, "@META "@) {
        let f = tab_fields(s.skip("@META "@.len() as int));
        Some(
            MsgView::Meta {
                id,
                uploader: field_value(f.0),
                duration: field_value(f.1),
                title: field_value(f.2),
            },
        )
    } else if starts_with(s, "@FILE "@) {
        Some(MsgView::File { id, path: s.skip("@FILE "@.len() as int) })
    } else if starts_with(s, "ERROR: "@) {
        Some(MsgView::Error { id, msg: clean_error_of(s.skip("ERROR: "@.len() as int)) })
    } else if s.len() == 0 {
        None
    } else {
        Some(MsgView::Log { id, line: s })
    }
}

pub open spec fn opt_msg_view(o: Option<Msg>) -> Option<MsgView> {
    match o {
        Some(m) => Some(m@),
        None => None,
    }
}

/// Whether `c` occurs in `cs[lo..hi]`.
fn contains_in(cs: &Vec<char>, lo: usize, hi: usize, c: char) -> (b: bool)
    requires
        lo <= hi <= cs@.len(),
    ensures
        b == cs@.subrange(lo as int, hi as int).contains(c),
{
    let mut i = lo;
    while i < hi
        invariant
            lo <= i <= hi <= cs@.len(),
            forall|t: int| lo <= t < i ==> cs@[t] != c,
        decreases hi - i,
    {
        if cs[i] == c {
            assert(cs@.subrange(lo as int, hi as int)[i - lo] == c);
            return true;
        }
        i += 1;
    }
    assert forall|t: int| 0 <= t < hi - lo implies cs@.subrange(lo as int, hi as int)[t] != c by {
        assert(cs@.subrange(lo as int, hi as int)[t] == cs@[lo + t]);
    }
    false
}

/// Start of the text once `drop_tag` has run on `cs[lo..hi]`.
fn drop_tag_in(cs: &Vec<char>, lo: usize, hi: usize) -> (k: usize)
    requires
        lo <= hi <= cs@.len(),
    ensures
        lo <= k <= hi,
        cs@.subrange(k as int, hi as int) == drop_tag(cs@.subrange(lo as int, hi as int)),
{
    let ghost t = cs@.subrange(lo as int, hi as int);
    if !(lo < hi && cs[lo] == '[') {
        return lo;
    }
    assert(t.drop_first() =~= cs@.subrange(lo + 1, hi as int));
    let close = chars_of("] ");
    match find_in(cs, lo + 1, hi, &close) {
        None => lo,
        Some(k) => {
            let o_lo = k + close.len();
            let ghost o = cs@.subrange(o_lo as int, hi as int);
            assert(t.drop_first().skip(find(t.drop_first(), "] "@).unwrap() + "] "@.len()) =~= o);
            let colon = chars_of(": ");
            match find_in(cs, o_lo, hi, &colon) {
                None => o_lo,
                Some(j) => {
                    assert(o.take(j - o_lo) =~= cs@.subrange(o_lo as int, j as int));
                    if !contains_in(cs, o_lo, j, ' ') {
                        assert(o.skip(j - o_lo + ": "@.len()) =~= cs@.subrange(
                            j + colon@.len(),
                            hi as int,
                        ));
                        j + colon.len()
                    } else {
                        o_lo
                    }
                },
            }
        },
    }
}

/// End of the text once `cut_advice` has run on `cs[lo..hi]`.
fn cut_advice_in(cs: &Vec<char>, lo: usize, hi: usize) -> (e: usize)
    requires
        lo <= hi <= cs@.len(),
    ensures
        lo <= e <= hi,
        cs@.subrange(lo as int, e as int) == cut_advice(cs@.subrange(lo as int, hi as int)),
{
    let ghost u = cs@.subrange(lo as int, hi as int);
    let m1 = chars_of(" See http");
    let m2 = chars_of(" Please report");
    let m3 = chars_of("; please report");
    let m4 = chars_of(" http");
    let k1 = find_in(cs, lo, hi, &m1);
    let k2 = find_in(cs, lo, hi, &m2);
    let k3 = find_in(cs, lo, hi, &m3);
    let k4 = find_in(cs, lo, hi, &m4);
    let a = sooner(k1, k2);
    let b = sooner(k3, k4);
    let r = sooner(a, b);
    proof {
        reveal_strlit(" See http");
        reveal_strlit(" Please report");
        reveal_strlit("; please report");
        reveal_strlit(" http");
        assert(from_lo(k1, lo) == find(u, " See http"@));
        assert(from_lo(k2, lo) == find(u, " Please report"@));
        assert(from_lo(k3, lo) == find(u, "; please report"@));
        assert(from_lo(k4, lo) == find(u, " http"@));
        assert(from_lo(a, lo) == first_of(from_lo(k1, lo), from_lo(k2, lo)));
        assert(from_lo(b, lo) == first_of(from_lo(k3, lo), from_lo(k4, lo)));
        assert(from_lo(r, lo) == first_of(from_lo(a, lo), from_lo(b, lo)));
    }
    match r {
        Some(k) => {
            assert(u.take(k - lo) =~= cs@.subrange(lo as int, k as int));
            k
        },
        None => hi,
    }
}

/// Strip yt-dlp's "[Instagram] abc123: " prefixes and the advice tail.
pub fn clean_error(msg: &str) -> (r: String)
    ensures
        r@ == clean_error_of(msg@),
{
    let cs = chars_of(msg);
    let n = cs.len();
    assert(cs@.subrange(0, n as int) =~= msg@);
    let (a, b) = trim_in(&cs, 0, n);
    let c = drop_tag_in(&cs, a, b);
    let d = cut_advice_in(&cs, c, b);
    let (e, f) = trim_in(&cs, c, d);
    let g = trim_end_class_in(&cs, e, f, Class::Stop);
    if g - e > 180 {
        let mut s = string_of(&cs, e, e + 179);
        push_char(&mut s, '…');
        assert(cs@.subrange(e as int, g as int).take(179) =~= cs@.subrange(e as int, e + 179));
        s
    } else {
        string_of(&cs, e, g)
    }
}

/// A field's value: `None` for a missing field, an empty one, `NA` or `None`.
pub fn text(field: Option<&str>) -> (r: Option<String>)
    ensures
        opt_view(r) == field_value(opt_str_view(field)),
{
    match field {
        None => None,
        Some(v) => {
            if same_text(v, "NA") || same_text(v, "None") || v.is_empty() {
                None
            } else {
                Some(copy_text(v))
            }
        },
    }
}


/// The value of the field `cs[a..b]`.
fn field_in(cs: &Vec<char>, a: usize, b: usize) -> (r: Option<String>)
    requires
        a <= b <= cs@.len(),
    ensures
        opt_view(r) == field_value(Some(cs@.subrange(a as int, b as int))),
{
    let na = chars_of("NA");
    let none = chars_of("None");
    if a == b {
        return None;
    }
    let is_na = b - a == na.len() && matches_at(cs, a, b, &na);
    let is_none = b - a == none.len() && matches_at(cs, a, b, &none);
    if is_na || is_none {
        None
    } else {
        Some(string_of(cs, a, b))
    }
}

/// The value of the `i`-th word, given where the words lie.
fn word_field(cs: &Vec<char>, spans: &Vec<(usize, usize)>, i: usize, ws: Ghost<Seq<Seq<char>>>) -> (r: Option<String>)
    requires
        spans@.len() == ws@.len(),
        forall|t: int|
            0 <= t < spans@.len() ==> {
                &&& (#[trigger] spans@[t]).0 <= spans@[t].1 <= cs@.len()
                &&& cs@.subrange(spans@[t].0 as int, spans@[t].1 as int) == ws@[t]
            },
    ensures
        opt_view(r) == field_value(nth(ws@, i as int)),
{
    if i < spans.len() {
        let (a, b) = spans[i];
        field_in(cs, a, b)
    } else {
        None
    }
}

/// Whether the line `cs` starts with the tag `tag`.
fn tagged(cs: &Vec<char>, tag: &Vec<char>) -> (b: bool)
    ensures
        b == starts_with(cs@, tag@),
{
    let b = matches_at(cs, 0, cs.len(), tag);
    assert(b ==> cs@.take(tag@.len() as int) =~= cs@.subrange(0, tag@.len() as int));
    assert(tag@.len() <= cs@.len() ==> cs@.take(tag@.len() as int) =~= cs@.subrange(
        0,
        tag@.len() as int,
    ));
    b
}

/// Reads one line of yt-dlp's output (with its line break already trimmed).
pub fn parse(id: usize, line: &str) -> (r: Option<Msg>)
    ensures
        opt_msg_view(r) == parse_of(id, line@),
{
    let cs = chars_of(line);
    let n = cs.len();
    let dl = chars_of("@DL ");
    let pp = chars_of("@PP ");
    let meta = chars_of("@META ");
    let file = chars_of("@FILE ");
    let error = chars_of("ERROR: ");
    if tagged(&cs, &dl) {
        let st = dl.len();
        let spans = word_spans(&cs, st, n);
        let ghost ws = words(cs@.subrange(st as int, n as int));
        assert(cs@.subrange(st as int, n as int) =~= line@.skip("@DL "@.len() as int));
        return Some(
            Msg::Progress {
                id,
                done: word_field(&cs, &spans, 0, Ghost(ws)),
                total: word_field(&cs, &spans, 1, Ghost(ws)),
                total_estimate: word_field(&cs, &spans, 2, Ghost(ws)),
                speed: word_field(&cs, &spans, 3, Ghost(ws)),
                eta: word_field(&cs, &spans, 4, Ghost(ws)),
            },
        );
    }
    if tagged(&cs, &pp) {
        let st = pp.len();
        let spans = word_spans(&cs, st, n);
        assert(cs@.subrange(st as int, n as int) =~= line@.skip("@PP "@.len() as int));
        let status = if spans.len() > 0 {
            let (a, b) = spans[0];
            string_of(&cs, a, b)
        } else {
            String::new()
        };
        return Some(Msg::Post { id, status });
    }
    if tagged(&cs, &meta) {
        let st = meta.len();
        let ghost s = cs@.subrange(st as int, n as int);
        assert(s =~= line@.skip("@META "@.len() as int));
        let e0 = first_piece_end(&cs, st, n, '\t');
        let uploader = field_in(&cs, st, e0);
        let mut duration: Option<String> = None;
        let mut title: Option<String> = None;
        if e0 < n {
            let ghost t = cs@.subrange(e0 + 1, n as int);
            assert(s.skip(e0 - st + 1) =~= t);
            let e1 = first_piece_end(&cs, e0 + 1, n, '\t');
            duration = field_in(&cs, e0 + 1, e1);
            if e1 < n {
                assert(t.skip(e1 - (e0 + 1) + 1) =~= cs@.subrange(e1 + 1, n as int));
                let e2 = first_piece_end(&cs, e1 + 1, n, '\t');
                title = field_in(&cs, e1 + 1, e2);
            }
        }
        return Some(Msg::Meta { id, uploader, duration, title });
    }
    if tagged(&cs, &file) {
        let st = file.len();
        assert(cs@.subrange(st as int, n as int) =~= line@.skip("@FILE "@.len() as int));
        return Some(Msg::File { id, path: string_of(&cs, st, n) });
    }
    if tagged(&cs, &error) {
        let st = error.len();
        let rest = line.substring_char(st, n);
        assert(rest@ =~= line@.skip("ERROR: "@.len() as int));
        return Some(Msg::Error { id, msg: clean_error(rest) });
    }
    if n == 0 {
        return None;
    }
    assert(cs@.subrange(0, n as int) =~= line@);
    Some(Msg::Log { id, line: string_of(&cs, 0, n) })
}

/// Reads one raw line of output: trailing whitespace (the line break) is
/// dropped before it is parsed.
pub fn parse_output(id: usize, raw: &str) -> (r: Option<Msg>)
    ensures
        opt_msg_view(r) == parse_of(id, trim_end_in(raw@, Class::Blank)),
{
    let cs = chars_of(raw);
    let e = trim_end_class_in(&cs, 0, cs.len(), Class::Blank);
    assert(cs@.subrange(0, cs@.len() as int) =~= raw@);
    let line = raw.substring_char(0, e);
    parse(id, line)
}


// ---- the yt-dlp command ---------------------------------------------------

pub open spec fn strings_view(v: Seq<String>) -> Seq<Seq<char>> {
    v.map_values(|s: String| s@)
}

/// Progress lines: bytes so far, exact total, estimated total, speed, time left.
pub open spec fn dl_template() -> Seq<char> {
    "download:@DL %(progress.downloaded_bytes)s %(progress.total_bytes)s %(progress.total_bytes_estimate)s %(progress.speed)s %(progress.eta)s"@
}

/// Post-processing lines: the conversion's status.
pub open spec fn pp_template() -> Seq<char> {
    "postprocess:@PP %(progress.status)s"@
}

/// Printed before the download: uploader, length and title, tab-separated.
pub open spec fn meta_template() -> Seq<char> {
    "before_dl:@META %(uploader)s\t%(duration)s\t%(title)s"@
}

/// Printed once the file is in place: its path.
pub open spec fn file_template() -> Seq<char> {
    "after_move:@FILE %(filepath)s"@
}

/// The arguments given to yt-dlp before the output folder: one line per
/// update, no colour or warnings, the best audio, converted to mp3 at the
/// best quality, saved into the folder given next.
pub open spec fn args_before_folder() -> Seq<Seq<char>> {
    seq![
        "--newline"@, "--progress"@, "--color"@, "never"@, "--no-warnings"@, "-f"@,
        "bestaudio/best"@, "-x"@, "--audio-format"@, "mp3"@, "--audio-quality"@, "0"@, "-P"@,
    ]
}

/// The arguments after the output folder: the file name, the tagged
/// progress and print templates, the browser to take cookies from (if any),
/// and the link, after `--` so that it is never read as an option.
pub open spec fn args_after_folder(url: Seq<char>, cookies: Option<Seq<char>>) -> Seq<Seq<char>> {
    seq![
        "-o"@, "%(title).80B [%(id)s].%(ext)s"@, "--progress-template"@, dl_template(),
        "--progress-template"@, pp_template(), "--print"@, meta_template(), "--print"@,
        file_template(),
    ] + match cookies {
        Some(b) => seq!["--cookies-from-browser"@, b],
        None => seq![],
    } + seq!["--"@, url]
}

fn push_arg(v: &mut Vec<String>, a: &str)
    ensures
        strings_view(final(v)@) == strings_view(old(v)@).push(a@),
{
    v.push(copy_text(a));
    assert(strings_view(v@) =~= strings_view(old(v)@).push(a@));
}

/// The arguments yt-dlp gets before the output folder.
pub fn args_before_dir() -> (r: Vec<String>)
    ensures
        strings_view(r@) == args_before_folder(),
{
    let mut v: Vec<String> = Vec::new();
    assert(strings_view(v@) =~= Seq::<Seq<char>>::empty());
    push_arg(&mut v, "--newline");
    push_arg(&mut v, "--progress");
    push_arg(&mut v, "--color");
    push_arg(&mut v, "never");
    push_arg(&mut v, "--no-warnings");
    push_arg(&mut v, "-f");
    push_arg(&mut v, "bestaudio/best");
    push_arg(&mut v, "-x");
    push_arg(&mut v, "--audio-format");
    push_arg(&mut v, "mp3");
    push_arg(&mut v, "--audio-quality");
    push_arg(&mut v, "0");
    push_arg(&mut v, "-P");
    assert(strings_view(v@) =~= args_before_folder());
    v
}

/// The arguments yt-dlp gets after the output folder, for one link.
pub fn args_after_dir(url: &str, cookies: Option<&str>) -> (r: Vec<String>)
    ensures
        strings_view(r@) == args_after_folder(url@, opt_str_view(cookies)),
{
    let mut v: Vec<String> = Vec::new();
    assert(strings_view(v@) =~= Seq::<Seq<char>>::empty());
    push_arg(&mut v, "-o");
    push_arg(&mut v, "%(title).80B [%(id)s].%(ext)s");
    push_arg(&mut v, "--progress-template");
    push_arg(&mut v, "download:@DL %(progress.downloaded_bytes)s %(progress.total_bytes)s %(progress.total_bytes_estimate)s %(progress.speed)s %(progress.eta)s");
    push_arg(&mut v, "--progress-template");
    push_arg(&mut v, "postprocess:@PP %(progress.status)s");
    push_arg(&mut v, "--print");
    push_arg(&mut v, "before_dl:@META %(uploader)s\t%(duration)s\t%(title)s");
    push_arg(&mut v, "--print");
    push_arg(&mut v, "after_move:@FILE %(filepath)s");
    if let Some(b) = cookies {
        push_arg(&mut v, "--cookies-from-browser");
        push_arg(&mut v, b);
    }
    push_arg(&mut v, "--");
    push_arg(&mut v, url);
    assert(strings_view(v@) =~= args_after_folder(url@, opt_str_view(cookies)));
    v
}

} // verus!
