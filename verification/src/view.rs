//! What the panels say: the words, marks and counts the renderer lays out.

use vstd::prelude::*;
use vstd::string::StringExecFns;
use crate::app::{JobView, Rect, Status, Tone, jobs_view};
use crate::app::Job;
use crate::link::{short_url, short_url_of};
use crate::text::{
    dec, duration_text, human_bytes, human_secs, push_char, push_dec, size_text, truncate, truncate_of,
};

verus! {

/// The spinner frame shown at `tick` (it turns every second tick).
pub open spec fn spinner(tick: u64) -> char {
    let k = (tick / 2) % 10;
    if k == 0 {
        '⠋'
    } else if k == 1 {
        '⠙'
    } else if k == 2 {
        '⠹'
    } else if k == 3 {
        '⠸'
    } else if k == 4 {
        '⠼'
    } else if k == 5 {
        '⠴'
    } else if k == 6 {
        '⠦'
    } else if k == 7 {
        '⠧'
    } else if k == 8 {
        '⠇'
    } else {
        '⠏'
    }
}

/// The status column of a queue row: a mark, a word and a colour. Running
/// jobs spin; a finished job that took nothing over the network reads "have".
pub open spec fn badge_of(status: Status, cached: bool, tick: u64) -> (char, Seq<char>, Tone) {
    match status {
        Status::Queued => ('·', "queue"@, Tone::Dim),
        Status::Fetching => (spinner(tick), "fetch"@, Tone::Cyan),
        Status::Downloading => (spinner(tick), "down"@, Tone::Accent),
        Status::Converting => (spinner(tick), "mp3"@, Tone::Violet),
        Status::Done => if cached {
            ('✓', "have"@, Tone::Cyan)
        } else {
            ('✓', "done"@, Tone::Good)
        },
        Status::Failed => ('✗', "fail"@, Tone::Alert),
        Status::Canceled => ('⊘', "stop"@, Tone::Dim),
    }
}

pub struct Badge {
    pub icon: char,
    pub label: &'static str,
    pub tone: Tone,
}

fn spinner_frame(tick: u64) -> (c: char)
    ensures
        c == spinner(tick),
{
    let k = (tick / 2) % 10;
    if k == 0 {
        '⠋'
    } else if k == 1 {
        '⠙'
    } else if k == 2 {
        '⠹'
    } else if k == 3 {
        '⠸'
    } else if k == 4 {
        '⠼'
    } else if k == 5 {
        '⠴'
    } else if k == 6 {
        '⠦'
    } else if k == 7 {
        '⠧'
    } else if k == 8 {
        '⠇'
    } else {
        '⠏'
    }
}

/// The status column of a queue row.
pub fn status_badge(status: Status, cached: bool, tick: u64) -> (b: Badge)
    ensures
        (b.icon, b.label@, b.tone) == badge_of(status, cached, tick),
{
    match status {
        Status::Queued => Badge { icon: '·', label: "queue", tone: Tone::Dim },
        Status::Fetching => Badge { icon: spinner_frame(tick), label: "fetch", tone: Tone::Cyan },
        Status::Downloading => Badge { icon: spinner_frame(tick), label: "down", tone: Tone::Accent },
        Status::Converting => Badge { icon: spinner_frame(tick), label: "mp3", tone: Tone::Violet },
        Status::Done => if cached {
            Badge { icon: '✓', label: "have", tone: Tone::Cyan }
        } else {
            Badge { icon: '✓', label: "done", tone: Tone::Good }
        },
        Status::Failed => Badge { icon: '✗', label: "fail", tone: Tone::Alert },
        Status::Canceled => Badge { icon: '⊘', label: "stop", tone: Tone::Dim },
    }
}

/// `row/total` under the queue, counting from 1; `0/0` when it is empty.
pub open spec fn position_text(selected: Option<usize>, total: nat) -> Seq<char> {
    if total == 0 {
        "0/0"@
    } else {
        let i = match selected {
            Some(i) => i as nat,
            None => 0,
        };
        dec(i + 1) + seq!['/'] + dec(total)
    }
}

pub fn queue_position(selected: Option<usize>, total: usize) -> (r: String)
    ensures
        r@ == position_text(selected, total as nat),
{
    let mut s = String::new();
    if total == 0 {
        s.append("0/0");
        assert(s@ =~= position_text(selected, total as nat));
        return s;
    }
    let i = match selected {
        Some(i) => i,
        None => 0,
    };
    push_dec(&mut s, i as u128 + 1);
    push_char(&mut s, '/');
    push_dec(&mut s, total as u128);
    assert(s@ =~= position_text(selected, total as nat));
    s
}

/// The size column: a finished file's size, or the size of a download under way.
pub open spec fn size_cell_of(status: Status, size: Option<u64>, total: Option<u64>) -> (Seq<char>, Tone) {
    if status is Done && size is Some {
        (size_text(size.unwrap() as nat), Tone::Good)
    } else if status is Downloading && total is Some {
        (size_text(total.unwrap() as nat), Tone::Dim)
    } else {
        (seq![], Tone::Dim)
    }
}

pub fn size_cell(status: Status, size: Option<u64>, total: Option<u64>) -> (r: (String, Tone))
    ensures
        (r.0@, r.1) == size_cell_of(status, size, total),
{
    match (status, size, total) {
        (Status::Done, Some(n), _) => (human_bytes(n), Tone::Good),
        (Status::Downloading, _, Some(t)) => (human_bytes(t), Tone::Dim),
        _ => (String::new(), Tone::Dim),
    }
}

/// A staged link as its row reads.
pub open spec fn staged_text(url: Seq<char>, dup: bool) -> Seq<char> {
    if dup {
        short_url_of(url) + "  already queued"@
    } else {
        short_url_of(url)
    }
}

pub fn staged_row_text(url: &str, dup: bool) -> (r: String)
    ensures
        r@ == staged_text(url@, dup),
{
    let mut s = String::new();
    s.append(short_url(url));
    if dup {
        s.append("  already queued");
    }
    assert(s@ =~= staged_text(url@, dup));
    s
}

/// The number column of a staged row: ` n ` with `n` right-aligned in two places.
pub open spec fn row_number_text(n: nat) -> Seq<char> {
    if n < 10 {
        seq![' ', ' '] + dec(n) + seq![' ']
    } else {
        seq![' '] + dec(n) + seq![' ']
    }
}

pub fn row_number(i: usize) -> (r: String)
    ensures
        r@ == row_number_text(i as nat + 1),
{
    let n = i as u128 + 1;
    let mut s = String::new();
    push_char(&mut s, ' ');
    if n < 10 {
        push_char(&mut s, ' ');
    }
    push_dec(&mut s, n);
    push_char(&mut s, ' ');
    assert(s@ =~= row_number_text(i as nat + 1));
    s
}

/// The first staged row on screen: the list scrolls just enough to show the
/// selected one in `rows` lines.
pub open spec fn first_row(sel: nat, rows: nat) -> nat {
    let r = if rows > 0 { (rows - 1) as nat } else { 0 };
    if sel > r {
        (sel - r) as nat
    } else {
        0
    }
}

/// How many links lie below the last line on screen, when any do.
pub open spec fn hidden_rows(len: nat, first: nat, rows: nat) -> Option<nat> {
    if len > first + rows {
        Some((len - first - rows) as nat)
    } else {
        None
    }
}

pub fn list_window(sel: usize, len: usize, rows: usize) -> (r: (usize, Option<usize>))
    ensures
        r.0 == first_row(sel as nat, rows as nat),
        match r.1 {
            Some(n) => hidden_rows(len as nat, r.0 as nat, rows as nat) == Some(n as nat),
            None => hidden_rows(len as nat, r.0 as nat, rows as nat) is None,
        },
{
    let r = if rows > 0 {
        rows - 1
    } else {
        0
    };
    let first = if sel > r {
        sel - r
    } else {
        0
    };
    let hidden = if len > first && len - first > rows {
        Some(len - first - rows)
    } else {
        None
    };
    (first, hidden)
}

/// The line that stands in for the last row when `hidden` links lie below
/// it: it counts them and the row it replaces.
pub open spec fn more_text(hidden: nat) -> Seq<char> {
    "    +"@ + dec(hidden + 1) + " more"@
}

pub fn more_line(hidden: usize) -> (r: String)
    ensures
        r@ == more_text(hidden as nat),
{
    let mut s = String::new();
    s.append("    +");
    push_dec(&mut s, hidden as u128 + 1);
    s.append(" more");
    assert(s@ =~= more_text(hidden as nat));
    s
}

/// The start button's label: how many links it would queue.
pub open spec fn start_text(ready: nat) -> Seq<char> {
    if ready > 0 {
        "▶  start  "@ + dec(ready)
    } else {
        "▶  start"@
    }
}

pub fn start_label(ready: usize) -> (r: String)
    ensures
        r@ == start_text(ready as nat),
{
    let mut s = String::new();
    if ready > 0 {
        s.append("▶  start  ");
        push_dec(&mut s, ready as u128);
    } else {
        s.append("▶  start");
    }
    assert(s@ =~= start_text(ready as nat));
    s
}

pub fn start_caption(ready: usize) -> (r: &'static str)
    ensures
        r@ == if ready > 0 {
            "enter · or click"@
        } else {
            "nothing staged yet"@
        },
{
    if ready > 0 {
        "enter · or click"
    } else {
        "nothing staged yet"
    }
}

// ---- the progress column -----------------------------------------------------

/// How a square of the marching pulse is lit.
#[derive(Clone, Copy, Debug, PartialEq, Eq, Structural)]
pub enum Pulse {
    /// The square the pulse is on.
    Peak,
    /// One square away from it.
    Near,
    /// Unlit.
    Off,
}

/// Square `i` of a pulse `width` squares long at `tick`: the pulse moves one
/// square every second tick and wraps round.
pub open spec fn pulse_at(tick: u64, width: nat, i: int) -> Pulse {
    let pos = (tick / 2) as int % (if width > 0 { width as int } else { 1 });
    let near = if i >= pos { i - pos } else { pos - i };
    if near == 0 {
        Pulse::Peak
    } else if near == 1 {
        Pulse::Near
    } else {
        Pulse::Off
    }
}

/// The pulse shown while the size of a download is unknown.
pub fn pulse_row(tick: u64, width: usize) -> (r: Vec<Pulse>)
    ensures
        r@.len() == width,
        forall|i: int| 0 <= i < width ==> #[trigger] r@[i] == pulse_at(tick, width as nat, i),
{
    let span: u64 = if width > 0 { width as u64 } else { 1 };
    let pos: u64 = (tick / 2) % span;
    let mut out: Vec<Pulse> = Vec::new();
    let mut i: usize = 0;
    while i < width
        invariant
            i <= width,
            span as int == if width > 0 { width as int } else { 1 },
            pos as int == (tick / 2) as int % span as int,
            out@.len() == i,
            forall|k: int| 0 <= k < i ==> #[trigger] out@[k] == pulse_at(tick, width as nat, k),
        decreases width - i,
    {
        let at = i as u64;
        let near: u64 = if at >= pos { at - pos } else { pos - at };
        let p = if near == 0 {
            Pulse::Peak
        } else if near == 1 {
            Pulse::Near
        } else {
            Pulse::Off
        };
        out.push(p);
        i += 1;
    }
    out
}

/// The word beside the pulse: converting, or still downloading.
pub fn pulse_label(status: Status) -> (r: &'static str)
    ensures
        r@ == if status == Status::Converting {
            " mp3 "@
        } else {
            "  ·  "@
        },
{
    if status == Status::Converting {
        " mp3 "
    } else {
        "  ·  "
    }
}

/// A queued row's progress column: a dotted line `width` long.
pub fn idle_dots(width: usize) -> (r: String)
    ensures
        r@ == Seq::new(width as nat, |_i: int| '·'),
{
    let mut s = String::new();
    let mut i: usize = 0;
    while i < width
        invariant
            i <= width,
            s@ == Seq::new(i as nat, |_i: int| '·'),
        decreases width - i,
    {
        push_char(&mut s, '·');
        i += 1;
        assert(s@ =~= Seq::new(i as nat, |_i: int| '·'));
    }
    s
}

/// A failed or canceled row's progress column: its error, or "failed", cut
/// to the column and the percentage beside it.
pub fn failed_text(error: Option<&str>, width: usize) -> (r: String)
    requires
        width <= usize::MAX - 5,
    ensures
        r@ == truncate_of(
            match error {
                Some(e) => e@,
                None => "failed"@,
            },
            (width + 5) as nat,
        ),
{
    match error {
        Some(e) => truncate(e, width + 5),
        None => truncate("failed", width + 5),
    }
}

/// The info panel's file line while a job has no file yet.
pub open spec fn pending_text(status: Status, done: u64, eta: Option<u64>) -> Seq<char> {
    match status {
        Status::Done => "saved earlier"@,
        Status::Downloading => size_text(done as nat) + " downloaded"@ + match eta {
            Some(e) => "  ·  "@ + duration_text(e as nat) + " left"@,
            None => seq![],
        },
        Status::Converting => "converting to mp3"@,
        _ => "—"@,
    }
}

pub fn pending_file_text(status: Status, done: u64, eta: Option<u64>) -> (r: String)
    ensures
        r@ == pending_text(status, done, eta),
{
    let mut s = String::new();
    match status {
        Status::Done => s.append("saved earlier"),
        Status::Downloading => {
            let b = human_bytes(done);
            s.append(b.as_str());
            s.append(" downloaded");
            if let Some(e) = eta {
                s.append("  ·  ");
                let t = human_secs(e);
                s.append(t.as_str());
                s.append(" left");
            }
        },
        Status::Converting => s.append("converting to mp3"),
        _ => s.append("—"),
    }
    assert(s@ =~= pending_text(status, done, eta));
    s
}

/// A failed job with no cookies in use suggests trying them.
pub open spec fn suggests_cookies(status: Status, cookies: usize) -> bool {
    status is Failed && cookies == 0
}

pub fn cookie_hint(status: Status, cookies: usize) -> (b: bool)
    ensures
        b == suggests_cookies(status, cookies),
{
    status == Status::Failed && cookies == 0
}

/// Jobs done, running, waiting and failed (or canceled).
pub open spec fn counts_of(jobs: Seq<JobView>) -> (nat, nat, nat, nat)
    decreases jobs.len(),
{
    if jobs.len() == 0 {
        (0, 0, 0, 0)
    } else {
        let c = counts_of(jobs.drop_last());
        let s = jobs.last().status;
        (
            c.0 + if s is Done { 1nat } else { 0nat },
            c.1 + if s.is_active() { 1nat } else { 0nat },
            c.2 + if s is Queued { 1nat } else { 0nat },
            c.3 + if s is Failed || s is Canceled { 1nat } else { 0nat },
        )
    }
}

proof fn lemma_counts_bounded(jobs: Seq<JobView>)
    ensures
        counts_of(jobs).0 <= jobs.len(),
        counts_of(jobs).1 <= jobs.len(),
        counts_of(jobs).2 <= jobs.len(),
        counts_of(jobs).3 <= jobs.len(),
    decreases jobs.len(),
{
    if jobs.len() > 0 {
        lemma_counts_bounded(jobs.drop_last());
    }
}

/// The stats panel's counts: done, running, queued, failed.
pub fn queue_counts(jobs: &Vec<Job>) -> (r: (usize, usize, usize, usize))
    ensures
        (r.0 as nat, r.1 as nat, r.2 as nat, r.3 as nat) == counts_of(jobs_view(jobs@)),
{
    let ghost v = jobs_view(jobs@);
    let mut c: (usize, usize, usize, usize) = (0, 0, 0, 0);
    let mut i: usize = 0;
    while i < jobs.len()
        invariant
            i <= jobs@.len(),
            v == jobs_view(jobs@),
            (c.0 as nat, c.1 as nat, c.2 as nat, c.3 as nat) == counts_of(v.take(i as int)),
        decreases jobs@.len() - i,
    {
        proof {
            lemma_counts_bounded(v.take(i as int));
        }
        assert(v.take(i + 1).drop_last() =~= v.take(i as int));
        assert(v[i as int].status == jobs@[i as int].status);
        let s = jobs[i].status;
        if s == Status::Done {
            c.0 = c.0 + 1;
        }
        if s.active() {
            c.1 = c.1 + 1;
        }
        if s == Status::Queued {
            c.2 = c.2 + 1;
        }
        if s == Status::Failed || s == Status::Canceled {
            c.3 = c.3 + 1;
        }
        i += 1;
    }
    assert(v.take(i as int) =~= v);
    c
}


// ---- where things go on screen ----------------------------------------------

/// The rectangle stays on a 16-bit screen.
pub open spec fn fits(r: Rect) -> bool {
    r.x + r.width <= u16::MAX && r.y + r.height <= u16::MAX
}

/// The start button: 20 by 3 cells at most, centred across `side` and one
/// line above its bottom (room for the caption).
pub open spec fn button_in(side: Rect) -> Rect {
    let width = if side.width < 20 { side.width } else { 20 };
    let height = if side.height < 3 { side.height } else { 3 };
    let below = if side.height > height + 1 { side.height - (height + 1) } else { 0 };
    Rect {
        x: (side.x + (side.width - width) / 2) as u16,
        y: (side.y + below) as u16,
        width,
        height,
    }
}

pub fn start_button_area(side: Rect) -> (r: Rect)
    requires
        fits(side),
    ensures
        r == button_in(side),
{
    let width: u16 = if side.width < 20 { side.width } else { 20 };
    let height: u16 = if side.height < 3 { side.height } else { 3 };
    let below: u16 = if side.height > height + 1 { side.height - (height + 1) } else { 0 };
    Rect { x: side.x + (side.width - width) / 2, y: side.y + below, width, height }
}

/// The clickable rows of the queue: the table without its header line.
pub open spec fn rows_in(inner: Rect) -> Rect {
    Rect {
        x: inner.x,
        y: (inner.y + 1) as u16,
        width: inner.width,
        height: if inner.height > 0 { (inner.height - 1) as u16 } else { 0 },
    }
}

pub fn queue_rows_area(inner: Rect) -> (r: Rect)
    requires
        inner.y < u16::MAX,
    ensures
        r == rows_in(inner),
{
    Rect {
        x: inner.x,
        y: inner.y + 1,
        width: inner.width,
        height: if inner.height > 0 { inner.height - 1 } else { 0 },
    }
}

/// The staging panel's height in the wide layout: 45% of the left column,
/// from 9 to 18 lines.
pub open spec fn add_height_of(column: u16) -> u16 {
    let h = (column as nat * 45 / 100) as u16;
    if h < 9 {
        9
    } else if h > 18 {
        18
    } else {
        h
    }
}

pub fn add_height(column: u16) -> (h: u16)
    ensures
        h == add_height_of(column),
{
    let h = (column as u32 * 45 / 100) as u16;
    if h < 9 {
        9
    } else if h > 18 {
        18
    } else {
        h
    }
}

/// The speed graph's height in the wide layout, by the right column's height.
pub open spec fn graph_height_of(column: u16) -> u16 {
    if column >= 34 {
        17
    } else if column >= 26 {
        13
    } else {
        9
    }
}

pub fn graph_height(column: u16) -> (h: u16)
    ensures
        h == graph_height_of(column),
{
    if column >= 34 {
        17
    } else if column >= 26 {
        13
    } else {
        9
    }
}

} // verus!
