//! The dashboard's state: staged links, the download queue, selection and
//! focus, and how keys, clicks and yt-dlp's messages change it.
//!
//! Everything here is a decision on plain values. Starting and stopping
//! processes, the clipboard, the clock and the screen belong to the caller,
//! which performs the `Effect` a key asks for and reports back.

use vstd::prelude::*;
use vstd::string::StringExecFns;
use crate::link::{link_key, normalize, short_url, short_url_of, urls_in, extract_urls};
use crate::text::{
    chars_of, copy_text, dec, pop_char, push_char, push_dec, push_range, same_text, trim_in, trim_ws,
};

verus! {

// ---- the pieces -------------------------------------------------------------

#[derive(Clone, Copy, Debug, PartialEq, Eq, Structural)]
pub enum Status {
    Queued,
    Fetching,
    Downloading,
    Converting,
    Done,
    Failed,
    Canceled,
}

impl Status {
    /// A process is running for the job.
    pub open spec fn is_active(self) -> bool {
        self is Fetching || self is Downloading || self is Converting
    }

    pub fn active(self) -> (b: bool)
        ensures
            b == self.is_active(),
    {
        match self {
            Status::Fetching | Status::Downloading | Status::Converting => true,
            _ => false,
        }
    }
}

/// A link waiting in the staging panel, not yet handed to yt-dlp.
pub struct Staged {
    pub url: String,
    /// The same reel is already in the queue: starting skips it.
    pub dup: bool,
}

pub struct StagedView {
    pub url: Seq<char>,
    pub dup: bool,
}

impl View for Staged {
    type V = StagedView;

    open spec fn view(&self) -> StagedView {
        StagedView { url: self.url@, dup: self.dup }
    }
}

/// One download. Speeds, timings and the length of the reel are floating
/// point and time values that the caller keeps beside it, by `id`.
pub struct Job {
    pub id: usize,
    pub url: String,
    pub status: Status,
    pub title: Option<String>,
    pub uploader: Option<String>,
    pub done: u64,
    pub last_done: u64,
    pub total: Option<u64>,
    pub eta: Option<u64>,
    pub file: Option<String>,
    pub size: Option<u64>,
    pub error: Option<String>,
    /// The last lines of yt-dlp's other output, oldest first.
    pub log: Vec<String>,
    /// Bytes actually crossed the wire (false when yt-dlp reused a local file).
    pub got_bytes: bool,
    pub cached: bool,
}

pub struct JobView {
    pub id: usize,
    pub url: Seq<char>,
    pub status: Status,
    pub title: Option<Seq<char>>,
    pub uploader: Option<Seq<char>>,
    pub done: u64,
    pub last_done: u64,
    pub total: Option<u64>,
    pub eta: Option<u64>,
    pub file: Option<Seq<char>>,
    pub size: Option<u64>,
    pub error: Option<Seq<char>>,
    pub log: Seq<Seq<char>>,
    pub got_bytes: bool,
    pub cached: bool,
}

pub open spec fn opt_view(o: Option<String>) -> Option<Seq<char>> {
    match o {
        Some(s) => Some(s@),
        None => None,
    }
}

pub open spec fn lines_view(v: Seq<String>) -> Seq<Seq<char>> {
    v.map_values(|s: String| s@)
}

impl View for Job {
    type V = JobView;

    open spec fn view(&self) -> JobView {
        JobView {
            id: self.id,
            url: self.url@,
            status: self.status,
            title: opt_view(self.title),
            uploader: opt_view(self.uploader),
            done: self.done,
            last_done: self.last_done,
            total: self.total,
            eta: self.eta,
            file: opt_view(self.file),
            size: self.size,
            error: opt_view(self.error),
            log: lines_view(self.log@),
            got_bytes: self.got_bytes,
            cached: self.cached,
        }
    }
}

/// A job as it is when first queued, or queued again.
pub open spec fn fresh_job(id: usize, url: Seq<char>) -> JobView {
    JobView {
        id,
        url,
        status: Status::Queued,
        title: None,
        uploader: None,
        done: 0,
        last_done: 0,
        total: None,
        eta: None,
        file: None,
        size: None,
        error: None,
        log: seq![],
        got_bytes: false,
        cached: false,
    }
}

#[derive(Clone, Copy, Debug, PartialEq, Eq, Structural)]
pub enum Focus {
    Add,
    Queue,
    Input,
}

/// The colour family of a message, which the screen maps to its palette.
#[derive(Clone, Copy, Debug, PartialEq, Eq, Structural)]
pub enum Tone {
    /// Success (green).
    Good,
    /// Nothing happened (amber).
    Warn,
    /// Something failed (red).
    Alert,
    Accent,
    Cyan,
    Dim,
    Violet,
}

/// A short message on the prompt line.
pub struct Flash {
    pub text: String,
    pub tone: Tone,
}

pub struct FlashView {
    pub text: Seq<char>,
    pub tone: Tone,
}

pub open spec fn flash_view(f: Option<Flash>) -> Option<FlashView> {
    match f {
        Some(f) => Some(FlashView { text: f.text@, tone: f.tone }),
        None => None,
    }
}

/// A screen rectangle, in cells.
#[derive(Clone, Copy, Debug, PartialEq, Eq, Structural)]
pub struct Rect {
    pub x: u16,
    pub y: u16,
    pub width: u16,
    pub height: u16,
}

impl Rect {
    pub open spec fn holds(self, column: u16, row: u16) -> bool {
        self.width > 0 && self.x <= column < self.x + self.width && self.y <= row < self.y
            + self.height
    }

    pub fn zero() -> (r: Rect)
        ensures
            r == (Rect { x: 0, y: 0, width: 0, height: 0 }),
    {
        Rect { x: 0, y: 0, width: 0, height: 0 }
    }

    /// Whether the cell at `column`, `row` lies inside.
    pub fn contains(self, column: u16, row: u16) -> (b: bool)
        ensures
            b == self.holds(column, row),
    {
        self.width > 0 && column >= self.x && (column as u32) < self.x as u32 + self.width as u32
            && row >= self.y && (row as u32) < self.y as u32 + self.height as u32
    }
}

// ---- the state ----------------------------------------------------------------

pub struct App {
    pub jobs: Vec<Job>,
    pub staged: Vec<Staged>,
    pub staged_sel: usize,
    pub next_id: usize,
    /// The selected queue row.
    pub selected: Option<usize>,
    /// The first queue row on screen, as the renderer last scrolled it.
    pub offset: usize,
    pub focus: Focus,
    pub input: String,
    /// Which of the cookie choices is in use.
    pub cookies: usize,
    /// How many downloads may run at once.
    pub workers: usize,
    pub session_bytes: u64,
    /// MP3 files in the output folder, and their bytes.
    pub library: (usize, u64),
    pub flash: Option<Flash>,
    /// How many messages have been flashed; the caller stamps the time when it moves.
    pub flashes: u64,
    pub tick: u64,
    /// Clickable regions, refreshed every frame by the renderer.
    pub hit_start: Rect,
    pub hit_staged: Rect,
    pub hit_rows: Rect,
    pub should_quit: bool,
}

pub struct AppView {
    pub jobs: Seq<JobView>,
    pub staged: Seq<StagedView>,
    pub staged_sel: usize,
    pub next_id: usize,
    pub selected: Option<usize>,
    pub offset: usize,
    pub focus: Focus,
    pub input: Seq<char>,
    pub cookies: usize,
    pub workers: usize,
    pub session_bytes: u64,
    pub library: (usize, u64),
    pub flash: Option<FlashView>,
    pub flashes: u64,
    pub tick: u64,
    pub hit_start: Rect,
    pub hit_staged: Rect,
    pub hit_rows: Rect,
    pub should_quit: bool,
}

pub open spec fn jobs_view(v: Seq<Job>) -> Seq<JobView> {
    v.map_values(|j: Job| j@)
}

pub open spec fn staged_view(v: Seq<Staged>) -> Seq<StagedView> {
    v.map_values(|s: Staged| s@)
}

impl View for App {
    type V = AppView;

    open spec fn view(&self) -> AppView {
        AppView {
            jobs: jobs_view(self.jobs@),
            staged: staged_view(self.staged@),
            staged_sel: self.staged_sel,
            next_id: self.next_id,
            selected: self.selected,
            offset: self.offset,
            focus: self.focus,
            input: self.input@,
            cookies: self.cookies,
            workers: self.workers,
            session_bytes: self.session_bytes,
            library: self.library,
            flash: flash_view(self.flash),
            flashes: self.flashes,
            tick: self.tick,
            hit_start: self.hit_start,
            hit_staged: self.hit_staged,
            hit_rows: self.hit_rows,
            should_quit: self.should_quit,
        }
    }
}

/// The number of cookie choices: none, then four browsers.
pub open spec fn cookie_choices() -> usize {
    5
}

impl AppView {
    /// What holds of every state the dashboard reaches.
    pub open spec fn wf(self) -> bool {
        &&& self.cookies < cookie_choices()
        &&& 1 <= self.workers <= 6
        &&& self.staged.len() > 0 ==> self.staged_sel < self.staged.len()
        &&& forall|i: int, j: int|
            0 <= i < j < self.jobs.len() ==> (#[trigger] self.jobs[i]).id < (#[trigger] self.jobs[j]).id
        &&& forall|i: int| 0 <= i < self.jobs.len() ==> (#[trigger] self.jobs[i]).id < self.next_id
        &&& forall|i: int| 0 <= i < self.jobs.len() ==> (#[trigger] self.jobs[i]).log.len() <= 8
        &&& forall|i: int, j: int|
            0 <= i < j < self.staged.len() ==> link_key((#[trigger] self.staged[i]).url)
                != link_key((#[trigger] self.staged[j]).url)
    }

    /// The next message shown: `text` in `tone`.
    pub open spec fn flashed(self, text: Seq<char>, tone: Tone) -> AppView {
        AppView {
            flash: Some(FlashView { text, tone }),
            flashes: next_count(self.flashes),
            ..self
        }
    }
}

pub open spec fn next_count(n: u64) -> u64 {
    if n < u64::MAX {
        (n + 1) as u64
    } else {
        0
    }
}

/// Jobs with a process running.
pub open spec fn active_count(jobs: Seq<JobView>) -> nat
    decreases jobs.len(),
{
    if jobs.len() == 0 {
        0
    } else {
        active_count(jobs.drop_last()) + if jobs.last().status.is_active() {
            1nat
        } else {
            0nat
        }
    }
}

/// Staged links that starting would queue.
pub open spec fn ready_count_of(staged: Seq<StagedView>) -> nat
    decreases staged.len(),
{
    if staged.len() == 0 {
        0
    } else {
        ready_count_of(staged.drop_last()) + if staged.last().dup {
            0nat
        } else {
            1nat
        }
    }
}

/// Where the first job with status `s` at or after `i` is.
pub open spec fn first_with_status(jobs: Seq<JobView>, s: Status, i: int) -> Option<int>
    decreases jobs.len() - i,
{
    if i < 0 || i >= jobs.len() {
        None
    } else if jobs[i].status == s {
        Some(i)
    } else {
        first_with_status(jobs, s, i + 1)
    }
}

/// Where the first job with this id at or after `i` is.
pub open spec fn index_of_id(jobs: Seq<JobView>, id: usize, i: int) -> Option<int>
    decreases jobs.len() - i,
{
    if i < 0 || i >= jobs.len() {
        None
    } else if jobs[i].id == id {
        Some(i)
    } else {
        index_of_id(jobs, id, i + 1)
    }
}

/// The name of a cookie choice.
pub open spec fn cookie_label(i: usize) -> Seq<char> {
    if i == 1 {
        "chromium"@
    } else if i == 2 {
        "firefox"@
    } else if i == 3 {
        "chrome"@
    } else if i == 4 {
        "brave"@
    } else {
        "none"@
    }
}

/// The browser whose cookies a choice passes to yt-dlp: none for choice 0.
pub fn cookie_choice(i: usize) -> (r: Option<&'static str>)
    requires
        i < cookie_choices(),
    ensures
        i == 0 <==> r is None,
        r matches Some(b) ==> b@ == cookie_label(i),
{
    if i == 1 {
        Some("chromium")
    } else if i == 2 {
        Some("firefox")
    } else if i == 3 {
        Some("chrome")
    } else if i == 4 {
        Some("brave")
    } else {
        None
    }
}

/// The first cookie choice that names this browser.
pub open spec fn cookie_pos(name: Seq<char>) -> Option<usize> {
    if cookie_label(1) == name {
        Some(1)
    } else if cookie_label(2) == name {
        Some(2)
    } else if cookie_label(3) == name {
        Some(3)
    } else if cookie_label(4) == name {
        Some(4)
    } else {
        None
    }
}

/// The choice that names this browser (`--cookies`), if any.
pub fn cookie_index(name: &str) -> (r: Option<usize>)
    ensures
        r == cookie_pos(name@),
{
    let mut i: usize = 1;
    while i < 5
        invariant
            1 <= i <= 5,
            forall|k: usize| 1 <= k < i ==> cookie_label(k) != name@,
        decreases 5 - i,
    {
        let label = match cookie_choice(i) {
            Some(b) => b,
            None => "",
        };
        if same_text(label, name) {
            return Some(i);
        }
        i += 1;
    }
    None
}


impl Job {
    pub fn new(id: usize, url: String) -> (j: Job)
        ensures
            j@ == fresh_job(id, url@),
    {
        let j = Job {
            id,
            url,
            status: Status::Queued,
            title: None,
            uploader: None,
            done: 0,
            last_done: 0,
            total: None,
            eta: None,
            file: None,
            size: None,
            error: None,
            log: Vec::new(),
            got_bytes: false,
            cached: false,
        };
        assert(lines_view(j.log@) =~= Seq::<Seq<char>>::empty());
        j
    }

    /// Display name: the reel's title once yt-dlp reports one, the short
    /// link until then.
    pub fn label(&self) -> (r: &str)
        ensures
            r@ == match self.title {
                Some(t) => t@,
                None => short_url_of(self.url@),
            },
    {
        match &self.title {
            Some(t) => t.as_str(),
            None => short_url(self.url.as_str()),
        }
    }

    /// Back to a freshly queued job with the same id and link.
    pub fn reset(&mut self)
        ensures
            final(self)@ == fresh_job(old(self).id, old(self).url@),
    {
        let url = self.url.clone();
        *self = Job::new(self.id, url);
    }
}

pub open spec fn clamp(v: int, lo: int, hi: int) -> int {
    if v < lo {
        lo
    } else if v > hi {
        hi
    } else {
        v
    }
}

pub open spec fn min_nat(a: int, b: int) -> int {
    if a < b {
        a
    } else {
        b
    }
}

/// `n.saturating_sub(1)`.
pub open spec fn last_index(n: int) -> int {
    if n > 0 {
        n - 1
    } else {
        0
    }
}

impl AppView {
    /// The state a session starts in.
    pub open spec fn initial(cookies: usize) -> AppView {
        AppView {
            jobs: seq![],
            staged: seq![],
            staged_sel: 0,
            next_id: 0,
            selected: Some(0),
            offset: 0,
            focus: Focus::Add,
            input: seq![],
            cookies,
            workers: 2,
            session_bytes: 0,
            library: (0, 0),
            flash: None,
            flashes: 0,
            tick: 0,
            hit_start: Rect { x: 0, y: 0, width: 0, height: 0 },
            hit_staged: Rect { x: 0, y: 0, width: 0, height: 0 },
            hit_rows: Rect { x: 0, y: 0, width: 0, height: 0 },
            should_quit: false,
        }
    }

    /// `d` in the staging panel: the selected staged link is dropped.
    pub open spec fn after_drop_staged(self) -> AppView {
        if self.staged.len() == 0 {
            self
        } else {
            let i = min_nat(self.staged_sel as int, self.staged.len() - 1);
            AppView {
                staged: self.staged.remove(i),
                staged_sel: min_nat(i, last_index(self.staged.len() - 1)) as usize,
                ..self
            }
        }
    }

    /// The selection moves by `delta` rows and stops at the ends, in the staging
    /// panel or else the queue.
    pub open spec fn after_move(self, delta: int) -> AppView {
        match self.focus {
            Focus::Add => if self.staged.len() == 0 {
                self
            } else {
                AppView {
                    staged_sel: clamp(self.staged_sel + delta, 0, self.staged.len() - 1) as usize,
                    ..self
                }
            },
            _ => if self.jobs.len() == 0 {
                self
            } else {
                let cur = match self.selected {
                    Some(i) => i as int,
                    None => 0,
                };
                AppView {
                    selected: Some(clamp(cur + delta, 0, self.jobs.len() - 1) as usize),
                    ..self
                }
            },
        }
    }

    /// The queued job to start next, while fewer than `workers` run.
    pub open spec fn next_start(self) -> Option<int> {
        if active_count(self.jobs) >= self.workers {
            None
        } else {
            first_with_status(self.jobs, Status::Queued, 0)
        }
    }

    /// Job `i`'s status becomes `s`.
    pub open spec fn with_status(self, i: int, s: Status) -> AppView {
        AppView { jobs: self.jobs.update(i, JobView { status: s, ..self.jobs[i] }), ..self }
    }

    /// Job `i` could not be started: it fails, saying why.
    pub open spec fn start_failed_at(self, i: int, reason: Seq<char>) -> AppView {
        AppView {
            jobs: self.jobs.update(
                i,
                JobView {
                    status: Status::Failed,
                    error: Some("could not start yt-dlp: "@ + reason),
                    ..self.jobs[i]
                },
            ),
            ..self
        }
    }
}

/// Some staged link is the same reel as `key`.
pub open spec fn staging_holds(st: Seq<StagedView>, key: Seq<char>) -> bool {
    exists|i: int| 0 <= i < st.len() && link_key(#[trigger] st[i].url) == key
}

/// Some queued job is the same reel as `key`.
pub open spec fn queue_holds(jobs: Seq<JobView>, key: Seq<char>) -> bool {
    exists|i: int| 0 <= i < jobs.len() && link_key(#[trigger] jobs[i].url) == key
}

/// Staging `urls` one after another: a link is skipped when the staging
/// panel already holds the same reel; otherwise it is added, marked as a
/// duplicate when the queue holds that reel.
pub open spec fn stage_links(st: Seq<StagedView>, jobs: Seq<JobView>, urls: Seq<Seq<char>>) -> Seq<StagedView>
    decreases urls.len(),
{
    if urls.len() == 0 {
        st
    } else {
        let before = stage_links(st, jobs, urls.drop_last());
        let u = urls.last();
        if staging_holds(before, link_key(u)) {
            before
        } else {
            before.push(StagedView { url: u, dup: queue_holds(jobs, link_key(u)) })
        }
    }
}

/// What the prompt says after staging: `added` new links, `repeats` already there.
pub open spec fn stage_note(added: nat, repeats: nat) -> (Seq<char>, Tone) {
    if added == 0 && repeats == 0 {
        ("no links found in that text"@, Tone::Warn)
    } else if added == 0 {
        ("already staged ("@ + dec(repeats) + seq![')'], Tone::Warn)
    } else {
        (seq!['+'] + dec(added) + " staged — press enter to start"@, Tone::Good)
    }
}

/// The staged links that are not already queued, in order.
pub open spec fn ready_urls(st: Seq<StagedView>) -> Seq<Seq<char>>
    decreases st.len(),
{
    if st.len() == 0 {
        seq![]
    } else {
        let r = ready_urls(st.drop_last());
        if st.last().dup {
            r
        } else {
            r.push(st.last().url)
        }
    }
}

/// New jobs for `urls`, numbered from `first_id`.
pub open spec fn new_jobs(first_id: usize, urls: Seq<Seq<char>>) -> Seq<JobView> {
    Seq::new(urls.len(), |k: int| fresh_job((first_id + k) as usize, urls[k]))
}

/// What the prompt says after starting `started` jobs and skipping `skipped`
/// links that were already queued.
pub open spec fn start_note(started: nat, skipped: nat) -> Seq<char> {
    if skipped > 0 {
        "started "@ + dec(started) + " · skipped "@ + dec(skipped) + " already queued"@
    } else {
        "started "@ + dec(started)
    }
}

impl AppView {
    /// Paste or type: every link in `text` is staged; nothing is queued.
    pub open spec fn after_stage(self, text: Seq<char>) -> AppView {
        let urls = urls_in(text);
        let st = stage_links(self.staged, self.jobs, urls);
        let added = (st.len() - self.staged.len()) as nat;
        let note = stage_note(added, (urls.len() - added) as nat);
        AppView {
            staged: st,
            staged_sel: min_nat(self.staged_sel as int, last_index(st.len() as int)) as usize,
            ..self.flashed(note.0, note.1)
        }
    }

    /// Start: the staged links that are not already queued become queued
    /// jobs, in order, and the staging panel empties.
    pub open spec fn after_start(self) -> AppView {
        if self.staged.len() == 0 {
            self.flashed("nothing staged — paste some links first"@, Tone::Warn)
        } else {
            let urls = ready_urls(self.staged);
            if urls.len() == 0 {
                AppView { staged: seq![], ..self.flashed("those are already in the queue"@, Tone::Warn) }
            } else {
                let s = self.flashed(
                    start_note(urls.len(), (self.staged.len() - urls.len()) as nat),
                    Tone::Accent,
                );
                AppView {
                    jobs: self.jobs + new_jobs(self.next_id, urls),
                    staged: seq![],
                    staged_sel: 0,
                    next_id: (self.next_id + urls.len()) as usize,
                    selected: if self.selected is None {
                        Some(0)
                    } else {
                        self.selected
                    },
                    ..s
                }
            }
        }
    }

    /// Room to number every staged link as a job.
    pub open spec fn room_for_staged(self) -> bool {
        self.next_id + self.staged.len() <= usize::MAX
    }

    /// The key starts what is staged.
    pub open spec fn key_starts(self, k: Key) -> bool {
        let code = k.code;
        &&& !(k.ctrl && (is_char(code, 'c') || is_char(code, 'v')))
        &&& !(self.focus is Input)
        &&& ((code == KeyCode::Enter && (self.focus is Add || self.staged.len() > 0)) || is_char(
            code,
            's',
        ))
    }

    /// The click starts what is staged.
    pub open spec fn click_starts(self, m: Mouse) -> bool {
        m.kind is LeftDown && self.hit_start.holds(m.column, m.row)
    }
}

pub proof fn lemma_ready_urls(st: Seq<StagedView>)
    ensures
        ready_urls(st).len() == ready_count_of(st),
        ready_urls(st).len() <= st.len(),
    decreases st.len(),
{
    if st.len() > 0 {
        lemma_ready_urls(st.drop_last());
    }
}

/// What the caller learned about a job, with yt-dlp's numbers already read
/// and the finished file's size already looked up.
pub enum Update {
    Meta { id: usize, uploader: Option<String>, title: Option<String> },
    Progress { id: usize, done: u64, total: Option<u64>, eta: Option<u64> },
    Post { id: usize, status: String },
    File { id: usize, path: String, size: Option<u64> },
    Error { id: usize, msg: String },
    Log { id: usize, line: String },
    Exit { id: usize, code: Option<i32> },
}

pub enum UpdateView {
    Meta { id: usize, uploader: Option<Seq<char>>, title: Option<Seq<char>> },
    Progress { id: usize, done: u64, total: Option<u64>, eta: Option<u64> },
    Post { id: usize, status: Seq<char> },
    File { id: usize, path: Seq<char>, size: Option<u64> },
    Error { id: usize, msg: Seq<char> },
    Log { id: usize, line: Seq<char> },
    Exit { id: usize, code: Option<i32> },
}

impl View for Update {
    type V = UpdateView;

    open spec fn view(&self) -> UpdateView {
        match self {
            Update::Meta { id, uploader, title } => UpdateView::Meta {
                id: *id,
                uploader: opt_view(*uploader),
                title: opt_view(*title),
            },
            Update::Progress { id, done, total, eta } => UpdateView::Progress {
                id: *id,
                done: *done,
                total: *total,
                eta: *eta,
            },
            Update::Post { id, status } => UpdateView::Post { id: *id, status: status@ },
            Update::File { id, path, size } => UpdateView::File { id: *id, path: path@, size: *size },
            Update::Error { id, msg } => UpdateView::Error { id: *id, msg: msg@ },
            Update::Log { id, line } => UpdateView::Log { id: *id, line: line@ },
            Update::Exit { id, code } => UpdateView::Exit { id: *id, code: *code },
        }
    }
}

impl UpdateView {
    pub open spec fn job_id(self) -> usize {
        match self {
            UpdateView::Meta { id, .. } => id,
            UpdateView::Progress { id, .. } => id,
            UpdateView::Post { id, .. } => id,
            UpdateView::File { id, .. } => id,
            UpdateView::Error { id, .. } => id,
            UpdateView::Log { id, .. } => id,
            UpdateView::Exit { id, .. } => id,
        }
    }
}

/// `n` in decimal with its sign, as `format!("{n}")` writes an `i32`.
pub open spec fn signed_dec(n: int) -> Seq<char> {
    if n < 0 {
        seq!['-'] + dec((-n) as nat)
    } else {
        dec(n as nat)
    }
}

/// Why a job failed when yt-dlp said nothing itself.
pub open spec fn exit_reason(code: Option<i32>) -> Seq<char> {
    match code {
        Some(c) => "yt-dlp exited with code "@ + signed_dec(c as int),
        None => "yt-dlp was terminated"@,
    }
}

/// The job once its process has ended with `code`: a canceled job stays
/// canceled; exit code 0 is done (from the folder's copy when no bytes came
/// in); anything else failed.
pub open spec fn exited(j: JobView, code: Option<i32>) -> JobView {
    let j1 = JobView { eta: None, ..j };
    if j.status is Canceled {
        j1
    } else if code == Some(0i32) {
        JobView {
            status: Status::Done,
            cached: !j.got_bytes,
            error: if j.file is None {
                Some("already saved earlier — nothing to download"@)
            } else {
                j.error
            },
            ..j1
        }
    } else {
        JobView {
            status: Status::Failed,
            error: if j.error is None {
                Some(exit_reason(code))
            } else {
                j.error
            },
            ..j1
        }
    }
}

/// The log keeps the last eight lines.
pub open spec fn logged(log: Seq<Seq<char>>, line: Seq<char>) -> Seq<Seq<char>> {
    (if log.len() == 8 {
        log.drop_first()
    } else {
        log
    }).push(line)
}

/// A job once it has taken in `u`.
pub open spec fn updated(j: JobView, u: UpdateView) -> JobView {
    match u {
        UpdateView::Meta { uploader, title, .. } => JobView { uploader, title, ..j },
        UpdateView::Progress { done, total, eta, .. } => JobView {
            status: if j.status is Converting {
                Status::Converting
            } else {
                Status::Downloading
            },
            done,
            got_bytes: j.got_bytes || done > 0,
            total: if total is Some {
                total
            } else {
                j.total
            },
            eta,
            ..j
        },
        UpdateView::Post { status, .. } => if status != "finished"@ {
            JobView { status: Status::Converting, eta: None, ..j }
        } else {
            j
        },
        UpdateView::File { path, size, .. } => JobView { size, file: Some(path), ..j },
        UpdateView::Error { msg, .. } => JobView { error: Some(msg), ..j },
        UpdateView::Log { line, .. } => JobView { log: logged(j.log, line), ..j },
        UpdateView::Exit { code, .. } => exited(j, code),
    }
}

/// The bytes a finished download adds to the session's total.
pub open spec fn finished_bytes(j: JobView, u: UpdateView) -> u64 {
    match u {
        UpdateView::Exit { code, .. } => if !(j.status is Canceled) && code == Some(0i32) {
            match j.size {
                Some(n) => n,
                None => 0,
            }
        } else {
            0
        },
        _ => 0,
    }
}

impl AppView {
    /// A message from a job's process is applied to that job; messages for
    /// jobs no longer in the queue are dropped.
    pub open spec fn after_update(self, u: UpdateView) -> AppView {
        match index_of_id(self.jobs, u.job_id(), 0) {
            None => self,
            Some(i) => AppView {
                jobs: self.jobs.update(i, updated(self.jobs[i], u)),
                session_bytes: self.session_bytes.wrapping_add(finished_bytes(self.jobs[i], u)),
                ..self
            },
        }
    }

    /// Whether applying `u` finished a download of some bytes, so that the
    /// folder's contents changed.
    pub open spec fn update_saves(self, u: UpdateView) -> bool {
        match index_of_id(self.jobs, u.job_id(), 0) {
            None => false,
            Some(i) => finished_bytes(self.jobs[i], u) > 0,
        }
    }
}

pub proof fn lemma_index_of_id_none(jobs: Seq<JobView>, id: usize, i: int)
    requires
        0 <= i <= jobs.len(),
        forall|t: int| 0 <= t < jobs.len() ==> (#[trigger] jobs[t]).id != id,
    ensures
        index_of_id(jobs, id, i) is None,
    decreases jobs.len() - i,
{
    if i < jobs.len() {
        lemma_index_of_id_none(jobs, id, i + 1);
    }
}

pub proof fn lemma_index_of_id(jobs: Seq<JobView>, id: usize, i: int)
    requires
        0 <= i <= jobs.len(),
    ensures
        match index_of_id(jobs, id, i) {
            Some(k) => i <= k < jobs.len() && jobs[k].id == id,
            None => forall|t: int| i <= t < jobs.len() ==> jobs[t].id != id,
        },
    decreases jobs.len() - i,
{
    if i < jobs.len() && jobs[i].id != id {
        lemma_index_of_id(jobs, id, i + 1);
    }
}

/// The jobs `clear` keeps: every one not done, in order.
pub open spec fn unfinished(jobs: Seq<JobView>) -> Seq<JobView>
    decreases jobs.len(),
{
    if jobs.len() == 0 {
        seq![]
    } else {
        let r = unfinished(jobs.drop_last());
        if jobs.last().status is Done {
            r
        } else {
            r.push(jobs.last())
        }
    }
}

impl AppView {
    /// The row `d` acts on in the queue.
    pub open spec fn row(self) -> Option<int> {
        match self.selected {
            Some(i) => if i < self.jobs.len() {
                Some(i as int)
            } else {
                None
            },
            None => None,
        }
    }

    /// `d` in the queue: a running job is canceled, anything else is removed.
    pub open spec fn after_cancel_or_remove(self) -> AppView {
        match self.row() {
            None => self,
            Some(i) => if self.jobs[i].status.is_active() {
                AppView {
                    jobs: self.jobs.update(
                        i,
                        JobView { status: Status::Canceled, error: Some("canceled"@), ..self.jobs[i] },
                    ),
                    ..self
                }.flashed("canceled"@, Tone::Warn)
            } else {
                let n = self.jobs.len() - 1;
                AppView {
                    jobs: self.jobs.remove(i),
                    selected: Some(
                        if n == 0 {
                            0
                        } else {
                            min_nat(i, n - 1) as usize
                        },
                    ),
                    ..self
                }
            },
        }
    }

    /// The job whose process `d` stops, if it cancels one.
    pub open spec fn cancel_target(self) -> Option<usize> {
        match self.row() {
            Some(i) => if self.jobs[i].status.is_active() {
                Some(self.jobs[i].id)
            } else {
                None
            },
            None => None,
        }
    }

    /// Whether retrying (every failure when `all`, else the selected row)
    /// takes job `i`: failed and canceled jobs for `all`; the selected row
    /// when it is neither running nor waiting.
    pub open spec fn retries(self, all: bool, i: int) -> bool {
        if all {
            self.jobs[i].status is Failed || self.jobs[i].status is Canceled
        } else {
            self.selected == Some(i as usize) && !self.jobs[i].status.is_active()
                && !(self.jobs[i].status is Queued)
        }
    }

    /// The ids of the jobs among the first `n` that a retry takes, in order.
    pub open spec fn retry_ids(self, all: bool, n: int) -> Seq<usize>
        decreases n,
    {
        if n <= 0 {
            seq![]
        } else {
            let r = self.retry_ids(all, n - 1);
            if self.retries(all, n - 1) {
                r.push(self.jobs[n - 1].id)
            } else {
                r
            }
        }
    }

    /// `r` / `R`: the jobs taken are queued again from scratch.
    pub open spec fn after_retry(self, all: bool) -> AppView {
        let n = self.retry_ids(all, self.jobs.len() as int).len();
        if n == 0 {
            self.flashed("nothing to retry"@, Tone::Warn)
        } else {
            AppView {
                jobs: Seq::new(
                    self.jobs.len(),
                    |i: int|
                        if self.retries(all, i) {
                            fresh_job(self.jobs[i].id, self.jobs[i].url)
                        } else {
                            self.jobs[i]
                        },
                ),
                ..self
            }.flashed("retrying "@ + dec(n), Tone::Cyan)
        }
    }

    /// `x` in the queue: finished jobs leave it.
    pub open spec fn after_clear(self) -> AppView {
        let kept = unfinished(self.jobs);
        let cur = match self.selected {
            Some(i) => i as int,
            None => 0,
        };
        AppView {
            jobs: kept,
            selected: Some(min_nat(cur, last_index(kept.len() as int)) as usize),
            ..self
        }.flashed("cleared "@ + dec((self.jobs.len() - kept.len()) as nat), Tone::Dim)
    }

    /// `q`: with downloads running, the first press only warns; otherwise, or
    /// when the last warning is still fresh (`armed`), the dashboard quits.
    pub open spec fn after_quit(self, armed: bool) -> AppView {
        let n = active_count(self.jobs);
        if n > 0 && !armed {
            self.flashed(dec(n) + " still running — press q again to quit"@, Tone::Warn)
        } else {
            AppView { should_quit: true, ..self }
        }
    }

    /// The file of the selected row, if it has one.
    pub open spec fn play_target(self) -> Option<Seq<char>> {
        let i = match self.selected {
            Some(i) => i as int,
            None => 0,
        };
        if i < self.jobs.len() {
            self.jobs[i].file
        } else {
            None
        }
    }

    /// `p`: the selected row's file is opened, if it has one.
    pub open spec fn after_play(self) -> AppView {
        if self.play_target() is Some {
            self
        } else {
            self.flashed("no file for that row yet"@, Tone::Warn)
        }
    }

    /// `c`: the next cookie choice, round the five.
    pub open spec fn after_cookies(self) -> AppView {
        let c = ((self.cookies + 1) % 5) as usize;
        AppView { cookies: c, ..self }.flashed("cookies: "@ + cookie_label(c), Tone::Violet)
    }

    /// `+` / `-`: one more or one fewer download at once, from 1 to 6.
    pub open spec fn after_workers(self, more: bool) -> AppView {
        let w: usize = if more {
            min_nat(self.workers + 1, 6) as usize
        } else if self.workers > 1 {
            (self.workers - 1) as usize
        } else {
            1
        };
        AppView { workers: w, ..self }.flashed(dec(w as nat) + " workers"@, Tone::Cyan)
    }

    /// The caller tried to open a file or folder: `failure` says why it could not.
    pub open spec fn after_open(self, failure: Option<Seq<char>>) -> AppView {
        match failure {
            None => self.flashed("opening…"@, Tone::Cyan),
            Some(e) => self.flashed("could not open: "@ + e, Tone::Alert),
        }
    }

    /// The caller read the clipboard (or could not).
    pub open spec fn after_clipboard(self, text: Option<Seq<char>>) -> AppView {
        match text {
            Some(t) => self.after_stage(t),
            None => self.flashed("clipboard unavailable"@, Tone::Alert),
        }
    }

    /// Text pasted into the terminal: typed into the prompt when it holds no
    /// link and the prompt has focus (trimmed), else staged.
    pub open spec fn after_paste(self, text: Seq<char>) -> AppView {
        if self.focus is Input && urls_in(text).len() == 0 {
            AppView { input: self.input + trim_ws(text), ..self }
        } else {
            self.after_stage(text)
        }
    }

    /// One tick: the counter moves, and each job's byte count is remembered
    /// so the next tick measures what arrived since.
    pub open spec fn after_tick(self) -> AppView {
        AppView {
            tick: self.tick.wrapping_add(1),
            jobs: self.jobs.map_values(|j: JobView| JobView { last_done: j.done, ..j }),
            ..self
        }
    }
}

impl AppView {
    pub proof fn lemma_no_retries(self, all: bool, n: int)
        requires
            self.retry_ids(all, n).len() == 0,
        ensures
            forall|t: int| 0 <= t < n ==> !self.retries(all, t),
        decreases n,
    {
        if n > 0 {
            self.lemma_no_retries(all, n - 1);
        }
    }
}

/// A key, as far as the dashboard reads it.
#[derive(Clone, Copy, Debug, PartialEq, Eq, Structural)]
pub enum KeyCode {
    Char(char),
    Enter,
    Esc,
    Backspace,
    Delete,
    Tab,
    BackTab,
    Up,
    Down,
    PageUp,
    PageDown,
    Home,
    End,
    Other,
}

#[derive(Clone, Copy, Debug, PartialEq, Eq, Structural)]
pub struct Key {
    pub code: KeyCode,
    /// Control was held.
    pub ctrl: bool,
}

#[derive(Clone, Copy, Debug, PartialEq, Eq, Structural)]
pub enum MouseKind {
    LeftDown,
    ScrollDown,
    ScrollUp,
    Other,
}

#[derive(Clone, Copy, Debug, PartialEq, Eq, Structural)]
pub struct Mouse {
    pub kind: MouseKind,
    pub column: u16,
    pub row: u16,
}

/// What the caller must do after a key.
pub enum Effect {
    /// Nothing.
    Nothing,
    /// Read the clipboard and hand the text to `clipboard`.
    Paste,
    /// Open this file, then report with `opened`.
    Open(String),
    /// Open the output folder, then report with `opened`.
    OpenFolder,
    /// Stop the process of the job with this id.
    Kill(usize),
    /// These jobs were queued again: forget their speeds and timings.
    Reset(Vec<usize>),
    /// Quitting was refused while downloads run: remember when.
    ArmQuit,
    /// Stop every process; the dashboard is done.
    Quit,
}

pub enum EffectView {
    Nothing,
    Paste,
    Open(Seq<char>),
    OpenFolder,
    Kill(usize),
    Reset(Seq<usize>),
    ArmQuit,
    Quit,
}

impl View for Effect {
    type V = EffectView;

    open spec fn view(&self) -> EffectView {
        match self {
            Effect::Nothing => EffectView::Nothing,
            Effect::Paste => EffectView::Paste,
            Effect::Open(f) => EffectView::Open(f@),
            Effect::OpenFolder => EffectView::OpenFolder,
            Effect::Kill(id) => EffectView::Kill(*id),
            Effect::Reset(ids) => EffectView::Reset(ids@),
            Effect::ArmQuit => EffectView::ArmQuit,
            Effect::Quit => EffectView::Quit,
        }
    }
}

pub open spec fn is_char(k: KeyCode, c: char) -> bool {
    k == KeyCode::Char(c)
}

impl AppView {
    /// `p` (or enter in the queue): the selected row's file is opened.
    pub open spec fn play_step(self) -> (AppView, EffectView) {
        (
            self.after_play(),
            match self.play_target() {
                Some(f) => EffectView::Open(f),
                None => EffectView::Nothing,
            },
        )
    }

    /// A key typed into the link prompt.
    pub open spec fn input_step(self, k: Key) -> AppView {
        let code = k.code;
        if code == KeyCode::Esc {
            AppView { focus: Focus::Add, input: seq![], ..self }
        } else if code == KeyCode::Enter {
            AppView { focus: Focus::Add, ..AppView { input: seq![], ..self }.after_stage(self.input) }
        } else if code == KeyCode::Backspace {
            AppView {
                input: if self.input.len() > 0 {
                    self.input.drop_last()
                } else {
                    self.input
                },
                ..self
            }
        } else if is_char(code, 'u') && k.ctrl {
            AppView { input: seq![], ..self }
        } else if code is Char {
            AppView { input: self.input.push(code->Char_0), ..self }
        } else {
            self
        }
    }

    /// What a key does: the new state and what the caller must carry out.
    /// `armed`: a warning against quitting was shown in the last 3 seconds.
    pub open spec fn key_step(self, k: Key, armed: bool) -> (AppView, EffectView) {
        let code = k.code;
        let add = self.focus is Add;
        if k.ctrl && is_char(code, 'c') {
            (AppView { should_quit: true, ..self }, EffectView::Quit)
        } else if k.ctrl && is_char(code, 'v') {
            (self, EffectView::Paste)
        } else if self.focus is Input {
            (self.input_step(k), EffectView::Nothing)
        } else if code == KeyCode::Enter && (add || self.staged.len() > 0) {
            (self.after_start(), EffectView::Nothing)
        } else if code == KeyCode::Enter {
            self.play_step()
        } else if is_char(code, 's') {
            (self.after_start(), EffectView::Nothing)
        } else if (is_char(code, 'd') || code == KeyCode::Delete || code == KeyCode::Backspace) && add {
            (self.after_drop_staged(), EffectView::Nothing)
        } else if is_char(code, 'x') && add {
            (AppView { staged: seq![], ..self }.flashed("staging cleared"@, Tone::Dim), EffectView::Nothing)
        } else if is_char(code, 'd') || code == KeyCode::Delete {
            (
                self.after_cancel_or_remove(),
                match self.cancel_target() {
                    Some(id) => EffectView::Kill(id),
                    None => EffectView::Nothing,
                },
            )
        } else if is_char(code, 'x') {
            (self.after_clear(), EffectView::Nothing)
        } else if is_char(code, 'r') {
            (self.after_retry(false), EffectView::Reset(self.retry_ids(false, self.jobs.len() as int)))
        } else if is_char(code, 'R') {
            (self.after_retry(true), EffectView::Reset(self.retry_ids(true, self.jobs.len() as int)))
        } else if is_char(code, 'p') {
            self.play_step()
        } else if code == KeyCode::Tab || code == KeyCode::BackTab {
            (AppView { focus: if add { Focus::Queue } else { Focus::Add }, ..self }, EffectView::Nothing)
        } else if is_char(code, 'a') || is_char(code, 'i') || is_char(code, '/') {
            (AppView { focus: Focus::Input, ..self }, EffectView::Nothing)
        } else if is_char(code, 'v') {
            (self, EffectView::Paste)
        } else if code == KeyCode::Up || is_char(code, 'k') {
            (self.after_move(-1), EffectView::Nothing)
        } else if code == KeyCode::Down || is_char(code, 'j') {
            (self.after_move(1), EffectView::Nothing)
        } else if code == KeyCode::PageUp {
            (self.after_move(-10), EffectView::Nothing)
        } else if code == KeyCode::PageDown {
            (self.after_move(10), EffectView::Nothing)
        } else if code == KeyCode::Home {
            (self.after_move(-9999), EffectView::Nothing)
        } else if code == KeyCode::End {
            (self.after_move(9999), EffectView::Nothing)
        } else if is_char(code, 'q') || code == KeyCode::Esc {
            let s = self.after_quit(armed);
            (s, if s.should_quit { EffectView::Quit } else { EffectView::ArmQuit })
        } else if is_char(code, 'o') {
            (self, EffectView::OpenFolder)
        } else if is_char(code, 'c') {
            (self.after_cookies(), EffectView::Nothing)
        } else if is_char(code, '+') || is_char(code, '=') {
            (self.after_workers(true), EffectView::Nothing)
        } else if is_char(code, '-') || is_char(code, '_') {
            (self.after_workers(false), EffectView::Nothing)
        } else {
            (self, EffectView::Nothing)
        }
    }

    /// What a click or a scroll does.
    pub open spec fn mouse_step(self, m: Mouse) -> AppView {
        let (c, r) = (m.column, m.row);
        match m.kind {
            MouseKind::LeftDown => if self.hit_start.holds(c, r) {
                self.after_start()
            } else if self.hit_staged.holds(c, r) {
                let i = r - self.hit_staged.y;
                AppView {
                    focus: Focus::Add,
                    staged_sel: if i < self.staged.len() {
                        i as usize
                    } else {
                        self.staged_sel
                    },
                    ..self
                }
            } else if self.hit_rows.holds(c, r) {
                let i = self.offset + (r - self.hit_rows.y);
                AppView {
                    focus: Focus::Queue,
                    selected: if i < self.jobs.len() {
                        Some(i as usize)
                    } else {
                        self.selected
                    },
                    ..self
                }
            } else {
                self
            },
            MouseKind::ScrollDown => self.scroll_focus(c, r).after_move(2),
            MouseKind::ScrollUp => self.scroll_focus(c, r).after_move(-2),
            MouseKind::Other => self,
        }
    }

    /// Scrolling over a list focuses it.
    pub open spec fn scroll_focus(self, c: u16, r: u16) -> AppView {
        let s1 = if self.hit_staged.holds(c, r) {
            AppView { focus: Focus::Add, ..self }
        } else {
            self
        };
        if self.hit_rows.holds(c, r) {
            AppView { focus: Focus::Queue, ..s1 }
        } else {
            s1
        }
    }
}

/// The bytes each job received since the last tick.
pub open spec fn arrived(jobs: Seq<JobView>) -> Seq<u64> {
    jobs.map_values(|j: JobView| if j.done > j.last_done { (j.done - j.last_done) as u64 } else { 0u64 })
}

proof fn lemma_unfinished_len(jobs: Seq<JobView>)
    ensures
        unfinished(jobs).len() <= jobs.len(),
        forall|a: int| 0 <= a < unfinished(jobs).len() ==> jobs.contains(#[trigger] unfinished(jobs)[a]),
    decreases jobs.len(),
{
    if jobs.len() > 0 {
        lemma_unfinished_len(jobs.drop_last());
        let r = unfinished(jobs.drop_last());
        assert forall|a: int| 0 <= a < unfinished(jobs).len() implies jobs.contains(
            #[trigger] unfinished(jobs)[a],
        ) by {
            if a < r.len() {
                let t = choose|t: int| 0 <= t < jobs.drop_last().len() && jobs.drop_last()[t] == r[a];
                assert(jobs[t] == r[a]);
            } else {
                assert(jobs[jobs.len() - 1] == unfinished(jobs)[a]);
            }
        }
    }
}

proof fn lemma_unfinished_ordered(jobs: Seq<JobView>)
    requires
        forall|i: int, j: int| 0 <= i < j < jobs.len() ==> (#[trigger] jobs[i]).id < (#[trigger] jobs[j]).id,
    ensures
        forall|i: int, j: int|
            0 <= i < j < unfinished(jobs).len() ==> (#[trigger] unfinished(jobs)[i]).id < (
            #[trigger] unfinished(jobs)[j]).id,
        forall|i: int| 0 <= i < unfinished(jobs).len() ==> exists|t: int| 0 <= t < jobs.len() && (#[trigger] unfinished(jobs)[i]) == jobs[t],
    decreases jobs.len(),
{
    if jobs.len() > 0 {
        let d = jobs.drop_last();
        lemma_unfinished_ordered(d);
        let r = unfinished(d);
        assert forall|i: int| 0 <= i < unfinished(jobs).len() implies exists|t: int|
            0 <= t < jobs.len() && (#[trigger] unfinished(jobs)[i]) == jobs[t] by {
            if i < r.len() {
                let t = choose|t: int| 0 <= t < d.len() && r[i] == d[t];
                assert(jobs[t] == d[t]);
            } else {
                assert(unfinished(jobs)[i] == jobs[jobs.len() - 1]);
            }
        }
        assert forall|i: int, j: int|
            0 <= i < j < unfinished(jobs).len() implies (#[trigger] unfinished(jobs)[i]).id < (
            #[trigger] unfinished(jobs)[j]).id by {
            if j >= r.len() {
                let t = choose|t: int| 0 <= t < d.len() && r[i] == d[t];
                assert(jobs[t] == d[t]);
            }
        }
    }
}

pub proof fn lemma_active_count_update(jobs: Seq<JobView>, i: int, j: JobView)
    requires
        0 <= i < jobs.len(),
    ensures
        active_count(jobs.update(i, j)) + (if jobs[i].status.is_active() { 1int } else { 0int })
            == active_count(jobs) + (if j.status.is_active() { 1int } else { 0int }),
    decreases jobs.len(),
{
    if i < jobs.len() - 1 {
        lemma_active_count_update(jobs.drop_last(), i, j);
        assert(jobs.update(i, j).drop_last() =~= jobs.drop_last().update(i, j));
    } else {
        assert(jobs.update(i, j).drop_last() =~= jobs.drop_last());
    }
}

pub proof fn lemma_first_with_status(jobs: Seq<JobView>, s: Status, i: int)
    requires
        0 <= i <= jobs.len(),
    ensures
        match first_with_status(jobs, s, i) {
            Some(k) => i <= k < jobs.len() && jobs[k].status == s && forall|t: int|
                i <= t < k ==> jobs[t].status != s,
            None => forall|t: int| i <= t < jobs.len() ==> jobs[t].status != s,
        },
    decreases jobs.len() - i,
{
    if i < jobs.len() && jobs[i].status != s {
        lemma_first_with_status(jobs, s, i + 1);
    }
}

impl App {
    pub fn new(cookies: usize) -> (app: App)
        requires
            cookies < cookie_choices(),
        ensures
            app@ == AppView::initial(cookies),
            app@.wf(),
    {
        let app = App {
            jobs: Vec::new(),
            staged: Vec::new(),
            staged_sel: 0,
            next_id: 0,
            selected: Some(0),
            offset: 0,
            focus: Focus::Add,
            input: String::new(),
            cookies,
            workers: 2,
            session_bytes: 0,
            library: (0, 0),
            flash: None,
            flashes: 0,
            tick: 0,
            hit_start: Rect::zero(),
            hit_staged: Rect::zero(),
            hit_rows: Rect::zero(),
            should_quit: false,
        };
        assert(jobs_view(app.jobs@) =~= Seq::<JobView>::empty());
        assert(staged_view(app.staged@) =~= Seq::<StagedView>::empty());
        assert(app@ =~= AppView::initial(cookies));
        app
    }

    pub fn cookie_name(&self) -> (r: &'static str)
        requires
            self.cookies < cookie_choices(),
        ensures
            r@ == cookie_label(self.cookies),
    {
        match cookie_choice(self.cookies) {
            Some(b) => b,
            None => "none",
        }
    }

    /// The job on the selected row (the first row when nothing is selected).
    pub fn selected(&self) -> (r: Option<&Job>)
        ensures
            ({
                let i = match self.selected {
                    Some(i) => i as int,
                    None => 0,
                };
                match r {
                    Some(j) => i < self.jobs@.len() && j@ == self@.jobs[i],
                    None => i >= self.jobs@.len(),
                }
            }),
    {
        let i = match self.selected {
            Some(i) => i,
            None => 0,
        };
        if i < self.jobs.len() {
            Some(&self.jobs[i])
        } else {
            None
        }
    }

    /// Staged links that starting would queue.
    pub fn ready_count(&self) -> (n: usize)
        ensures
            n == ready_count_of(self@.staged),
    {
        let mut n: usize = 0;
        let mut i: usize = 0;
        while i < self.staged.len()
            invariant
                i <= self.staged@.len(),
                n == ready_count_of(self@.staged.take(i as int)),
                n <= i,
            decreases self.staged@.len() - i,
        {
            assert(self@.staged.take(i + 1).drop_last() =~= self@.staged.take(i as int));
            if !self.staged[i].dup {
                n += 1;
            }
            i += 1;
        }
        assert(self@.staged.take(i as int) =~= self@.staged);
        n
    }

    /// Jobs with a process running.
    pub fn active_jobs(&self) -> (n: usize)
        ensures
            n == active_count(self@.jobs),
    {
        let mut n: usize = 0;
        let mut i: usize = 0;
        while i < self.jobs.len()
            invariant
                i <= self.jobs@.len(),
                n == active_count(self@.jobs.take(i as int)),
                n <= i,
            decreases self.jobs@.len() - i,
        {
            assert(self@.jobs.take(i + 1).drop_last() =~= self@.jobs.take(i as int));
            if self.jobs[i].status.active() {
                n += 1;
            }
            i += 1;
        }
        assert(self@.jobs.take(i as int) =~= self@.jobs);
        n
    }

    fn flash(&mut self, text: String, tone: Tone)
        ensures
            final(self)@ == old(self)@.flashed(text@, tone),
    {
        self.flash = Some(Flash { text, tone });
        self.flashes = if self.flashes < u64::MAX {
            self.flashes + 1
        } else {
            0
        };
    }

    fn flash_str(&mut self, text: &str, tone: Tone)
        ensures
            final(self)@ == old(self)@.flashed(text@, tone),
    {
        self.flash(copy_text(text), tone);
    }

    /// Whether the staging panel holds the reel whose identity is `key`.
    fn staging_has(&self, key: &String) -> (b: bool)
        ensures
            b == staging_holds(self@.staged, key@),
    {
        let mut i: usize = 0;
        while i < self.staged.len()
            invariant
                i <= self.staged@.len(),
                forall|t: int| 0 <= t < i ==> link_key(#[trigger] self@.staged[t].url) != key@,
            decreases self.staged@.len() - i,
        {
            let k = normalize(self.staged[i].url.as_str());
            if same_text(k.as_str(), key.as_str()) {
                assert(link_key(self@.staged[i as int].url) == key@);
                return true;
            }
            i += 1;
        }
        false
    }

    /// Whether the queue holds the reel whose identity is `key`.
    fn queue_has(&self, key: &String) -> (b: bool)
        ensures
            b == queue_holds(self@.jobs, key@),
    {
        let mut i: usize = 0;
        while i < self.jobs.len()
            invariant
                i <= self.jobs@.len(),
                forall|t: int| 0 <= t < i ==> link_key(#[trigger] self@.jobs[t].url) != key@,
            decreases self.jobs@.len() - i,
        {
            let k = normalize(self.jobs[i].url.as_str());
            if same_text(k.as_str(), key.as_str()) {
                assert(link_key(self@.jobs[i as int].url) == key@);
                return true;
            }
            i += 1;
        }
        false
    }

    /// Stage every link in a piece of pasted or typed text.
    pub fn stage(&mut self, text: &str)
        requires
            old(self)@.wf(),
        ensures
            final(self)@ == old(self)@.after_stage(text@),
            final(self)@.wf(),
    {
        let ghost before = self@;
        let urls = extract_urls(text);
        let ghost us = urls_in(text@);
        let mut added: usize = 0;
        let mut repeats: usize = 0;
        for k in 0..urls.len()
            invariant
                before.wf(),
                urls@.len() == us.len(),
                us == urls_in(text@),
                forall|i: int| 0 <= i < urls@.len() ==> (#[trigger] urls@[i])@ == us[i],
                self@ == (AppView { staged: self@.staged, ..before }),
                self@.staged == stage_links(before.staged, before.jobs, us.take(k as int)),
                self@.staged.len() == before.staged.len() + added,
                added + repeats == k,
                forall|i: int, j: int|
                    0 <= i < j < self@.staged.len() ==> link_key((#[trigger] self@.staged[i]).url)
                        != link_key((#[trigger] self@.staged[j]).url),
        {
            assert(us.take(k + 1).drop_last() =~= us.take(k as int));
            assert(us.take(k + 1).last() == urls@[k as int]@);
            let key = normalize(urls[k].as_str());
            if self.staging_has(&key) {
                repeats += 1;
            } else {
                let dup = self.queue_has(&key);
                let ghost st0 = self@.staged;
                self.staged.push(Staged { url: urls[k].clone(), dup });
                assert(staged_view(self.staged@) =~= st0.push(
                    StagedView { url: urls@[k as int]@, dup },
                ));
                added += 1;
                assert forall|i: int, j: int|
                    0 <= i < j < self@.staged.len() implies link_key(
                    (#[trigger] self@.staged[i]).url,
                ) != link_key((#[trigger] self@.staged[j]).url) by {
                    if j == self@.staged.len() - 1 {
                        assert(self@.staged[i] == st0[i]);
                    } else {
                        assert(self@.staged[i] == st0[i]);
                        assert(self@.staged[j] == st0[j]);
                    }
                }
            }
        }
        assert(us.take(urls@.len() as int) =~= us);
        let mut msg = String::new();
        let tone = if added == 0 && repeats == 0 {
            msg.append("no links found in that text");
            Tone::Warn
        } else if added == 0 {
            msg.append("already staged (");
            push_dec(&mut msg, repeats as u128);
            push_char(&mut msg, ')');
            Tone::Warn
        } else {
            push_char(&mut msg, '+');
            push_dec(&mut msg, added as u128);
            msg.append(" staged — press enter to start");
            Tone::Good
        };
        assert(msg@ =~= stage_note(added as nat, repeats as nat).0);
        self.flash(msg, tone);
        let n = self.staged.len();
        let last = if n > 0 {
            n - 1
        } else {
            0
        };
        if self.staged_sel > last {
            self.staged_sel = last;
        }
        assert(self@ =~= before.after_stage(text@));
    }

    /// Start everything staged that is not already queued.
    pub fn start_staged(&mut self)
        requires
            old(self)@.wf(),
            old(self)@.room_for_staged(),
        ensures
            final(self)@ == old(self)@.after_start(),
            final(self)@.wf(),
    {
        let ghost before = self@;
        if self.staged.is_empty() {
            self.flash_str("nothing staged — paste some links first", Tone::Warn);
            return;
        }
        let ready = self.ready_count();
        proof {
            lemma_ready_urls(before.staged);
        }
        let skipped = self.staged.len() - ready;
        let mut taken: Vec<Staged> = Vec::new();
        std::mem::swap(&mut taken, &mut self.staged);
        assert(staged_view(taken@) == before.staged);
        assert(staged_view(self.staged@) =~= Seq::<StagedView>::empty());
        let ghost urls = ready_urls(before.staged);
        if ready == 0 {
            self.flash_str("those are already in the queue", Tone::Warn);
            assert(self@ =~= before.after_start());
            return;
        }
        let first = self.next_id;
        let mut k: usize = 0;
        assert(before.staged.take(0) =~= Seq::<StagedView>::empty());
        assert(new_jobs(first, Seq::<Seq<char>>::empty()) =~= Seq::<JobView>::empty());
        assert(before.jobs + Seq::<JobView>::empty() =~= before.jobs);
        assert(self@ =~= (AppView { jobs: self@.jobs, next_id: self@.next_id, staged: seq![], ..before }));
        while k < taken.len()
            invariant
                before.wf(),
                before.room_for_staged(),
                first == before.next_id,
                staged_view(taken@) == before.staged,
                k <= taken@.len(),
                self@ == (AppView { jobs: self@.jobs, next_id: self@.next_id, staged: seq![], ..before }),
                self@.jobs == before.jobs + new_jobs(first, ready_urls(before.staged.take(k as int))),
                self@.next_id == first + ready_urls(before.staged.take(k as int)).len(),
                ready_urls(before.staged.take(k as int)).len() <= k,
            decreases taken@.len() - k,
        {
            let ghost r0 = ready_urls(before.staged.take(k as int));
            assert(before.staged.take(k + 1).drop_last() =~= before.staged.take(k as int));
            assert(before.staged.take(k + 1).last() == before.staged[k as int]);
            if !taken[k].dup {
                let id = self.next_id;
                let ghost j0 = self@.jobs;
                self.jobs.push(Job::new(id, taken[k].url.clone()));
                self.next_id = self.next_id + 1;
                assert(new_jobs(first, r0.push(before.staged[k as int].url)) =~= new_jobs(first, r0).push(
                    fresh_job(id, before.staged[k as int].url),
                ));
                assert(jobs_view(self.jobs@) =~= j0.push(fresh_job(id, before.staged[k as int].url)));
            }
            k += 1;
        }
        assert(before.staged.take(k as int) =~= before.staged);
        self.staged_sel = 0;
        let mut msg = String::new();
        msg.append("started ");
        push_dec(&mut msg, ready as u128);
        if skipped > 0 {
            msg.append(" · skipped ");
            push_dec(&mut msg, skipped as u128);
            msg.append(" already queued");
        }
        assert(msg@ =~= start_note(ready as nat, skipped as nat));
        self.flash(msg, Tone::Accent);
        if self.selected.is_none() {
            self.selected = Some(0);
        }
        assert(self@ =~= before.after_start());
        assert forall|a: int, b: int| 0 <= a < b < self@.jobs.len() implies (
        #[trigger] self@.jobs[a]).id < (#[trigger] self@.jobs[b]).id by {
            if b >= before.jobs.len() && a < before.jobs.len() {
                assert(self@.jobs[a] == before.jobs[a]);
            }
        }
        assert forall|a: int| 0 <= a < self@.jobs.len() implies (#[trigger] self@.jobs[a]).id
            < self@.next_id && self@.jobs[a].log.len() <= 8 by {
            if a < before.jobs.len() {
                assert(self@.jobs[a] == before.jobs[a]);
            }
        }
    }

    /// Where the job with this id is.
    pub fn index_of(&self, id: usize) -> (r: Option<usize>)
        ensures
            match r {
                Some(i) => index_of_id(self@.jobs, id, 0) == Some(i as int),
                None => index_of_id(self@.jobs, id, 0) is None,
            },
    {
        let mut i: usize = 0;
        while i < self.jobs.len()
            invariant
                i <= self.jobs@.len(),
                index_of_id(self@.jobs, id, 0) == index_of_id(self@.jobs, id, i as int),
            decreases self.jobs@.len() - i,
        {
            assert(self@.jobs[i as int].id == self.jobs@[i as int].id);
            if self.jobs[i].id == id {
                return Some(i);
            }
            i += 1;
        }
        None
    }

    /// Apply what the caller learned about a job. Returns whether a download
    /// finished with bytes saved, so the folder should be counted again.
    pub fn handle(&mut self, u: Update) -> (saved: bool)
        requires
            old(self)@.wf(),
        ensures
            final(self)@ == old(self)@.after_update(u@),
            saved == old(self)@.update_saves(u@),
            final(self)@.wf(),
    {
        let ghost before = self@;
        let ghost uv = u@;
        let id = match &u {
            Update::Meta { id, .. } => *id,
            Update::Progress { id, .. } => *id,
            Update::Post { id, .. } => *id,
            Update::File { id, .. } => *id,
            Update::Error { id, .. } => *id,
            Update::Log { id, .. } => *id,
            Update::Exit { id, .. } => *id,
        };
        let i = match self.index_of(id) {
            Some(i) => i,
            None => return false,
        };
        proof {
            lemma_index_of_id(before.jobs, id, 0);
        }
        let ghost j0 = before.jobs[i as int];
        let mut finished: u64 = 0;
        match u {
            Update::Meta { uploader, title, .. } => {
                let j = &mut self.jobs[i];
                j.uploader = uploader;
                j.title = title;
            },
            Update::Progress { done, total, eta, .. } => {
                let j = &mut self.jobs[i];
                if j.status != Status::Converting {
                    j.status = Status::Downloading;
                }
                j.done = done;
                j.got_bytes = j.got_bytes || done > 0;
                if total.is_some() {
                    j.total = total;
                }
                j.eta = eta;
            },
            Update::Post { status, .. } => {
                if !same_text(status.as_str(), "finished") {
                    let j = &mut self.jobs[i];
                    j.status = Status::Converting;
                    j.eta = None;
                }
            },
            Update::File { path, size, .. } => {
                let j = &mut self.jobs[i];
                j.size = size;
                j.file = Some(path);
            },
            Update::Error { msg, .. } => {
                let j = &mut self.jobs[i];
                j.error = Some(msg);
            },
            Update::Log { line, .. } => {
                let j = &mut self.jobs[i];
                let ghost l0 = j.log@;
                if j.log.len() == 8 {
                    j.log.remove(0);
                }
                j.log.push(line);
                assert(lines_view(j.log@) =~= logged(lines_view(l0), uv->Log_line));
            },
            Update::Exit { code, .. } => {
                let j = &mut self.jobs[i];
                j.eta = None;
                if j.status == Status::Canceled {
                } else if code == Some(0i32) {
                    j.status = Status::Done;
                    j.cached = !j.got_bytes;
                    finished = match j.size {
                        Some(n) => n,
                        None => 0,
                    };
                    if j.file.is_none() {
                        let mut e = String::new();
                        e.append("already saved earlier — nothing to download");
                        j.error = Some(e);
                    }
                } else {
                    j.status = Status::Failed;
                    if j.error.is_none() {
                        let mut e = String::new();
                        match code {
                            Some(c) => {
                                e.append("yt-dlp exited with code ");
                                if c < 0 {
                                    push_char(&mut e, '-');
                                    push_dec(&mut e, (-(c as i64)) as u128);
                                } else {
                                    push_dec(&mut e, c as u128);
                                }
                            },
                            None => {
                                e.append("yt-dlp was terminated");
                            },
                        }
                        assert(e@ =~= exit_reason(code));
                        j.error = Some(e);
                    }
                }
            },
        }
        assert(jobs_view(self.jobs@) =~= before.jobs.update(i as int, updated(j0, uv)));
        if finished > 0 {
            self.session_bytes = self.session_bytes.wrapping_add(finished);
        }
        assert(self@ =~= before.after_update(uv));
        assert forall|a: int, b: int| 0 <= a < b < self@.jobs.len() implies (
        #[trigger] self@.jobs[a]).id < (#[trigger] self@.jobs[b]).id by {
            assert(self@.jobs[a].id == before.jobs[a].id);
            assert(self@.jobs[b].id == before.jobs[b].id);
        }
        assert forall|a: int| 0 <= a < self@.jobs.len() implies (#[trigger] self@.jobs[a]).id
            < self@.next_id && self@.jobs[a].log.len() <= 8 by {
            assert(self@.jobs[a].id == before.jobs[a].id);
        }
        finished > 0
    }

    /// `d` in the queue: cancel the selected row if it is running, else remove
    /// it. Returns the id of the job whose process must be stopped.
    pub fn cancel_or_remove(&mut self) -> (kill: Option<usize>)
        requires
            old(self)@.wf(),
        ensures
            final(self)@ == old(self)@.after_cancel_or_remove(),
            kill == old(self)@.cancel_target(),
            final(self)@.wf(),
    {
        let ghost before = self@;
        let idx = match self.selected {
            Some(i) => i,
            None => return None,
        };
        if idx >= self.jobs.len() {
            return None;
        }
        if self.jobs[idx].status.active() {
            let j = &mut self.jobs[idx];
            j.status = Status::Canceled;
            j.error = Some(copy_text("canceled"));
            let id = j.id;
            assert(jobs_view(self.jobs@) =~= before.jobs.update(
                idx as int,
                JobView { status: Status::Canceled, error: Some("canceled"@), ..before.jobs[idx as int] },
            ));
            self.flash_str("canceled", Tone::Warn);
            assert(self@ =~= before.after_cancel_or_remove());
            assert forall|a: int, b: int| 0 <= a < b < self@.jobs.len() implies (
            #[trigger] self@.jobs[a]).id < (#[trigger] self@.jobs[b]).id by {
                assert(self@.jobs[a].id == before.jobs[a].id);
                assert(self@.jobs[b].id == before.jobs[b].id);
            }
            assert forall|a: int| 0 <= a < self@.jobs.len() implies (#[trigger] self@.jobs[a]).id
                < self@.next_id && self@.jobs[a].log.len() <= 8 by {
                assert(self@.jobs[a].id == before.jobs[a].id);
            }
            Some(id)
        } else {
            self.jobs.remove(idx);
            let n = self.jobs.len();
            self.selected = Some(
                if n == 0 {
                    0
                } else if idx < n - 1 {
                    idx
                } else {
                    n - 1
                },
            );
            assert(jobs_view(self.jobs@) =~= before.jobs.remove(idx as int));
            assert(self@ =~= before.after_cancel_or_remove());
            assert forall|a: int, b: int| 0 <= a < b < self@.jobs.len() implies (
            #[trigger] self@.jobs[a]).id < (#[trigger] self@.jobs[b]).id by {
                let a0 = if a < idx { a } else { a + 1 };
                let b0 = if b < idx { b } else { b + 1 };
                assert(self@.jobs[a] == before.jobs[a0]);
                assert(self@.jobs[b] == before.jobs[b0]);
            }
            assert forall|a: int| 0 <= a < self@.jobs.len() implies (#[trigger] self@.jobs[a]).id
                < self@.next_id && self@.jobs[a].log.len() <= 8 by {
                let a0 = if a < idx { a } else { a + 1 };
                assert(self@.jobs[a] == before.jobs[a0]);
            }
            None
        }
    }

    /// `r`: retry the selected row; `R` (`all`): retry every failure. Returns
    /// the ids of the jobs queued again.
    pub fn retry(&mut self, all: bool) -> (ids: Vec<usize>)
        requires
            old(self)@.wf(),
        ensures
            final(self)@ == old(self)@.after_retry(all),
            ids@ == old(self)@.retry_ids(all, old(self)@.jobs.len() as int),
            final(self)@.wf(),
    {
        let ghost before = self@;
        let mut ids: Vec<usize> = Vec::new();
        let mut i: usize = 0;
        while i < self.jobs.len()
            invariant
                before.wf(),
                i <= self.jobs@.len(),
                self.jobs@.len() == before.jobs.len(),
                self@ == (AppView { jobs: self@.jobs, ..before }),
                ids@ == before.retry_ids(all, i as int),
                forall|t: int|
                    0 <= t < i ==> (#[trigger] self@.jobs[t]) == (if before.retries(all, t) {
                        fresh_job(before.jobs[t].id, before.jobs[t].url)
                    } else {
                        before.jobs[t]
                    }),
                forall|t: int| i <= t < self@.jobs.len() ==> (#[trigger] self@.jobs[t]) == before.jobs[t],
            decreases self.jobs@.len() - i,
        {
            assert(self@.jobs[i as int] == before.jobs[i as int]);
            assert(self.jobs@[i as int].status == self@.jobs[i as int].status);
            let st = self.jobs[i].status;
            let take = if all {
                st == Status::Failed || st == Status::Canceled
            } else {
                self.selected == Some(i) && !st.active() && st != Status::Queued
            };
            assert(take == before.retries(all, i as int));
            if take {
                let ghost j0 = self@.jobs;
                let id = self.jobs[i].id;
                let j = &mut self.jobs[i];
                j.reset();
                ids.push(id);
                assert(jobs_view(self.jobs@) =~= j0.update(
                    i as int,
                    fresh_job(before.jobs[i as int].id, before.jobs[i as int].url),
                ));
            }
            i += 1;
        }
        if ids.len() == 0 {
            proof {
                before.lemma_no_retries(all, before.jobs.len() as int);
            }
            assert(jobs_view(self.jobs@) =~= before.jobs);
            self.flash_str("nothing to retry", Tone::Warn);
            assert(self@ =~= before.after_retry(all));
            return ids;
        }
        let mut msg = String::new();
        msg.append("retrying ");
        push_dec(&mut msg, ids.len() as u128);
        assert(jobs_view(self.jobs@) =~= Seq::new(
            before.jobs.len(),
            |t: int|
                if before.retries(all, t) {
                    fresh_job(before.jobs[t].id, before.jobs[t].url)
                } else {
                    before.jobs[t]
                },
        ));
        self.flash(msg, Tone::Cyan);
        assert(self@ =~= before.after_retry(all));
        assert forall|a: int, b: int| 0 <= a < b < self@.jobs.len() implies (
        #[trigger] self@.jobs[a]).id < (#[trigger] self@.jobs[b]).id by {
            assert(self@.jobs[a].id == before.jobs[a].id);
            assert(self@.jobs[b].id == before.jobs[b].id);
        }
        assert forall|a: int| 0 <= a < self@.jobs.len() implies (#[trigger] self@.jobs[a]).id
            < self@.next_id && self@.jobs[a].log.len() <= 8 by {
            assert(self@.jobs[a].id == before.jobs[a].id);
        }
        ids
    }

    /// `x` in the queue: remove every finished job.
    pub fn clear_finished(&mut self)
        requires
            old(self)@.wf(),
        ensures
            final(self)@ == old(self)@.after_clear(),
            final(self)@.wf(),
    {
        let ghost before = self@;
        let ghost orig = before.jobs;
        let old_len = self.jobs.len();
        let mut i: usize = 0;
        let ghost mut k: int = 0;
        while i < self.jobs.len()
            invariant
                0 <= k <= orig.len(),
                i <= self.jobs@.len(),
                self@ == (AppView { jobs: self@.jobs, ..before }),
                self@.jobs.subrange(0, i as int) == unfinished(orig.take(k)),
                self@.jobs.subrange(i as int, self@.jobs.len() as int) == orig.skip(k),
            decreases self.jobs@.len() - i,
        {
            let ghost j0 = self@.jobs;
            assert(j0.subrange(i as int, j0.len() as int).len() == orig.skip(k).len());
            assert(k < orig.len());
            assert(orig.take(k + 1).drop_last() =~= orig.take(k));
            assert(orig.take(k + 1).last() == orig[k]);
            assert(orig[k] == j0[i as int]) by {
                assert(orig.skip(k)[0] == j0.subrange(i as int, j0.len() as int)[0]);
            }
            assert(orig.skip(k + 1) =~= j0.subrange(i + 1, j0.len() as int)) by {
                assert forall|t: int| 0 <= t < orig.skip(k + 1).len() implies #[trigger] orig.skip(k + 1)[t]
                    == j0.subrange(i + 1, j0.len() as int)[t] by {
                    assert(orig.skip(k + 1)[t] == orig.skip(k)[t + 1]);
                    assert(orig.skip(k)[t + 1] == j0.subrange(i as int, j0.len() as int)[t + 1]);
                }
            }
            assert(self.jobs@[i as int].status == j0[i as int].status);
            if self.jobs[i].status == Status::Done {
                self.jobs.remove(i);
                assert(jobs_view(self.jobs@) =~= j0.remove(i as int));
                assert(self@.jobs.subrange(0, i as int) =~= j0.subrange(0, i as int));
                assert(self@.jobs.subrange(i as int, self@.jobs.len() as int) =~= j0.subrange(
                    i + 1,
                    j0.len() as int,
                ));
                assert(unfinished(orig.take(k + 1)) == unfinished(orig.take(k)));
            } else {
                assert(unfinished(orig.take(k + 1)) == unfinished(orig.take(k)).push(orig[k]));
                assert(self@.jobs.subrange(0, i + 1) =~= j0.subrange(0, i as int).push(j0[i as int]));
                assert(self@.jobs.subrange(i + 1, self@.jobs.len() as int) =~= j0.subrange(
                    i + 1,
                    j0.len() as int,
                ));
                i += 1;
            }
            proof {
                k = k + 1;
            }
        }
        assert(orig.skip(k).len() == 0);
        assert(orig.take(k) =~= orig);
        assert(self@.jobs =~= unfinished(orig));
        proof {
            lemma_unfinished_len(orig);
            lemma_unfinished_ordered(orig);
        }
        let removed = old_len - self.jobs.len();
        let n = self.jobs.len();
        let cur = match self.selected {
            Some(i) => i,
            None => 0,
        };
        let last = if n > 0 {
            n - 1
        } else {
            0
        };
        self.selected = Some(
            if cur < last {
                cur
            } else {
                last
            },
        );
        let mut msg = String::new();
        msg.append("cleared ");
        push_dec(&mut msg, removed as u128);
        self.flash(msg, Tone::Dim);
        assert(self@ =~= before.after_clear());
        assert forall|a: int| 0 <= a < self@.jobs.len() implies (#[trigger] self@.jobs[a]).id
            < self@.next_id && self@.jobs[a].log.len() <= 8 by {
            let t = choose|t: int| 0 <= t < orig.len() && self@.jobs[a] == orig[t];
            assert(orig[t].id < before.next_id);
        }
    }

    /// `q`: quit, or with downloads running and no fresh warning (`armed`),
    /// warn first. Returns whether it quits; the caller then stops every
    /// process, or else notes when it warned.
    pub fn quit(&mut self, armed: bool) -> (quits: bool)
        requires
            old(self)@.wf(),
        ensures
            final(self)@ == old(self)@.after_quit(armed),
            quits == final(self)@.should_quit,
            final(self)@.wf(),
    {
        let ghost before = self@;
        let n = self.active_jobs();
        if n > 0 && !armed {
            let mut msg = String::new();
            push_dec(&mut msg, n as u128);
            msg.append(" still running — press q again to quit");
            self.flash(msg, Tone::Warn);
            assert(self@ =~= before.after_quit(armed));
            return self.should_quit;
        }
        self.should_quit = true;
        assert(self@ =~= before.after_quit(armed));
        true
    }

    /// `p`: the selected row's file, for the caller to open; without one the
    /// prompt says so.
    pub fn play_selected(&mut self) -> (file: Option<String>)
        requires
            old(self)@.wf(),
        ensures
            final(self)@ == old(self)@.after_play(),
            opt_view(file) == old(self)@.play_target(),
            final(self)@.wf(),
    {
        let ghost before = self@;
        let i = match self.selected {
            Some(i) => i,
            None => 0,
        };
        let file = if i < self.jobs.len() {
            match &self.jobs[i].file {
                Some(f) => Some(f.clone()),
                None => None,
            }
        } else {
            None
        };
        if file.is_none() {
            self.flash_str("no file for that row yet", Tone::Warn);
        }
        assert(self@ =~= before.after_play());
        file
    }

    /// `c`: the next cookie choice.
    pub fn cycle_cookies(&mut self)
        requires
            old(self)@.wf(),
        ensures
            final(self)@ == old(self)@.after_cookies(),
            final(self)@.wf(),
    {
        let ghost before = self@;
        self.cookies = (self.cookies + 1) % 5;
        let mut msg = String::new();
        msg.append("cookies: ");
        msg.append(self.cookie_name());
        self.flash(msg, Tone::Violet);
        assert(self@ =~= before.after_cookies());
    }

    /// `+` (`more`) or `-`: change how many downloads run at once.
    pub fn change_workers(&mut self, more: bool)
        requires
            old(self)@.wf(),
        ensures
            final(self)@ == old(self)@.after_workers(more),
            final(self)@.wf(),
    {
        let ghost before = self@;
        self.workers = if more {
            if self.workers + 1 < 6 {
                self.workers + 1
            } else {
                6
            }
        } else if self.workers > 1 {
            self.workers - 1
        } else {
            1
        };
        let mut msg = String::new();
        push_dec(&mut msg, self.workers as u128);
        msg.append(" workers");
        self.flash(msg, Tone::Cyan);
        assert(self@ =~= before.after_workers(more));
    }

    /// The caller tried to open a file or folder; `failure` says why it could not.
    pub fn opened(&mut self, failure: Option<&str>)
        requires
            old(self)@.wf(),
        ensures
            final(self)@ == old(self)@.after_open(match failure {
                Some(e) => Some(e@),
                None => None,
            }),
            final(self)@.wf(),
    {
        match failure {
            None => self.flash_str("opening…", Tone::Cyan),
            Some(e) => {
                let mut msg = String::new();
                msg.append("could not open: ");
                msg.append(e);
                self.flash(msg, Tone::Alert);
            },
        }
    }

    /// The caller read the clipboard (`None`: no clipboard tool answered).
    pub fn clipboard(&mut self, text: Option<&str>)
        requires
            old(self)@.wf(),
        ensures
            final(self)@ == old(self)@.after_clipboard(match text {
                Some(t) => Some(t@),
                None => None,
            }),
            final(self)@.wf(),
    {
        match text {
            Some(t) => self.stage(t),
            None => self.flash_str("clipboard unavailable", Tone::Alert),
        }
    }

    /// Text pasted into the terminal.
    pub fn paste(&mut self, text: &str)
        requires
            old(self)@.wf(),
        ensures
            final(self)@ == old(self)@.after_paste(text@),
            final(self)@.wf(),
    {
        let ghost before = self@;
        if self.focus == Focus::Input && extract_urls(text).len() == 0 {
            let cs = chars_of(text);
            let (a, b) = trim_in(&cs, 0, cs.len());
            assert(cs@.subrange(0, cs@.len() as int) =~= text@);
            push_range(&mut self.input, &cs, a, b);
            assert(self@ =~= before.after_paste(text@));
        } else {
            self.stage(text);
        }
    }

    /// A tick of the clock: returns the bytes each job received since the
    /// last one, in queue order, for the caller's rate meters.
    pub fn on_tick(&mut self) -> (arrivals: Vec<u64>)
        requires
            old(self)@.wf(),
        ensures
            final(self)@ == old(self)@.after_tick(),
            arrivals@ == arrived(old(self)@.jobs),
            final(self)@.wf(),
    {
        let ghost before = self@;
        self.tick = self.tick.wrapping_add(1);
        let mut out: Vec<u64> = Vec::new();
        let mut i: usize = 0;
        while i < self.jobs.len()
            invariant
                i <= self.jobs@.len(),
                self.jobs@.len() == before.jobs.len(),
                self@ == (AppView { jobs: self@.jobs, tick: before.tick.wrapping_add(1), ..before }),
                out@ == arrived(before.jobs).take(i as int),
                forall|t: int| 0 <= t < i ==> (#[trigger] self@.jobs[t]) == (JobView { last_done: before.jobs[t].done, ..before.jobs[t] }),
                forall|t: int| i <= t < self@.jobs.len() ==> (#[trigger] self@.jobs[t]) == before.jobs[t],
            decreases self.jobs@.len() - i,
        {
            let ghost j0 = self@.jobs;
            let j = &mut self.jobs[i];
            let d = if j.done > j.last_done {
                j.done - j.last_done
            } else {
                0
            };
            j.last_done = j.done;
            out.push(d);
            assert(jobs_view(self.jobs@) =~= j0.update(i as int, JobView { last_done: j0[i as int].done, ..j0[i as int] }));
            assert(out@ =~= arrived(before.jobs).take(i + 1));
            i += 1;
        }
        assert(out@ =~= arrived(before.jobs));
        assert(self@.jobs =~= before.jobs.map_values(|j: JobView| JobView { last_done: j.done, ..j }));
        assert(self@ =~= before.after_tick());
        assert forall|a: int, b: int| 0 <= a < b < self@.jobs.len() implies (
        #[trigger] self@.jobs[a]).id < (#[trigger] self@.jobs[b]).id by {
            assert(self@.jobs[a].id == before.jobs[a].id);
            assert(self@.jobs[b].id == before.jobs[b].id);
        }
        assert forall|a: int| 0 <= a < self@.jobs.len() implies (#[trigger] self@.jobs[a]).id
            < self@.next_id && self@.jobs[a].log.len() <= 8 by {
            assert(self@.jobs[a].id == before.jobs[a].id);
        }
        out
    }

    /// Whether `key` would start what is staged: then the staged links
    /// must still have numbers left.
    pub fn starts_on_key(&self, key: Key) -> (b: bool)
        ensures
            b == self@.key_starts(key),
    {
        let code = key.code;
        !(key.ctrl && (code == KeyCode::Char('c') || code == KeyCode::Char('v')))
            && self.focus != Focus::Input
            && ((code == KeyCode::Enter && (self.focus == Focus::Add || !self.staged.is_empty()))
            || code == KeyCode::Char('s'))
    }

    /// Whether the click lands on the start button.
    pub fn starts_on_click(&self, m: Mouse) -> (b: bool)
        ensures
            b == self@.click_starts(m),
    {
        m.kind == MouseKind::LeftDown && self.hit_start.contains(m.column, m.row)
    }

    /// Apply a key. Returns what the caller must carry out.
    pub fn on_key(&mut self, key: Key, armed: bool) -> (e: Effect)
        requires
            old(self)@.wf(),
            old(self)@.key_starts(key) ==> old(self)@.room_for_staged(),
        ensures
            (final(self)@, e@) == old(self)@.key_step(key, armed),
            final(self)@.wf(),
    {
        let ghost before = self@;
        let code = key.code;
        let ctrl = key.ctrl;
        if ctrl && code == KeyCode::Char('c') {
            self.should_quit = true;
            return Effect::Quit;
        }
        if ctrl && code == KeyCode::Char('v') {
            return Effect::Paste;
        }
        if self.focus == Focus::Input {
            if code == KeyCode::Esc {
                self.focus = Focus::Add;
                self.input = String::new();
            } else if code == KeyCode::Enter {
                let mut text = String::new();
                std::mem::swap(&mut text, &mut self.input);
                self.stage(text.as_str());
                self.focus = Focus::Add;
            } else if code == KeyCode::Backspace {
                pop_char(&mut self.input);
            } else if code == KeyCode::Char('u') && ctrl {
                self.input = String::new();
            } else {
                match code {
                    KeyCode::Char(c) => push_char(&mut self.input, c),
                    _ => {},
                }
            }
            return Effect::Nothing;
        }
        let add = self.focus == Focus::Add;
        if code == KeyCode::Enter && (add || !self.staged.is_empty()) {
            self.start_staged();
            Effect::Nothing
        } else if code == KeyCode::Enter {
            self.play()
        } else if code == KeyCode::Char('s') {
            self.start_staged();
            Effect::Nothing
        } else if (code == KeyCode::Char('d') || code == KeyCode::Delete || code
            == KeyCode::Backspace) && add {
            self.drop_staged();
            Effect::Nothing
        } else if code == KeyCode::Char('x') && add {
            self.staged = Vec::new();
            assert(staged_view(self.staged@) =~= Seq::<StagedView>::empty());
            self.flash_str("staging cleared", Tone::Dim);
            Effect::Nothing
        } else if code == KeyCode::Char('d') || code == KeyCode::Delete {
            match self.cancel_or_remove() {
                Some(id) => Effect::Kill(id),
                None => Effect::Nothing,
            }
        } else if code == KeyCode::Char('x') {
            self.clear_finished();
            Effect::Nothing
        } else if code == KeyCode::Char('r') {
            Effect::Reset(self.retry(false))
        } else if code == KeyCode::Char('R') {
            Effect::Reset(self.retry(true))
        } else if code == KeyCode::Char('p') {
            self.play()
        } else if code == KeyCode::Tab || code == KeyCode::BackTab {
            self.focus = if add {
                Focus::Queue
            } else {
                Focus::Add
            };
            Effect::Nothing
        } else if code == KeyCode::Char('a') || code == KeyCode::Char('i') || code
            == KeyCode::Char('/') {
            self.focus = Focus::Input;
            Effect::Nothing
        } else if code == KeyCode::Char('v') {
            Effect::Paste
        } else if code == KeyCode::Up || code == KeyCode::Char('k') {
            self.move_sel(-1);
            Effect::Nothing
        } else if code == KeyCode::Down || code == KeyCode::Char('j') {
            self.move_sel(1);
            Effect::Nothing
        } else if code == KeyCode::PageUp {
            self.move_sel(-10);
            Effect::Nothing
        } else if code == KeyCode::PageDown {
            self.move_sel(10);
            Effect::Nothing
        } else if code == KeyCode::Home {
            self.move_sel(-9999);
            Effect::Nothing
        } else if code == KeyCode::End {
            self.move_sel(9999);
            Effect::Nothing
        } else if code == KeyCode::Char('q') || code == KeyCode::Esc {
            if self.quit(armed) {
                Effect::Quit
            } else {
                Effect::ArmQuit
            }
        } else if code == KeyCode::Char('o') {
            Effect::OpenFolder
        } else if code == KeyCode::Char('c') {
            self.cycle_cookies();
            Effect::Nothing
        } else if code == KeyCode::Char('+') || code == KeyCode::Char('=') {
            self.change_workers(true);
            Effect::Nothing
        } else if code == KeyCode::Char('-') || code == KeyCode::Char('_') {
            self.change_workers(false);
            Effect::Nothing
        } else {
            Effect::Nothing
        }
    }

    fn play(&mut self) -> (e: Effect)
        requires
            old(self)@.wf(),
        ensures
            (final(self)@, e@) == old(self)@.play_step(),
            final(self)@.wf(),
    {
        match self.play_selected() {
            Some(f) => Effect::Open(f),
            None => Effect::Nothing,
        }
    }

    /// Apply a click or a scroll.
    pub fn on_mouse(&mut self, m: Mouse)
        requires
            old(self)@.wf(),
            old(self)@.click_starts(m) ==> old(self)@.room_for_staged(),
        ensures
            final(self)@ == old(self)@.mouse_step(m),
            final(self)@.wf(),
    {
        let (c, r) = (m.column, m.row);
        match m.kind {
            MouseKind::LeftDown => {
                if self.hit_start.contains(c, r) {
                    self.start_staged();
                } else if self.hit_staged.contains(c, r) {
                    self.focus = Focus::Add;
                    let i = (r - self.hit_staged.y) as usize;
                    if i < self.staged.len() {
                        self.staged_sel = i;
                    }
                } else if self.hit_rows.contains(c, r) {
                    self.focus = Focus::Queue;
                    let d = (r - self.hit_rows.y) as usize;
                    if self.offset < self.jobs.len() && d < self.jobs.len() - self.offset {
                        self.selected = Some(self.offset + d);
                    }
                }
            },
            MouseKind::ScrollDown => {
                self.focus_under(c, r);
                self.move_sel(2);
            },
            MouseKind::ScrollUp => {
                self.focus_under(c, r);
                self.move_sel(-2);
            },
            MouseKind::Other => {},
        }
    }

    fn focus_under(&mut self, c: u16, r: u16)
        requires
            old(self)@.wf(),
        ensures
            final(self)@ == old(self)@.scroll_focus(c, r),
            final(self)@.wf(),
    {
        if self.hit_staged.contains(c, r) {
            self.focus = Focus::Add;
        }
        if self.hit_rows.contains(c, r) {
            self.focus = Focus::Queue;
        }
    }

    /// Drop the selected staged link.
    pub fn drop_staged(&mut self)
        requires
            old(self)@.wf(),
        ensures
            final(self)@ == old(self)@.after_drop_staged(),
            final(self)@.wf(),
    {
        if self.staged.is_empty() {
            return;
        }
        let i = if self.staged_sel < self.staged.len() - 1 {
            self.staged_sel
        } else {
            self.staged.len() - 1
        };
        let ghost before = self@;
        self.staged.remove(i);
        let n = self.staged.len();
        self.staged_sel = if n == 0 {
            0
        } else if i < n - 1 {
            i
        } else {
            n - 1
        };
        assert(staged_view(self.staged@) =~= before.staged.remove(i as int));
        assert(self@ =~= before.after_drop_staged());
        assert forall|a: int, b: int| 0 <= a < b < self@.staged.len() implies link_key(
            (#[trigger] self@.staged[a]).url,
        ) != link_key((#[trigger] self@.staged[b]).url) by {
            let a0 = if a < i { a } else { a + 1 };
            let b0 = if b < i { b } else { b + 1 };
            assert(self@.staged[a] == before.staged[a0]);
            assert(self@.staged[b] == before.staged[b0]);
        }
    }

    /// Move the selection by `delta` rows in the focused list.
    pub fn move_sel(&mut self, delta: isize)
        requires
            old(self)@.wf(),
        ensures
            final(self)@ == old(self)@.after_move(delta as int),
            final(self)@.wf(),
    {
        match self.focus {
            Focus::Add => {
                if self.staged.is_empty() {
                    return;
                }
                let next: i128 = self.staged_sel as i128 + delta as i128;
                let hi: i128 = (self.staged.len() - 1) as i128;
                let c: i128 = if next < 0 {
                    0
                } else if next > hi {
                    hi
                } else {
                    next
                };
                self.staged_sel = c as usize;
            },
            _ => {
                if self.jobs.is_empty() {
                    return;
                }
                let cur = match self.selected {
                    Some(i) => i,
                    None => 0,
                };
                let next: i128 = cur as i128 + delta as i128;
                let hi: i128 = (self.jobs.len() - 1) as i128;
                let c: i128 = if next < 0 {
                    0
                } else if next > hi {
                    hi
                } else {
                    next
                };
                self.selected = Some(c as usize);
            },
        }
    }

    /// The queued job to start next, if a worker is free: the first one in
    /// queue order.
    pub fn next_to_start(&self) -> (r: Option<usize>)
        ensures
            match r {
                Some(i) => {
                    &&& self@.next_start() == Some(i as int)
                    &&& i < self@.jobs.len()
                    &&& self@.jobs[i as int].status == Status::Queued
                    &&& forall|t: int| 0 <= t < i ==> self@.jobs[t].status != Status::Queued
                    &&& active_count(self@.jobs) < self.workers
                },
                None => {
                    &&& self@.next_start() is None
                    &&& (active_count(self@.jobs) >= self.workers || forall|t: int|
                        0 <= t < self@.jobs.len() ==> self@.jobs[t].status != Status::Queued)
                },
            },
    {
        proof {
            lemma_first_with_status(self@.jobs, Status::Queued, 0);
        }
        if self.active_jobs() >= self.workers {
            return None;
        }
        let mut i: usize = 0;
        while i < self.jobs.len()
            invariant
                i <= self.jobs@.len(),
                active_count(self@.jobs) < self.workers,
                first_with_status(self@.jobs, Status::Queued, 0) == first_with_status(
                    self@.jobs,
                    Status::Queued,
                    i as int,
                ),
            decreases self.jobs@.len() - i,
        {
            assert(self@.jobs[i as int].status == self.jobs@[i as int].status);
            if self.jobs[i].status == Status::Queued {
                proof {
                    lemma_first_with_status(self@.jobs, Status::Queued, 0);
                }
                return Some(i);
            }
            i += 1;
        }
        None
    }

    /// Job `i`'s process was started: it is fetching.
    pub fn mark_started(&mut self, i: usize)
        requires
            old(self)@.wf(),
            i < old(self)@.jobs.len(),
        ensures
            final(self)@ == old(self)@.with_status(i as int, Status::Fetching),
            final(self)@.wf(),
    {
        let ghost before = self@;
        let j = &mut self.jobs[i];
        j.status = Status::Fetching;
        assert(jobs_view(self.jobs@) =~= before.jobs.update(
            i as int,
            JobView { status: Status::Fetching, ..before.jobs[i as int] },
        ));
        assert(self@ =~= before.with_status(i as int, Status::Fetching));
    }

    /// Job `i`'s process could not be started, for `reason`.
    pub fn start_failed(&mut self, i: usize, reason: &str)
        requires
            old(self)@.wf(),
            i < old(self)@.jobs.len(),
        ensures
            final(self)@ == old(self)@.start_failed_at(i as int, reason@),
            final(self)@.wf(),
    {
        let ghost before = self@;
        let mut msg = String::new();
        msg.append("could not start yt-dlp: ");
        msg.append(reason);
        let j = &mut self.jobs[i];
        j.status = Status::Failed;
        j.error = Some(msg);
        assert(jobs_view(self.jobs@) =~= before.start_failed_at(i as int, reason@).jobs);
        assert(self@ =~= before.start_failed_at(i as int, reason@));
    }
}

} // verus!
