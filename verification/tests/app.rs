use reel2mp3::app::{
    App, Effect, Focus, Key, KeyCode, Mouse, MouseKind, Rect, Status, Tone, Update, cookie_choice,
    cookie_index,
};

const A: &str = "https://www.instagram.com/reel/AAA111/";
const B: &str = "https://www.instagram.com/reel/BBB222/";
const C: &str = "https://www.instagram.com/reel/CCC333/";

fn key(c: char) -> Key {
    Key { code: KeyCode::Char(c), ctrl: false }
}

fn code(k: KeyCode) -> Key {
    Key { code: k, ctrl: false }
}

fn flash(app: &App) -> (String, Tone) {
    let f = app.flash.as_ref().expect("a message");
    (f.text.clone(), f.tone)
}

fn staged_urls(app: &App) -> Vec<String> {
    app.staged.iter().map(|s| s.url.clone()).collect()
}

/// An app with `n` queued jobs for A, B, C...
fn queued(urls: &[&str]) -> App {
    let mut app = App::new(0);
    app.stage(&urls.join(" "));
    app.start_staged();
    app
}

#[test]
fn new_app_starts_empty() {
    let app = App::new(0);
    assert!(app.jobs.is_empty() && app.staged.is_empty());
    assert_eq!(app.workers, 2);
    assert_eq!(app.selected, Some(0));
    assert_eq!(app.focus, Focus::Add);
    assert_eq!(app.cookie_name(), "none");
    assert!(app.flash.is_none());
}

#[test]
fn stage_adds_links_without_queueing() {
    let mut app = App::new(0);
    app.stage(&format!("first {A} then {B}"));
    assert_eq!(staged_urls(&app), vec![A, B]);
    assert!(app.jobs.is_empty());
    assert_eq!(flash(&app), ("+2 staged — press enter to start".to_string(), Tone::Good));
    assert_eq!(app.ready_count(), 2);
}

#[test]
fn stage_skips_links_already_staged() {
    let mut app = App::new(0);
    app.stage(A);
    app.stage("https://instagram.com/REEL/aaa111?x=1");
    assert_eq!(staged_urls(&app), vec![A]);
    assert_eq!(flash(&app), ("already staged (1)".to_string(), Tone::Warn));
    // Twice in the same paste counts as one.
    app.stage(&format!("{B} {B}"));
    assert_eq!(staged_urls(&app), vec![A, B]);
    assert_eq!(flash(&app).0, "+1 staged — press enter to start");
}

#[test]
fn stage_without_links_says_so() {
    let mut app = App::new(0);
    app.stage("just words");
    assert!(app.staged.is_empty());
    assert_eq!(flash(&app), ("no links found in that text".to_string(), Tone::Warn));
    assert_eq!(app.flashes, 1);
}

#[test]
fn stage_marks_links_already_queued() {
    let mut app = queued(&[A]);
    app.stage(&format!("{A} {B}"));
    assert_eq!(app.staged.len(), 2);
    assert!(app.staged[0].dup);
    assert!(!app.staged[1].dup);
    assert_eq!(app.ready_count(), 1);
}

#[test]
fn start_queues_ready_links_in_order() {
    let mut app = queued(&[A]);
    app.stage(&format!("{A} {B} {C}"));
    app.start_staged();
    assert!(app.staged.is_empty());
    let urls: Vec<&str> = app.jobs.iter().map(|j| j.url.as_str()).collect();
    assert_eq!(urls, vec![A, B, C]);
    let ids: Vec<usize> = app.jobs.iter().map(|j| j.id).collect();
    assert_eq!(ids, vec![0, 1, 2]);
    assert_eq!(app.next_id, 3);
    assert!(app.jobs.iter().all(|j| j.status == Status::Queued));
    assert_eq!(
        flash(&app),
        ("started 2 · skipped 1 already queued".to_string(), Tone::Accent)
    );
}

#[test]
fn start_with_nothing_or_only_duplicates() {
    let mut app = App::new(0);
    app.start_staged();
    assert_eq!(flash(&app).0, "nothing staged — paste some links first");
    let mut app = queued(&[A]);
    app.stage(A);
    app.start_staged();
    assert!(app.staged.is_empty());
    assert_eq!(app.jobs.len(), 1);
    assert_eq!(flash(&app).0, "those are already in the queue");
}

#[test]
fn start_reports_count_alone() {
    let mut app = App::new(0);
    app.stage(A);
    app.start_staged();
    assert_eq!(flash(&app).0, "started 1");
}

#[test]
fn drop_staged_removes_selected() {
    let mut app = App::new(0);
    app.stage(&format!("{A} {B} {C}"));
    app.staged_sel = 2;
    app.drop_staged();
    assert_eq!(staged_urls(&app), vec![A, B]);
    assert_eq!(app.staged_sel, 1);
    app.staged_sel = 0;
    app.drop_staged();
    assert_eq!(staged_urls(&app), vec![B]);
    app.drop_staged();
    assert!(app.staged.is_empty());
    assert_eq!(app.staged_sel, 0);
    app.drop_staged();
    assert!(app.staged.is_empty());
}

#[test]
fn scheduling_respects_the_worker_limit() {
    let mut app = queued(&[A, B, C]);
    assert_eq!(app.next_to_start(), Some(0));
    app.mark_started(0);
    assert_eq!(app.jobs[0].status, Status::Fetching);
    assert_eq!(app.next_to_start(), Some(1));
    app.mark_started(1);
    assert_eq!(app.active_jobs(), 2);
    // Two workers by default: the third waits.
    assert_eq!(app.next_to_start(), None);
    app.change_workers(true);
    assert_eq!(app.next_to_start(), Some(2));
    app.start_failed(2, "No such file or directory (os error 2)");
    assert_eq!(app.jobs[2].status, Status::Failed);
    assert_eq!(
        app.jobs[2].error.as_deref(),
        Some("could not start yt-dlp: No such file or directory (os error 2)")
    );
    assert_eq!(app.next_to_start(), None);
}

#[test]
fn handle_progress_meta_post_file() {
    let mut app = queued(&[A]);
    app.mark_started(0);
    app.handle(Update::Meta { id: 0, uploader: Some("me".into()), title: Some("A title".into()) });
    assert_eq!(app.jobs[0].label(), "A title");
    app.handle(Update::Progress { id: 0, done: 100, total: Some(1000), eta: Some(3) });
    let j = &app.jobs[0];
    assert_eq!((j.status, j.done, j.total, j.eta, j.got_bytes), (Status::Downloading, 100, Some(1000), Some(3), true));
    // A missing total keeps the last one.
    app.handle(Update::Progress { id: 0, done: 200, total: None, eta: None });
    assert_eq!(app.jobs[0].total, Some(1000));
    app.handle(Update::Post { id: 0, status: "started".into() });
    assert_eq!(app.jobs[0].status, Status::Converting);
    assert_eq!(app.jobs[0].eta, None);
    // Progress during the conversion keeps it converting.
    app.handle(Update::Progress { id: 0, done: 300, total: None, eta: Some(1) });
    assert_eq!(app.jobs[0].status, Status::Converting);
    app.handle(Update::Post { id: 0, status: "finished".into() });
    assert_eq!(app.jobs[0].status, Status::Converting);
    app.handle(Update::File { id: 0, path: "/m/a.mp3".into(), size: Some(4096) });
    assert_eq!(app.jobs[0].file.as_deref(), Some("/m/a.mp3"));
    assert_eq!(app.jobs[0].size, Some(4096));
    let saved = app.handle(Update::Exit { id: 0, code: Some(0) });
    assert!(saved);
    let j = &app.jobs[0];
    assert_eq!(j.status, Status::Done);
    assert!(!j.cached);
    assert_eq!(j.error, None);
    assert_eq!(app.session_bytes, 4096);
}

#[test]
fn handle_exit_without_bytes_is_cached() {
    let mut app = queued(&[A]);
    app.mark_started(0);
    app.handle(Update::Progress { id: 0, done: 0, total: None, eta: None });
    let saved = app.handle(Update::Exit { id: 0, code: Some(0) });
    assert!(!saved);
    let j = &app.jobs[0];
    assert_eq!(j.status, Status::Done);
    assert!(j.cached);
    assert_eq!(j.error.as_deref(), Some("already saved earlier — nothing to download"));
}

#[test]
fn handle_failing_exits() {
    let mut app = queued(&[A, B, C]);
    app.handle(Update::Exit { id: 0, code: Some(1) });
    assert_eq!(app.jobs[0].status, Status::Failed);
    assert_eq!(app.jobs[0].error.as_deref(), Some("yt-dlp exited with code 1"));
    app.handle(Update::Exit { id: 1, code: None });
    assert_eq!(app.jobs[1].error.as_deref(), Some("yt-dlp was terminated"));
    app.handle(Update::Error { id: 2, msg: "login required".into() });
    app.handle(Update::Exit { id: 2, code: Some(-15) });
    assert_eq!(app.jobs[2].status, Status::Failed);
    assert_eq!(app.jobs[2].error.as_deref(), Some("login required"));
    let mut app = queued(&[A]);
    app.handle(Update::Exit { id: 0, code: Some(-2) });
    assert_eq!(app.jobs[0].error.as_deref(), Some("yt-dlp exited with code -2"));
}

#[test]
fn handle_keeps_the_last_eight_log_lines() {
    let mut app = queued(&[A]);
    for i in 0..10 {
        app.handle(Update::Log { id: 0, line: format!("line {i}") });
    }
    let log = &app.jobs[0].log;
    assert_eq!(log.len(), 8);
    assert_eq!(log[0], "line 2");
    assert_eq!(log[7], "line 9");
}

#[test]
fn handle_ignores_unknown_jobs() {
    let mut app = queued(&[A]);
    let saved = app.handle(Update::Exit { id: 42, code: Some(0) });
    assert!(!saved);
    assert_eq!(app.jobs[0].status, Status::Queued);
}

#[test]
fn cancel_running_then_exit_stays_canceled() {
    let mut app = queued(&[A, B]);
    app.mark_started(0);
    app.selected = Some(0);
    assert_eq!(app.cancel_or_remove(), Some(0));
    assert_eq!(app.jobs[0].status, Status::Canceled);
    assert_eq!(app.jobs[0].error.as_deref(), Some("canceled"));
    assert_eq!(flash(&app), ("canceled".to_string(), Tone::Warn));
    app.handle(Update::Exit { id: 0, code: Some(0) });
    assert_eq!(app.jobs[0].status, Status::Canceled);
}

#[test]
fn remove_finished_row_moves_selection() {
    let mut app = queued(&[A, B]);
    app.selected = Some(1);
    assert_eq!(app.cancel_or_remove(), None);
    assert_eq!(app.jobs.len(), 1);
    assert_eq!(app.selected, Some(0));
    assert_eq!(app.cancel_or_remove(), None);
    assert!(app.jobs.is_empty());
    assert_eq!(app.selected, Some(0));
    assert_eq!(app.cancel_or_remove(), None);
}

#[test]
fn retry_selected_and_all() {
    let mut app = queued(&[A, B, C]);
    app.handle(Update::Exit { id: 0, code: Some(1) });
    app.handle(Update::Exit { id: 1, code: Some(1) });
    app.handle(Update::Meta { id: 0, uploader: None, title: Some("t".into()) });
    app.selected = Some(2);
    assert!(app.retry(false).is_empty());
    assert_eq!(flash(&app), ("nothing to retry".to_string(), Tone::Warn));
    app.selected = Some(0);
    assert_eq!(app.retry(false), vec![0]);
    assert_eq!(app.jobs[0].status, Status::Queued);
    assert_eq!(app.jobs[0].title, None);
    assert_eq!(app.jobs[0].error, None);
    assert_eq!(app.jobs[0].url, A);
    assert_eq!(flash(&app), ("retrying 1".to_string(), Tone::Cyan));
    app.handle(Update::Exit { id: 0, code: Some(1) });
    assert_eq!(app.retry(true), vec![0, 1]);
    assert!(app.jobs.iter().all(|j| j.status == Status::Queued));
    assert_eq!(flash(&app).0, "retrying 2");
}

#[test]
fn clear_finished_keeps_the_rest() {
    let mut app = queued(&[A, B, C]);
    app.handle(Update::Exit { id: 0, code: Some(0) });
    app.handle(Update::Exit { id: 2, code: Some(0) });
    app.selected = Some(2);
    app.clear_finished();
    assert_eq!(app.jobs.len(), 1);
    assert_eq!(app.jobs[0].id, 1);
    assert_eq!(app.selected, Some(0));
    assert_eq!(flash(&app), ("cleared 2".to_string(), Tone::Dim));
}

#[test]
fn quit_warns_while_downloads_run() {
    let mut app = queued(&[A]);
    app.mark_started(0);
    assert!(!app.quit(false));
    assert!(!app.should_quit);
    assert_eq!(flash(&app), ("1 still running — press q again to quit".to_string(), Tone::Warn));
    assert!(app.quit(true));
    assert!(app.should_quit);
    let mut idle = App::new(0);
    assert!(idle.quit(false));
}

#[test]
fn cookies_and_workers_keys() {
    let mut app = App::new(0);
    assert!(matches!(app.on_key(key('c'), false), Effect::Nothing));
    assert_eq!(app.cookie_name(), "chromium");
    assert_eq!(flash(&app), ("cookies: chromium".to_string(), Tone::Violet));
    for _ in 0..4 {
        app.on_key(key('c'), false);
    }
    assert_eq!(app.cookies, 0);
    assert_eq!(flash(&app).0, "cookies: none");
    for _ in 0..10 {
        app.on_key(key('+'), false);
    }
    assert_eq!(app.workers, 6);
    assert_eq!(flash(&app), ("6 workers".to_string(), Tone::Cyan));
    for _ in 0..10 {
        app.on_key(key('_'), false);
    }
    assert_eq!(app.workers, 1);
    app.on_key(key('='), false);
    assert_eq!(app.workers, 2);
}

#[test]
fn cookie_choices_by_name() {
    assert_eq!(cookie_choice(0), None);
    assert_eq!(cookie_choice(2), Some("firefox"));
    assert_eq!(cookie_index("brave"), Some(4));
    assert_eq!(cookie_index("chromium"), Some(1));
    assert_eq!(cookie_index("none"), None);
    assert_eq!(cookie_index("safari"), None);
}

#[test]
fn typing_a_link_stages_it() {
    let mut app = App::new(0);
    app.on_key(key('a'), false);
    assert_eq!(app.focus, Focus::Input);
    for c in A.chars() {
        app.on_key(key(c), false);
    }
    app.on_key(key('x'), false);
    app.on_key(code(KeyCode::Backspace), false);
    assert_eq!(app.input, A);
    app.on_key(code(KeyCode::Enter), false);
    assert_eq!(app.focus, Focus::Add);
    assert!(app.input.is_empty());
    assert_eq!(staged_urls(&app), vec![A]);
    app.on_key(key('i'), false);
    app.on_key(key('z'), false);
    app.on_key(Key { code: KeyCode::Char('u'), ctrl: true }, false);
    assert!(app.input.is_empty());
    app.on_key(key('z'), false);
    app.on_key(code(KeyCode::Esc), false);
    assert_eq!(app.focus, Focus::Add);
    assert!(app.input.is_empty());
}

#[test]
fn keys_start_drop_and_clear_staging() {
    let mut app = App::new(0);
    app.stage(&format!("{A} {B} {C}"));
    app.on_key(code(KeyCode::Down), false);
    assert_eq!(app.staged_sel, 1);
    app.on_key(key('d'), false);
    assert_eq!(staged_urls(&app), vec![A, C]);
    app.on_key(code(KeyCode::Enter), false);
    assert_eq!(app.jobs.len(), 2);
    app.stage(B);
    app.on_key(key('x'), false);
    assert!(app.staged.is_empty());
    assert_eq!(flash(&app), ("staging cleared".to_string(), Tone::Dim));
}

#[test]
fn keys_in_the_queue() {
    let mut app = queued(&[A, B]);
    app.on_key(code(KeyCode::Tab), false);
    assert_eq!(app.focus, Focus::Queue);
    app.on_key(code(KeyCode::End), false);
    assert_eq!(app.selected, Some(1));
    app.on_key(code(KeyCode::Home), false);
    assert_eq!(app.selected, Some(0));
    app.mark_started(0);
    match app.on_key(key('d'), false) {
        Effect::Kill(id) => assert_eq!(id, 0),
        _ => panic!("expected a kill"),
    }
    match app.on_key(key('R'), false) {
        Effect::Reset(ids) => assert_eq!(ids, vec![0]),
        _ => panic!("expected a reset"),
    }
    assert!(matches!(app.on_key(key('p'), false), Effect::Nothing));
    assert_eq!(flash(&app).0, "no file for that row yet");
    app.handle(Update::File { id: 0, path: "/m/a.mp3".into(), size: None });
    match app.on_key(code(KeyCode::Enter), false) {
        Effect::Open(f) => assert_eq!(f, "/m/a.mp3"),
        _ => panic!("expected an open"),
    }
    assert!(matches!(app.on_key(key('o'), false), Effect::OpenFolder));
    assert!(matches!(app.on_key(key('v'), false), Effect::Paste));
    app.on_key(code(KeyCode::BackTab), false);
    assert_eq!(app.focus, Focus::Add);
}

#[test]
fn quit_keys() {
    let mut app = queued(&[A]);
    app.mark_started(0);
    assert!(matches!(app.on_key(key('q'), false), Effect::ArmQuit));
    assert!(matches!(app.on_key(code(KeyCode::Esc), true), Effect::Quit));
    let mut app = queued(&[A]);
    app.mark_started(0);
    assert!(matches!(app.on_key(Key { code: KeyCode::Char('c'), ctrl: true }, false), Effect::Quit));
    assert!(app.should_quit);
}

#[test]
fn mouse_clicks_and_scrolls() {
    let mut app = App::new(0);
    app.stage(&format!("{A} {B} {C}"));
    app.hit_staged = Rect { x: 2, y: 5, width: 30, height: 4 };
    app.hit_start = Rect { x: 40, y: 6, width: 20, height: 3 };
    app.hit_rows = Rect { x: 2, y: 20, width: 50, height: 10 };
    app.on_mouse(Mouse { kind: MouseKind::LeftDown, column: 3, row: 7 });
    assert_eq!(app.staged_sel, 2);
    app.on_mouse(Mouse { kind: MouseKind::LeftDown, column: 3, row: 8 });
    assert_eq!(app.staged_sel, 2);
    app.on_mouse(Mouse { kind: MouseKind::ScrollUp, column: 3, row: 6 });
    assert_eq!(app.staged_sel, 0);
    app.on_mouse(Mouse { kind: MouseKind::LeftDown, column: 45, row: 7 });
    assert_eq!(app.jobs.len(), 3);
    app.on_mouse(Mouse { kind: MouseKind::LeftDown, column: 10, row: 22 });
    assert_eq!(app.focus, Focus::Queue);
    assert_eq!(app.selected, Some(2));
    app.offset = 1;
    app.on_mouse(Mouse { kind: MouseKind::LeftDown, column: 10, row: 21 });
    assert_eq!(app.selected, Some(2));
    app.on_mouse(Mouse { kind: MouseKind::ScrollUp, column: 10, row: 21 });
    assert_eq!(app.selected, Some(0));
    // Outside every region nothing changes.
    app.on_mouse(Mouse { kind: MouseKind::LeftDown, column: 70, row: 0 });
    assert_eq!(app.selected, Some(0));
}

#[test]
fn ticks_report_arrived_bytes() {
    let mut app = queued(&[A, B]);
    app.handle(Update::Progress { id: 1, done: 500, total: None, eta: None });
    assert_eq!(app.on_tick(), vec![0, 500]);
    assert_eq!(app.on_tick(), vec![0, 0]);
    assert_eq!(app.tick, 2);
    app.handle(Update::Progress { id: 1, done: 800, total: None, eta: None });
    assert_eq!(app.on_tick(), vec![0, 300]);
}

#[test]
fn opened_and_clipboard_report_back() {
    let mut app = App::new(0);
    app.opened(None);
    assert_eq!(flash(&app), ("opening…".to_string(), Tone::Cyan));
    app.opened(Some("no xdg-open"));
    assert_eq!(flash(&app), ("could not open: no xdg-open".to_string(), Tone::Alert));
    app.clipboard(None);
    assert_eq!(flash(&app), ("clipboard unavailable".to_string(), Tone::Alert));
    app.clipboard(Some(A));
    assert_eq!(staged_urls(&app), vec![A]);
}

#[test]
fn job_label_falls_back_to_the_short_link() {
    let app = queued(&[A]);
    assert_eq!(app.jobs[0].label(), "instagram.com/reel/AAA111");
    assert!(app.selected().is_some());
    let empty = App::new(0);
    assert!(empty.selected().is_none());
}

#[test]
fn status_activity() {
    assert!(Status::Fetching.active());
    assert!(Status::Downloading.active());
    assert!(Status::Converting.active());
    assert!(!Status::Queued.active());
    assert!(!Status::Done.active());
    assert!(!Status::Failed.active());
    assert!(!Status::Canceled.active());
}

#[test]
fn only_start_keys_and_the_start_button_start() {
    let mut app = App::new(0);
    assert!(app.starts_on_key(code(KeyCode::Enter)));
    assert!(app.starts_on_key(key('s')));
    assert!(!app.starts_on_key(key('c')));
    assert!(!app.starts_on_key(Key { code: KeyCode::Char('c'), ctrl: true }));
    app.focus = Focus::Queue;
    // Enter in the queue plays the row unless something is staged.
    assert!(!app.starts_on_key(code(KeyCode::Enter)));
    app.stage(A);
    assert!(app.starts_on_key(code(KeyCode::Enter)));
    app.focus = Focus::Input;
    assert!(!app.starts_on_key(key('s')));
    app.hit_start = Rect { x: 5, y: 5, width: 4, height: 2 };
    assert!(app.starts_on_click(Mouse { kind: MouseKind::LeftDown, column: 6, row: 6 }));
    assert!(!app.starts_on_click(Mouse { kind: MouseKind::ScrollDown, column: 6, row: 6 }));
    assert!(!app.starts_on_click(Mouse { kind: MouseKind::LeftDown, column: 9, row: 6 }));
}
