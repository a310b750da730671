//! Each law of the library on concrete values.

use reel2mp3::app::{App, Effect, Focus, Key, KeyCode, Mouse, MouseKind, Rect, Status, Update};
use reel2mp3::job::{Msg, clean_error, parse};
use reel2mp3::link::{extract_urls, short_url};
use reel2mp3::text::{tail, truncate};

const A: &str = "https://www.instagram.com/reel/AAA111/";
const B: &str = "https://www.instagram.com/reel/BBB222/";

#[test]
fn law_stage_never_queues() {
    let mut app = App::new(0);
    app.stage(&format!("{A} {B}"));
    assert!(app.jobs.is_empty());
    assert_eq!(app.next_id, 0);
}

#[test]
fn law_paste_twice_stages_once() {
    let mut app = App::new(0);
    let text = format!("{A} and {B} and {A}");
    app.stage(&text);
    let first: Vec<String> = app.staged.iter().map(|s| s.url.clone()).collect();
    app.stage(&text);
    let second: Vec<String> = app.staged.iter().map(|s| s.url.clone()).collect();
    assert_eq!(first, second);
    assert_eq!(first.len(), 2);
}

#[test]
fn law_start_respects_worker_limit() {
    let mut app = App::new(0);
    app.stage(&format!("{A} {B} https://instagram.com/reel/CCC https://instagram.com/reel/DDD"));
    app.start_staged();
    while let Some(i) = app.next_to_start() {
        assert!(app.active_jobs() < app.workers);
        assert_eq!(app.jobs[i].status, Status::Queued);
        app.mark_started(i);
    }
    assert_eq!(app.active_jobs(), 2);
}

#[test]
fn law_canceled_stays_canceled_and_cached_means_no_bytes() {
    let mut app = App::new(0);
    app.stage(&format!("{A} {B}"));
    app.start_staged();
    app.mark_started(0);
    app.mark_started(1);
    app.selected = Some(0);
    app.cancel_or_remove();
    app.handle(Update::Exit { id: 0, code: Some(1) });
    assert_eq!(app.jobs[0].status, Status::Canceled);
    app.handle(Update::Progress { id: 1, done: 10, total: None, eta: None });
    app.handle(Update::Exit { id: 1, code: Some(0) });
    assert!(!app.jobs[1].cached);
    assert!(app.jobs[1].got_bytes);
}

#[test]
fn law_retry_all_and_clear() {
    let mut app = App::new(0);
    app.stage(&format!("{A} {B} https://instagram.com/reel/CCC"));
    app.start_staged();
    app.handle(Update::Exit { id: 0, code: Some(1) });
    app.handle(Update::Exit { id: 1, code: Some(0) });
    app.retry(true);
    assert!(app.jobs.iter().all(|j| j.status != Status::Failed && j.status != Status::Canceled));
    assert_eq!(app.jobs[1].status, Status::Done);
    app.clear_finished();
    assert!(app.jobs.iter().all(|j| j.status != Status::Done));
    assert_eq!(app.jobs.len(), 2);
}

#[test]
fn law_selection_stays_in_range() {
    let mut app = App::new(0);
    app.stage(&format!("{A} {B}"));
    app.move_sel(100);
    assert_eq!(app.staged_sel, 1);
    app.move_sel(-100);
    assert_eq!(app.staged_sel, 0);
    app.start_staged();
    app.focus = Focus::Queue;
    app.move_sel(isize::MAX);
    assert_eq!(app.selected, Some(1));
    app.move_sel(isize::MIN);
    assert_eq!(app.selected, Some(0));
}

#[test]
fn law_cookies_cycle_and_workers_range() {
    let mut app = App::new(3);
    for _ in 0..5 {
        app.cycle_cookies();
    }
    assert_eq!(app.cookies, 3);
    app.change_workers(true);
    app.change_workers(false);
    assert_eq!(app.workers, 2);
}

#[test]
fn law_second_tick_reports_nothing_new() {
    let mut app = App::new(0);
    app.stage(A);
    app.start_staged();
    app.handle(Update::Progress { id: 0, done: 99, total: None, eta: None });
    app.on_tick();
    assert_eq!(app.on_tick(), vec![0]);
}

#[test]
fn law_extracted_links_are_links() {
    for u in extract_urls("x https://a.b/ccc), https://a.b/dd\u{a0}e,. http://q http://abc.de/f]") {
        assert!(u.starts_with("http://") || u.starts_with("https://"));
        assert!(u.len() > 12);
        assert!(!u.chars().any(char::is_whitespace));
        assert!(!u.ends_with([')', ']', '}', ',', '.', ';', '"', '\'', '>']));
    }
}

#[test]
fn law_short_links_are_trimmed() {
    for u in ["https://x.y/a//?q=1/", "www.a/b?c?d", "///", "?"] {
        let s = short_url(u);
        assert!(!s.ends_with('/'));
        assert!(!s.contains('?'));
    }
}

#[test]
fn law_clean_errors_hold_no_link() {
    let out = clean_error("[Instagram] x1: Requested content is not available, see http://a.b/c. See http://d");
    assert_eq!(out, "Requested content is not available, see");
    assert!(!out.contains(" http"));
}

#[test]
fn law_clean_errors_are_short_and_texts_fit() {
    assert!(clean_error(&"word ".repeat(100)).chars().count() <= 180);
    assert!(tail(&"x".repeat(50), 7).chars().count() <= 7);
    assert!(truncate(&"x".repeat(50), 7).chars().count() <= 7);
}

#[test]
fn law_parsed_lines() {
    assert!(matches!(parse(1, "@FILE  odd name"), Some(Msg::File { path, .. }) if path == " odd name"));
    assert!(matches!(parse(1, "ERROR: boom."), Some(Msg::Error { msg, .. }) if msg == "boom"));
    assert!(matches!(parse(1, "plain"), Some(Msg::Log { line, .. }) if line == "plain"));
}

#[test]
fn law_updates_for_unknown_jobs_are_dropped() {
    let mut app = App::new(0);
    app.stage(A);
    app.start_staged();
    app.handle(Update::Error { id: 7, msg: "x".into() });
    assert_eq!(app.jobs[0].error, None);
}

#[test]
fn law_paste_into_prompt() {
    let mut app = App::new(0);
    app.focus = Focus::Input;
    app.paste("  some words \n");
    assert_eq!(app.input, "some words");
    app.paste(A);
    assert_eq!(app.input, "some words");
    assert_eq!(app.staged.len(), 1);
    app.focus = Focus::Add;
    app.paste("no link");
    assert_eq!(app.input, "some words");
}

fn key(c: char) -> Key {
    Key { code: KeyCode::Char(c), ctrl: false }
}

#[test]
fn law_keys_do_what_the_help_says() {
    let mut app = App::new(0);
    app.stage(&format!("{A} {B}"));
    assert!(matches!(app.on_key(key('d'), false), Effect::Nothing));
    assert_eq!(app.staged.len(), 1);
    assert!(matches!(app.on_key(key('s'), false), Effect::Nothing));
    assert_eq!(app.jobs.len(), 1);
    assert!(app.staged.is_empty());
    app.on_key(Key { code: KeyCode::Tab, ctrl: false }, false);
    assert_eq!(app.focus, Focus::Queue);
    app.handle(Update::Exit { id: 0, code: Some(1) });
    app.on_key(key('r'), false);
    assert_eq!(app.jobs[0].status, Status::Queued);
    assert!(matches!(app.on_key(key('v'), false), Effect::Paste));
    assert!(matches!(app.on_key(key('o'), false), Effect::OpenFolder));
    app.on_key(key('a'), false);
    assert_eq!(app.focus, Focus::Input);
}

#[test]
fn law_keys_keep_settings_in_range() {
    let mut app = App::new(4);
    app.on_key(key('c'), false);
    assert_eq!(app.cookies, 0);
    for _ in 0..10 {
        app.on_key(key('+'), false);
    }
    assert_eq!(app.workers, 6);
    for _ in 0..10 {
        app.on_key(key('_'), false);
    }
    assert_eq!(app.workers, 1);
    app.on_key(key('='), false);
    assert_eq!(app.workers, 2);
}

#[test]
fn law_clicks_and_scrolls() {
    let mut app = App::new(0);
    app.stage(&format!("{A} {B}"));
    app.hit_start = Rect { x: 10, y: 10, width: 20, height: 3 };
    app.hit_rows = Rect { x: 0, y: 20, width: 0, height: 5 };
    let before = app.staged.len();
    app.on_mouse(Mouse { kind: MouseKind::Other, column: 12, row: 11 });
    assert_eq!(app.staged.len(), before);
    // No width: never hit, so the focus stays.
    app.on_mouse(Mouse { kind: MouseKind::ScrollDown, column: 0, row: 21 });
    assert_eq!(app.focus, Focus::Add);
    assert_eq!(app.staged_sel, 1);
    app.on_mouse(Mouse { kind: MouseKind::LeftDown, column: 12, row: 11 });
    assert_eq!(app.jobs.len(), 2);
    assert!(app.staged.is_empty());
}

#[test]
fn law_ticks_count_and_remember_bytes() {
    let mut app = App::new(0);
    app.stage(A);
    app.start_staged();
    app.handle(Update::Progress { id: 0, done: 500, total: None, eta: None });
    let t = app.tick;
    assert_eq!(app.on_tick(), vec![500]);
    assert_eq!(app.tick, t + 1);
    assert_eq!(app.jobs[0].last_done, 500);
}
