use reel2mp3::app::{App, Rect, Status, Tone, Update};
use reel2mp3::view::{
    Pulse, failed_text, idle_dots, pulse_label, pulse_row, add_height, cookie_hint, graph_height, list_window, more_line, pending_file_text,
    queue_counts, queue_position, queue_rows_area, row_number, size_cell, staged_row_text,
    start_button_area, start_caption, start_label, status_badge,
};

#[test]
fn badges_for_each_status() {
    let b = status_badge(Status::Queued, false, 0);
    assert_eq!((b.icon, b.label, b.tone), ('·', "queue", Tone::Dim));
    let b = status_badge(Status::Downloading, false, 0);
    assert_eq!((b.icon, b.label, b.tone), ('⠋', "down", Tone::Accent));
    assert_eq!(status_badge(Status::Fetching, false, 5).icon, '⠹');
    assert_eq!(status_badge(Status::Converting, false, 19).icon, '⠏');
    assert_eq!(status_badge(Status::Converting, false, 20).icon, '⠋');
    let b = status_badge(Status::Done, true, 0);
    assert_eq!((b.icon, b.label, b.tone), ('✓', "have", Tone::Cyan));
    let b = status_badge(Status::Done, false, 0);
    assert_eq!((b.label, b.tone), ("done", Tone::Good));
    assert_eq!(status_badge(Status::Failed, false, 0).label, "fail");
    assert_eq!(status_badge(Status::Canceled, false, 0).icon, '⊘');
}

#[test]
fn queue_position_counts_from_one() {
    assert_eq!(queue_position(Some(0), 0), "0/0");
    assert_eq!(queue_position(Some(2), 5), "3/5");
    assert_eq!(queue_position(None, 5), "1/5");
}

#[test]
fn size_cells() {
    assert_eq!(size_cell(Status::Done, Some(2048), None), ("2.0 KiB".to_string(), Tone::Good));
    assert_eq!(size_cell(Status::Downloading, None, Some(512)), ("512 B".to_string(), Tone::Dim));
    assert_eq!(size_cell(Status::Done, None, Some(512)), (String::new(), Tone::Dim));
    assert_eq!(size_cell(Status::Queued, Some(1), Some(1)), (String::new(), Tone::Dim));
}

#[test]
fn staged_rows() {
    assert_eq!(
        staged_row_text("https://www.instagram.com/reel/X/", true),
        "instagram.com/reel/X  already queued"
    );
    assert_eq!(staged_row_text("https://www.instagram.com/reel/X/", false), "instagram.com/reel/X");
    assert_eq!(row_number(0), "  1 ");
    assert_eq!(row_number(11), " 12 ");
    assert_eq!(list_window(0, 3, 5), (0, None));
    assert_eq!(list_window(6, 10, 4), (3, Some(3)));
    assert_eq!(list_window(9, 10, 4), (6, None));
    assert_eq!(more_line(3), "    +4 more");
}

#[test]
fn start_button_texts() {
    assert_eq!(start_label(3), "▶  start  3");
    assert_eq!(start_label(0), "▶  start");
    assert_eq!(start_caption(1), "enter · or click");
    assert_eq!(start_caption(0), "nothing staged yet");
}

#[test]
fn pending_file_texts() {
    assert_eq!(pending_file_text(Status::Done, 0, None), "saved earlier");
    assert_eq!(pending_file_text(Status::Downloading, 1536, Some(65)), "1.5 KiB downloaded  ·  1:05 left");
    assert_eq!(pending_file_text(Status::Downloading, 10, None), "10 B downloaded");
    assert_eq!(pending_file_text(Status::Converting, 0, None), "converting to mp3");
    assert_eq!(pending_file_text(Status::Queued, 0, None), "—");
    assert!(cookie_hint(Status::Failed, 0));
    assert!(!cookie_hint(Status::Failed, 1));
    assert!(!cookie_hint(Status::Done, 0));
}

#[test]
fn stats_counts() {
    let mut app = App::new(0);
    app.stage("https://instagram.com/reel/AAA https://instagram.com/reel/BBB https://instagram.com/reel/CCC https://instagram.com/reel/DDD");
    app.start_staged();
    app.mark_started(0);
    app.handle(Update::Exit { id: 1, code: Some(0) });
    app.handle(Update::Exit { id: 2, code: Some(1) });
    assert_eq!(queue_counts(&app.jobs), (1, 1, 1, 1));
}

fn rect(x: u16, y: u16, width: u16, height: u16) -> Rect {
    Rect { x, y, width, height }
}

fn parts(r: Rect) -> (u16, u16, u16, u16) {
    (r.x, r.y, r.width, r.height)
}

#[test]
fn start_button_sits_centred_above_its_caption() {
    // 24 wide, 8 high: a 20 by 3 button, centred, one line left under it.
    assert_eq!(parts(start_button_area(rect(10, 5, 24, 8))), (12, 9, 20, 3));
    // Too narrow and too short: the button takes what there is.
    assert_eq!(parts(start_button_area(rect(0, 0, 12, 2))), (0, 0, 12, 2));
    // Exactly one line more than the button: no room below, it sits at the top.
    assert_eq!(parts(start_button_area(rect(3, 4, 20, 4))), (3, 4, 20, 3));
}

#[test]
fn queue_rows_skip_the_header() {
    assert_eq!(parts(queue_rows_area(rect(2, 3, 40, 10))), (2, 4, 40, 9));
    assert_eq!(parts(queue_rows_area(rect(2, 3, 40, 0))), (2, 4, 40, 0));
}

#[test]
fn panel_heights_follow_the_column() {
    assert_eq!(add_height(10), 9);
    assert_eq!(add_height(30), 13);
    assert_eq!(add_height(100), 18);
    assert_eq!(graph_height(40), 17);
    assert_eq!(graph_height(34), 17);
    assert_eq!(graph_height(30), 13);
    assert_eq!(graph_height(25), 9);
}

#[test]
fn pulse_marches_every_second_tick() {
    assert_eq!(pulse_row(0, 5), vec![Pulse::Peak, Pulse::Near, Pulse::Off, Pulse::Off, Pulse::Off]);
    assert_eq!(pulse_row(5, 5), vec![Pulse::Off, Pulse::Near, Pulse::Peak, Pulse::Near, Pulse::Off]);
    // It wraps round: tick 10 is square 0 again.
    assert_eq!(pulse_row(10, 5), pulse_row(0, 5));
    assert_eq!(pulse_row(8, 5), vec![Pulse::Off, Pulse::Off, Pulse::Off, Pulse::Near, Pulse::Peak]);
    assert!(pulse_row(7, 0).is_empty());
    assert_eq!(pulse_label(Status::Converting), " mp3 ");
    assert_eq!(pulse_label(Status::Downloading), "  ·  ");
}

#[test]
fn idle_and_failed_columns() {
    assert_eq!(idle_dots(4), "····");
    assert_eq!(idle_dots(0), "");
    assert_eq!(failed_text(None, 3), "failed");
    assert_eq!(failed_text(None, 0), "fail…");
    assert_eq!(failed_text(Some("no route to host at all"), 5), "no route …");
}
