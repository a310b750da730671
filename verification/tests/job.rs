use reel2mp3::job::{Msg, args_after_dir, args_before_dir, clean_error, parse, parse_output, text};

fn s(x: &str) -> Option<String> {
    Some(x.to_string())
}

#[test]
fn text_treats_na_none_and_empty_as_missing() {
    assert_eq!(text(None), None);
    assert_eq!(text(Some("NA")), None);
    assert_eq!(text(Some("None")), None);
    assert_eq!(text(Some("")), None);
    assert_eq!(text(Some("na")), s("na"));
    assert_eq!(text(Some("Title")), s("Title"));
}

#[test]
fn parse_progress_lines() {
    match parse(3, "@DL 1024 NA 2048.5 512.0 7") {
        Some(Msg::Progress { id, done, total, total_estimate, speed, eta }) => {
            assert_eq!(id, 3);
            assert_eq!(done, s("1024"));
            assert_eq!(total, None);
            assert_eq!(total_estimate, s("2048.5"));
            assert_eq!(speed, s("512.0"));
            assert_eq!(eta, s("7"));
        }
        _ => panic!("not a progress message"),
    }
    match parse(1, "@DL 10") {
        Some(Msg::Progress { done, total, total_estimate, speed, eta, .. }) => {
            assert_eq!(done, s("10"));
            assert_eq!((total, total_estimate, speed, eta), (None, None, None, None));
        }
        _ => panic!("not a progress message"),
    }
}

#[test]
fn parse_post_meta_and_file_lines() {
    match parse(2, "@PP Processing extra") {
        Some(Msg::Post { id, status }) => {
            assert_eq!(id, 2);
            assert_eq!(status, "Processing");
        }
        _ => panic!("not a post message"),
    }
    match parse(2, "@PP ") {
        Some(Msg::Post { status, .. }) => assert_eq!(status, ""),
        _ => panic!("not a post message"),
    }
    match parse(4, "@META someone\t12.5\tA reel\twith tab") {
        Some(Msg::Meta { id, uploader, duration, title }) => {
            assert_eq!(id, 4);
            assert_eq!(uploader, s("someone"));
            assert_eq!(duration, s("12.5"));
            assert_eq!(title, s("A reel"));
        }
        _ => panic!("not a meta message"),
    }
    match parse(4, "@META NA\tNone") {
        Some(Msg::Meta { uploader, duration, title, .. }) => {
            assert_eq!((uploader, duration, title), (None, None, None));
        }
        _ => panic!("not a meta message"),
    }
    match parse(5, "@FILE /music/A reel [x].mp3") {
        Some(Msg::File { id, path }) => {
            assert_eq!(id, 5);
            assert_eq!(path, "/music/A reel [x].mp3");
        }
        _ => panic!("not a file message"),
    }
}

#[test]
fn parse_error_log_and_empty_lines() {
    match parse(6, "ERROR: [Instagram] abc123: Requested content is not available.") {
        Some(Msg::Error { id, msg }) => {
            assert_eq!(id, 6);
            assert_eq!(msg, "Requested content is not available");
        }
        _ => panic!("not an error message"),
    }
    match parse(7, "[download] Destination: x") {
        Some(Msg::Log { id, line }) => {
            assert_eq!(id, 7);
            assert_eq!(line, "[download] Destination: x");
        }
        _ => panic!("not a log message"),
    }
    assert!(parse(8, "").is_none());
    // Tags need their trailing space.
    assert!(matches!(parse(9, "@DL"), Some(Msg::Log { .. })));
}

#[test]
fn parse_output_trims_the_line_end() {
    assert!(parse_output(1, " \r\n").is_none());
    assert!(parse_output(1, "\r\n").is_none());
    match parse_output(1, "  hello \n") {
        Some(Msg::Log { line, .. }) => assert_eq!(line, "  hello"),
        _ => panic!("not a log message"),
    }
    match parse_output(1, "@FILE /a/b.mp3\r\n") {
        Some(Msg::File { path, .. }) => assert_eq!(path, "/a/b.mp3"),
        _ => panic!("not a file message"),
    }
}

#[test]
fn clean_error_drops_tag_id_and_advice() {
    assert_eq!(
        clean_error("  [Instagram] DGx1: Unable to extract data; please report this issue on  https://github.com/yt-dlp/yt-dlp/issues"),
        "Unable to extract data"
    );
    assert_eq!(
        clean_error("[generic] Unsupported URL: https://x.y/z"),
        "Unsupported URL:"
    );
    assert_eq!(
        clean_error("[Instagram] some id: login required. See https://github.com/yt-dlp"),
        "some id: login required"
    );
    assert_eq!(clean_error("Something broke, "), "Something broke");
    assert_eq!(clean_error("[tag]no space"), "[tag]no space");
    assert_eq!(clean_error("x Please report it"), "x");
}

#[test]
fn clean_error_cuts_at_the_first_marker() {
    assert_eq!(clean_error("Failed at http://a.io/x then See http://wiki"), "Failed at");
    assert_eq!(clean_error("a http See http"), "a");
    assert_eq!(clean_error("gone; please report it at http://x Please report"), "gone");
}

#[test]
fn clean_error_cuts_long_messages() {
    let long = "e".repeat(200);
    let out = clean_error(&long);
    assert_eq!(out.chars().count(), 180);
    assert!(out.ends_with('…'));
    let exact = "f".repeat(180);
    assert_eq!(clean_error(&exact), exact);
}

#[test]
fn yt_dlp_arguments() {
    assert_eq!(
        args_before_dir(),
        vec![
            "--newline", "--progress", "--color", "never", "--no-warnings", "-f",
            "bestaudio/best", "-x", "--audio-format", "mp3", "--audio-quality", "0", "-P",
        ]
    );
    let after = args_after_dir("https://instagram.com/reel/X", None);
    assert_eq!(after.len(), 12);
    assert_eq!(after[0], "-o");
    assert_eq!(after[1], "%(title).80B [%(id)s].%(ext)s");
    assert_eq!(after[2], "--progress-template");
    assert_eq!(
        after[3],
        "download:@DL %(progress.downloaded_bytes)s %(progress.total_bytes)s %(progress.total_bytes_estimate)s %(progress.speed)s %(progress.eta)s"
    );
    assert_eq!(after[5], "postprocess:@PP %(progress.status)s");
    assert_eq!(after[7], "before_dl:@META %(uploader)s\t%(duration)s\t%(title)s");
    assert_eq!(after[9], "after_move:@FILE %(filepath)s");
    assert_eq!(&after[10..], &["--", "https://instagram.com/reel/X"]);
    let with = args_after_dir("-x", Some("firefox"));
    assert_eq!(&with[10..], &["--cookies-from-browser", "firefox", "--", "-x"]);
}
