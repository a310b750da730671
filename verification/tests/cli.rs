use reel2mp3::cli::{Cli, parse_args};

fn args(a: &[&str]) -> Vec<String> {
    a.iter().map(|s| s.to_string()).collect()
}

#[test]
fn parse_args_reads_options_and_links() {
    match parse_args(&args(&["--cookies", "firefox", "-o", "/tmp/m", "https://x.y/a", "b"])) {
        Cli::Run { out, cookies, urls } => {
            assert_eq!(out.as_deref(), Some("/tmp/m"));
            assert_eq!(cookies, 2);
            assert_eq!(urls, vec!["https://x.y/a", "b"]);
        }
        _ => panic!("expected a run"),
    }
    match parse_args(&args(&[])) {
        Cli::Run { out, cookies, urls } => {
            assert_eq!(out, None);
            assert_eq!(cookies, 0);
            assert!(urls.is_empty());
        }
        _ => panic!("expected a run"),
    }
}

#[test]
fn parse_args_help_and_unknown_browser() {
    assert!(matches!(parse_args(&args(&["a", "-h", "--cookies", "nope"])), Cli::Help));
    assert!(matches!(parse_args(&args(&["--help"])), Cli::Help));
    match parse_args(&args(&["-c", "safari", "-h"])) {
        Cli::UnknownBrowser(name) => assert_eq!(name, "safari"),
        _ => panic!("expected an unknown browser"),
    }
    // "none" is not a browser name, and a missing name is empty.
    assert!(matches!(parse_args(&args(&["-c", "none"])), Cli::UnknownBrowser(_)));
    match parse_args(&args(&["-c"])) {
        Cli::UnknownBrowser(name) => assert_eq!(name, ""),
        _ => panic!("expected an unknown browser"),
    }
}

#[test]
fn parse_args_out_without_value() {
    match parse_args(&args(&["x", "--out"])) {
        Cli::Run { out, urls, .. } => {
            assert_eq!(out.as_deref(), Some(""));
            assert_eq!(urls, vec!["x"]);
        }
        _ => panic!("expected a run"),
    }
    match parse_args(&args(&["-c", "brave", "-c", "chrome"])) {
        Cli::Run { cookies, .. } => assert_eq!(cookies, 3),
        _ => panic!("expected a run"),
    }
}
