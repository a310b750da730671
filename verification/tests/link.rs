use reel2mp3::link::{extract_urls, normalize, short_url};

#[test]
fn short_url_drops_scheme_www_query_and_slash() {
    assert_eq!(
        short_url("https://www.instagram.com/reel/ABC123/?igsh=xyz"),
        "instagram.com/reel/ABC123"
    );
    assert_eq!(short_url("http://instagram.com/reel/X/"), "instagram.com/reel/X");
    assert_eq!(short_url("instagram.com/p/Y"), "instagram.com/p/Y");
    assert_eq!(short_url(""), "");
}

#[test]
fn short_url_removes_repeated_prefixes() {
    assert_eq!(short_url("https://https://www.www.a.b/c//"), "a.b/c");
    // The http prefix is only stripped after the https one.
    assert_eq!(short_url("http://https://x.y/"), "https://x.y");
}

#[test]
fn normalize_ignores_scheme_www_case_query_and_slash() {
    let a = normalize("https://www.Instagram.com/reel/ABC/?igsh=1");
    let b = normalize("http://instagram.com/REEL/abc");
    assert_eq!(a, "instagram.com/reel/abc");
    assert_eq!(a, b);
}

#[test]
fn extract_urls_finds_every_link() {
    // A link inside brackets is taken without them.
    let text = "look (https://www.instagram.com/reel/A1/) and https://instagram.com/reel/B2/, ok?\n\
                also http://instagram.com/p/C3.";
    assert_eq!(
        extract_urls(text),
        vec![
            "https://www.instagram.com/reel/A1/",
            "https://instagram.com/reel/B2/",
            "http://instagram.com/p/C3"
        ]
    );
}

#[test]
fn extract_urls_takes_links_out_of_brackets_and_quotes() {
    assert_eq!(
        extract_urls("see (https://www.instagram.com/reel/abc) ok"),
        vec!["https://www.instagram.com/reel/abc"]
    );
    assert_eq!(
        extract_urls("link:\"https://instagram.com/p/Q9\" <http://instagram.com/reel/Z>"),
        vec!["https://instagram.com/p/Q9", "http://instagram.com/reel/Z"]
    );
    // Neither scheme in the word: nothing is taken.
    assert!(extract_urls("(httpx://instagram.com/reel/abc)").is_empty());
}

#[test]
fn extract_urls_skips_non_links_and_short_ones() {
    assert!(extract_urls("no links here").is_empty());
    assert!(extract_urls("").is_empty());
    // 12 bytes after trimming is too short, 13 is enough.
    assert!(extract_urls("http://a.b/c").is_empty());
    assert_eq!(extract_urls("http://a.b/cd"), vec!["http://a.b/cd"]);
    // The length counts bytes: 12 characters, 13 bytes.
    assert_eq!(extract_urls("http://a.b/é"), vec!["http://a.b/é"]);
    // Text glued before a link is left out.
    assert_eq!(
        extract_urls("xhttps://instagram.com/reel/A"),
        vec!["https://instagram.com/reel/A"]
    );
}

#[test]
fn extract_urls_trims_closing_punctuation() {
    assert_eq!(
        extract_urls("\"https://instagram.com/reel/Q\"> https://instagram.com/reel/R]);"),
        vec!["https://instagram.com/reel/Q", "https://instagram.com/reel/R"]
    );
    assert_eq!(
        extract_urls("https://instagram.com/reel/Q'\">"),
        vec!["https://instagram.com/reel/Q"]
    );
}
