use od_get::download::crawl::clean_url;
use od_get::download::fetch::{get_last_segment, trimmed_last_segment};
use od_get::link::pop_all;

#[test]
fn clean_url_takes_empty_segments_off_the_end() {
    assert_eq!(
        clean_url("http://example.com/a/b//"),
        Some("http://example.com/a/b".to_owned())
    );
    assert_eq!(
        clean_url("http://example.com/a/b.txt"),
        Some("http://example.com/a/b.txt".to_owned())
    );
    assert_eq!(
        clean_url("http://example.com/a/////?q=1#top"),
        Some("http://example.com/a?q=1#top".to_owned())
    );
}

#[test]
fn clean_url_keeps_the_first_segment() {
    assert_eq!(clean_url("http://example.com/"), Some("http://example.com/".to_owned()));
    assert_eq!(clean_url("http://example.com"), Some("http://example.com/".to_owned()));
}

#[test]
fn clean_url_takes_off_however_many_there_are() {
    for count in [1, 2, 8, 9, 17, 18, 19, 40, 200] {
        let many = format!("http://example.com/a{}", "/".repeat(count));
        assert_eq!(clean_url(&many), Some("http://example.com/a".to_owned()), "{}", count);
        let deep = format!("http://example.com/a//b{}?q=1#top", "/".repeat(count));
        assert_eq!(clean_url(&deep), Some("http://example.com/a//b?q=1#top".to_owned()));
    }
    let only = format!("http://example.com{}", "/".repeat(30));
    assert_eq!(clean_url(&only), Some("http://example.com/".to_owned()));
}

#[test]
fn clean_url_changes_nothing_the_second_time() {
    for url in [
        "http://example.com/a/b//",
        "http://example.com",
        "HTTP://EXAMPLE.com/a/../b/./c///////////////////////",
        "ftp://example.com/x y/",
        "foo:/.//",
        "foo://host",
    ] {
        let once = clean_url(url).unwrap();
        assert_eq!(clean_url(&once), Some(once.clone()), "{:?}", url);
        assert!(!once.ends_with('/') || once.ends_with("://example.com/") || once == "foo:/");
    }
}

#[test]
fn clean_url_refuses_what_has_no_segments() {
    assert_eq!(clean_url("mailto:someone@example.com"), None);
    assert_eq!(clean_url("no url at all"), None);
}

#[test]
fn pop_all_takes_every_empty_segment_off_the_end() {
    assert_eq!(pop_all("http://example.com/a///"), Some("http://example.com/a".to_owned()));
    assert_eq!(pop_all("http://example.com/a"), Some("http://example.com/a".to_owned()));
    assert_eq!(pop_all("http://example.com//a/"), Some("http://example.com//a".to_owned()));
    assert_eq!(pop_all("HTTP://Example.com"), Some("http://example.com/".to_owned()));
    assert_eq!(pop_all("no url at all"), None);
    assert_eq!(pop_all("data:text/plain,x"), None);
}

#[test]
fn last_segment_names_the_file() {
    assert_eq!(get_last_segment("http://example.com/a/b.txt"), "b.txt");
    assert_eq!(get_last_segment("http://example.com/a/b%20c.txt?x=1"), "b%20c.txt");
}

#[test]
fn last_segment_falls_back_to_a_fixed_name() {
    assert_eq!(get_last_segment("http://example.com/a/"), "unknown_segment");
    assert_eq!(get_last_segment("http://example.com"), "unknown_segment");
    assert_eq!(get_last_segment("mailto:someone@example.com"), "unknown_segment");
    assert_eq!(get_last_segment("no url at all"), "unknown_segment");
}

#[test]
fn trimmed_last_segment_names_the_directory() {
    assert_eq!(trimmed_last_segment("http://example.com/data/"), Some("data".to_owned()));
    assert_eq!(trimmed_last_segment("http://example.com/data///"), Some("data".to_owned()));
    let many = format!("http://example.com/pub/data{}", "/".repeat(25));
    assert_eq!(trimmed_last_segment(&many), Some("data".to_owned()));
    assert_eq!(trimmed_last_segment("http://example.com/a/b"), Some("b".to_owned()));
    assert_eq!(trimmed_last_segment("http://example.com/"), Some(String::new()));
    assert_eq!(trimmed_last_segment("mailto:someone@example.com"), None);
    assert_eq!(trimmed_last_segment("no url at all"), None);
}
