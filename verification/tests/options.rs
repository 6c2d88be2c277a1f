use od_get::cli::{get_options, make_option, Arguments, ConfigError};
use od_get::download::fetch::{file_location, folder_location, site_folder};

fn arguments(url: &str) -> Arguments {
    Arguments {
        url: url.to_owned(),
        destination: "/tmp/out".to_owned(),
        no_download: false,
        verbosity: 0,
        limit: "0".to_owned(),
        skip: "0".to_owned(),
        max_depth: "0".to_owned(),
        file_filter: None,
        path_filter: None,
        file_matcher: None,
        path_matcher: None,
        state_store: None,
    }
}

#[test]
fn make_option_takes_zero_as_none() {
    assert_eq!(make_option(0), None);
    assert_eq!(make_option(1), Some(1));
    assert_eq!(make_option(u64::MAX), Some(u64::MAX));
}

#[test]
fn options_carry_the_arguments() {
    let mut given = arguments("http://example.com/data/");
    given.no_download = true;
    given.verbosity = 3;
    given.limit = "5".to_owned();
    given.skip = "+2".to_owned();
    given.max_depth = "007".to_owned();
    given.file_filter = Some(r"\.tmp$".to_owned());
    given.path_filter = Some("^old".to_owned());
    given.file_matcher = Some(r"\.csv$".to_owned());
    given.path_matcher = Some("data".to_owned());
    given.state_store = Some("state.json".to_owned());
    let options = get_options(&given).unwrap();
    assert_eq!(options.url(), "http://example.com/data/");
    assert_eq!(options.destination(), "/tmp/out");
    assert!(options.no_download());
    assert_eq!(options.verbosity(), 3);
    assert_eq!(options.limit_count(), Some(5));
    assert_eq!(options.skip_count(), Some(2));
    assert_eq!(options.recursion_limit(), Some(7));
    assert_eq!(options.file_filter(), Some(r"\.tmp$"));
    assert_eq!(options.path_filter(), Some("^old"));
    assert_eq!(options.file_matcher(), Some(r"\.csv$"));
    assert_eq!(options.path_matcher(), Some("data"));
    assert_eq!(options.state_store_path(), Some("state.json"));
}

#[test]
fn zero_limits_are_no_limits() {
    let options = get_options(&arguments("http://example.com/")).unwrap();
    assert_eq!(options.limit_count(), None);
    assert_eq!(options.skip_count(), None);
    assert_eq!(options.recursion_limit(), None);
    assert_eq!(options.file_filter(), None);
    assert_eq!(options.state_store_path(), None);
}

#[test]
fn the_url_is_kept_as_parsed() {
    let options = get_options(&arguments("HTTP://Example.COM")).unwrap();
    assert_eq!(options.url(), "http://example.com/");
}

#[test]
fn a_relative_url_is_refused() {
    assert_eq!(get_options(&arguments("data/index.html")).unwrap_err(), ConfigError::InvalidUrl);
    assert_eq!(get_options(&arguments("")).unwrap_err(), ConfigError::InvalidUrl);
}

#[test]
fn a_broken_expression_is_refused() {
    let mut first = arguments("http://example.com/");
    first.file_filter = Some("(".to_owned());
    assert_eq!(get_options(&first).unwrap_err(), ConfigError::InvalidPattern);
    let mut second = arguments("http://example.com/");
    second.path_filter = Some("[a-".to_owned());
    assert_eq!(get_options(&second).unwrap_err(), ConfigError::InvalidPattern);
    let mut third = arguments("http://example.com/");
    third.file_matcher = Some("a{2,1}".to_owned());
    assert_eq!(get_options(&third).unwrap_err(), ConfigError::InvalidPattern);
    let mut fourth = arguments("http://example.com/");
    fourth.path_matcher = Some(r"\".to_owned());
    assert_eq!(get_options(&fourth).unwrap_err(), ConfigError::InvalidPattern);
}

#[test]
fn a_number_that_is_none_is_refused() {
    for text in ["", "+", "-1", "1.5", "ten", " 1", "1 ", "0x10", "18446744073709551616"] {
        let mut given = arguments("http://example.com/");
        given.limit = text.to_owned();
        assert_eq!(get_options(&given).unwrap_err(), ConfigError::InvalidNumber, "{:?}", text);
        let mut given = arguments("http://example.com/");
        given.skip = text.to_owned();
        assert_eq!(get_options(&given).unwrap_err(), ConfigError::InvalidNumber, "{:?}", text);
        let mut given = arguments("http://example.com/");
        given.max_depth = text.to_owned();
        assert_eq!(get_options(&given).unwrap_err(), ConfigError::InvalidNumber, "{:?}", text);
    }
}

#[test]
fn the_largest_number_is_a_limit() {
    let mut given = arguments("http://example.com/");
    given.limit = "18446744073709551615".to_owned();
    assert_eq!(get_options(&given).unwrap().limit_count(), Some(u64::MAX));
}

#[test]
fn a_bad_url_is_reported_before_a_bad_number_and_a_bad_expression() {
    let mut given = arguments("nothing");
    given.limit = "many".to_owned();
    given.file_filter = Some("(".to_owned());
    assert_eq!(get_options(&given).unwrap_err(), ConfigError::InvalidUrl);
    given.url = "http://example.com/".to_owned();
    assert_eq!(get_options(&given).unwrap_err(), ConfigError::InvalidNumber);
    given.limit = "1".to_owned();
    assert_eq!(get_options(&given).unwrap_err(), ConfigError::InvalidPattern);
}

#[test]
fn file_expressions_decide_on_names() {
    let mut given = arguments("http://example.com/");
    given.file_filter = Some(r"\.tmp$".to_owned());
    let excluding = get_options(&given).unwrap();
    assert!(!excluding.file_admitted("report.tmp"));
    assert!(excluding.file_admitted("report.csv"));
    assert!(excluding.file_admitted("report.tmp.csv"));

    let mut given = arguments("http://example.com/");
    given.file_matcher = Some(r"^report".to_owned());
    let including = get_options(&given).unwrap();
    assert!(including.file_admitted("report.tmp"));
    assert!(!including.file_admitted("other.csv"));

    let mut given = arguments("http://example.com/");
    given.file_filter = Some(r"\.tmp$".to_owned());
    given.file_matcher = Some(r"^report".to_owned());
    let both = get_options(&given).unwrap();
    assert!(!both.file_admitted("report.tmp"));
    assert!(both.file_admitted("report.csv"));
    assert!(!both.file_admitted("other.csv"));

    let neither = get_options(&arguments("http://example.com/")).unwrap();
    assert!(neither.file_admitted("anything"));
    assert!(neither.file_admitted(""));
}

#[test]
fn path_expressions_decide_on_folders() {
    let mut given = arguments("http://example.com/");
    given.path_filter = Some("^private$".to_owned());
    given.path_matcher = Some("^p".to_owned());
    let options = get_options(&given).unwrap();
    assert!(!options.path_admitted("private"));
    assert!(options.path_admitted("public"));
    assert!(!options.path_admitted("data"));
}

#[test]
fn the_site_folder_is_the_last_segment_of_the_root() {
    let options = get_options(&arguments("http://example.com/pub/data//")).unwrap();
    assert_eq!(site_folder(&options), Some("data".to_owned()));
    let options = get_options(&arguments("http://example.com")).unwrap();
    assert_eq!(site_folder(&options), Some(String::new()));
    let options = get_options(&arguments("mailto:someone@example.com")).unwrap();
    assert_eq!(site_folder(&options), None);
}

#[test]
fn a_folder_lies_below_the_destination_and_the_site() {
    let options = get_options(&arguments("http://example.com/pub/data/")).unwrap();
    assert_eq!(
        folder_location(&options, "sub"),
        Some(vec!["/tmp/out".to_owned(), "data".to_owned(), "sub".to_owned()])
    );
    assert_eq!(
        folder_location(&options, ""),
        Some(vec!["/tmp/out".to_owned(), "data".to_owned(), String::new()])
    );
    let options = get_options(&arguments("mailto:someone@example.com")).unwrap();
    assert_eq!(folder_location(&options, "sub"), None);
}

#[test]
fn a_file_is_named_after_the_url_that_the_request_ended_at() {
    let options = get_options(&arguments("http://example.com/pub/data/")).unwrap();
    assert_eq!(
        file_location(&options, "sub", "http://mirror.example.org/files/real-name.bin?token=1"),
        Some(vec![
            "/tmp/out".to_owned(),
            "data".to_owned(),
            "sub".to_owned(),
            "real-name.bin".to_owned()
        ])
    );
    assert_eq!(
        file_location(&options, "sub", "http://mirror.example.org/files/"),
        Some(vec![
            "/tmp/out".to_owned(),
            "data".to_owned(),
            "sub".to_owned(),
            "unknown_segment".to_owned()
        ])
    );
    let options = get_options(&arguments("mailto:someone@example.com")).unwrap();
    assert_eq!(file_location(&options, "sub", "http://example.com/a"), None);
}
