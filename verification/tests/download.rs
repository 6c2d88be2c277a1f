use od_get::cli::{get_options, Arguments, CliOptions};
use od_get::download::fetch::{
    completed_downloads, decide, download_files, download_files_to_dir, download_recursive, judge,
    weigh, DownloadError, DownloadRecursiveStatus, LimitCounts, Step, Verdict,
};
use od_get::download::types::{DirLinkMetaData, FileLinkMetaData, Node};

fn plain() -> Arguments {
    Arguments {
        url: "http://example.com/data/".to_owned(),
        destination: "/tmp/out".to_owned(),
        no_download: false,
        verbosity: 0,
        limit: "0".to_owned(),
        skip: "0".to_owned(),
        max_depth: "0".to_owned(),
        file_filter: None,
        path_filter: None,
        file_matcher: None,
        path_matcher: None,
        state_store: None,
    }
}

fn unlimited() -> CliOptions {
    get_options(&plain()).unwrap()
}

fn limited(limit: u64, skip: u64, max_depth: u64) -> CliOptions {
    get_options(&Arguments {
        limit: limit.to_string(),
        skip: skip.to_string(),
        max_depth: max_depth.to_string(),
        ..plain()
    })
    .unwrap()
}

fn link(url: &str) -> FileLinkMetaData {
    FileLinkMetaData {
        url: url.to_owned(),
        name: "listed".to_owned(),
        last_modified: "2021".to_owned(),
        size: "1".to_owned(),
        description: "d".to_owned(),
    }
}

fn leaf(url: &str) -> Node {
    Node::File(link(url))
}

fn meta(name: &str) -> DirLinkMetaData {
    DirLinkMetaData {
        url: format!("http://example.com{name}/"),
        name: name.to_owned(),
        last_modified: String::new(),
        description: String::new(),
    }
}

fn folder(name: &str, children: Vec<Node>) -> Node {
    Node::CrawledDir(meta(name), children)
}

fn waiting(name: &str) -> Node {
    Node::PendingDir(meta(name))
}

fn ensure(folder: &str) -> Step {
    Step::EnsureDirectory { folder: folder.to_owned() }
}

fn fetch(url: &str, folder: &str) -> Step {
    Step::Download { url: url.to_owned(), folder: folder.to_owned() }
}

fn counts(recursion_depth: u64, file_count: u64, skipped_files: u64) -> LimitCounts {
    LimitCounts { recursion_depth, file_count, skipped_files }
}

const A: &str = "http://example.com/data/a.txt";
const B: &str = "http://example.com/data/b.txt";
const C: &str = "http://example.com/data/c.txt";

fn three_files() -> Node {
    folder("/data", vec![leaf(A), leaf(B), leaf(C)])
}

fn run(node: &Node, options: &CliOptions, done: &mut Vec<String>) -> (Vec<Step>, LimitCounts) {
    let mut counters = LimitCounts::new();
    assert!(counters.has_room_for(node));
    match download_recursive(node, options, &mut counters, done).unwrap() {
        DownloadRecursiveStatus::Done => (Vec::new(), counters),
        DownloadRecursiveStatus::Do(steps) => {
            assert!(!steps.is_empty());
            (steps, counters)
        }
    }
}

#[test]
fn new_counters_stand_at_zero() {
    assert_eq!(LimitCounts::new(), counts(0, 0, 0));
}

#[test]
fn every_file_is_downloaded_in_listing_order() {
    let mut done = Vec::new();
    let (steps, counters) = run(&three_files(), &unlimited(), &mut done);
    assert_eq!(steps, vec![ensure("data"), fetch(A, "data"), fetch(B, "data"), fetch(C, "data")]);
    assert_eq!(done, vec![A.to_owned(), B.to_owned(), C.to_owned()]);
    assert_eq!(counters, counts(1, 3, 0));
}

#[test]
fn a_limit_of_two_downloads_the_first_two_files() {
    let mut done = Vec::new();
    let (steps, counters) = run(&three_files(), &limited(2, 0, 0), &mut done);
    assert_eq!(steps, vec![ensure("data"), fetch(A, "data"), fetch(B, "data")]);
    assert_eq!(done, vec![A.to_owned(), B.to_owned()]);
    assert_eq!(counters, counts(1, 2, 0));
    assert!(!steps.iter().any(|step| matches!(step, Step::Download { url, .. } if url == C)));
}

#[test]
fn an_excluding_expression_leaves_matching_files_out() {
    let tree = folder(
        "/data",
        vec![leaf("http://example.com/data/report.tmp"), leaf("http://example.com/data/report.csv")],
    );
    let options =
        get_options(&Arguments { file_filter: Some(r"\.tmp$".to_owned()), ..plain() }).unwrap();
    let mut done = Vec::new();
    let (steps, counters) = run(&tree, &options, &mut done);
    assert_eq!(steps, vec![ensure("data"), fetch("http://example.com/data/report.csv", "data")]);
    assert_eq!(done, vec!["http://example.com/data/report.csv".to_owned()]);
    assert_eq!(counters, counts(1, 1, 0));
}

#[test]
fn an_including_expression_leaves_other_files_out() {
    let tree = folder(
        "/data",
        vec![leaf("http://example.com/data/report.tmp"), leaf("http://example.com/data/report.csv")],
    );
    let options =
        get_options(&Arguments { file_matcher: Some(r"\.tmp$".to_owned()), ..plain() }).unwrap();
    let mut done = Vec::new();
    let (steps, _) = run(&tree, &options, &mut done);
    assert_eq!(steps, vec![ensure("data"), fetch("http://example.com/data/report.tmp", "data")]);
}

#[test]
fn expressions_are_tried_on_the_name_in_the_url() {
    let tree = folder("/data", vec![leaf("http://example.com/keep/drop.txt?keep=1")]);
    let options =
        get_options(&Arguments { file_filter: Some("keep".to_owned()), ..plain() }).unwrap();
    let (steps, _) = run(&tree, &options, &mut Vec::new());
    assert_eq!(steps, vec![ensure("data"), fetch("http://example.com/keep/drop.txt?keep=1", "data")]);
    let options =
        get_options(&Arguments { file_filter: Some("^drop".to_owned()), ..plain() }).unwrap();
    let (steps, _) = run(&tree, &options, &mut Vec::new());
    assert_eq!(steps, vec![ensure("data")]);
    let tree = folder("/data", vec![leaf("http://example.com/keep/")]);
    let options =
        get_options(&Arguments { file_filter: Some("^unknown_segment$".to_owned()), ..plain() })
            .unwrap();
    let (steps, _) = run(&tree, &options, &mut Vec::new());
    assert_eq!(steps, vec![ensure("data")]);
}

#[test]
fn a_failure_at_the_second_file_keeps_the_first() {
    let initial: Vec<String> = Vec::new();
    let mut planned = initial.clone();
    let (steps, _) = run(&three_files(), &unlimited(), &mut planned);
    assert_eq!(steps[2], fetch(B, "data"));
    let kept = completed_downloads(&initial, &steps, 2);
    assert_eq!(kept, vec![A.to_owned()]);

    let mut again = kept.clone();
    let (steps, counters) = run(&three_files(), &unlimited(), &mut again);
    assert_eq!(steps, vec![ensure("data"), fetch(B, "data"), fetch(C, "data")]);
    assert_eq!(again, vec![A.to_owned(), B.to_owned(), C.to_owned()]);
    assert_eq!(counters, counts(1, 2, 0));
}

#[test]
fn completed_downloads_follow_the_plan() {
    let initial = vec!["http://example.com/old".to_owned()];
    let steps = vec![ensure("x"), fetch(A, "x"), Step::SkipPending { url: B.to_owned() }, fetch(C, "y")];
    assert_eq!(completed_downloads(&initial, &steps, 0), initial);
    assert_eq!(completed_downloads(&initial, &steps, 1), initial);
    assert_eq!(completed_downloads(&initial, &steps, 2), vec![initial[0].clone(), A.to_owned()]);
    assert_eq!(completed_downloads(&initial, &steps, 3), vec![initial[0].clone(), A.to_owned()]);
    assert_eq!(
        completed_downloads(&initial, &steps, 4),
        vec![initial[0].clone(), A.to_owned(), C.to_owned()]
    );
}

#[test]
fn a_finished_plan_leaves_the_list_that_the_walk_left() {
    let tree = nested();
    let initial = vec![B.to_owned()];
    let mut planned = initial.clone();
    let (steps, _) = run(&tree, &unlimited(), &mut planned);
    assert_eq!(completed_downloads(&initial, &steps, steps.len()), planned);
}

fn nested() -> Node {
    folder(
        "/data",
        vec![
            leaf(A),
            folder(
                "/data/one",
                vec![leaf("http://example.com/data/one/x.bin"), folder("/data/one/deep", vec![leaf("http://example.com/data/one/deep/y.bin")])],
            ),
            leaf(B),
            waiting("/data/later"),
            folder("/data/two", vec![leaf("http://example.com/data/two/z.bin")]),
        ],
    )
}

#[test]
fn the_walk_goes_depth_first() {
    let mut done = Vec::new();
    let (steps, counters) = run(&nested(), &unlimited(), &mut done);
    assert_eq!(
        steps,
        vec![
            ensure("data"),
            fetch(A, "data"),
            fetch(B, "data"),
            ensure("one"),
            fetch("http://example.com/data/one/x.bin", "one"),
            ensure("deep"),
            fetch("http://example.com/data/one/deep/y.bin", "deep"),
            Step::SkipPending { url: "http://example.com/data/later/".to_owned() },
            ensure("two"),
            fetch("http://example.com/data/two/z.bin", "two"),
        ]
    );
    assert_eq!(counters, counts(4, 5, 0));
    assert_eq!(done.len(), 5);
}

#[test]
fn a_second_run_downloads_nothing() {
    let mut done = Vec::new();
    let (first, counters) = run(&nested(), &unlimited(), &mut done);
    assert_eq!(counters, counts(4, 5, 0));
    let kept = completed_downloads(&Vec::new(), &first, first.len());
    assert_eq!(kept, done);

    let mut again = kept.clone();
    let (second, counters) = run(&nested(), &unlimited(), &mut again);
    assert_eq!(
        second,
        vec![
            ensure("data"),
            ensure("one"),
            ensure("deep"),
            Step::SkipPending { url: "http://example.com/data/later/".to_owned() },
            ensure("two"),
        ]
    );
    assert_eq!(again, kept);
    assert_eq!(counters, counts(4, 0, 0));
}

#[test]
fn a_second_run_with_a_skip_count_downloads_nothing() {
    let options = limited(0, 2, 0);
    let mut done = Vec::new();
    let (first, counters) = run(&nested(), &options, &mut done);
    assert_eq!(counters, counts(4, 3, 2));
    assert_eq!(first.iter().filter(|step| matches!(step, Step::Download { .. })).count(), 3);
    let mut again = done.clone();
    let (second, counters) = run(&nested(), &options, &mut again);
    assert!(!second.iter().any(|step| matches!(step, Step::Download { .. })));
    assert_eq!(again, done);
    assert_eq!(counters, counts(4, 0, 2));
}

#[test]
fn a_second_run_goes_on_behind_a_limit() {
    let options = limited(1, 0, 0);
    let mut done = Vec::new();
    let (first, _) = run(&three_files(), &options, &mut done);
    assert_eq!(first, vec![ensure("data"), fetch(A, "data")]);
    let (second, _) = run(&three_files(), &options, &mut done);
    assert_eq!(second, vec![ensure("data"), fetch(B, "data")]);
    assert_eq!(done, vec![A.to_owned(), B.to_owned()]);
}

#[test]
fn no_limit_no_skip_and_no_depth_limit_take_everything() {
    let mut done = Vec::new();
    let (steps, counters) = run(&nested(), &limited(0, 0, 0), &mut done);
    assert_eq!(steps.iter().filter(|step| matches!(step, Step::Download { .. })).count(), 5);
    assert_eq!(steps.iter().filter(|step| matches!(step, Step::EnsureDirectory { .. })).count(), 4);
    assert_eq!(counters, counts(4, 5, 0));
}

#[test]
fn a_limit_reached_on_the_last_file_stops_the_pass() {
    let tree = folder(
        "/data",
        vec![
            folder("/data/first", vec![leaf(C)]),
            leaf(A),
            leaf(B),
            waiting("/data/later"),
            folder("/data/second", vec![leaf("http://example.com/data/second/x")]),
        ],
    );
    let mut done = Vec::new();
    let (steps, counters) = run(&tree, &limited(2, 0, 0), &mut done);
    assert_eq!(steps, vec![ensure("data"), fetch(A, "data"), fetch(B, "data")]);
    assert_eq!(counters, counts(1, 2, 0));
    assert_eq!(done, vec![A.to_owned(), B.to_owned()]);
}

#[test]
fn a_limit_reached_below_stops_the_walk_above() {
    let tree = folder(
        "/data",
        vec![
            folder("/data/first", vec![leaf(A), leaf(B)]),
            waiting("/data/later"),
            folder("/data/second", vec![leaf(C)]),
            waiting("/data/last"),
        ],
    );
    let (steps, counters) = run(&tree, &limited(1, 0, 0), &mut Vec::new());
    assert_eq!(
        steps,
        vec![
            ensure("data"),
            ensure("first"),
            fetch(A, "first"),
            Step::SkipPending { url: "http://example.com/data/later/".to_owned() },
        ]
    );
    assert_eq!(counters, counts(2, 1, 0));
}

#[test]
fn a_depth_limit_bounds_the_directories_entered() {
    let (steps, counters) = run(&nested(), &limited(0, 0, 1), &mut Vec::new());
    assert_eq!(steps, vec![ensure("data"), fetch(A, "data"), fetch(B, "data")]);
    assert_eq!(counters, counts(1, 2, 0));

    let (steps, counters) = run(&nested(), &limited(0, 0, 2), &mut Vec::new());
    assert_eq!(
        steps,
        vec![
            ensure("data"),
            fetch(A, "data"),
            fetch(B, "data"),
            ensure("one"),
            fetch("http://example.com/data/one/x.bin", "one"),
            Step::SkipPending { url: "http://example.com/data/later/".to_owned() },
        ]
    );
    assert_eq!(counters, counts(2, 3, 0));

    let (steps, counters) = run(&nested(), &limited(0, 0, 3), &mut Vec::new());
    assert_eq!(steps.len(), 8);
    assert_eq!(steps[7], Step::SkipPending { url: "http://example.com/data/later/".to_owned() });
    assert_eq!(counters, counts(3, 4, 0));
}

#[test]
fn a_skip_count_leaves_the_first_files_out() {
    let mut done = Vec::new();
    let (steps, counters) = run(&three_files(), &limited(0, 1, 0), &mut done);
    assert_eq!(steps, vec![ensure("data"), fetch(B, "data"), fetch(C, "data")]);
    assert_eq!(counters, counts(1, 2, 1));
    assert_eq!(done, vec![B.to_owned(), C.to_owned()]);

    let (steps, counters) = run(&three_files(), &limited(0, 5, 0), &mut Vec::new());
    assert_eq!(steps, vec![ensure("data")]);
    assert_eq!(counters, counts(1, 0, 3));
}

#[test]
fn the_skip_count_counts_only_files_that_would_be_downloaded() {
    let options = get_options(&Arguments {
        skip: "1".to_owned(),
        file_filter: Some("^a".to_owned()),
        ..plain()
    })
    .unwrap();
    let mut done = vec![B.to_owned()];
    let (steps, counters) = run(&three_files(), &options, &mut done);
    assert_eq!(steps, vec![ensure("data")]);
    assert_eq!(counters, counts(1, 0, 1));
    assert_eq!(done, vec![B.to_owned()]);
}

#[test]
fn the_limit_is_tried_before_the_expressions_and_the_skip_count() {
    let options = get_options(&Arguments {
        limit: "1".to_owned(),
        skip: "1".to_owned(),
        file_filter: Some("^b".to_owned()),
        ..plain()
    })
    .unwrap();
    let tree = folder("/data", vec![leaf(A), leaf(B), leaf(C), leaf("http://example.com/data/d.txt")]);
    let (steps, counters) = run(&tree, &options, &mut Vec::new());
    assert_eq!(steps, vec![ensure("data"), fetch(C, "data")]);
    assert_eq!(counters, counts(1, 1, 1));
}

#[test]
fn a_url_that_is_listed_twice_is_downloaded_once() {
    let tree = folder("/data", vec![leaf(A), leaf(A), folder("/data/sub", vec![leaf(A), leaf(B)])]);
    let mut done = Vec::new();
    let (steps, counters) = run(&tree, &unlimited(), &mut done);
    assert_eq!(steps, vec![ensure("data"), fetch(A, "data"), ensure("sub"), fetch(B, "sub")]);
    assert_eq!(counters, counts(2, 2, 0));
    assert_eq!(done, vec![A.to_owned(), B.to_owned()]);
}

#[test]
fn path_expressions_leave_directories_out() {
    let options =
        get_options(&Arguments { path_filter: Some("^one$".to_owned()), ..plain() }).unwrap();
    let (steps, counters) = run(&nested(), &options, &mut Vec::new());
    assert_eq!(
        steps,
        vec![
            ensure("data"),
            fetch(A, "data"),
            fetch(B, "data"),
            Step::SkipPending { url: "http://example.com/data/later/".to_owned() },
            ensure("two"),
            fetch("http://example.com/data/two/z.bin", "two"),
        ]
    );
    assert_eq!(counters, counts(3, 3, 0));

    let options =
        get_options(&Arguments { path_matcher: Some("^(data|two)$".to_owned()), ..plain() })
            .unwrap();
    let (same, _) = run(&nested(), &options, &mut Vec::new());
    assert_eq!(same, steps);

    let options =
        get_options(&Arguments { path_matcher: Some("^nothing$".to_owned()), ..plain() }).unwrap();
    let (steps, counters) = run(&nested(), &options, &mut Vec::new());
    assert!(steps.is_empty());
    assert_eq!(counters, counts(1, 0, 0));
}

#[test]
fn the_folder_is_named_after_the_end_of_the_name() {
    for (name, expected) in [("/data/sub", "sub"), ("/data/", ""), ("data", "data"), ("", "")] {
        let (steps, _) = run(&folder(name, Vec::new()), &unlimited(), &mut Vec::new());
        assert_eq!(steps, vec![ensure(expected)]);
    }
}

#[test]
fn downloads_can_be_disabled() {
    let options = get_options(&Arguments { no_download: true, ..plain() }).unwrap();
    let mut counters = LimitCounts::new();
    let mut done = vec![A.to_owned()];
    assert_eq!(
        download_recursive(&nested(), &options, &mut counters, &mut done),
        Ok(DownloadRecursiveStatus::Done)
    );
    assert_eq!(counters, counts(0, 0, 0));
    assert_eq!(done, vec![A.to_owned()]);
}

#[test]
fn the_walk_starts_at_a_crawled_directory() {
    let mut counters = counts(1, 2, 3);
    let mut done = vec![A.to_owned()];
    for node in [leaf(A), waiting("/data")] {
        assert_eq!(
            download_recursive(&node, &unlimited(), &mut counters, &mut done),
            Err(DownloadError::NotADirectory)
        );
        let disabled = get_options(&Arguments { no_download: true, ..plain() }).unwrap();
        assert_eq!(
            download_recursive(&node, &disabled, &mut counters, &mut done),
            Err(DownloadError::NotADirectory)
        );
    }
    assert_eq!(counters, counts(1, 2, 3));
    assert_eq!(done, vec![A.to_owned()]);
}

#[test]
fn the_walk_goes_on_from_the_counters_it_is_given() {
    let mut counters = counts(10, 20, 30);
    let mut done = Vec::new();
    let status = download_recursive(&three_files(), &limited(22, 31, 0), &mut counters, &mut done);
    assert_eq!(
        status,
        Ok(DownloadRecursiveStatus::Do(vec![ensure("data"), fetch(B, "data"), fetch(C, "data")]))
    );
    assert_eq!(counters, counts(11, 22, 31));
}

#[test]
fn a_url_that_cannot_be_read_ends_the_plan() {
    let tree = folder(
        "/data",
        vec![leaf(A), leaf("no url at all"), leaf(B), folder("/data/sub", vec![leaf(C)])],
    );
    let mut done = Vec::new();
    let (steps, counters) = run(&tree, &unlimited(), &mut done);
    assert_eq!(
        steps,
        vec![ensure("data"), fetch(A, "data"), Step::Fail { url: "no url at all".to_owned() }]
    );
    assert_eq!(done, vec![A.to_owned()]);
    assert_eq!(counters, counts(1, 1, 0));

    let tree = folder("/data", vec![folder("/data/sub", vec![leaf("relative/path")]), folder("/data/next", vec![leaf(C)])]);
    let (steps, counters) = run(&tree, &unlimited(), &mut Vec::new());
    assert_eq!(
        steps,
        vec![ensure("data"), ensure("sub"), Step::Fail { url: "relative/path".to_owned() }]
    );
    assert_eq!(counters, counts(2, 0, 0));
}

#[test]
fn the_files_of_one_directory_are_planned() {
    let (a, b, c) = (link(A), link(B), link(C));
    let files = vec![&a, &b, &c];
    let mut counters = counts(0, 4, 0);
    let mut done = vec![B.to_owned()];
    let steps = download_files_to_dir("here", &files, &limited(5, 0, 0), &mut counters, &mut done);
    assert_eq!(steps, vec![fetch(A, "here")]);
    assert_eq!(counters, counts(0, 5, 0));
    assert_eq!(done, vec![B.to_owned(), A.to_owned()]);

    let steps = download_files_to_dir("here", &Vec::new(), &unlimited(), &mut counters, &mut done);
    assert!(steps.is_empty());
    assert_eq!(counters, counts(0, 5, 0));
}

#[test]
fn files_are_planned_without_conditions() {
    let files = vec![link(A), link("no url at all"), link(A)];
    assert_eq!(
        download_files("here", &files),
        vec![fetch(A, "here"), fetch("no url at all", "here"), fetch(A, "here")]
    );
    assert!(download_files("here", &Vec::new()).is_empty());
}

#[test]
fn each_file_gets_its_verdict() {
    let options = get_options(&Arguments {
        limit: "2".to_owned(),
        skip: "1".to_owned(),
        file_filter: Some("^b".to_owned()),
        ..plain()
    })
    .unwrap();
    let done = vec![C.to_owned()];
    assert_eq!(judge(&link("no url at all"), &options, &counts(0, 0, 0), &done), Verdict::Unreadable);
    assert_eq!(judge(&link(C), &options, &counts(0, 2, 0), &done), Verdict::AlreadyHave);
    assert_eq!(judge(&link(B), &options, &counts(0, 2, 0), &done), Verdict::LimitReached);
    assert_eq!(judge(&link(B), &options, &counts(0, 3, 0), &done), Verdict::LimitReached);
    assert_eq!(judge(&link(B), &options, &counts(0, 1, 0), &done), Verdict::Filtered);
    assert_eq!(judge(&link(A), &options, &counts(0, 1, 0), &done), Verdict::Skipped);
    assert_eq!(judge(&link(A), &options, &counts(0, 1, 1), &done), Verdict::Download);
    assert_eq!(judge(&link(A), &options, &counts(9, 1, 2), &done), Verdict::Download);
    assert_eq!(judge(&link(A), &unlimited(), &counts(0, u64::MAX, 0), &Vec::new()), Verdict::Download);
}

#[test]
fn a_tree_is_weighed_by_its_directories_and_files() {
    assert_eq!(weigh(&nested(), 100), Some(91));
    assert_eq!(weigh(&nested(), 9), Some(0));
    assert_eq!(weigh(&nested(), 8), None);
    assert_eq!(weigh(&nested(), 0), None);
    assert_eq!(weigh(&leaf(A), 0), Some(0));
    assert_eq!(weigh(&waiting("/x"), 3), Some(3));
    assert_eq!(weigh(&folder("/x", Vec::new()), 1), Some(0));
    assert_eq!(weigh(&folder("/x", Vec::new()), 0), None);
}

#[test]
fn counters_have_room_while_they_cannot_run_over() {
    assert!(counts(0, 0, 0).has_room_for(&nested()));
    assert!(counts(u64::MAX - 9, u64::MAX - 9, u64::MAX).has_room_for(&nested()));
    assert!(!counts(u64::MAX - 8, 0, 0).has_room_for(&nested()));
    assert!(!counts(0, u64::MAX - 8, 0).has_room_for(&nested()));
    assert!(counts(u64::MAX, u64::MAX, u64::MAX).has_room_for(&leaf(A)));
}

#[test]
fn a_verdict_goes_by_what_is_known_of_the_file() {
    let at = counts(0, 2, 1);
    assert_eq!(decide(false, true, true, None, None, &at), Verdict::Unreadable);
    assert_eq!(decide(true, true, false, Some(1), Some(9), &at), Verdict::AlreadyHave);
    assert_eq!(decide(true, false, true, Some(2), Some(9), &at), Verdict::LimitReached);
    assert_eq!(decide(true, false, true, Some(1), Some(9), &at), Verdict::LimitReached);
    assert_eq!(decide(true, false, false, Some(3), Some(9), &at), Verdict::Filtered);
    assert_eq!(decide(true, false, false, None, None, &at), Verdict::Filtered);
    assert_eq!(decide(true, false, true, Some(3), Some(2), &at), Verdict::Skipped);
    assert_eq!(decide(true, false, true, Some(3), Some(1), &at), Verdict::Download);
    assert_eq!(decide(true, false, true, None, None, &at), Verdict::Download);
}

#[test]
fn a_limit_that_is_reached_on_entry_plans_nothing() {
    let (a, b, c) = (link(A), link(B), link(C));
    let files = vec![&a, &b, &c];
    let options = get_options(&Arguments {
        limit: "3".to_owned(),
        skip: "2".to_owned(),
        file_filter: Some("^b".to_owned()),
        ..plain()
    })
    .unwrap();
    let mut counters = counts(7, 3, 0);
    let mut done = Vec::new();
    let steps = download_files_to_dir("here", &files, &options, &mut counters, &mut done);
    assert!(steps.is_empty());
    assert_eq!(counters, counts(7, 3, 0));
    assert!(done.is_empty());

    let most = get_options(&Arguments { limit: u64::MAX.to_string(), ..plain() }).unwrap();
    let mut counters = counts(0, u64::MAX, 0);
    let steps = download_files_to_dir("here", &files, &most, &mut counters, &mut done);
    assert!(steps.is_empty());
    assert_eq!(counters, counts(0, u64::MAX, 0));
    let mut counters = counts(0, u64::MAX - 1, 0);
    let steps = download_files_to_dir("here", &files, &most, &mut counters, &mut done);
    assert_eq!(steps, vec![fetch(A, "here")]);
    assert_eq!(counters, counts(0, u64::MAX, 0));
}

#[test]
fn files_that_are_known_plan_nothing() {
    let (a, b, c) = (link(A), link(B), link(C));
    let files = vec![&a, &b, &c];
    let mut counters = counts(1, 2, 3);
    let mut done = vec![C.to_owned(), A.to_owned(), B.to_owned()];
    let steps = download_files_to_dir("here", &files, &limited(0, 9, 0), &mut counters, &mut done);
    assert!(steps.is_empty());
    assert_eq!(counters, counts(1, 2, 3));
    assert_eq!(done, vec![C.to_owned(), A.to_owned(), B.to_owned()]);
}

#[test]
fn what_is_new_is_downloaded_in_listing_order() {
    let (a, b, c) = (link(A), link(B), link(C));
    let files = vec![&a, &b, &c];
    let mut counters = counts(0, 10, 0);
    let mut done = vec![B.to_owned()];
    let steps = download_files_to_dir("here", &files, &unlimited(), &mut counters, &mut done);
    assert_eq!(steps, vec![fetch(A, "here"), fetch(C, "here")]);
    assert_eq!(done, vec![B.to_owned(), A.to_owned(), C.to_owned()]);
    assert_eq!(counters, counts(0, 12, 0));
}

#[test]
fn disabled_downloads_need_no_room() {
    let options = get_options(&Arguments { no_download: true, ..plain() }).unwrap();
    let mut counters = counts(u64::MAX, u64::MAX, u64::MAX);
    assert!(!counters.has_room_for(&nested()));
    let mut done = Vec::new();
    assert_eq!(
        download_recursive(&nested(), &options, &mut counters, &mut done),
        Ok(DownloadRecursiveStatus::Done)
    );
    assert_eq!(counters, counts(u64::MAX, u64::MAX, u64::MAX));
}
