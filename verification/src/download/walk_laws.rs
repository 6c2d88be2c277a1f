//! What holds of every download walk.

use crate::cli::{as_limit, CliOptions};
use crate::download::fetch::{
    after_download, after_skip, depth_reached, download_urls, download_walk, files_of, halted,
    last_segment_of, limit_reached, skip_owed, verdict_of, walk_children, walk_directory,
    walk_files, with_step, without_downloads, Counts, StepModel, Verdict, Walk,
};
use crate::download::types::{FileLinkModel, NodeModel};
use crate::link::url_parsed;
use crate::text::after_last;
use vstd::prelude::*;

verus! {

/// Whether every URL of `inner` is one of `outer`.
pub open spec fn within(inner: Seq<Seq<char>>, outer: Seq<Seq<char>>) -> bool {
    forall|url: Seq<char>| inner.contains(url) ==> outer.contains(url)
}

/// Whether the state `later` can come after `earlier` in a walk: no URL is
/// lost, and no counter goes down.
pub open spec fn grown(earlier: Walk, later: Walk) -> bool {
    &&& within(earlier.done, later.done)
    &&& earlier.counts.depth <= later.counts.depth
    &&& earlier.counts.files <= later.counts.files
    &&& earlier.counts.skipped <= later.counts.skipped
}

/// A list is within the list with one more entry, which holds that entry.
pub proof fn lemma_within_push(list: Seq<Seq<char>>, url: Seq<char>)
    ensures
        within(list, list.push(url)),
        list.push(url).contains(url),
{
    assert forall|u: Seq<char>| list.contains(u) implies list.push(url).contains(u) by {
        let i = choose|i: int| 0 <= i < list.len() && list[i] == u;
        assert(list.push(url)[i] == u);
    }
    assert(list.push(url)[list.len() as int] == url);
}

/// What one more step adds to the URLs of the downloads.
pub proof fn lemma_download_urls_push(steps: Seq<StepModel>, step: StepModel)
    ensures
        download_urls(steps.push(step)) == match step {
            StepModel::Download { url, .. } => download_urls(steps).push(url),
            _ => download_urls(steps),
        },
{
    assert(steps.push(step).drop_last() =~= steps);
}

/// What one more step adds to the steps that are no downloads.
pub proof fn lemma_without_downloads_push(steps: Seq<StepModel>, step: StepModel)
    ensures
        without_downloads(steps.push(step)) == if step is Download {
            without_downloads(steps)
        } else {
            without_downloads(steps).push(step)
        },
{
    assert(steps.push(step).drop_last() =~= steps);
}

/// The walk over files loses no URL and lowers no counter.
pub proof fn lemma_files_grow(
    files: Seq<FileLinkModel>,
    from: int,
    folder: Seq<char>,
    options: CliOptions,
    walk: Walk,
)
    ensures
        grown(walk, walk_files(files, from, folder, options, walk)),
    decreases files.len() - from,
{
    if 0 <= from < files.len() {
        let file = files[from];
        match verdict_of(file, options, walk.counts, walk.done) {
            Verdict::Unreadable | Verdict::LimitReached => {},
            Verdict::AlreadyHave | Verdict::Filtered => {
                lemma_files_grow(files, from + 1, folder, options, walk);
            },
            Verdict::Skipped => {
                lemma_files_grow(files, from + 1, folder, options, after_skip(walk));
            },
            Verdict::Download => {
                lemma_within_push(walk.done, file.url);
                lemma_files_grow(
                    files,
                    from + 1,
                    folder,
                    options,
                    after_download(walk, file.url, folder),
                );
            },
        }
    }
}

/// The walk over a directory loses no URL and lowers no counter.
pub proof fn lemma_directory_grows(node: NodeModel, options: CliOptions, walk: Walk)
    ensures
        grown(walk, walk_directory(node, options, walk)),
    decreases node,
{
    match node {
        NodeModel::CrawledDir(dir, children) => {
            let entered = Walk {
                counts: Counts { depth: walk.counts.depth + 1, ..walk.counts },
                ..walk
            };
            let folder = after_last(dir.name, '/');
            if options.admits_path(folder) {
                let ensured = with_step(entered, StepModel::EnsureDirectory { folder });
                let filed = walk_files(files_of(children), 0, folder, options, ensured);
                lemma_files_grow(files_of(children), 0, folder, options, ensured);
                if !halted(filed) {
                    lemma_children_grow(children, 0, options, filed);
                }
            }
        },
        _ => {},
    }
}

/// The walk over children loses no URL and lowers no counter.
pub proof fn lemma_children_grow(
    children: Seq<NodeModel>,
    from: int,
    options: CliOptions,
    walk: Walk,
)
    ensures
        grown(walk, walk_children(children, from, options, walk)),
    decreases children, children.len() - from,
{
    if 0 <= from < children.len() {
        match children[from] {
            NodeModel::CrawledDir(_, _) => {
                if !(depth_reached(options, walk.counts) || limit_reached(options, walk.counts)) {
                    let inner = walk_directory(children[from], options, walk);
                    lemma_directory_grows(children[from], options, walk);
                    if !halted(inner) {
                        lemma_children_grow(children, from + 1, options, inner);
                    }
                }
            },
            NodeModel::PendingDir(dir) => {
                lemma_children_grow(
                    children,
                    from + 1,
                    options,
                    with_step(walk, StepModel::SkipPending { url: dir.url }),
                );
            },
            NodeModel::File(_) => {
                lemma_children_grow(children, from + 1, options, walk);
            },
        }
    }
}

/// Whether the list of downloaded URLs of `walk` is `base` and behind it
/// the URLs of the downloads among the steps.
pub open spec fn recorded(base: Seq<Seq<char>>, walk: Walk) -> bool {
    walk.done == base + download_urls(walk.steps)
}

/// One more step that is no download keeps the record.
pub proof fn lemma_step_recorded(base: Seq<Seq<char>>, walk: Walk, step: StepModel)
    requires
        recorded(base, walk),
        !(step is Download),
    ensures
        recorded(base, with_step(walk, step)),
{
    lemma_download_urls_push(walk.steps, step);
}

/// The walk over files keeps the record.
pub proof fn lemma_files_recorded(
    base: Seq<Seq<char>>,
    files: Seq<FileLinkModel>,
    from: int,
    folder: Seq<char>,
    options: CliOptions,
    walk: Walk,
)
    requires
        recorded(base, walk),
    ensures
        recorded(base, walk_files(files, from, folder, options, walk)),
    decreases files.len() - from,
{
    if 0 <= from < files.len() {
        let file = files[from];
        match verdict_of(file, options, walk.counts, walk.done) {
            Verdict::Unreadable => {
                lemma_step_recorded(base, walk, StepModel::Fail { url: file.url });
            },
            Verdict::LimitReached => {},
            Verdict::AlreadyHave | Verdict::Filtered => {
                lemma_files_recorded(base, files, from + 1, folder, options, walk);
            },
            Verdict::Skipped => {
                lemma_files_recorded(base, files, from + 1, folder, options, after_skip(walk));
            },
            Verdict::Download => {
                let next = after_download(walk, file.url, folder);
                lemma_download_urls_push(
                    walk.steps,
                    StepModel::Download { url: file.url, folder },
                );
                assert(next.done =~= base + download_urls(next.steps));
                lemma_files_recorded(base, files, from + 1, folder, options, next);
            },
        }
    }
}

/// The walk over a directory keeps the record.
pub proof fn lemma_directory_recorded(
    base: Seq<Seq<char>>,
    node: NodeModel,
    options: CliOptions,
    walk: Walk,
)
    requires
        recorded(base, walk),
    ensures
        recorded(base, walk_directory(node, options, walk)),
    decreases node,
{
    match node {
        NodeModel::CrawledDir(dir, children) => {
            let entered = Walk {
                counts: Counts { depth: walk.counts.depth + 1, ..walk.counts },
                ..walk
            };
            let folder = after_last(dir.name, '/');
            if options.admits_path(folder) {
                let ensured = with_step(entered, StepModel::EnsureDirectory { folder });
                lemma_step_recorded(base, entered, StepModel::EnsureDirectory { folder });
                let filed = walk_files(files_of(children), 0, folder, options, ensured);
                lemma_files_recorded(base, files_of(children), 0, folder, options, ensured);
                if !halted(filed) {
                    lemma_children_recorded(base, children, 0, options, filed);
                }
            }
        },
        _ => {},
    }
}

/// The walk over children keeps the record.
pub proof fn lemma_children_recorded(
    base: Seq<Seq<char>>,
    children: Seq<NodeModel>,
    from: int,
    options: CliOptions,
    walk: Walk,
)
    requires
        recorded(base, walk),
    ensures
        recorded(base, walk_children(children, from, options, walk)),
    decreases children, children.len() - from,
{
    if 0 <= from < children.len() {
        match children[from] {
            NodeModel::CrawledDir(_, _) => {
                if !(depth_reached(options, walk.counts) || limit_reached(options, walk.counts)) {
                    let inner = walk_directory(children[from], options, walk);
                    lemma_directory_recorded(base, children[from], options, walk);
                    if !halted(inner) {
                        lemma_children_recorded(base, children, from + 1, options, inner);
                    }
                }
            },
            NodeModel::PendingDir(dir) => {
                let step = StepModel::SkipPending { url: dir.url };
                lemma_step_recorded(base, walk, step);
                lemma_children_recorded(base, children, from + 1, options, with_step(walk, step));
            },
            NodeModel::File(_) => {
                lemma_children_recorded(base, children, from + 1, options, walk);
            },
        }
    }
}

/// The list of downloaded URLs after a walk is the list before it, and
/// behind it the URLs of the planned downloads, in the order of the plan:
/// a URL is added for every download and for nothing else.
pub proof fn law_downloads_are_recorded(
    root: NodeModel,
    options: CliOptions,
    counts: Counts,
    done: Seq<Seq<char>>,
)
    ensures
        download_walk(root, options, counts, done).done == done + download_urls(
            download_walk(root, options, counts, done).steps,
        ),
{
    let start = Walk { counts, done, steps: Seq::empty() };
    assert(start.done =~= done + download_urls(start.steps));
    lemma_directory_recorded(done, root, options, start);
}

/// A limit that was given as zero never stops anything: no download limit
/// is reached, no file is left out under the skip count, and no limit on
/// entered directories is reached, whatever the counters say.
pub proof fn law_zero_means_unlimited(options: CliOptions, counts: Counts)
    ensures
        options.limit() == as_limit(0) ==> !limit_reached(options, counts),
        options.skip() == as_limit(0) ==> !skip_owed(options, counts),
        options.depth_limit() == as_limit(0) ==> !depth_reached(options, counts),
{
}

/// Once the download limit is reached, the walk over the files of a
/// directory plans no download, adds no URL and counts nothing, from
/// whichever file it goes on.
pub proof fn law_limit_stops_files(
    files: Seq<FileLinkModel>,
    from: int,
    folder: Seq<char>,
    options: CliOptions,
    walk: Walk,
)
    requires
        limit_reached(options, walk.counts),
    ensures
        walk_files(files, from, folder, options, walk).counts == walk.counts,
        walk_files(files, from, folder, options, walk).done == walk.done,
        download_urls(walk_files(files, from, folder, options, walk).steps) == download_urls(
            walk.steps,
        ),
    decreases files.len() - from,
{
    if 0 <= from < files.len() {
        let file = files[from];
        match verdict_of(file, options, walk.counts, walk.done) {
            Verdict::Unreadable => {
                lemma_download_urls_push(walk.steps, StepModel::Fail { url: file.url });
            },
            Verdict::AlreadyHave => {
                law_limit_stops_files(files, from + 1, folder, options, walk);
            },
            _ => {},
        }
    }
}

/// Once the download limit or the limit on entered directories is reached,
/// the walk over the children of a directory enters no directory: it plans
/// no download and no folder, adds no URL and counts nothing.
pub proof fn law_limit_stops_children(
    children: Seq<NodeModel>,
    from: int,
    options: CliOptions,
    walk: Walk,
)
    requires
        limit_reached(options, walk.counts) || depth_reached(options, walk.counts),
    ensures
        walk_children(children, from, options, walk).counts == walk.counts,
        walk_children(children, from, options, walk).done == walk.done,
        download_urls(walk_children(children, from, options, walk).steps) == download_urls(
            walk.steps,
        ),
        walk.steps.is_prefix_of(walk_children(children, from, options, walk).steps),
        forall|i: int|
            walk.steps.len() <= i < walk_children(children, from, options, walk).steps.len()
                ==> #[trigger] walk_children(children, from, options, walk).steps[i]
                is SkipPending,
    decreases children.len() - from,
{
    if 0 <= from < children.len() {
        match children[from] {
            NodeModel::CrawledDir(_, _) => {},
            NodeModel::PendingDir(dir) => {
                let step = StepModel::SkipPending { url: dir.url };
                let next = with_step(walk, step);
                let end = walk_children(children, from + 1, options, next);
                lemma_download_urls_push(walk.steps, step);
                law_limit_stops_children(children, from + 1, options, next);
                assert(end.steps[walk.steps.len() as int] == next.steps[walk.steps.len() as int]);
                assert forall|i: int| 0 <= i < walk.steps.len() implies end.steps[i]
                    == walk.steps[i] by {
                    assert(end.steps[i] == next.steps[i]);
                }
            },
            NodeModel::File(_) => {
                law_limit_stops_children(children, from + 1, options, walk);
            },
        }
    }
}

/// Whether the counters are within the limits of the configuration: no more
/// files are downloaded than the download limit allows, no more files are
/// left out than the skip count asks for, and no more directories are
/// entered than the depth limit allows.
pub open spec fn within_limits(options: CliOptions, counts: Counts) -> bool {
    &&& options.limit() matches Some(limit) ==> counts.files <= limit
    &&& options.skip() matches Some(skip) ==> counts.skipped <= skip
    &&& options.depth_limit() matches Some(limit) ==> counts.depth <= limit
}

/// The walk over files stays within the limits.
pub proof fn lemma_files_within_limits(
    files: Seq<FileLinkModel>,
    from: int,
    folder: Seq<char>,
    options: CliOptions,
    walk: Walk,
)
    requires
        within_limits(options, walk.counts),
    ensures
        within_limits(options, walk_files(files, from, folder, options, walk).counts),
    decreases files.len() - from,
{
    if 0 <= from < files.len() {
        let file = files[from];
        match verdict_of(file, options, walk.counts, walk.done) {
            Verdict::Unreadable | Verdict::LimitReached => {},
            Verdict::AlreadyHave | Verdict::Filtered => {
                lemma_files_within_limits(files, from + 1, folder, options, walk);
            },
            Verdict::Skipped => {
                lemma_files_within_limits(files, from + 1, folder, options, after_skip(walk));
            },
            Verdict::Download => {
                lemma_files_within_limits(
                    files,
                    from + 1,
                    folder,
                    options,
                    after_download(walk, file.url, folder),
                );
            },
        }
    }
}

/// The walk over a directory stays within the limits, where there is room
/// for the directory itself.
pub proof fn lemma_directory_within_limits(node: NodeModel, options: CliOptions, walk: Walk)
    requires
        within_limits(options, walk.counts),
        !depth_reached(options, walk.counts),
    ensures
        within_limits(options, walk_directory(node, options, walk).counts),
    decreases node,
{
    match node {
        NodeModel::CrawledDir(dir, children) => {
            let entered = Walk {
                counts: Counts { depth: walk.counts.depth + 1, ..walk.counts },
                ..walk
            };
            let folder = after_last(dir.name, '/');
            if options.admits_path(folder) {
                let ensured = with_step(entered, StepModel::EnsureDirectory { folder });
                let filed = walk_files(files_of(children), 0, folder, options, ensured);
                lemma_files_within_limits(files_of(children), 0, folder, options, ensured);
                lemma_files_grow(files_of(children), 0, folder, options, ensured);
                if !halted(filed) {
                    lemma_children_within_limits(children, 0, options, filed);
                }
            }
        },
        _ => {},
    }
}

/// The walk over children stays within the limits.
pub proof fn lemma_children_within_limits(
    children: Seq<NodeModel>,
    from: int,
    options: CliOptions,
    walk: Walk,
)
    requires
        within_limits(options, walk.counts),
    ensures
        within_limits(options, walk_children(children, from, options, walk).counts),
    decreases children, children.len() - from,
{
    if 0 <= from < children.len() {
        match children[from] {
            NodeModel::CrawledDir(_, _) => {
                if !(depth_reached(options, walk.counts) || limit_reached(options, walk.counts)) {
                    let inner = walk_directory(children[from], options, walk);
                    lemma_directory_within_limits(children[from], options, walk);
                    if !halted(inner) {
                        lemma_children_within_limits(children, from + 1, options, inner);
                    }
                }
            },
            NodeModel::PendingDir(dir) => {
                lemma_children_within_limits(
                    children,
                    from + 1,
                    options,
                    with_step(walk, StepModel::SkipPending { url: dir.url }),
                );
            },
            NodeModel::File(_) => {
                lemma_children_within_limits(children, from + 1, options, walk);
            },
        }
    }
}

/// The limits are kept. A walk that starts within the limits, with room
/// for the root directory, ends within them: it downloads no more files
/// than the download limit allows, leaves out no more than the skip count
/// asks for, and enters no more directories than the depth limit allows.
pub proof fn law_limits_are_kept(
    root: NodeModel,
    options: CliOptions,
    counts: Counts,
    done: Seq<Seq<char>>,
)
    requires
        within_limits(options, counts),
        !depth_reached(options, counts),
    ensures
        within_limits(options, download_walk(root, options, counts, done).counts),
{
    let start = Walk { counts, done, steps: Seq::empty() };
    lemma_directory_within_limits(root, options, start);
}

/// Whether the state `again` of a second run goes with the state `first`
/// of the run before it: the second run holds the final list `done` of
/// downloaded URLs, has entered as many directories, has counted no more,
/// has planned what the first run planned but for the downloads, and has
/// failed if and only if the first has.
pub open spec fn mirrors(first: Walk, again: Walk, done: Seq<Seq<char>>) -> bool {
    &&& again.done == done
    &&& again.counts.depth == first.counts.depth
    &&& again.counts.skipped <= first.counts.skipped
    &&& again.counts.files <= first.counts.files
    &&& again.steps == without_downloads(first.steps)
    &&& download_urls(again.steps) == Seq::<Seq<char>>::empty()
    &&& halted(again) == halted(first)
}

/// The second walk over files goes with the first.
pub proof fn lemma_files_mirror(
    files: Seq<FileLinkModel>,
    from: int,
    folder: Seq<char>,
    options: CliOptions,
    first: Walk,
    again: Walk,
    done: Seq<Seq<char>>,
)
    requires
        mirrors(first, again, done),
        !halted(first),
        within(walk_files(files, from, folder, options, first).done, done),
        !limit_reached(options, walk_files(files, from, folder, options, first).counts),
    ensures
        mirrors(
            walk_files(files, from, folder, options, first),
            walk_files(files, from, folder, options, again),
            done,
        ),
    decreases files.len() - from,
{
    if 0 <= from < files.len() {
        let file = files[from];
        lemma_files_grow(files, from, folder, options, first);
        match verdict_of(file, options, first.counts, first.done) {
            Verdict::Unreadable => {
                lemma_download_urls_push(again.steps, StepModel::Fail { url: file.url });
                lemma_without_downloads_push(first.steps, StepModel::Fail { url: file.url });
            },
            Verdict::LimitReached => {},
            Verdict::AlreadyHave | Verdict::Filtered => {
                lemma_files_mirror(files, from + 1, folder, options, first, again, done);
            },
            Verdict::Skipped => {
                let next = after_skip(first);
                if done.contains(file.url) {
                    lemma_files_mirror(files, from + 1, folder, options, next, again, done);
                } else {
                    lemma_files_mirror(
                        files,
                        from + 1,
                        folder,
                        options,
                        next,
                        after_skip(again),
                        done,
                    );
                }
            },
            Verdict::Download => {
                let next = after_download(first, file.url, folder);
                lemma_within_push(first.done, file.url);
                lemma_files_grow(files, from + 1, folder, options, next);
                lemma_without_downloads_push(
                    first.steps,
                    StepModel::Download { url: file.url, folder },
                );
                assert(done.contains(file.url));
                lemma_files_mirror(files, from + 1, folder, options, next, again, done);
            },
        }
    }
}

/// The second walk over a directory goes with the first.
pub proof fn lemma_directory_mirrors(
    node: NodeModel,
    options: CliOptions,
    first: Walk,
    again: Walk,
    done: Seq<Seq<char>>,
)
    requires
        mirrors(first, again, done),
        !halted(first),
        within(walk_directory(node, options, first).done, done),
        !limit_reached(options, walk_directory(node, options, first).counts),
    ensures
        mirrors(
            walk_directory(node, options, first),
            walk_directory(node, options, again),
            done,
        ),
    decreases node,
{
    match node {
        NodeModel::CrawledDir(dir, children) => {
            let folder = after_last(dir.name, '/');
            let entered = Walk {
                counts: Counts { depth: first.counts.depth + 1, ..first.counts },
                ..first
            };
            let entered_again = Walk {
                counts: Counts { depth: again.counts.depth + 1, ..again.counts },
                ..again
            };
            if options.admits_path(folder) {
                let step = StepModel::EnsureDirectory { folder };
                let ensured = with_step(entered, step);
                let ensured_again = with_step(entered_again, step);
                lemma_download_urls_push(entered_again.steps, step);
                lemma_without_downloads_push(entered.steps, step);
                let filed = walk_files(files_of(children), 0, folder, options, ensured);
                let filed_again = walk_files(
                    files_of(children),
                    0,
                    folder,
                    options,
                    ensured_again,
                );
                if !halted(filed) {
                    lemma_children_grow(children, 0, options, filed);
                }
                lemma_files_mirror(
                    files_of(children),
                    0,
                    folder,
                    options,
                    ensured,
                    ensured_again,
                    done,
                );
                if !halted(filed) {
                    lemma_children_mirror(children, 0, options, filed, filed_again, done);
                }
            }
        },
        _ => {},
    }
}

/// The second walk over children goes with the first.
pub proof fn lemma_children_mirror(
    children: Seq<NodeModel>,
    from: int,
    options: CliOptions,
    first: Walk,
    again: Walk,
    done: Seq<Seq<char>>,
)
    requires
        mirrors(first, again, done),
        !halted(first),
        within(walk_children(children, from, options, first).done, done),
        !limit_reached(options, walk_children(children, from, options, first).counts),
    ensures
        mirrors(
            walk_children(children, from, options, first),
            walk_children(children, from, options, again),
            done,
        ),
    decreases children, children.len() - from,
{
    if 0 <= from < children.len() {
        match children[from] {
            NodeModel::CrawledDir(_, _) => {
                if !(depth_reached(options, first.counts) || limit_reached(
                    options,
                    first.counts,
                )) {
                    let inner = walk_directory(children[from], options, first);
                    let inner_again = walk_directory(children[from], options, again);
                    if !halted(inner) {
                        lemma_children_grow(children, from + 1, options, inner);
                    }
                    lemma_directory_mirrors(children[from], options, first, again, done);
                    if !halted(inner) {
                        lemma_children_mirror(
                            children,
                            from + 1,
                            options,
                            inner,
                            inner_again,
                            done,
                        );
                    }
                }
            },
            NodeModel::PendingDir(dir) => {
                let step = StepModel::SkipPending { url: dir.url };
                lemma_download_urls_push(again.steps, step);
                lemma_without_downloads_push(first.steps, step);
                lemma_children_mirror(
                    children,
                    from + 1,
                    options,
                    with_step(first, step),
                    with_step(again, step),
                    done,
                );
            },
            NodeModel::File(_) => {
                lemma_children_mirror(children, from + 1, options, first, again, done);
            },
        }
    }
}

/// A second run plans no download. Let a first walk start with the
/// counters at `counts` and the list `done`, and end without having reached
/// the download limit. A walk over the same tree under the same
/// configuration that starts with the list as the first walk left it, and
/// with counters that are no further than `counts`, plans no download and
/// adds no URL. It still goes through the tree as the first walk did: it
/// enters the same number of directories and plans the steps of the first
/// walk but for the downloads.
///
/// Where the first walk reached the download limit this does not hold: the
/// second walk goes on where the first one stopped.
pub proof fn law_second_run_downloads_nothing(
    root: NodeModel,
    options: CliOptions,
    counts: Counts,
    done: Seq<Seq<char>>,
    again: Counts,
)
    requires
        !limit_reached(options, download_walk(root, options, counts, done).counts),
        again.depth == counts.depth,
        again.skipped <= counts.skipped,
        again.files <= counts.files,
    ensures
        ({
            let first = download_walk(root, options, counts, done);
            let second = download_walk(root, options, again, first.done);
            &&& download_urls(second.steps) == Seq::<Seq<char>>::empty()
            &&& second.steps == without_downloads(first.steps)
            &&& second.done == first.done
            &&& second.counts.files == again.files
            &&& second.counts.depth == first.counts.depth
        }),
{
    let first = download_walk(root, options, counts, done);
    let start = Walk { counts, done, steps: Seq::empty() };
    let start_again = Walk { counts: again, done: first.done, steps: Seq::empty() };
    if !options.download_disabled() {
        lemma_directory_mirrors(root, options, start, start_again, first.done);
        lemma_directory_counts_downloads(root, options, start_again);
    }
}

/// The walk over files counts one file for each download that it plans.
pub proof fn lemma_files_count_downloads(
    files: Seq<FileLinkModel>,
    from: int,
    folder: Seq<char>,
    options: CliOptions,
    walk: Walk,
)
    ensures
        walk_files(files, from, folder, options, walk).counts.files - walk.counts.files
            == download_urls(walk_files(files, from, folder, options, walk).steps).len()
            - download_urls(walk.steps).len(),
    decreases files.len() - from,
{
    if 0 <= from < files.len() {
        let file = files[from];
        match verdict_of(file, options, walk.counts, walk.done) {
            Verdict::Unreadable => {
                lemma_download_urls_push(walk.steps, StepModel::Fail { url: file.url });
            },
            Verdict::LimitReached => {},
            Verdict::AlreadyHave | Verdict::Filtered => {
                lemma_files_count_downloads(files, from + 1, folder, options, walk);
            },
            Verdict::Skipped => {
                lemma_files_count_downloads(files, from + 1, folder, options, after_skip(walk));
            },
            Verdict::Download => {
                lemma_download_urls_push(
                    walk.steps,
                    StepModel::Download { url: file.url, folder },
                );
                lemma_files_count_downloads(
                    files,
                    from + 1,
                    folder,
                    options,
                    after_download(walk, file.url, folder),
                );
            },
        }
    }
}

/// The walk over a directory counts one file for each download that it
/// plans.
pub proof fn lemma_directory_counts_downloads(node: NodeModel, options: CliOptions, walk: Walk)
    ensures
        walk_directory(node, options, walk).counts.files - walk.counts.files == download_urls(
            walk_directory(node, options, walk).steps,
        ).len() - download_urls(walk.steps).len(),
    decreases node,
{
    match node {
        NodeModel::CrawledDir(dir, children) => {
            let entered = Walk {
                counts: Counts { depth: walk.counts.depth + 1, ..walk.counts },
                ..walk
            };
            let folder = after_last(dir.name, '/');
            if options.admits_path(folder) {
                let step = StepModel::EnsureDirectory { folder };
                let ensured = with_step(entered, step);
                lemma_download_urls_push(entered.steps, step);
                let filed = walk_files(files_of(children), 0, folder, options, ensured);
                lemma_files_count_downloads(files_of(children), 0, folder, options, ensured);
                if !halted(filed) {
                    lemma_children_count_downloads(children, 0, options, filed);
                }
            }
        },
        _ => {},
    }
}

/// The walk over children counts one file for each download that it plans.
pub proof fn lemma_children_count_downloads(
    children: Seq<NodeModel>,
    from: int,
    options: CliOptions,
    walk: Walk,
)
    ensures
        walk_children(children, from, options, walk).counts.files - walk.counts.files
            == download_urls(walk_children(children, from, options, walk).steps).len()
            - download_urls(walk.steps).len(),
    decreases children, children.len() - from,
{
    if 0 <= from < children.len() {
        match children[from] {
            NodeModel::CrawledDir(_, _) => {
                if !(depth_reached(options, walk.counts) || limit_reached(options, walk.counts)) {
                    let inner = walk_directory(children[from], options, walk);
                    lemma_directory_counts_downloads(children[from], options, walk);
                    if !halted(inner) {
                        lemma_children_count_downloads(children, from + 1, options, inner);
                    }
                }
            },
            NodeModel::PendingDir(dir) => {
                let step = StepModel::SkipPending { url: dir.url };
                lemma_download_urls_push(walk.steps, step);
                lemma_children_count_downloads(
                    children,
                    from + 1,
                    options,
                    with_step(walk, step),
                );
            },
            NodeModel::File(_) => {
                lemma_children_count_downloads(children, from + 1, options, walk);
            },
        }
    }
}

/// What one more entry adds to what a list holds.
pub proof fn lemma_push_contains(list: Seq<Seq<char>>, added: Seq<char>, url: Seq<char>)
    ensures
        list.push(added).contains(url) <==> list.contains(url) || added == url,
{
    let longer = list.push(added);
    if longer.contains(url) {
        let i = choose|i: int| 0 <= i < longer.len() && longer[i] == url;
        if i < list.len() {
            assert(list[i] == url);
        }
    }
    if list.contains(url) {
        let i = choose|i: int| 0 <= i < list.len() && list[i] == url;
        assert(longer[i] == url);
    }
    if added == url {
        assert(longer[list.len() as int] == url);
    }
}

/// Whether the walk `walk` has `url` and no download of it to come: the URL
/// counts as downloaded, and no step so far downloads it.
pub open spec fn settled_url(walk: Walk, url: Seq<char>) -> bool {
    walk.done.contains(url) && !download_urls(walk.steps).contains(url)
}

/// The walk over files plans no download of a URL that counts as
/// downloaded.
pub proof fn lemma_files_keep_settled(
    url: Seq<char>,
    files: Seq<FileLinkModel>,
    from: int,
    folder: Seq<char>,
    options: CliOptions,
    walk: Walk,
)
    requires
        settled_url(walk, url),
    ensures
        settled_url(walk_files(files, from, folder, options, walk), url),
    decreases files.len() - from,
{
    if 0 <= from < files.len() {
        let file = files[from];
        match verdict_of(file, options, walk.counts, walk.done) {
            Verdict::Unreadable => {
                lemma_download_urls_push(walk.steps, StepModel::Fail { url: file.url });
            },
            Verdict::LimitReached => {},
            Verdict::AlreadyHave | Verdict::Filtered => {
                lemma_files_keep_settled(url, files, from + 1, folder, options, walk);
            },
            Verdict::Skipped => {
                lemma_files_keep_settled(url, files, from + 1, folder, options, after_skip(walk));
            },
            Verdict::Download => {
                let next = after_download(walk, file.url, folder);
                lemma_download_urls_push(
                    walk.steps,
                    StepModel::Download { url: file.url, folder },
                );
                lemma_push_contains(walk.done, file.url, url);
                lemma_push_contains(download_urls(walk.steps), file.url, url);
                lemma_files_keep_settled(url, files, from + 1, folder, options, next);
            },
        }
    }
}

/// The walk over a directory plans no download of a URL that counts as
/// downloaded.
pub proof fn lemma_directory_keeps_settled(
    url: Seq<char>,
    node: NodeModel,
    options: CliOptions,
    walk: Walk,
)
    requires
        settled_url(walk, url),
    ensures
        settled_url(walk_directory(node, options, walk), url),
    decreases node,
{
    match node {
        NodeModel::CrawledDir(dir, children) => {
            let entered = Walk {
                counts: Counts { depth: walk.counts.depth + 1, ..walk.counts },
                ..walk
            };
            let folder = after_last(dir.name, '/');
            if options.admits_path(folder) {
                let step = StepModel::EnsureDirectory { folder };
                let ensured = with_step(entered, step);
                lemma_download_urls_push(entered.steps, step);
                let filed = walk_files(files_of(children), 0, folder, options, ensured);
                lemma_files_keep_settled(url, files_of(children), 0, folder, options, ensured);
                if !halted(filed) {
                    lemma_children_keep_settled(url, children, 0, options, filed);
                }
            }
        },
        _ => {},
    }
}

/// The walk over children plans no download of a URL that counts as
/// downloaded.
pub proof fn lemma_children_keep_settled(
    url: Seq<char>,
    children: Seq<NodeModel>,
    from: int,
    options: CliOptions,
    walk: Walk,
)
    requires
        settled_url(walk, url),
    ensures
        settled_url(walk_children(children, from, options, walk), url),
    decreases children, children.len() - from,
{
    if 0 <= from < children.len() {
        match children[from] {
            NodeModel::CrawledDir(_, _) => {
                if !(depth_reached(options, walk.counts) || limit_reached(options, walk.counts)) {
                    let inner = walk_directory(children[from], options, walk);
                    lemma_directory_keeps_settled(url, children[from], options, walk);
                    if !halted(inner) {
                        lemma_children_keep_settled(url, children, from + 1, options, inner);
                    }
                }
            },
            NodeModel::PendingDir(dir) => {
                let step = StepModel::SkipPending { url: dir.url };
                lemma_download_urls_push(walk.steps, step);
                lemma_children_keep_settled(
                    url,
                    children,
                    from + 1,
                    options,
                    with_step(walk, step),
                );
            },
            NodeModel::File(_) => {
                lemma_children_keep_settled(url, children, from + 1, options, walk);
            },
        }
    }
}

/// What was downloaded is not asked for again. A walk that starts with
/// `url` in the list of downloaded URLs plans no download of it, whatever
/// the tree, the configuration and the counters: so a run that follows a
/// run that failed asks for none of the files that the failed run had
/// finished.
pub proof fn law_downloaded_urls_are_not_planned(
    url: Seq<char>,
    root: NodeModel,
    options: CliOptions,
    counts: Counts,
    done: Seq<Seq<char>>,
)
    requires
        done.contains(url),
    ensures
        !download_urls(download_walk(root, options, counts, done).steps).contains(url),
        download_walk(root, options, counts, done).done.contains(url),
{
    let start = Walk { counts, done, steps: Seq::empty() };
    lemma_directory_keeps_settled(url, root, options, start);
}

/// Files that are known plan nothing. Where the URL of every file from
/// `from` on can be read and counts as downloaded, the walk over these
/// files leaves everything as it is: no step, no URL, no count.
pub proof fn law_known_files_are_passed_over(
    files: Seq<FileLinkModel>,
    from: int,
    folder: Seq<char>,
    options: CliOptions,
    walk: Walk,
)
    requires
        forall|i: int|
            0 <= i && from <= i < files.len() ==> url_parsed((#[trigger] files[i]).url) is Some
                && walk.done.contains(files[i].url),
    ensures
        walk_files(files, from, folder, options, walk) == walk,
    decreases files.len() - from,
{
    if 0 <= from < files.len() {
        assert(url_parsed(files[from].url) is Some && walk.done.contains(files[from].url));
        law_known_files_are_passed_over(files, from + 1, folder, options, walk);
    }
}

/// The downloads of the files from `from` on into `folder`, in listing
/// order.
pub open spec fn downloads_of(files: Seq<FileLinkModel>, from: int, folder: Seq<char>) -> Seq<
    StepModel,
> {
    Seq::new(
        (files.len() - from) as nat,
        |k: int| StepModel::Download { url: files[from + k].url, folder },
    )
}

/// The URLs of the files from `from` on, in listing order.
pub open spec fn urls_from(files: Seq<FileLinkModel>, from: int) -> Seq<Seq<char>> {
    Seq::new((files.len() - from) as nat, |k: int| files[from + k].url)
}

/// Whether every file from `from` on is new and wanted: its URL can be
/// read, does not count as downloaded, differs from the URL of every other
/// file from `from` on, and the file expressions admit its local name.
pub open spec fn all_new_and_wanted(
    files: Seq<FileLinkModel>,
    from: int,
    options: CliOptions,
    done: Seq<Seq<char>>,
) -> bool {
    &&& forall|i: int|
        from <= i < files.len() ==> {
            &&& url_parsed((#[trigger] files[i]).url) is Some
            &&& !done.contains(files[i].url)
            &&& options.admits_file(last_segment_of(files[i].url))
        }
    &&& forall|i: int, j: int|
        from <= i < j < files.len() ==> (#[trigger] files[i]).url != (#[trigger] files[j]).url
}

/// Without limits every file is downloaded. Under a configuration without
/// download limit and without skip count, the walk over files that are all
/// new and wanted plans one download for each, in listing order, adds
/// their URLs in that order, counts each, and counts none as left out.
pub proof fn law_unlimited_files_are_all_downloaded(
    files: Seq<FileLinkModel>,
    from: int,
    folder: Seq<char>,
    options: CliOptions,
    walk: Walk,
)
    requires
        0 <= from <= files.len(),
        options.limit() is None,
        options.skip() is None,
        all_new_and_wanted(files, from, options, walk.done),
    ensures
        walk_files(files, from, folder, options, walk).steps == walk.steps + downloads_of(
            files,
            from,
            folder,
        ),
        walk_files(files, from, folder, options, walk).done == walk.done + urls_from(files, from),
        walk_files(files, from, folder, options, walk).counts == (Counts {
            files: walk.counts.files + (files.len() - from) as nat,
            ..walk.counts
        }),
    decreases files.len() - from,
{
    let end = walk_files(files, from, folder, options, walk);
    if from < files.len() {
        let file = files[from];
        assert(url_parsed(files[from].url) is Some);
        let next = after_download(walk, file.url, folder);
        assert(all_new_and_wanted(files, from + 1, options, next.done)) by {
            assert forall|i: int| from + 1 <= i < files.len() implies !next.done.contains(
                (#[trigger] files[i]).url,
            ) by {
                lemma_push_contains(walk.done, file.url, files[i].url);
                assert(files[from].url != files[i].url);
            }
        }
        law_unlimited_files_are_all_downloaded(files, from + 1, folder, options, next);
        assert(end.steps =~= walk.steps + downloads_of(files, from, folder));
        assert(end.done =~= walk.done + urls_from(files, from));
    } else {
        assert(end.steps =~= walk.steps + downloads_of(files, from, folder));
        assert(end.done =~= walk.done + urls_from(files, from));
    }
}

/// The URLs of the files from `from` on that do not count as downloaded,
/// in listing order.
pub open spec fn new_urls(files: Seq<FileLinkModel>, from: int, done: Seq<Seq<char>>) -> Seq<
    Seq<char>,
>
    decreases files.len() - from,
{
    if from < 0 || from >= files.len() {
        Seq::empty()
    } else if done.contains(files[from].url) {
        new_urls(files, from + 1, done)
    } else {
        seq![files[from].url] + new_urls(files, from + 1, done)
    }
}

/// Whether the files from `from` on are all wanted and listed once: the
/// URL of each can be read and differs from the URL of every other, and
/// the file expressions admit its local name.
pub open spec fn all_wanted_once(files: Seq<FileLinkModel>, from: int, options: CliOptions) -> bool {
    &&& forall|i: int|
        from <= i < files.len() ==> {
            &&& url_parsed((#[trigger] files[i]).url) is Some
            &&& options.admits_file(last_segment_of(files[i].url))
        }
    &&& forall|i: int, j: int|
        from <= i < j < files.len() ==> (#[trigger] files[i]).url != (#[trigger] files[j]).url
}

/// What is new among files goes by which of their URLs a list holds.
pub proof fn lemma_new_urls_by_membership(
    files: Seq<FileLinkModel>,
    from: int,
    one: Seq<Seq<char>>,
    other: Seq<Seq<char>>,
)
    requires
        forall|i: int|
            0 <= i && from <= i < files.len() ==> one.contains((#[trigger] files[i]).url)
                == other.contains(files[i].url),
    ensures
        new_urls(files, from, one) == new_urls(files, from, other),
    decreases files.len() - from,
{
    if 0 <= from < files.len() {
        assert(one.contains(files[from].url) == other.contains(files[from].url));
        lemma_new_urls_by_membership(files, from + 1, one, other);
    }
}

/// A second run downloads what the first left. Under a configuration
/// without download limit and without skip count, the walk over files that
/// are all wanted and listed once passes over those whose URL counts as
/// downloaded and downloads the others: the URLs that it downloads are
/// those of the new files, in listing order, and they are added to the
/// list in that order.
pub proof fn law_unlimited_files_download_what_is_new(
    files: Seq<FileLinkModel>,
    from: int,
    folder: Seq<char>,
    options: CliOptions,
    walk: Walk,
)
    requires
        0 <= from <= files.len(),
        options.limit() is None,
        options.skip() is None,
        all_wanted_once(files, from, options),
    ensures
        download_urls(walk_files(files, from, folder, options, walk).steps) == download_urls(
            walk.steps,
        ) + new_urls(files, from, walk.done),
        walk_files(files, from, folder, options, walk).done == walk.done + new_urls(
            files,
            from,
            walk.done,
        ),
    decreases files.len() - from,
{
    let end = walk_files(files, from, folder, options, walk);
    if from < files.len() {
        let file = files[from];
        assert(url_parsed(files[from].url) is Some);
        if walk.done.contains(file.url) {
            law_unlimited_files_download_what_is_new(files, from + 1, folder, options, walk);
        } else {
            let next = after_download(walk, file.url, folder);
            lemma_download_urls_push(walk.steps, StepModel::Download { url: file.url, folder });
            assert forall|i: int| 0 <= i && from + 1 <= i < files.len() implies next.done.contains(
                (#[trigger] files[i]).url,
            ) == walk.done.contains(files[i].url) by {
                lemma_push_contains(walk.done, file.url, files[i].url);
                assert(files[from].url != files[i].url);
            }
            lemma_new_urls_by_membership(files, from + 1, next.done, walk.done);
            law_unlimited_files_download_what_is_new(files, from + 1, folder, options, next);
            assert(download_urls(end.steps) =~= download_urls(walk.steps) + new_urls(
                files,
                from,
                walk.done,
            ));
            assert(end.done =~= walk.done + new_urls(files, from, walk.done));
        }
    } else {
        assert(download_urls(end.steps) =~= download_urls(walk.steps) + new_urls(
            files,
            from,
            walk.done,
        ));
        assert(end.done =~= walk.done + new_urls(files, from, walk.done));
    }
}

/// Without a skip count the walk over files counts no file as left out.
pub proof fn lemma_files_skip_nothing(
    files: Seq<FileLinkModel>,
    from: int,
    folder: Seq<char>,
    options: CliOptions,
    walk: Walk,
)
    requires
        options.skip() is None,
    ensures
        walk_files(files, from, folder, options, walk).counts.skipped == walk.counts.skipped,
    decreases files.len() - from,
{
    if 0 <= from < files.len() {
        let file = files[from];
        match verdict_of(file, options, walk.counts, walk.done) {
            Verdict::Unreadable | Verdict::LimitReached | Verdict::Skipped => {},
            Verdict::AlreadyHave | Verdict::Filtered => {
                lemma_files_skip_nothing(files, from + 1, folder, options, walk);
            },
            Verdict::Download => {
                lemma_files_skip_nothing(
                    files,
                    from + 1,
                    folder,
                    options,
                    after_download(walk, file.url, folder),
                );
            },
        }
    }
}

/// Without a skip count the walk over a directory counts no file as left
/// out.
pub proof fn lemma_directory_skips_nothing(node: NodeModel, options: CliOptions, walk: Walk)
    requires
        options.skip() is None,
    ensures
        walk_directory(node, options, walk).counts.skipped == walk.counts.skipped,
    decreases node,
{
    match node {
        NodeModel::CrawledDir(dir, children) => {
            let entered = Walk {
                counts: Counts { depth: walk.counts.depth + 1, ..walk.counts },
                ..walk
            };
            let folder = after_last(dir.name, '/');
            if options.admits_path(folder) {
                let ensured = with_step(entered, StepModel::EnsureDirectory { folder });
                let filed = walk_files(files_of(children), 0, folder, options, ensured);
                lemma_files_skip_nothing(files_of(children), 0, folder, options, ensured);
                if !halted(filed) {
                    lemma_children_skip_nothing(children, 0, options, filed);
                }
            }
        },
        _ => {},
    }
}

/// Without a skip count the walk over children counts no file as left out.
pub proof fn lemma_children_skip_nothing(
    children: Seq<NodeModel>,
    from: int,
    options: CliOptions,
    walk: Walk,
)
    requires
        options.skip() is None,
    ensures
        walk_children(children, from, options, walk).counts.skipped == walk.counts.skipped,
    decreases children, children.len() - from,
{
    if 0 <= from < children.len() {
        match children[from] {
            NodeModel::CrawledDir(_, _) => {
                if !(depth_reached(options, walk.counts) || limit_reached(options, walk.counts)) {
                    let inner = walk_directory(children[from], options, walk);
                    lemma_directory_skips_nothing(children[from], options, walk);
                    if !halted(inner) {
                        lemma_children_skip_nothing(children, from + 1, options, inner);
                    }
                }
            },
            NodeModel::PendingDir(dir) => {
                lemma_children_skip_nothing(
                    children,
                    from + 1,
                    options,
                    with_step(walk, StepModel::SkipPending { url: dir.url }),
                );
            },
            NodeModel::File(_) => {
                lemma_children_skip_nothing(children, from + 1, options, walk);
            },
        }
    }
}

/// Without a skip count nothing is skipped: the walk counts no file as
/// left out, and a file that is new and wanted while the download limit is
/// not reached is downloaded.
pub proof fn law_no_skip_count_skips_nothing(
    root: NodeModel,
    options: CliOptions,
    counts: Counts,
    done: Seq<Seq<char>>,
    file: FileLinkModel,
)
    requires
        options.skip() is None,
    ensures
        download_walk(root, options, counts, done).counts.skipped == counts.skipped,
        url_parsed(file.url) is Some && !done.contains(file.url) && !limit_reached(options, counts)
            && options.admits_file(last_segment_of(file.url)) ==> verdict_of(
            file,
            options,
            counts,
            done,
        ) == Verdict::Download,
{
    let start = Walk { counts, done, steps: Seq::empty() };
    lemma_directory_skips_nothing(root, options, start);
}

/// How many crawled directories stand in the tree at `node`, itself
/// included.
pub open spec fn crawled_in(node: NodeModel) -> nat
    decreases node,
{
    match node {
        NodeModel::CrawledDir(_, children) => 1 + crawled_among(children, 0),
        _ => 0,
    }
}

/// How many crawled directories stand in the trees of the children from
/// `from` on.
pub open spec fn crawled_among(children: Seq<NodeModel>, from: int) -> nat
    decreases children, children.len() - from,
{
    if from < 0 || from >= children.len() {
        0
    } else {
        crawled_in(children[from]) + crawled_among(children, from + 1)
    }
}

/// Whether nothing keeps a walk from a directory: there is no limit on
/// entered directories, no download limit, and the path expressions admit
/// every folder.
pub open spec fn goes_everywhere(options: CliOptions) -> bool {
    &&& options.depth_limit() is None
    &&& options.limit() is None
    &&& forall|folder: Seq<char>| options.admits_path(folder)
}

/// A walk that nothing keeps from a directory enters every crawled
/// directory of the tree, unless it fails.
pub proof fn lemma_directory_entered_everywhere(
    node: NodeModel,
    options: CliOptions,
    walk: Walk,
)
    requires
        goes_everywhere(options),
        !halted(walk_directory(node, options, walk)),
    ensures
        walk_directory(node, options, walk).counts.depth == walk.counts.depth + crawled_in(node),
    decreases node,
{
    match node {
        NodeModel::CrawledDir(dir, children) => {
            let entered = Walk {
                counts: Counts { depth: walk.counts.depth + 1, ..walk.counts },
                ..walk
            };
            let folder = after_last(dir.name, '/');
            assert(options.admits_path(folder));
            let ensured = with_step(entered, StepModel::EnsureDirectory { folder });
            let filed = walk_files(files_of(children), 0, folder, options, ensured);
            lemma_files_keep_depth(files_of(children), 0, folder, options, ensured);
            lemma_children_entered_everywhere(children, 0, options, filed);
        },
        _ => {},
    }
}

/// The walk over files enters no directory.
pub proof fn lemma_files_keep_depth(
    files: Seq<FileLinkModel>,
    from: int,
    folder: Seq<char>,
    options: CliOptions,
    walk: Walk,
)
    ensures
        walk_files(files, from, folder, options, walk).counts.depth == walk.counts.depth,
    decreases files.len() - from,
{
    if 0 <= from < files.len() {
        let file = files[from];
        match verdict_of(file, options, walk.counts, walk.done) {
            Verdict::Unreadable | Verdict::LimitReached => {},
            Verdict::AlreadyHave | Verdict::Filtered => {
                lemma_files_keep_depth(files, from + 1, folder, options, walk);
            },
            Verdict::Skipped => {
                lemma_files_keep_depth(files, from + 1, folder, options, after_skip(walk));
            },
            Verdict::Download => {
                lemma_files_keep_depth(
                    files,
                    from + 1,
                    folder,
                    options,
                    after_download(walk, file.url, folder),
                );
            },
        }
    }
}

/// A walk that nothing keeps from a directory enters every crawled
/// directory below the children, unless it fails.
pub proof fn lemma_children_entered_everywhere(
    children: Seq<NodeModel>,
    from: int,
    options: CliOptions,
    walk: Walk,
)
    requires
        goes_everywhere(options),
        !halted(walk),
        !halted(walk_children(children, from, options, walk)),
    ensures
        walk_children(children, from, options, walk).counts.depth == walk.counts.depth
            + crawled_among(children, from),
    decreases children, children.len() - from,
{
    if 0 <= from < children.len() {
        match children[from] {
            NodeModel::CrawledDir(_, _) => {
                let inner = walk_directory(children[from], options, walk);
                lemma_directory_entered_everywhere(children[from], options, walk);
                lemma_children_entered_everywhere(children, from + 1, options, inner);
            },
            NodeModel::PendingDir(dir) => {
                lemma_children_entered_everywhere(
                    children,
                    from + 1,
                    options,
                    with_step(walk, StepModel::SkipPending { url: dir.url }),
                );
            },
            NodeModel::File(_) => {
                lemma_children_entered_everywhere(children, from + 1, options, walk);
            },
        }
    }
}

/// Without limits the walk is not cut short. Under a configuration without
/// limit on entered directories and without download limit, whose path
/// expressions leave no folder out, a walk that does not fail enters every
/// crawled directory of the tree, whatever the counters stood at.
pub proof fn law_unlimited_walk_enters_every_directory(
    root: NodeModel,
    options: CliOptions,
    counts: Counts,
    done: Seq<Seq<char>>,
)
    requires
        goes_everywhere(options),
        !options.download_disabled(),
        !halted(download_walk(root, options, counts, done)),
    ensures
        download_walk(root, options, counts, done).counts.depth == counts.depth + crawled_in(
            root,
        ),
{
    let start = Walk { counts, done, steps: Seq::empty() };
    lemma_directory_entered_everywhere(root, options, start);
}

} // verus!
