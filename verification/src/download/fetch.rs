//! The download walk: which files of a crawled tree are fetched, in which
//! order, and where they are written.
//!
//! The walk goes through the tree depth first. It does no I/O itself: it
//! writes down the steps that the caller has to carry out, in order, and
//! keeps the counters and the list of downloaded URLs as they will stand
//! once the steps are done.

use crate::cli::CliOptions;
use crate::download::types::{
    lemma_crawled_dir_view, FileLinkMetaData, FileLinkModel, Node, NodeModel,
};
use crate::link::{parse_url, path_segments, pop_all, popped_all, url_parsed, url_path_segments};
use crate::text::{after_last, contains_text, last_component};
use vstd::prelude::*;

verus! {

/// The counters that the limits are held against.
#[derive(Debug, Clone, Copy, PartialEq, Eq, Structural)]
pub struct LimitCounts {
    /// How many directories were entered.
    pub recursion_depth: u64,
    /// How many files were downloaded.
    pub file_count: u64,
    /// How many files were left out under the skip count.
    pub skipped_files: u64,
}

/// The mathematical value of [`LimitCounts`].
pub struct Counts {
    pub depth: nat,
    pub files: nat,
    pub skipped: nat,
}

impl View for LimitCounts {
    type V = Counts;

    open spec fn view(&self) -> Counts {
        Counts {
            depth: self.recursion_depth as nat,
            files: self.file_count as nat,
            skipped: self.skipped_files as nat,
        }
    }
}

impl LimitCounts {
    /// Counters that have counted nothing yet.
    pub fn new() -> (counts: Self)
        ensures
            counts@ == (Counts { depth: 0, files: 0, skipped: 0 }),
    {
        Self { recursion_depth: 0, file_count: 0, skipped_files: 0 }
    }
}

/// One thing for the caller to do.
#[derive(Debug, PartialEq, Eq)]
pub enum Step {
    /// Make sure that the folder of this name exists under the destination.
    EnsureDirectory { folder: String },
    /// Fetch the URL and write the body into the folder of this name.
    Download { url: String, folder: String },
    /// Report that the directory at this URL was never crawled and is left
    /// out.
    SkipPending { url: String },
    /// Stop with an error: this file's URL cannot be read. No step follows.
    Fail { url: String },
}

/// The mathematical value of a [`Step`].
pub enum StepModel {
    EnsureDirectory { folder: Seq<char> },
    Download { url: Seq<char>, folder: Seq<char> },
    SkipPending { url: Seq<char> },
    Fail { url: Seq<char> },
}

impl DeepView for Step {
    type V = StepModel;

    open spec fn deep_view(&self) -> StepModel {
        match self {
            Step::EnsureDirectory { folder } => StepModel::EnsureDirectory { folder: folder@ },
            Step::Download { url, folder } => StepModel::Download { url: url@, folder: folder@ },
            Step::SkipPending { url } => StepModel::SkipPending { url: url@ },
            Step::Fail { url } => StepModel::Fail { url: url@ },
        }
    }
}

/// What a walk found to do.
#[derive(Debug, PartialEq, Eq)]
pub enum DownloadRecursiveStatus {
    /// Nothing.
    Done,
    /// These steps, in this order.
    Do(Vec<Step>),
}

/// Why a walk cannot start.
#[derive(Debug, Clone, Copy, PartialEq, Eq, Structural)]
pub enum DownloadError {
    /// The node to start from is no crawled directory.
    NotADirectory,
}

/// What a file's turn in the walk comes to.
#[derive(Debug, Clone, Copy, PartialEq, Eq, Structural)]
pub enum Verdict {
    /// The file's URL cannot be read: the walk fails here.
    Unreadable,
    /// The URL is in the list of downloaded URLs: nothing to do.
    AlreadyHave,
    /// The download limit is reached: no further file of this directory is
    /// looked at.
    LimitReached,
    /// A file expression of the configuration leaves the file out.
    Filtered,
    /// The file is left out under the skip count, and counted.
    Skipped,
    /// The file is downloaded.
    Download,
}

/// The state of a walk: the counters, the URLs that count as downloaded,
/// and the steps written down so far.
pub struct Walk {
    pub counts: Counts,
    pub done: Seq<Seq<char>>,
    pub steps: Seq<StepModel>,
}

/// The name given to a file whose URL shows none.
pub const UNKNOWN_SEGMENT: &'static str = "unknown_segment";

/// The local name of the file at `url`: the last segment of the URL's path,
/// or a fixed name where the URL has no segments or the last one is empty.
pub open spec fn last_segment_of(url: Seq<char>) -> Seq<char> {
    match url_path_segments(url) {
        Some(segments) => if segments.len() > 0 && segments.last().len() > 0 {
            segments.last()
        } else {
            UNKNOWN_SEGMENT@
        },
        None => UNKNOWN_SEGMENT@,
    }
}

/// Whether the download limit is reached.
pub open spec fn limit_reached(options: CliOptions, counts: Counts) -> bool {
    options.limit() matches Some(limit) && counts.files >= limit
}

/// Whether the limit on entered directories is reached.
pub open spec fn depth_reached(options: CliOptions, counts: Counts) -> bool {
    options.depth_limit() matches Some(limit) && counts.depth >= limit
}

/// Whether the skip count still asks for a file to be left out.
pub open spec fn skip_owed(options: CliOptions, counts: Counts) -> bool {
    options.skip() matches Some(skip) && counts.skipped < skip
}

/// What a file's turn comes to, given what is known of the file: whether
/// its URL can be read, whether the URL counts as downloaded, and whether
/// the file expressions admit its local name. The tests are made in this
/// order: the URL is read; the list of downloaded URLs is looked up; the
/// download limit is held against the counter; the file expressions are
/// tried; the skip count is consulted.
pub open spec fn decided(
    readable: bool,
    downloaded: bool,
    admitted: bool,
    limit: Option<u64>,
    skip: Option<u64>,
    counts: Counts,
) -> Verdict {
    if !readable {
        Verdict::Unreadable
    } else if downloaded {
        Verdict::AlreadyHave
    } else if limit matches Some(most) && counts.files >= most {
        Verdict::LimitReached
    } else if !admitted {
        Verdict::Filtered
    } else if skip matches Some(first) && counts.skipped < first {
        Verdict::Skipped
    } else {
        Verdict::Download
    }
}

/// What the turn of `file` comes to when the counters stand at `counts` and
/// the URLs in `done` count as downloaded.
pub open spec fn verdict_of(
    file: FileLinkModel,
    options: CliOptions,
    counts: Counts,
    done: Seq<Seq<char>>,
) -> Verdict {
    decided(
        url_parsed(file.url) is Some,
        done.contains(file.url),
        options.admits_file(last_segment_of(file.url)),
        options.limit(),
        options.skip(),
        counts,
    )
}

/// Whether the walk has failed: its last step says so.
pub open spec fn halted(walk: Walk) -> bool {
    walk.steps.len() > 0 && walk.steps.last() is Fail
}

/// The state after a file was left out under the skip count.
pub open spec fn after_skip(walk: Walk) -> Walk {
    Walk { counts: Counts { skipped: walk.counts.skipped + 1, ..walk.counts }, ..walk }
}

/// The state after the download of `url` into `folder` was written down.
pub open spec fn after_download(walk: Walk, url: Seq<char>, folder: Seq<char>) -> Walk {
    Walk {
        counts: Counts { files: walk.counts.files + 1, ..walk.counts },
        done: walk.done.push(url),
        steps: walk.steps.push(StepModel::Download { url, folder }),
    }
}

/// The state with one more step.
pub open spec fn with_step(walk: Walk, step: StepModel) -> Walk {
    Walk { steps: walk.steps.push(step), ..walk }
}

/// The walk over the files of one directory, from the file at `from` on, in
/// listing order.
pub open spec fn walk_files(
    files: Seq<FileLinkModel>,
    from: int,
    folder: Seq<char>,
    options: CliOptions,
    walk: Walk,
) -> Walk
    decreases files.len() - from,
{
    if from < 0 || from >= files.len() {
        walk
    } else {
        let file = files[from];
        match verdict_of(file, options, walk.counts, walk.done) {
            Verdict::Unreadable => with_step(walk, StepModel::Fail { url: file.url }),
            Verdict::LimitReached => walk,
            Verdict::AlreadyHave | Verdict::Filtered => walk_files(
                files,
                from + 1,
                folder,
                options,
                walk,
            ),
            Verdict::Skipped => walk_files(files, from + 1, folder, options, after_skip(walk)),
            Verdict::Download => walk_files(
                files,
                from + 1,
                folder,
                options,
                after_download(walk, file.url, folder),
            ),
        }
    }
}

/// The files among `children`, in listing order.
pub open spec fn files_of(children: Seq<NodeModel>) -> Seq<FileLinkModel>
    decreases children.len(),
{
    if children.len() == 0 {
        Seq::empty()
    } else {
        let before = files_of(children.drop_last());
        match children.last() {
            NodeModel::File(file) => before.push(file),
            _ => before,
        }
    }
}

/// The walk over one directory: the directory is counted as entered; its
/// folder name is tried against the path expressions; the folder is made;
/// the files are walked; then the children, in listing order.
pub open spec fn walk_directory(node: NodeModel, options: CliOptions, walk: Walk) -> Walk
    decreases node,
{
    match node {
        NodeModel::CrawledDir(dir, children) => {
            let entered = Walk {
                counts: Counts { depth: walk.counts.depth + 1, ..walk.counts },
                ..walk
            };
            let folder = after_last(dir.name, '/');
            if !options.admits_path(folder) {
                entered
            } else {
                let ensured = with_step(entered, StepModel::EnsureDirectory { folder });
                let filed = walk_files(files_of(children), 0, folder, options, ensured);
                if halted(filed) {
                    filed
                } else {
                    walk_children(children, 0, options, filed)
                }
            }
        },
        _ => walk,
    }
}

/// The walk over the children of a directory, from the child at `from` on.
/// A crawled directory is walked unless a limit is reached, which ends the
/// walk over these children; a directory that was never crawled is
/// reported; files had their turn before.
pub open spec fn walk_children(
    children: Seq<NodeModel>,
    from: int,
    options: CliOptions,
    walk: Walk,
) -> Walk
    decreases children, children.len() - from,
{
    if from < 0 || from >= children.len() {
        walk
    } else {
        match children[from] {
            NodeModel::CrawledDir(_, _) => {
                if depth_reached(options, walk.counts) || limit_reached(options, walk.counts) {
                    walk
                } else {
                    let inner = walk_directory(children[from], options, walk);
                    if halted(inner) {
                        inner
                    } else {
                        walk_children(children, from + 1, options, inner)
                    }
                }
            },
            NodeModel::PendingDir(dir) => walk_children(
                children,
                from + 1,
                options,
                with_step(walk, StepModel::SkipPending { url: dir.url }),
            ),
            NodeModel::File(_) => walk_children(children, from + 1, options, walk),
        }
    }
}

/// The walk over a tree from its root: nothing where downloads are
/// disabled, the walk over the root directory otherwise.
pub open spec fn download_walk(
    root: NodeModel,
    options: CliOptions,
    counts: Counts,
    done: Seq<Seq<char>>,
) -> Walk {
    let start = Walk { counts, done, steps: Seq::empty() };
    if options.download_disabled() {
        start
    } else {
        walk_directory(root, options, start)
    }
}

/// How many directories and files a walk over `node` can count at most.
pub open spec fn weight(node: NodeModel) -> nat
    decreases node,
{
    match node {
        NodeModel::CrawledDir(_, children) => 1 + files_of(children).len() + nested_weight(
            children,
            0,
        ),
        _ => 0,
    }
}

/// The sum of the weights of the children from `from` on.
pub open spec fn nested_weight(children: Seq<NodeModel>, from: int) -> nat
    decreases children, children.len() - from,
{
    if from < 0 || from >= children.len() {
        0
    } else {
        weight(children[from]) + nested_weight(children, from + 1)
    }
}

/// Whether counters at `counts` can count a walk over `node` without
/// running over.
pub open spec fn has_room(counts: Counts, node: NodeModel) -> bool {
    &&& counts.depth + weight(node) <= u64::MAX
    &&& counts.files + weight(node) <= u64::MAX
}

/// The files among the first entries of a list are no more than the files
/// of the whole list.
pub proof fn lemma_files_of_prefix(children: Seq<NodeModel>, upto: int)
    requires
        0 <= upto <= children.len(),
    ensures
        files_of(children.take(upto)).len() <= files_of(children).len(),
    decreases children.len() - upto,
{
    if upto < children.len() {
        assert(children.take(upto + 1).drop_last() =~= children.take(upto));
        lemma_files_of_prefix(children, upto + 1);
    } else {
        assert(children.take(upto) =~= children);
    }
}

/// Takes the weight of `node` off `budget`, where the budget is enough for
/// it.
pub fn weigh(node: &Node, budget: u64) -> (left: Option<u64>)
    ensures
        left == (if weight(node.deep_view()) <= budget {
            Some((budget - weight(node.deep_view())) as u64)
        } else {
            None
        }),
    decreases node,
{
    match node {
        Node::CrawledDir(_, children) => {
            let ghost kids = children.deep_view();
            proof {
                lemma_crawled_dir_view(*node);
            }
            if budget == 0 {
                return None;
            }
            let mut left: u64 = budget - 1;
            let mut i: usize = 0;
            assert(kids.take(0) =~= Seq::<NodeModel>::empty());
            while i < children.len()
                invariant
                    i <= children.len(),
                    node is CrawledDir,
                    node->CrawledDir_1 == *children,
                    kids == children.deep_view(),
                    weight(node.deep_view()) == 1 + files_of(kids).len() + nested_weight(kids, 0),
                    left + 1 + files_of(kids.take(i as int)).len() + nested_weight(kids, 0)
                        == budget + nested_weight(kids, i as int),
                decreases children.len() - i,
            {
                assert(kids.take(i + 1).drop_last() =~= kids.take(i as int));
                assert(kids.take(i + 1).last() == children@[i as int].deep_view());
                assert(kids[i as int] == children@[i as int].deep_view());
                proof {
                    lemma_files_of_prefix(kids, i + 1);
                    assert(nested_weight(kids, i as int) == weight(kids[i as int]) + nested_weight(
                        kids,
                        i + 1,
                    ));
                    if children@[i as int] is CrawledDir {
                        lemma_crawled_dir_view(children@[i as int]);
                    }
                }
                match &children[i] {
                    Node::File(_) => {
                        assert(weight(kids[i as int]) == 0);
                        assert(files_of(kids.take(i + 1)).len() == files_of(
                            kids.take(i as int),
                        ).len() + 1);
                        if left == 0 {
                            return None;
                        }
                        left = left - 1;
                    },
                    Node::PendingDir(_) => {
                        assert(weight(kids[i as int]) == 0);
                        assert(files_of(kids.take(i + 1)) == files_of(kids.take(i as int)));
                    },
                    Node::CrawledDir(_, _) => {
                        assert(files_of(kids.take(i + 1)) == files_of(kids.take(i as int)));
                        proof {
                            vstd::std_specs::vec::axiom_vec_index_decreases(*children, i as int);
                        }
                        match weigh(&children[i], left) {
                            Some(rest) => {
                                left = rest;
                            },
                            None => {
                                return None;
                            },
                        }
                    },
                }
                i += 1;
            }
            assert(kids.take(i as int) =~= kids);
            Some(left)
        },
        _ => Some(budget),
    }
}

impl LimitCounts {
    /// Whether these counters can count a walk over `node` without running
    /// over.
    pub fn has_room_for(&self, node: &Node) -> (fits: bool)
        ensures
            fits == has_room(self@, node.deep_view()),
    {
        weigh(node, u64::MAX - self.recursion_depth).is_some() && weigh(
            node,
            u64::MAX - self.file_count,
        ).is_some()
    }
}

/// The state of a walk as the executable code holds it.
pub open spec fn state_of(counters: LimitCounts, done: Vec<String>, steps: Vec<Step>) -> Walk {
    Walk { counts: counters@, done: done.deep_view(), steps: steps.deep_view() }
}

/// The steps that a status stands for.
pub open spec fn steps_of(status: DownloadRecursiveStatus) -> Seq<StepModel> {
    match status {
        DownloadRecursiveStatus::Done => Seq::empty(),
        DownloadRecursiveStatus::Do(steps) => steps.deep_view(),
    }
}

/// The local name of the file at `url`: the last segment of the URL's path,
/// or `unknown_segment` where the URL has no segments or the last one is
/// empty.
pub fn get_last_segment(url: &str) -> (name: String)
    ensures
        name@ == last_segment_of(url@),
{
    match path_segments(url) {
        Some(segments) => {
            let n = segments.len();
            if n > 0 && !segments[n - 1].as_str().is_empty() {
                assert(segments.deep_view().last() == segments@[n - 1]@);
                segments[n - 1].clone()
            } else {
                UNKNOWN_SEGMENT.to_owned()
            }
        },
        None => UNKNOWN_SEGMENT.to_owned(),
    }
}

/// What a file's turn comes to, given what is known of the file.
pub fn decide(
    readable: bool,
    downloaded: bool,
    admitted: bool,
    limit: Option<u64>,
    skip: Option<u64>,
    counters: &LimitCounts,
) -> (verdict: Verdict)
    ensures
        verdict == decided(readable, downloaded, admitted, limit, skip, counters@),
{
    if !readable {
        return Verdict::Unreadable;
    }
    if downloaded {
        return Verdict::AlreadyHave;
    }
    if let Some(most) = limit {
        if counters.file_count >= most {
            return Verdict::LimitReached;
        }
    }
    if !admitted {
        return Verdict::Filtered;
    }
    if let Some(first) = skip {
        if counters.skipped_files < first {
            return Verdict::Skipped;
        }
    }
    Verdict::Download
}

/// What the turn of `file` comes to, given the counters and the list of
/// downloaded URLs as they stand.
pub fn judge(
    file: &FileLinkMetaData,
    options: &CliOptions,
    counters: &LimitCounts,
    done_list: &Vec<String>,
) -> (verdict: Verdict)
    ensures
        verdict == verdict_of(file.deep_view(), *options, counters@, done_list.deep_view()),
{
    // Each test is made only where its answer is read.
    let readable = parse_url(file.url.as_str()).is_some();
    let downloaded = readable && contains_text(done_list, file.url.as_str());
    let limit = options.limit_count();
    let open = match limit {
        Some(most) => counters.file_count < most,
        None => true,
    };
    let admitted = readable && !downloaded && open && options.file_admitted(
        get_last_segment(file.url.as_str()).as_str(),
    );
    let verdict = decide(readable, downloaded, admitted, limit, options.skip_count(), counters);
    proof {
        let name = last_segment_of(file.url@);
        let counts = counters@;
        let done = done_list.deep_view();
        assert(verdict == decided(
            readable,
            done.contains(file.url@),
            options.admits_file(name),
            options.limit(),
            options.skip(),
            counts,
        ));
    }
    verdict
}

/// Walks the files of one directory and writes the steps behind `steps`.
/// The result tells whether the walk failed.
fn plan_files(
    folder: &str,
    files: &Vec<&FileLinkMetaData>,
    options: &CliOptions,
    counters: &mut LimitCounts,
    done_list: &mut Vec<String>,
    steps: &mut Vec<Step>,
) -> (failed: bool)
    requires
        options.limit() is None ==> old(counters).file_count + files.len() <= u64::MAX,
    ensures
        state_of(*final(counters), *final(done_list), *final(steps)) == walk_files(
            files.deep_view(),
            0,
            folder@,
            *options,
            state_of(*old(counters), *old(done_list), *old(steps)),
        ),
        failed ==> halted(state_of(*final(counters), *final(done_list), *final(steps))),
        !failed && !halted(state_of(*old(counters), *old(done_list), *old(steps))) ==> !halted(
            state_of(*final(counters), *final(done_list), *final(steps)),
        ),
        final(counters).recursion_depth == old(counters).recursion_depth,
        final(counters).file_count <= old(counters).file_count + files.len(),
{
    let ghost start = state_of(*counters, *done_list, *steps);
    let ghost all = files.deep_view();
    let mut i: usize = 0;
    while i < files.len()
        invariant
            i <= files.len(),
            all == files.deep_view(),
            start == state_of(*old(counters), *old(done_list), *old(steps)),
            walk_files(all, 0, folder@, *options, start) == walk_files(
                all,
                i as int,
                folder@,
                *options,
                state_of(*counters, *done_list, *steps),
            ),
            halted(state_of(*counters, *done_list, *steps)) ==> halted(start),
            counters.recursion_depth == old(counters).recursion_depth,
            counters.file_count <= old(counters).file_count + i,
            options.limit() is None ==> old(counters).file_count + files.len() <= u64::MAX,
        decreases files.len() - i,
    {
        let file = files[i];
        let ghost before = state_of(*counters, *done_list, *steps);
        assert(all[i as int] == file.deep_view());
        match judge(file, options, counters, done_list) {
            Verdict::Unreadable => {
                steps.push(Step::Fail { url: file.url.clone() });
                assert(steps.deep_view() =~= before.steps.push(
                    StepModel::Fail { url: file.url@ },
                ));
                return true;
            },
            Verdict::LimitReached => {
                return false;
            },
            Verdict::AlreadyHave | Verdict::Filtered => {},
            Verdict::Skipped => {
                counters.skipped_files = counters.skipped_files + 1;
            },
            Verdict::Download => {
                steps.push(Step::Download { url: file.url.clone(), folder: folder.to_owned() });
                done_list.push(file.url.clone());
                counters.file_count = counters.file_count + 1;
                assert(steps.deep_view() =~= before.steps.push(
                    StepModel::Download { url: file.url@, folder: folder@ },
                ));
                assert(done_list.deep_view() =~= before.done.push(file.url@));
            },
        }
        i += 1;
    }
    false
}

/// Plans the downloads of the files of one directory, in listing order.
///
/// A file whose URL is in `done_list` is passed over. Once the download
/// limit is reached no further file is looked at. A file that the file
/// expressions leave out is passed over; so are the first files that the
/// skip count asks to leave out, which are counted. Every other file gets a
/// download step into `folder`, its URL is added to `done_list`, and it is
/// counted. A file whose URL cannot be read ends the plan with a failing
/// step.
///
/// Where there is no download limit, the counter of downloaded files has
/// to have room for these files.
pub fn download_files_to_dir(
    folder: &str,
    files: &Vec<&FileLinkMetaData>,
    options: &CliOptions,
    counters: &mut LimitCounts,
    done_list: &mut Vec<String>,
) -> (steps: Vec<Step>)
    requires
        options.limit() is None ==> old(counters).file_count + files.len() <= u64::MAX,
    ensures
        state_of(*final(counters), *final(done_list), steps) == walk_files(
            files.deep_view(),
            0,
            folder@,
            *options,
            Walk { counts: old(counters)@, done: old(done_list).deep_view(), steps: Seq::empty() },
        ),
{
    let mut steps: Vec<Step> = Vec::new();
    assert(steps.deep_view() =~= Seq::<StepModel>::empty());
    plan_files(folder, files, options, counters, done_list, &mut steps);
    steps
}

/// The files among `children`, in listing order.
fn collect_files(children: &Vec<Node>) -> (files: Vec<&FileLinkMetaData>)
    ensures
        files.deep_view() == files_of(children.deep_view()),
{
    let mut files: Vec<&FileLinkMetaData> = Vec::new();
    let ghost kids = children.deep_view();
    let mut i: usize = 0;
    assert(kids.take(0) =~= Seq::<NodeModel>::empty());
    assert(files.deep_view() =~= Seq::<FileLinkModel>::empty());
    while i < children.len()
        invariant
            i <= children.len(),
            kids == children.deep_view(),
            files.deep_view() == files_of(kids.take(i as int)),
        decreases children.len() - i,
    {
        let ghost before = files.deep_view();
        assert(kids.take(i + 1).drop_last() =~= kids.take(i as int));
        assert(kids.take(i + 1).last() == children@[i as int].deep_view());
        if let Node::File(file) = &children[i] {
            files.push(file);
            assert(files.deep_view() =~= before.push(file.deep_view()));
        }
        i += 1;
    }
    assert(kids.take(i as int) =~= kids);
    files
}

/// Walks the crawled directory `node` and writes the steps behind `steps`.
/// The result tells whether the walk failed.
fn plan_directory(
    node: &Node,
    options: &CliOptions,
    counters: &mut LimitCounts,
    done_list: &mut Vec<String>,
    steps: &mut Vec<Step>,
) -> (failed: bool)
    requires
        node is CrawledDir,
        has_room(old(counters)@, node.deep_view()),
        !halted(state_of(*old(counters), *old(done_list), *old(steps))),
    ensures
        state_of(*final(counters), *final(done_list), *final(steps)) == walk_directory(
            node.deep_view(),
            *options,
            state_of(*old(counters), *old(done_list), *old(steps)),
        ),
        failed == halted(state_of(*final(counters), *final(done_list), *final(steps))),
        final(counters).recursion_depth <= old(counters).recursion_depth + weight(
            node.deep_view(),
        ),
        final(counters).file_count <= old(counters).file_count + weight(node.deep_view()),
    decreases node,
{
    match node {
        Node::CrawledDir(dir, children) => {
            let ghost start = state_of(*counters, *done_list, *steps);
            let ghost kids = children.deep_view();
            let ghost goal = walk_directory(node.deep_view(), *options, start);
            proof {
                lemma_crawled_dir_view(*node);
            }
            assert(node.deep_view()->CrawledDir_1 =~= kids);
            counters.recursion_depth = counters.recursion_depth + 1;
            let folder = last_component(dir.name.as_str(), '/');
            if !options.path_admitted(folder.as_str()) {
                return false;
            }
            let ghost entered = state_of(*counters, *done_list, *steps);
            steps.push(Step::EnsureDirectory { folder: folder.clone() });
            assert(steps.deep_view() =~= entered.steps.push(
                StepModel::EnsureDirectory { folder: folder@ },
            ));
            let files = collect_files(children);
            if plan_files(folder.as_str(), &files, options, counters, done_list, steps) {
                return true;
            }
            let mut i: usize = 0;
            while i < children.len()
                invariant
                    i <= children.len(),
                    node is CrawledDir,
                    node->CrawledDir_1 == *children,
                    kids == children.deep_view(),
                    start == state_of(*old(counters), *old(done_list), *old(steps)),
                    has_room(start.counts, node.deep_view()),
                    weight(node.deep_view()) == 1 + files_of(kids).len() + nested_weight(kids, 0),
                    goal == walk_directory(node.deep_view(), *options, start),
                    goal == walk_children(
                        kids,
                        i as int,
                        *options,
                        state_of(*counters, *done_list, *steps),
                    ),
                    !halted(state_of(*counters, *done_list, *steps)),
                    counters.recursion_depth + nested_weight(kids, i as int)
                        <= old(counters).recursion_depth + 1 + nested_weight(kids, 0),
                    counters.file_count + nested_weight(kids, i as int) <= old(
                        counters,
                    ).file_count + files_of(kids).len() + nested_weight(kids, 0),
                decreases children.len() - i,
            {
                let ghost before = state_of(*counters, *done_list, *steps);
                assert(kids[i as int] == children@[i as int].deep_view());
                match &children[i] {
                    Node::CrawledDir(_, _) => {
                        if let Some(limit) = options.recursion_limit() {
                            if counters.recursion_depth >= limit {
                                return false;
                            }
                        }
                        if let Some(limit) = options.limit_count() {
                            if counters.file_count >= limit {
                                return false;
                            }
                        }
                        proof {
                            vstd::std_specs::vec::axiom_vec_index_decreases(*children, i as int);
                        }
                        if plan_directory(&children[i], options, counters, done_list, steps) {
                            return true;
                        }
                    },
                    Node::PendingDir(dir) => {
                        steps.push(Step::SkipPending { url: dir.url.clone() });
                        assert(steps.deep_view() =~= before.steps.push(
                            StepModel::SkipPending { url: dir.url@ },
                        ));
                    },
                    Node::File(_) => {},
                }
                i += 1;
            }
            false
        },
        _ => false,
    }
}

/// Plans the download of a crawled tree.
///
/// Where downloads are disabled there is nothing to do. Otherwise the tree
/// is walked depth first from `node`, which has to be a crawled directory:
/// each directory that is entered is counted; a directory that the path
/// expressions leave out is not gone into; for every other one a step
/// makes its folder, then come the downloads of its files (see
/// [`download_files_to_dir`]), then its children in listing order. A child
/// that was crawled is walked in the same way unless the limit on entered
/// directories or the download limit is reached, which ends the walk over
/// the children of that directory; a child that was never crawled is
/// reported by a step and left out.
///
/// The counters and `done_list` are left as they stand once every step is
/// carried out. Where downloads are enabled, the counters have to have
/// room to count the tree.
pub fn download_recursive(
    node: &Node,
    options: &CliOptions,
    counters: &mut LimitCounts,
    done_list: &mut Vec<String>,
) -> (result: Result<DownloadRecursiveStatus, DownloadError>)
    requires
        !options.download_disabled() ==> has_room(old(counters)@, node.deep_view()),
    ensures
        match result {
            Ok(status) => {
                let walk = download_walk(
                    node.deep_view(),
                    *options,
                    old(counters)@,
                    old(done_list).deep_view(),
                );
                &&& node is CrawledDir
                &&& final(counters)@ == walk.counts
                &&& final(done_list).deep_view() == walk.done
                &&& steps_of(status) == walk.steps
                &&& status is Done <==> walk.steps.len() == 0
            },
            Err(e) => {
                &&& !(node is CrawledDir)
                &&& e == DownloadError::NotADirectory
                &&& *final(counters) == *old(counters)
                &&& *final(done_list) == *old(done_list)
            },
        },
{
    match node {
        Node::CrawledDir(_, _) => {
            if options.no_download() {
                return Ok(DownloadRecursiveStatus::Done);
            }
            let mut steps: Vec<Step> = Vec::new();
            assert(steps.deep_view() =~= Seq::<StepModel>::empty());
            plan_directory(node, options, counters, done_list, &mut steps);
            if steps.len() == 0 {
                Ok(DownloadRecursiveStatus::Done)
            } else {
                Ok(DownloadRecursiveStatus::Do(steps))
            }
        },
        _ => Err(DownloadError::NotADirectory),
    }
}

/// The last segment of the path of `url`, once empty segments are taken off
/// its end; `None` where `url` is no URL or has no path of segments.
pub open spec fn trimmed_segment_of(url: Seq<char>) -> Option<Seq<char>> {
    match popped_all(url) {
        Some(trimmed) => match url_path_segments(trimmed) {
            Some(segments) => if segments.len() > 0 {
                Some(segments.last())
            } else {
                None
            },
            None => None,
        },
        None => None,
    }
}

/// The last segment of the path of `url`, once empty segments are taken off
/// its end: the name under which a directory is reported.
pub fn trimmed_last_segment(url: &str) -> (name: Option<String>)
    ensures
        name.deep_view() == trimmed_segment_of(url@),
{
    let trimmed = pop_all(url)?;
    let segments = path_segments(trimmed.as_str())?;
    let n = segments.len();
    if n > 0 {
        assert(segments.deep_view().last() == segments@[n - 1]@);
        Some(segments[n - 1].clone())
    } else {
        None
    }
}

/// The folder under the destination in which the folders of a run are
/// made: it is named after the last segment of the root URL.
pub fn site_folder(options: &CliOptions) -> (name: Option<String>)
    ensures
        name.deep_view() == trimmed_segment_of(options.url_text()),
{
    trimmed_last_segment(options.url())
}

/// Where the folder of the name `folder` lies: below the destination, in
/// the folder of the site. `None` where no folder can be named after the
/// root URL.
pub open spec fn folder_location_of(options: CliOptions, folder: Seq<char>) -> Option<
    Seq<Seq<char>>,
> {
    match trimmed_segment_of(options.url_text()) {
        Some(site) => Some(seq![options.destination_text(), site, folder]),
        None => None,
    }
}

/// Where the file lies that was fetched into `folder` from a request that
/// ended at `final_url`: in the folder, under the local name that the URL
/// gives.
pub open spec fn file_location_of(
    options: CliOptions,
    folder: Seq<char>,
    final_url: Seq<char>,
) -> Option<Seq<Seq<char>>> {
    match folder_location_of(options, folder) {
        Some(parts) => Some(parts.push(last_segment_of(final_url))),
        None => None,
    }
}

/// The path of the folder of the name `folder`, part by part from the
/// destination down.
pub fn folder_location(options: &CliOptions, folder: &str) -> (parts: Option<Vec<String>>)
    ensures
        parts.deep_view() == folder_location_of(*options, folder@),
{
    let site = site_folder(options)?;
    let mut parts: Vec<String> = Vec::new();
    parts.push(options.destination().to_owned());
    parts.push(site);
    parts.push(folder.to_owned());
    assert(parts.deep_view() =~= seq![options.destination_text(), site@, folder@]);
    Some(parts)
}

/// The path of the file that was fetched into `folder` from a request that
/// ended at `final_url`, part by part from the destination down. The file
/// is named after the URL that the request ended at, which need not be the
/// URL that was asked for.
pub fn file_location(options: &CliOptions, folder: &str, final_url: &str) -> (parts: Option<
    Vec<String>,
>)
    ensures
        parts.deep_view() == file_location_of(*options, folder@, final_url@),
{
    let mut parts = folder_location(options, folder)?;
    let ghost before = parts.deep_view();
    let name = get_last_segment(final_url);
    parts.push(name);
    assert(parts.deep_view() =~= before.push(name@));
    Some(parts)
}

/// Plans the download of every file of `files` into `folder`, in order,
/// whatever the configuration and the counters say.
pub fn download_files(folder: &str, files: &Vec<FileLinkMetaData>) -> (steps: Vec<Step>)
    ensures
        steps.len() == files.len(),
        forall|i: int|
            0 <= i < files.len() ==> #[trigger] steps.deep_view()[i] == (StepModel::Download {
                url: files@[i].url@,
                folder: folder@,
            }),
{
    let mut steps: Vec<Step> = Vec::new();
    let mut i: usize = 0;
    while i < files.len()
        invariant
            i <= files.len(),
            steps.len() == i,
            forall|j: int|
                0 <= j < i ==> #[trigger] steps.deep_view()[j] == (StepModel::Download {
                    url: files@[j].url@,
                    folder: folder@,
                }),
        decreases files.len() - i,
    {
        let ghost before = steps.deep_view();
        steps.push(Step::Download { url: files[i].url.clone(), folder: folder.to_owned() });
        assert(steps.deep_view() =~= before.push(
            StepModel::Download { url: files@[i as int].url@, folder: folder@ },
        ));
        i += 1;
    }
    steps
}

/// The URLs of the download steps among `steps`, in order.
pub open spec fn download_urls(steps: Seq<StepModel>) -> Seq<Seq<char>>
    decreases steps.len(),
{
    if steps.len() == 0 {
        Seq::empty()
    } else {
        let before = download_urls(steps.drop_last());
        match steps.last() {
            StepModel::Download { url, .. } => before.push(url),
            _ => before,
        }
    }
}

/// The steps among `steps` that are no downloads, in order.
pub open spec fn without_downloads(steps: Seq<StepModel>) -> Seq<StepModel>
    decreases steps.len(),
{
    if steps.len() == 0 {
        Seq::empty()
    } else {
        let before = without_downloads(steps.drop_last());
        if steps.last() is Download {
            before
        } else {
            before.push(steps.last())
        }
    }
}

/// The list of downloaded URLs once the first `finished` steps of a plan
/// are carried out: the list as it stood before the plan was made, and
/// behind it the URLs of the downloads among those steps.
pub fn completed_downloads(initial: &Vec<String>, steps: &Vec<Step>, finished: usize) -> (done:
    Vec<String>)
    requires
        finished <= steps.len(),
    ensures
        done.deep_view() == initial.deep_view() + download_urls(
            steps.deep_view().take(finished as int),
        ),
{
    let mut done = crate::download::types::clone_texts(initial);
    let ghost plan = steps.deep_view();
    let mut i: usize = 0;
    assert(plan.take(0) =~= Seq::<StepModel>::empty());
    assert(done.deep_view() =~= initial.deep_view() + Seq::<Seq<char>>::empty());
    while i < finished
        invariant
            i <= finished <= steps.len(),
            plan == steps.deep_view(),
            done.deep_view() == initial.deep_view() + download_urls(plan.take(i as int)),
        decreases finished - i,
    {
        let ghost before = done.deep_view();
        assert(plan.take(i + 1).drop_last() =~= plan.take(i as int));
        assert(plan.take(i + 1).last() == steps@[i as int].deep_view());
        if let Step::Download { url, .. } = &steps[i] {
            done.push(url.clone());
            assert(done.deep_view() =~= before.push(url@));
            assert(before.push(url@) =~= initial.deep_view() + download_urls(
                plan.take(i as int),
            ).push(url@));
        }
        i += 1;
    }
    done
}

} // verus!
