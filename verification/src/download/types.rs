//! The tree of listing entries and the persisted crawl state.

use crate::clock::{is_utc_timestamp, now_rfc3339};
use vstd::prelude::*;

verus! {

/// What a listing row says about a file.
#[derive(Debug, PartialEq, Eq)]
pub struct FileLinkMetaData {
    pub url: String,
    pub name: String,
    pub last_modified: String,
    pub size: String,
    pub description: String,
}

/// What a listing row says about a directory.
#[derive(Debug, PartialEq, Eq)]
pub struct DirLinkMetaData {
    pub url: String,
    pub name: String,
    pub last_modified: String,
    pub description: String,
}

/// An entry of an open-directory listing.
///
/// - `File` is a link to a file to be downloaded.
/// - `PendingDir` is a link to a directory that was seen but not fetched yet.
/// - `CrawledDir` is a directory whose own listing was fetched; it carries
///   the entries of that listing in listing order.
#[derive(Debug, PartialEq, Eq)]
pub enum Node {
    File(FileLinkMetaData),
    PendingDir(DirLinkMetaData),
    CrawledDir(DirLinkMetaData, Vec<Node>),
}

/// The mathematical value of a [`FileLinkMetaData`].
pub struct FileLinkModel {
    pub url: Seq<char>,
    pub name: Seq<char>,
    pub last_modified: Seq<char>,
    pub size: Seq<char>,
    pub description: Seq<char>,
}

/// The mathematical value of a [`DirLinkMetaData`].
pub struct DirLinkModel {
    pub url: Seq<char>,
    pub name: Seq<char>,
    pub last_modified: Seq<char>,
    pub description: Seq<char>,
}

/// The mathematical value of a [`Node`]: the same tree over character
/// sequences.
pub enum NodeModel {
    File(FileLinkModel),
    PendingDir(DirLinkModel),
    CrawledDir(DirLinkModel, Seq<NodeModel>),
}

impl DeepView for FileLinkMetaData {
    type V = FileLinkModel;

    open spec fn deep_view(&self) -> FileLinkModel {
        FileLinkModel {
            url: self.url@,
            name: self.name@,
            last_modified: self.last_modified@,
            size: self.size@,
            description: self.description@,
        }
    }
}

impl DeepView for DirLinkMetaData {
    type V = DirLinkModel;

    open spec fn deep_view(&self) -> DirLinkModel {
        DirLinkModel {
            url: self.url@,
            name: self.name@,
            last_modified: self.last_modified@,
            description: self.description@,
        }
    }
}

impl Clone for FileLinkMetaData {
    fn clone(&self) -> (copy: FileLinkMetaData)
        ensures
            copy.deep_view() == self.deep_view(),
    {
        FileLinkMetaData {
            url: self.url.clone(),
            name: self.name.clone(),
            last_modified: self.last_modified.clone(),
            size: self.size.clone(),
            description: self.description.clone(),
        }
    }
}

impl Clone for DirLinkMetaData {
    fn clone(&self) -> (copy: DirLinkMetaData)
        ensures
            copy.deep_view() == self.deep_view(),
    {
        DirLinkMetaData {
            url: self.url.clone(),
            name: self.name.clone(),
            last_modified: self.last_modified.clone(),
            description: self.description.clone(),
        }
    }
}

impl DeepView for Node {
    type V = NodeModel;

    open spec fn deep_view(&self) -> NodeModel {
        model_of(*self)
    }
}

/// The value of `node`: the same tree over character sequences.
pub open spec fn model_of(node: Node) -> NodeModel
    decreases node,
{
    match node {
        Node::File(file) => NodeModel::File(file.deep_view()),
        Node::PendingDir(dir) => NodeModel::PendingDir(dir.deep_view()),
        Node::CrawledDir(dir, children) => NodeModel::CrawledDir(
            dir.deep_view(),
            Seq::new(
                children@.len(),
                |i: int|
                    if 0 <= i < children@.len() {
                        model_of(children@[i])
                    } else {
                        arbitrary()
                    },
            ),
        ),
    }
}

/// The value of a crawled directory is made of the values of its parts.
pub proof fn lemma_crawled_dir_view(node: Node)
    requires
        node is CrawledDir,
    ensures
        node.deep_view() == NodeModel::CrawledDir(
            node->CrawledDir_0.deep_view(),
            node->CrawledDir_1.deep_view(),
        ),
{
    assert(node.deep_view()->CrawledDir_1 =~= node->CrawledDir_1.deep_view());
}

impl Node {
    /// A copy of the whole subtree.
    pub fn duplicate(&self) -> (copy: Node)
        ensures
            copy.deep_view() == self.deep_view(),
        decreases self,
    {
        match self {
            Node::File(file) => Node::File(file.clone()),
            Node::PendingDir(dir) => Node::PendingDir(dir.clone()),
            Node::CrawledDir(dir, children) => {
                let mut copies: Vec<Node> = Vec::new();
                let mut i: usize = 0;
                while i < children.len()
                    invariant
                        self is CrawledDir,
                        self->CrawledDir_1 == *children,
                        i <= children.len(),
                        copies.len() == i,
                        forall|j: int| 0 <= j < i ==> copies@[j].deep_view() == children@[j].deep_view(),
                    decreases children.len() - i,
                {
                    proof {
                        vstd::std_specs::vec::axiom_vec_index_decreases(*children, i as int);
                    }
                    let copy = children[i].duplicate();
                    copies.push(copy);
                    i += 1;
                }
                let copy = Node::CrawledDir(dir.clone(), copies);
                assert(copy.deep_view() == self.deep_view()) by {
                    lemma_crawled_dir_view(copy);
                    lemma_crawled_dir_view(*self);
                    assert(copies.deep_view() =~= children.deep_view());
                }
                copy
            },
        }
    }
}

impl Clone for Node {
    fn clone(&self) -> (copy: Node)
        ensures
            copy.deep_view() == self.deep_view(),
    {
        self.duplicate()
    }
}

/// How far the crawl has come.
///
/// `Partial` is kept for a crawl that was interrupted; nothing resumes one
/// yet, so a partial crawl is treated like none.
#[derive(Debug, PartialEq, Eq)]
pub enum CrawlingState {
    Complete(Node),
    Partial(Node),
    NotCrawled,
}

/// The mathematical value of a [`CrawlingState`].
pub enum CrawlingStateModel {
    Complete(NodeModel),
    Partial(NodeModel),
    NotCrawled,
}

impl DeepView for CrawlingState {
    type V = CrawlingStateModel;

    open spec fn deep_view(&self) -> CrawlingStateModel {
        match self {
            CrawlingState::Complete(root) => CrawlingStateModel::Complete(root.deep_view()),
            CrawlingState::Partial(root) => CrawlingStateModel::Partial(root.deep_view()),
            CrawlingState::NotCrawled => CrawlingStateModel::NotCrawled,
        }
    }
}

impl Clone for CrawlingState {
    fn clone(&self) -> (copy: CrawlingState)
        ensures
            copy.deep_view() == self.deep_view(),
    {
        match self {
            CrawlingState::Complete(root) => CrawlingState::Complete(root.duplicate()),
            CrawlingState::Partial(root) => CrawlingState::Partial(root.duplicate()),
            CrawlingState::NotCrawled => CrawlingState::NotCrawled,
        }
    }
}

/// What is kept between runs: when the store was made and last changed,
/// how far the crawl has come, and the URLs of the files that were
/// downloaded, in the order of their download.
#[derive(Debug, PartialEq, Eq)]
pub struct StateStore {
    pub created_at: String,
    pub last_modified: String,
    pub crawling_state: CrawlingState,
    pub downloaded_urls: Vec<String>,
}

/// The mathematical value of a [`StateStore`].
pub struct StateStoreModel {
    pub created_at: Seq<char>,
    pub last_modified: Seq<char>,
    pub crawling_state: CrawlingStateModel,
    pub downloaded_urls: Seq<Seq<char>>,
}

impl DeepView for StateStore {
    type V = StateStoreModel;

    open spec fn deep_view(&self) -> StateStoreModel {
        StateStoreModel {
            created_at: self.created_at@,
            last_modified: self.last_modified@,
            crawling_state: self.crawling_state.deep_view(),
            downloaded_urls: self.downloaded_urls.deep_view(),
        }
    }
}

/// Why a store has no tree to hand out.
#[derive(Debug, Clone, Copy, PartialEq, Eq, Structural)]
pub enum StateError {
    /// The crawl is not complete.
    CrawlIncomplete,
}

/// A copy of a list of texts.
pub fn clone_texts(texts: &Vec<String>) -> (copy: Vec<String>)
    ensures
        copy.deep_view() == texts.deep_view(),
{
    let mut copy: Vec<String> = Vec::new();
    let mut i: usize = 0;
    while i < texts.len()
        invariant
            i <= texts.len(),
            copy.len() == i,
            forall|j: int| 0 <= j < i ==> copy@[j]@ == texts@[j]@,
        decreases texts.len() - i,
    {
        copy.push(texts[i].clone());
        i += 1;
    }
    assert(copy.deep_view() =~= texts.deep_view());
    copy
}

impl Clone for StateStore {
    fn clone(&self) -> (copy: StateStore)
        ensures
            copy.deep_view() == self.deep_view(),
    {
        StateStore {
            created_at: self.created_at.clone(),
            last_modified: self.last_modified.clone(),
            crawling_state: self.crawling_state.clone(),
            downloaded_urls: clone_texts(&self.downloaded_urls),
        }
    }
}

impl StateStore {
    /// The version of the layout in which a store is kept.
    pub const VERSION: u64 = 1;

    /// The value of a store made at the time `now`: no crawl, nothing
    /// downloaded.
    pub open spec fn fresh(now: Seq<char>) -> StateStoreModel {
        StateStoreModel {
            created_at: now,
            last_modified: now,
            crawling_state: CrawlingStateModel::NotCrawled,
            downloaded_urls: Seq::empty(),
        }
    }

    /// A store made at the time `now`.
    pub fn created_at(now: String) -> (store: Self)
        ensures
            store.deep_view() == Self::fresh(now@),
    {
        let store = Self {
            created_at: now.clone(),
            last_modified: now,
            crawling_state: CrawlingState::NotCrawled,
            downloaded_urls: Vec::new(),
        };
        assert(store.downloaded_urls.deep_view() =~= Seq::<Seq<char>>::empty());
        store
    }

    /// A store made now. Whatever the clock says, the store holds no crawl
    /// and no downloaded URL, was made at a time in UTC in the form of
    /// RFC 3339, and was last changed when it was made.
    pub fn new() -> (store: Self)
        ensures
            is_utc_timestamp(store.created_at@),
            store.deep_view() == Self::fresh(store.created_at@),
    {
        Self::created_at(now_rfc3339())
    }

    /// Notes `now` as the time of the last change.
    pub fn set_modified_time(&mut self, now: String)
        ensures
            final(self).deep_view() == (StateStoreModel {
                last_modified: now@,
                ..old(self).deep_view()
            }),
    {
        self.last_modified = now;
    }

    /// Notes the current time as the time of the last change: whatever the
    /// clock says, the time of the last change is then a time in UTC in
    /// the form of RFC 3339, and nothing else changes.
    pub fn update_modified_time(&mut self)
        ensures
            is_utc_timestamp(final(self).last_modified@),
            final(self).deep_view() == (StateStoreModel {
                last_modified: final(self).last_modified@,
                ..old(self).deep_view()
            }),
    {
        self.set_modified_time(now_rfc3339());
    }

    /// Keeps `root` as the tree of a complete crawl and notes `now` as the
    /// time of the last change.
    pub fn mark_complete_at(&mut self, root: Node, now: String)
        ensures
            final(self).deep_view() == (StateStoreModel {
                last_modified: now@,
                crawling_state: CrawlingStateModel::Complete(root.deep_view()),
                ..old(self).deep_view()
            }),
    {
        self.last_modified = now;
        self.crawling_state = CrawlingState::Complete(root);
    }

    /// Keeps `root` as the tree of a complete crawl and notes the current
    /// time as the time of the last change: whatever the clock says, that
    /// is then a time in UTC in the form of RFC 3339, and nothing else
    /// changes.
    pub fn mark_complete(&mut self, root: Node)
        ensures
            is_utc_timestamp(final(self).last_modified@),
            final(self).deep_view() == (StateStoreModel {
                last_modified: final(self).last_modified@,
                crawling_state: CrawlingStateModel::Complete(root.deep_view()),
                ..old(self).deep_view()
            }),
    {
        self.mark_complete_at(root, now_rfc3339());
    }

    /// Whether the tree has to be crawled: it has unless a complete crawl
    /// is kept.
    pub fn needs_crawl(&self) -> (needed: bool)
        ensures
            needed == !(self.crawling_state is Complete),
    {
        match &self.crawling_state {
            CrawlingState::Complete(_) => false,
            _ => true,
        }
    }

    /// The tree of the complete crawl.
    pub fn get_root_ref(&self) -> (root: Result<&Node, StateError>)
        ensures
            match root {
                Ok(node) => self.crawling_state == CrawlingState::Complete(*node),
                Err(e) => !(self.crawling_state is Complete) && e == StateError::CrawlIncomplete,
            },
    {
        if let CrawlingState::Complete(root) = &self.crawling_state {
            Ok(root)
        } else {
            Err(StateError::CrawlIncomplete)
        }
    }

    /// The tree of the complete crawl, to change it in place.
    pub fn get_root_ref_mut(&mut self) -> (root: Result<&mut Node, StateError>)
        ensures
            match root {
                Ok(node) => {
                    &&& old(self).crawling_state == CrawlingState::Complete(*node)
                    &&& *final(self) == (StateStore {
                        crawling_state: CrawlingState::Complete(*final(node)),
                        ..*old(self)
                    })
                },
                Err(e) => {
                    &&& !(old(self).crawling_state is Complete)
                    &&& e == StateError::CrawlIncomplete
                    &&& *final(self) == *old(self)
                },
            },
    {
        if let CrawlingState::Complete(root) = &mut self.crawling_state {
            Ok(root)
        } else {
            Err(StateError::CrawlIncomplete)
        }
    }
}

} // verus!
