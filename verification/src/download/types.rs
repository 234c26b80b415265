//! The node tree and the state that a run keeps between checkpoints.

use super::foreign::unix_time_now;
use vstd::prelude::*;

verus! {

/// What a listing row says about a directory.
#[derive(Debug, PartialEq, Eq)]
pub struct DirLinkMetaData {
    /// Absolute URL of the directory's own listing page.
    pub url: String,
    /// Display name: the link text, or the page's title once it was fetched.
    pub name: String,
    /// Last-modified column, kept as the server wrote it.
    pub last_modified: String,
    /// Description column.
    pub description: String,
}

/// What a listing row says about a file.
#[derive(Debug, PartialEq, Eq)]
pub struct FileLinkMetaData {
    /// Absolute URL of the file.
    pub url: String,
    /// Display name: the link text.
    pub name: String,
    /// Last-modified column, kept as the server wrote it.
    pub last_modified: String,
    /// Size column, kept as the server wrote it.
    pub size: String,
    /// Description column.
    pub description: String,
}

/// One entry of the mirrored tree.
#[derive(Debug, PartialEq, Eq)]
pub enum Node {
    /// A directory link whose own page was not fetched yet.
    PendingDir(DirLinkMetaData),
    /// A directory whose page was fetched, with the entries found on it.
    CrawledDir(DirLinkMetaData, Vec<Node>),
    /// A file.
    File(FileLinkMetaData),
}

/// Mathematical value of a [`DirLinkMetaData`].
pub ghost struct DirMeta {
    pub url: Seq<char>,
    pub name: Seq<char>,
    pub last_modified: Seq<char>,
    pub description: Seq<char>,
}

/// Mathematical value of a [`FileLinkMetaData`].
pub ghost struct FileMeta {
    pub url: Seq<char>,
    pub name: Seq<char>,
    pub last_modified: Seq<char>,
    pub size: Seq<char>,
    pub description: Seq<char>,
}

/// Mathematical value of a [`Node`].
pub ghost enum Tree {
    PendingDir(DirMeta),
    CrawledDir(DirMeta, Seq<Tree>),
    File(FileMeta),
}

/// Why a crawl or a download stopped.
#[derive(Clone, Copy, Debug, PartialEq, Eq, Structural)]
pub enum CrawlError {
    /// The page has no `Index of ...` heading.
    MalformedListing,
    /// The page is no valid text once its character references are decoded.
    EncodingError,
    /// The transport failed.
    FetchError,
    /// A file or the checkpoint could not be written.
    FilesystemError,
}

impl CrawlError {
    /// What [`CrawlError::message`] says of each error.
    pub open spec fn text(self) -> Seq<char> {
        match self {
            CrawlError::MalformedListing => "Couldn't parse the directory name"@,
            CrawlError::EncodingError => "The page is no valid text"@,
            CrawlError::FetchError => "The request failed"@,
            CrawlError::FilesystemError => "The file could not be written"@,
        }
    }

    /// The error in words.
    pub fn message(&self) -> (text: &'static str)
        ensures
            text@ == self.text(),
    {
        match self {
            CrawlError::MalformedListing => "Couldn't parse the directory name",
            CrawlError::EncodingError => "The page is no valid text",
            CrawlError::FetchError => "The request failed",
            CrawlError::FilesystemError => "The file could not be written",
        }
    }
}

/// The values of a sequence of nodes, in order.
pub open spec fn trees(nodes: Seq<Node>) -> Seq<Tree>
    decreases nodes,
{
    if nodes.len() == 0 {
        Seq::empty()
    } else {
        trees(nodes.drop_last()).push(nodes.last()@)
    }
}

impl View for DirLinkMetaData {
    type V = DirMeta;

    open spec fn view(&self) -> DirMeta {
        DirMeta {
            url: self.url@,
            name: self.name@,
            last_modified: self.last_modified@,
            description: self.description@,
        }
    }
}

impl View for FileLinkMetaData {
    type V = FileMeta;

    open spec fn view(&self) -> FileMeta {
        FileMeta {
            url: self.url@,
            name: self.name@,
            last_modified: self.last_modified@,
            size: self.size@,
            description: self.description@,
        }
    }
}

impl View for Node {
    type V = Tree;

    open spec fn view(&self) -> Tree
        decreases self,
    {
        match self {
            Node::PendingDir(meta) => Tree::PendingDir(meta@),
            Node::CrawledDir(meta, children) => Tree::CrawledDir(meta@, trees(children@)),
            Node::File(meta) => Tree::File(meta@),
        }
    }
}

/// `trees` maps the nodes one by one.
pub proof fn lemma_trees(nodes: Seq<Node>)
    ensures
        trees(nodes).len() == nodes.len(),
        forall|i: int| 0 <= i < nodes.len() ==> (#[trigger] trees(nodes)[i]) == nodes[i]@,
    decreases nodes.len(),
{
    reveal_with_fuel(trees, 2);
    if nodes.len() > 0 {
        lemma_trees(nodes.drop_last());
    }
}

/// Adding a node at the end adds its value at the end.
pub proof fn lemma_trees_push(nodes: Seq<Node>, node: Node)
    ensures
        trees(nodes.push(node)) == trees(nodes).push(node@),
{
    reveal_with_fuel(trees, 2);
    assert(nodes.push(node).drop_last() =~= nodes);
}

/// No nodes have no values.
pub proof fn lemma_trees_empty()
    ensures
        trees(Seq::<Node>::empty()) == Seq::<Tree>::empty(),
{
    reveal_with_fuel(trees, 2);
}

impl Clone for DirLinkMetaData {
    fn clone(&self) -> (copy: Self)
        ensures
            copy@ == self@,
    {
        DirLinkMetaData {
            url: self.url.clone(),
            name: self.name.clone(),
            last_modified: self.last_modified.clone(),
            description: self.description.clone(),
        }
    }
}

impl Clone for FileLinkMetaData {
    fn clone(&self) -> (copy: Self)
        ensures
            copy@ == self@,
    {
        FileLinkMetaData {
            url: self.url.clone(),
            name: self.name.clone(),
            last_modified: self.last_modified.clone(),
            size: self.size.clone(),
            description: self.description.clone(),
        }
    }
}

impl Clone for Node {
    fn clone(&self) -> (copy: Self)
        ensures
            copy@ == self@,
        decreases self,
    {
        match self {
            Node::PendingDir(meta) => Node::PendingDir(meta.clone()),
            Node::CrawledDir(meta, children) => {
                let mut copies: Vec<Node> = Vec::new();
                let mut i: usize = 0;

                while i < children.len()
                    invariant
                        decreases_to!(self => children),
                        i <= children.len(),
                        copies.len() == i,
                        forall|j: int| 0 <= j < i ==> copies[j]@ == children[j]@,
                    decreases children.len() - i,
                {
                    let child = children[i].clone();
                    copies.push(child);
                    i = i + 1;
                }
                let copy = Node::CrawledDir(meta.clone(), copies);
                proof {
                    lemma_trees(copies@);
                    lemma_trees(children@);
                }
                assert(trees(copies@) =~= trees(children@));
                copy
            },
            Node::File(meta) => Node::File(meta.clone()),
        }
    }
}

/// How far the crawl has come.
#[derive(Debug, PartialEq, Eq)]
pub enum CrawlingState {
    /// Nothing was crawled.
    NotStarted,
    /// A crawl was interrupted; this is what it had found.
    Partial(Node),
    /// The crawl is over; this is the root of the tree.
    Complete(Node),
}

/// Mathematical value of a [`CrawlingState`].
pub ghost enum Phase {
    NotStarted,
    Partial(Tree),
    Complete(Tree),
}

impl View for CrawlingState {
    type V = Phase;

    open spec fn view(&self) -> Phase {
        match self {
            CrawlingState::NotStarted => Phase::NotStarted,
            CrawlingState::Partial(snapshot) => Phase::Partial(snapshot@),
            CrawlingState::Complete(root) => Phase::Complete(root@),
        }
    }
}

/// What a run keeps between checkpoints: how far the crawl has come, and
/// which files are stored.
#[derive(Debug, PartialEq, Eq)]
pub struct StateStore {
    /// How far the crawl has come.
    pub crawling_state: CrawlingState,
    /// URLs of the files that are stored, in the order they were stored.
    pub downloaded_urls: Vec<String>,
    /// When the state last changed, in seconds since the Unix epoch.
    pub last_modified: u64,
}

/// Mathematical value of a [`StateStore`].
pub ghost struct Store {
    pub phase: Phase,
    pub downloaded: Seq<Seq<char>>,
    pub last_modified: u64,
}

/// The texts of a list of strings, in order.
pub open spec fn texts(list: Seq<String>) -> Seq<Seq<char>> {
    list.map_values(|text: String| text@)
}

impl View for StateStore {
    type V = Store;

    open spec fn view(&self) -> Store {
        Store {
            phase: self.crawling_state@,
            downloaded: texts(self.downloaded_urls@),
            last_modified: self.last_modified,
        }
    }
}

impl Store {
    /// A crawl that counts as complete has a fetched directory as its root.
    pub open spec fn wf(self) -> bool {
        self.phase matches Phase::Complete(root) ==> root is CrawledDir
    }

    /// The state of a run that has done nothing.
    pub open spec fn fresh() -> Store {
        Store { phase: Phase::NotStarted, downloaded: Seq::empty(), last_modified: 0 }
    }
}

impl Clone for CrawlingState {
    fn clone(&self) -> (copy: Self)
        ensures
            copy@ == self@,
    {
        match self {
            CrawlingState::NotStarted => CrawlingState::NotStarted,
            CrawlingState::Partial(snapshot) => CrawlingState::Partial(snapshot.clone()),
            CrawlingState::Complete(root) => CrawlingState::Complete(root.clone()),
        }
    }
}

impl Clone for StateStore {
    fn clone(&self) -> (copy: Self)
        ensures
            copy@ == self@,
    {
        let copy = StateStore {
            crawling_state: self.crawling_state.clone(),
            downloaded_urls: self.downloaded_urls.clone(),
            last_modified: self.last_modified,
        };
        assert(texts(copy.downloaded_urls@) =~= texts(self.downloaded_urls@));
        copy
    }
}

impl StateStore {
    /// The state of a run that has done nothing.
    pub fn new() -> (store: Self)
        ensures
            store@ == Store::fresh(),
            store@.wf(),
    {
        let store = StateStore {
            crawling_state: CrawlingState::NotStarted,
            downloaded_urls: Vec::new(),
            last_modified: 0,
        };
        assert(store@.downloaded =~= Seq::empty());
        store
    }

    /// The state to go on from: what was read from the checkpoint, or a
    /// fresh state where nothing could be read.
    pub fn resume(loaded: Option<StateStore>) -> (store: Self)
        ensures
            match loaded {
                Some(read) => store == read,
                None => store@ == Store::fresh(),
            },
    {
        match loaded {
            Some(read) => read,
            None => StateStore::new(),
        }
    }

    /// Whether the tree has to be crawled from the network: it has, unless
    /// a complete crawl is kept.
    pub fn needs_crawl(&self) -> (needed: bool)
        ensures
            needed == !(self@.phase is Complete),
    {
        match &self.crawling_state {
            CrawlingState::Complete(_) => false,
            _ => true,
        }
    }

    /// The root of the tree, once the crawl is complete.
    pub fn get_root_ref(&self) -> (root: Option<&Node>)
        ensures
            match root {
                Some(node) => self.crawling_state == CrawlingState::Complete(*node),
                None => !(self@.phase is Complete),
            },
    {
        match &self.crawling_state {
            CrawlingState::Complete(root) => Some(root),
            _ => None,
        }
    }

    /// Sets the time of the last change.
    pub fn set_modified_time(&mut self, now: u64)
        ensures
            final(self).last_modified == now,
            final(self).crawling_state == old(self).crawling_state,
            final(self).downloaded_urls == old(self).downloaded_urls,
    {
        self.last_modified = now;
    }

    /// Sets the time of the last change to the clock's time. Nothing else
    /// changes.
    pub fn update_modified_time(&mut self)
        ensures
            final(self).crawling_state == old(self).crawling_state,
            final(self).downloaded_urls == old(self).downloaded_urls,
    {
        let now = unix_time_now();
        self.set_modified_time(now);
    }

    /// Keeps a finished crawl: the phase becomes `Complete` with `root` as
    /// the tree. The done list stays.
    pub fn complete_crawl(&mut self, root: Node)
        requires
            root is CrawledDir,
        ensures
            final(self).crawling_state == CrawlingState::Complete(root),
            final(self).downloaded_urls == old(self).downloaded_urls,
            final(self)@.wf(),
    {
        self.crawling_state = CrawlingState::Complete(root);
        self.update_modified_time();
    }

    /// Keeps what an interrupted crawl had found: the phase becomes
    /// `Partial` with `snapshot` as the tree so far. The done list stays.
    pub fn interrupt_crawl(&mut self, snapshot: Node)
        ensures
            final(self).crawling_state == CrawlingState::Partial(snapshot),
            final(self).downloaded_urls == old(self).downloaded_urls,
            final(self)@.wf(),
    {
        self.crawling_state = CrawlingState::Partial(snapshot);
        self.update_modified_time();
    }

    /// Takes over the done list of a download, to be written with the next
    /// checkpoint. The phase stays.
    pub fn record_downloads(&mut self, done_list: Vec<String>)
        ensures
            final(self).downloaded_urls == done_list,
            final(self).crawling_state == old(self).crawling_state,
            old(self)@.wf() ==> final(self)@.wf(),
    {
        self.update_modified_time();
        self.downloaded_urls = done_list;
    }
}

impl Tree {
    /// The URL that the node was found under.
    pub open spec fn url(self) -> Seq<char> {
        match self {
            Tree::PendingDir(meta) => meta.url,
            Tree::CrawledDir(meta, _) => meta.url,
            Tree::File(meta) => meta.url,
        }
    }

    /// The node's display name.
    pub open spec fn name(self) -> Seq<char> {
        match self {
            Tree::PendingDir(meta) => meta.name,
            Tree::CrawledDir(meta, _) => meta.name,
            Tree::File(meta) => meta.name,
        }
    }

    /// Whether the tree holds a file with this URL, at any depth.
    pub open spec fn holds_file(self, url: Seq<char>) -> bool
        decreases self,
    {
        match self {
            Tree::File(meta) => meta.url == url,
            Tree::PendingDir(_) => false,
            Tree::CrawledDir(_, children) => exists|i: int|
                0 <= i < children.len() && (#[trigger] children[i]).holds_file(url),
        }
    }
}

impl Node {
    /// The URL that the node was found under.
    pub fn url(&self) -> (url: &String)
        ensures
            url@ == self@.url(),
    {
        match self {
            Node::PendingDir(meta) => &meta.url,
            Node::CrawledDir(meta, _) => &meta.url,
            Node::File(meta) => &meta.url,
        }
    }

    /// The node's display name.
    pub fn name(&self) -> (name: &String)
        ensures
            name@ == self@.name(),
    {
        match self {
            Node::PendingDir(meta) => &meta.name,
            Node::CrawledDir(meta, _) => &meta.name,
            Node::File(meta) => &meta.name,
        }
    }
}

} // verus!
