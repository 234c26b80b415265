//! The download traversal: which files of a tree to fetch, in which order,
//! and what is left for a later call.
//!
//! The traversal fetches nothing itself. It names the next file, waits for
//! the caller to say how the fetch ended, and goes on from there.

use super::types::{lemma_trees, texts, trees, CrawlError, Node, Tree};
use vstd::prelude::*;
use vstd::string::*;

verus! {

/// Running totals of a download, shared by all calls of a run.
#[derive(Clone, Copy, Debug, PartialEq, Eq, Structural)]
pub struct LimitCounts {
    /// Files stored so far.
    pub files: u64,
    /// Bytes stored so far.
    pub bytes: u64,
}

impl LimitCounts {
    /// Totals of a run that stored nothing yet.
    pub fn new() -> (counts: Self)
        ensures
            counts.files == 0,
            counts.bytes == 0,
    {
        LimitCounts { files: 0, bytes: 0 }
    }
}

/// Where a traversal stores files, and when it stops.
#[derive(Debug, PartialEq, Eq)]
pub struct DownloadOptions {
    /// Directory that the mirror is stored under.
    pub output_dir: String,
    /// Stop before fetching once this many files are stored.
    pub max_files: Option<u64>,
    /// Stop before fetching once this many bytes are stored.
    pub max_bytes: Option<u64>,
}

/// Mathematical value of [`DownloadOptions`].
pub ghost struct Options {
    pub output_dir: Seq<char>,
    pub max_files: Option<u64>,
    pub max_bytes: Option<u64>,
}

impl View for DownloadOptions {
    type V = Options;

    open spec fn view(&self) -> Options {
        Options {
            output_dir: self.output_dir@,
            max_files: self.max_files,
            max_bytes: self.max_bytes,
        }
    }
}

impl Clone for DownloadOptions {
    fn clone(&self) -> (copy: Self)
        ensures
            copy@ == self@,
    {
        DownloadOptions {
            output_dir: self.output_dir.clone(),
            max_files: self.max_files,
            max_bytes: self.max_bytes,
        }
    }
}

/// A node that a traversal has to deal with, and the options to do it
/// under. For a file, `options.output_dir` is the directory that the file
/// is stored in.
#[derive(Debug, PartialEq, Eq)]
pub struct DownloadTask<'a> {
    /// The node.
    pub node: &'a Node,
    /// The options to pass along with it.
    pub options: DownloadOptions,
}

/// Mathematical value of a [`DownloadTask`].
pub ghost struct Task {
    pub node: Tree,
    pub options: Options,
}

impl<'a> View for DownloadTask<'a> {
    type V = Task;

    open spec fn view(&self) -> Task {
        Task { node: self.node@, options: self.options@ }
    }
}

impl<'a> Clone for DownloadTask<'a> {
    fn clone(&self) -> (copy: Self)
        ensures
            copy@ == self@,
    {
        DownloadTask { node: self.node, options: self.options.clone() }
    }
}

/// The values of a sequence of tasks, in order.
pub open spec fn tasks(list: Seq<DownloadTask<'_>>) -> Seq<Task> {
    list.map_values(|task: DownloadTask<'_>| task@)
}

/// How a call of the traversal ended.
#[derive(Debug, PartialEq, Eq)]
pub enum DownloadRecursiveStatus<'a> {
    /// Everything under the node was dealt with.
    Done,
    /// These are left for later calls, in the order of the tree.
    Do(Vec<DownloadTask<'a>>),
}

/// Mathematical value of a [`DownloadRecursiveStatus`].
pub ghost enum Status {
    Done,
    Do(Seq<Task>),
}

impl<'a> View for DownloadRecursiveStatus<'a> {
    type V = Status;

    open spec fn view(&self) -> Status {
        match self {
            DownloadRecursiveStatus::Done => Status::Done,
            DownloadRecursiveStatus::Do(queue) => Status::Do(tasks(queue@)),
        }
    }
}

/// What the caller reports to the traversal.
#[derive(Clone, Copy, Debug, PartialEq, Eq)]
pub enum DownloadEvent {
    /// Nothing yet: the call begins, or is asked again where it stands.
    Begin,
    /// The file that was asked for is stored; it had this many bytes.
    Stored(u64),
    /// The file that was asked for could not be fetched or stored.
    Failed(CrawlError),
}

/// What the traversal asks of the caller next.
#[derive(Debug, PartialEq, Eq)]
pub enum DownloadStep<'a> {
    /// Fetch `url`, store it at `destination`, and report how it went.
    Fetch { url: String, destination: String },
    /// The call is over.
    Finished(DownloadRecursiveStatus<'a>),
}

/// Mathematical value of a [`DownloadStep`].
pub ghost enum Step {
    Fetch { url: Seq<char>, destination: Seq<char> },
    Finished(Status),
}

impl<'a> View for DownloadStep<'a> {
    type V = Step;

    open spec fn view(&self) -> Step {
        match self {
            DownloadStep::Fetch { url, destination } => Step::Fetch {
                url: url@,
                destination: destination@,
            },
            DownloadStep::Finished(status) => Step::Finished(status@),
        }
    }
}

/// One call of the traversal, between two reports of the caller.
#[derive(Debug, PartialEq, Eq)]
pub struct Traversal<'a> {
    /// All that the call has to deal with, in the order of the tree.
    pub items: Vec<DownloadTask<'a>>,
    /// How many of the items are dealt with.
    pub cursor: usize,
    /// The options of the call.
    pub options: DownloadOptions,
}

/// Mathematical value of a [`Traversal`].
pub ghost struct Walk {
    pub items: Seq<Task>,
    pub cursor: int,
    pub options: Options,
}

impl<'a> View for Traversal<'a> {
    type V = Walk;

    open spec fn view(&self) -> Walk {
        Walk { items: tasks(self.items@), cursor: self.cursor as int, options: self.options@ }
    }
}

/// `name` inside the directory `dir`: the two joined by a slash, unless the
/// name brings its own at the front.
pub open spec fn path_in(dir: Seq<char>, name: Seq<char>) -> Seq<char> {
    if name.len() > 0 && name[0] == '/' {
        dir + name
    } else {
        dir + seq!['/'] + name
    }
}

/// The options for what lies in the directory `dir`.
pub open spec fn options_in(options: Options, dir: Seq<char>) -> Options {
    Options { output_dir: dir, max_files: options.max_files, max_bytes: options.max_bytes }
}

/// The task for an entry that the call does not walk into. `dir` is where
/// the files of the entry's directory are stored: a file takes it along,
/// a directory is left for later under the options of the call.
pub open spec fn entry_task(entry: Tree, options: Options, dir: Seq<char>) -> Task {
    match entry {
        Tree::File(_) => Task { node: entry, options: options_in(options, dir) },
        _ => Task { node: entry, options },
    }
}

/// The tasks for the entries of a directory right below the node of the
/// call, one for each entry: files to fetch, directories to leave for later.
pub open spec fn level_tasks(entries: Seq<Tree>, options: Options, dir: Seq<char>) -> Seq<Task> {
    entries.map_values(|entry: Tree| entry_task(entry, options, dir))
}

/// The tasks that one entry of the node of the call gives rise to: a
/// fetched directory is walked, any other entry is one task.
pub open spec fn top_entry_tasks(entry: Tree, options: Options, dir: Seq<char>) -> Seq<Task> {
    match entry {
        Tree::CrawledDir(meta, children) => level_tasks(
            children,
            options,
            path_in(options.output_dir, meta.name),
        ),
        _ => seq![entry_task(entry, options, dir)],
    }
}

/// The tasks for the entries of the node of the call.
pub open spec fn top_tasks(entries: Seq<Tree>, options: Options, dir: Seq<char>) -> Seq<Task>
    decreases entries.len(),
{
    if entries.len() == 0 {
        Seq::empty()
    } else {
        top_tasks(entries.drop_last(), options, dir) + top_entry_tasks(
            entries.last(),
            options,
            dir,
        )
    }
}

/// All that one call has to deal with, in the order of the tree: the files
/// of the node and of the fetched directories right below it, and every
/// other directory met on the way. A node that is no fetched directory is
/// its own single task.
pub open spec fn plan(node: Tree, options: Options) -> Seq<Task> {
    match node {
        Tree::CrawledDir(meta, children) => top_tasks(
            children,
            options,
            path_in(options.output_dir, meta.name),
        ),
        _ => seq![Task { node, options }],
    }
}

impl Walk {
    /// The cursor stands within the items or right behind them.
    pub open spec fn wf(self) -> bool {
        0 <= self.cursor <= self.items.len()
    }

    /// The cursor stands on a file: the file that the caller was asked to
    /// fetch, if it was asked.
    pub open spec fn awaiting(self) -> bool {
        0 <= self.cursor < self.items.len() && self.items[self.cursor].node is File
    }
}

/// The done list with `url` in it: added at the end unless it is there.
pub open spec fn with_url(done: Seq<Seq<char>>, url: Seq<char>) -> Seq<Seq<char>> {
    if done.contains(url) {
        done
    } else {
        done.push(url)
    }
}

/// The totals after one more file of `bytes` bytes.
pub open spec fn counted(counters: LimitCounts, bytes: u64) -> LimitCounts {
    LimitCounts { files: (counters.files + 1) as u64, bytes: (counters.bytes + bytes) as u64 }
}

/// Where the first file at or after `from` stands that is not in `done`;
/// the number of items if there is none.
pub open spec fn next_file(items: Seq<Task>, from: int, done: Seq<Seq<char>>) -> int
    decreases items.len() - from,
{
    if from < 0 || from >= items.len() {
        items.len() as int
    } else if items[from].node is File && !done.contains(items[from].node.url()) {
        from
    } else {
        next_file(items, from + 1, done)
    }
}

/// A limit of the options is used up.
pub open spec fn limit_reached(options: Options, counters: LimitCounts) -> bool {
    ||| options.max_files matches Some(most) && counters.files >= most
    ||| options.max_bytes matches Some(most) && counters.bytes >= most
}

/// The directories among the first `upto` items, in order.
pub open spec fn deferred(items: Seq<Task>, upto: int) -> Seq<Task>
    decreases upto,
{
    if upto <= 0 {
        Seq::empty()
    } else if items[upto - 1].node is File {
        deferred(items, upto - 1)
    } else {
        deferred(items, upto - 1).push(items[upto - 1])
    }
}

/// What is left for later calls when the call stops before item `stop`:
/// the directories passed so far, then every item from `stop` on.
pub open spec fn queue_at(items: Seq<Task>, stop: int) -> Seq<Task> {
    deferred(items, stop) + items.skip(stop)
}

/// The status for a queue: `Done` if nothing is left.
pub open spec fn status_of(queue: Seq<Task>) -> Status {
    if queue.len() == 0 {
        Status::Done
    } else {
        Status::Do(queue)
    }
}

/// What the traversal holds once the caller's report is booked.
pub ghost struct Ledger {
    pub cursor: int,
    pub counters: LimitCounts,
    pub done: Seq<Seq<char>>,
}

/// Books the caller's report. A stored file counts, its URL joins the done
/// list, and the cursor moves past it. A report that no fetch was asked
/// for changes nothing.
pub open spec fn booked(walk: Walk, event: DownloadEvent, counters: LimitCounts, done: Seq<Seq<char>>)
    -> Ledger {
    match event {
        DownloadEvent::Stored(bytes) => if walk.awaiting() {
            Ledger {
                cursor: walk.cursor + 1,
                counters: counted(counters, bytes),
                done: with_url(done, walk.items[walk.cursor].node.url()),
            }
        } else {
            Ledger { cursor: walk.cursor, counters, done }
        },
        _ => Ledger { cursor: walk.cursor, counters, done },
    }
}

/// Where the walk stops next: on the first file from the cursor on that is
/// not in the done list, or behind the last item.
pub open spec fn stop_of(walk: Walk, ledger: Ledger) -> int {
    next_file(walk.items, ledger.cursor, ledger.done)
}

/// What the traversal asks next, the report being booked. If a file is
/// left and no limit is used up, that file is to be fetched into its
/// directory. Else the call is over, and its queue says what is left.
pub open spec fn asked(walk: Walk, ledger: Ledger) -> Step {
    let stop = stop_of(walk, ledger);
    if stop < walk.items.len() && !limit_reached(walk.options, ledger.counters) {
        Step::Fetch {
            url: walk.items[stop].node.url(),
            destination: path_in(walk.items[stop].options.output_dir, walk.items[stop].node.name()),
        }
    } else {
        Step::Finished(status_of(queue_at(walk.items, stop)))
    }
}

/// Every file among the tasks of a call is a file of the call's node.
proof fn lemma_planned_files_are_held(node: Tree, options: Options, k: int)
    requires
        0 <= k < plan(node, options).len(),
        plan(node, options)[k].node is File,
    ensures
        node.holds_file(plan(node, options)[k].node.url()),
{
    match node {
        Tree::CrawledDir(meta, children) => {
            lemma_top_files_are_held(
                children,
                options,
                path_in(options.output_dir, meta.name),
                k,
            );
        },
        _ => {},
    }
}

/// Every file among the tasks for the entries of the call's node is a file
/// of one of the entries.
proof fn lemma_top_files_are_held(entries: Seq<Tree>, options: Options, dir: Seq<char>, k: int)
    requires
        0 <= k < top_tasks(entries, options, dir).len(),
        top_tasks(entries, options, dir)[k].node is File,
    ensures
        exists|i: int|
            0 <= i < entries.len() && (#[trigger] entries[i]).holds_file(
                top_tasks(entries, options, dir)[k].node.url(),
            ),
    decreases entries.len(),
{
    let earlier = top_tasks(entries.drop_last(), options, dir);
    let url = top_tasks(entries, options, dir)[k].node.url();
    if k < earlier.len() {
        lemma_top_files_are_held(entries.drop_last(), options, dir, k);
        let i = choose|i: int|
            0 <= i < entries.drop_last().len() && (#[trigger] entries.drop_last()[i]).holds_file(
                url,
            );
        assert(entries[i].holds_file(url));
    } else {
        let last = entries.last();
        let j = k - earlier.len();
        match last {
            Tree::CrawledDir(meta, children) => {
                assert(children[j].holds_file(url));
                assert(last.holds_file(url));
            },
            _ => {
                assert(last.holds_file(url));
            },
        }
        assert(entries[entries.len() - 1].holds_file(url));
    }
}

/// Where every file from `from` on is in the done list, no file is next.
proof fn lemma_no_file_left(items: Seq<Task>, from: int, done: Seq<Seq<char>>)
    requires
        0 <= from,
        forall|k: int|
            from <= k < items.len() && (#[trigger] items[k]).node is File ==> done.contains(
                items[k].node.url(),
            ),
    ensures
        next_file(items, from, done) == items.len(),
    decreases items.len() - from,
{
    if from < items.len() {
        assert(items[from].node is File ==> done.contains(items[from].node.url()));
        lemma_no_file_left(items, from + 1, done);
    }
}

/// A call on a tree whose files are all in the done list asks for no
/// fetch: it is over at once, with every total and the done list as they
/// were, and only directories left for later. A second call ends as the
/// first did.
pub proof fn lemma_download_is_idempotent(
    node: Tree,
    options: Options,
    counters: LimitCounts,
    done: Seq<Seq<char>>,
)
    requires
        forall|url: Seq<char>| node.holds_file(url) ==> done.contains(url),
    ensures
        ({
            let walk = Walk { items: plan(node, options), cursor: 0, options };
            let ledger = booked(walk, DownloadEvent::Begin, counters, done);
            let again = booked(walk, DownloadEvent::Begin, ledger.counters, ledger.done);
            &&& ledger.counters == counters
            &&& ledger.done == done
            &&& asked(walk, ledger) == Step::Finished(
                status_of(deferred(walk.items, walk.items.len() as int)),
            )
            &&& again == ledger
            &&& asked(walk, again) == asked(walk, ledger)
        }),
{
    let items = plan(node, options);
    assert forall|k: int| 0 <= k < items.len() && (#[trigger] items[k]).node is File implies done.contains(
        items[k].node.url(),
    ) by {
        lemma_planned_files_are_held(node, options, k);
    }
    lemma_no_file_left(items, 0, done);
    assert(items.skip(items.len() as int) =~= Seq::empty());
    assert(queue_at(items, items.len() as int) =~= deferred(items, items.len() as int));
}

/// The traversal asks only for files that the done list does not hold.
pub proof fn lemma_fetch_is_new(walk: Walk, ledger: Ledger)
    requires
        0 <= ledger.cursor,
    ensures
        asked(walk, ledger) matches Step::Fetch { url, .. } ==> !ledger.done.contains(url),
{
    lemma_next_file(walk.items, ledger.cursor, ledger.done);
}

/// `next_file` stops on a file outside the done list, or behind the items.
proof fn lemma_next_file(items: Seq<Task>, from: int, done: Seq<Seq<char>>)
    requires
        0 <= from,
    ensures
        from <= next_file(items, from, done) || next_file(items, from, done) == items.len(),
        next_file(items, from, done) <= items.len(),
        next_file(items, from, done) < items.len() ==> {
            let stop = next_file(items, from, done);
            items[stop].node is File && !done.contains(items[stop].node.url())
        },
    decreases items.len() - from,
{
    if from < items.len() {
        lemma_next_file(items, from + 1, done);
    }
}

/// The traversal only moves forward: booking a report never moves the
/// cursor back, the walk stops at or behind the cursor, and a stored file
/// that was asked for leaves the cursor behind it. So a call asks for each
/// of its files once at most, and ends.
pub proof fn lemma_walk_moves_forward(
    walk: Walk,
    event: DownloadEvent,
    counters: LimitCounts,
    done: Seq<Seq<char>>,
)
    requires
        walk.wf(),
    ensures
        ({
            let ledger = booked(walk, event, counters, done);
            let stop = stop_of(walk, ledger);
            &&& walk.cursor <= ledger.cursor <= stop <= walk.items.len()
            &&& event is Stored && walk.awaiting() ==> walk.cursor < stop
        }),
{
    let ledger = booked(walk, event, counters, done);
    lemma_next_file(walk.items, ledger.cursor, ledger.done);
}

/// A done list without repetitions stays so when a URL joins it.
pub proof fn lemma_done_list_stays_a_set(done: Seq<Seq<char>>, url: Seq<char>)
    requires
        done.no_duplicates(),
    ensures
        with_url(done, url).no_duplicates(),
        with_url(done, url).contains(url),
        forall|other: Seq<char>| done.contains(other) ==> with_url(done, url).contains(other),
{
    if !done.contains(url) {
        let longer = done.push(url);
        assert(longer[done.len() as int] == url);
        assert forall|other: Seq<char>| done.contains(other) implies longer.contains(other) by {
            let i = choose|i: int| 0 <= i < done.len() && done[i] == other;
            assert(longer[i] == other);
        }
    }
}

/// Joins a directory and a name.
fn join_path(dir: &str, name: &str) -> (path: String)
    ensures
        path@ == path_in(dir@, name@),
{
    let mut path = dir.to_owned();
    if name.is_empty() || name.get_char(0) != '/' {
        proof {
            reveal_strlit("/");
            assert("/"@ =~= seq!['/']);
        }
        path.append("/");
    }
    path.append(name);
    path
}

/// The task for an entry that the call does not walk into.
fn entry_task_of<'a>(entry: &'a Node, options: &DownloadOptions, dir: &str) -> (task:
    DownloadTask<'a>)
    ensures
        task@ == entry_task(entry@, options@, dir@),
{
    match entry {
        Node::File(_) => DownloadTask {
            node: entry,
            options: DownloadOptions {
                output_dir: dir.to_owned(),
                max_files: options.max_files,
                max_bytes: options.max_bytes,
            },
        },
        _ => DownloadTask { node: entry, options: options.clone() },
    }
}

/// Appends the tasks for the entries of a directory right below the node
/// of the call.
fn push_level<'a>(
    items: &mut Vec<DownloadTask<'a>>,
    entries: &'a Vec<Node>,
    options: &DownloadOptions,
    dir: &str,
)
    ensures
        tasks(final(items)@) == tasks(old(items)@) + level_tasks(
            trees(entries@),
            options@,
            dir@,
        ),
{
    let ghost before = tasks(items@);
    let ghost below = trees(entries@);
    proof {
        lemma_trees(entries@);
        assert(tasks(items@) =~= before + level_tasks(below.take(0), options@, dir@));
    }
    let mut index: usize = 0;
    while index < entries.len()
        invariant
            index <= entries.len(),
            below == trees(entries@),
            below.len() == entries.len(),
            forall|i: int| 0 <= i < entries.len() ==> (#[trigger] below[i]) == entries[i]@,
            tasks(items@) == before + level_tasks(below.take(index as int), options@, dir@),
        decreases entries.len() - index,
    {
        let task = entry_task_of(&entries[index], options, dir);
        let ghost earlier = items@;
        items.push(task);
        proof {
            assert(tasks(items@) =~= tasks(earlier).push(task@));
            assert(level_tasks(below.take(index + 1), options@, dir@) =~= level_tasks(
                below.take(index as int),
                options@,
                dir@,
            ).push(entry_task(below[index as int], options@, dir@)));
            assert(tasks(items@) =~= before + level_tasks(
                below.take(index + 1),
                options@,
                dir@,
            ));
        }
        index = index + 1;
    }
    proof {
        assert(below.take(index as int) =~= below);
    }
}

/// Lists all that one call on `node` has to deal with.
fn plan_of<'a>(node: &'a Node, options: &DownloadOptions) -> (items: Vec<DownloadTask<'a>>)
    ensures
        tasks(items@) == plan(node@, options@),
{
    let mut items: Vec<DownloadTask<'a>> = Vec::new();
    match node {
        Node::CrawledDir(meta, children) => {
            let dir = join_path(options.output_dir.as_str(), meta.name.as_str());
            let ghost below = trees(children@);
            proof {
                lemma_trees(children@);
                assert(tasks(items@) =~= top_tasks(below.take(0), options@, dir@));
            }
            let mut index: usize = 0;
            while index < children.len()
                invariant
                    index <= children.len(),
                    below == trees(children@),
                    below.len() == children.len(),
                    forall|i: int| 0 <= i < children.len() ==> (#[trigger] below[i]) == children[i]@,
                    tasks(items@) == top_tasks(below.take(index as int), options@, dir@),
                decreases children.len() - index,
            {
                let ghost earlier = tasks(items@);
                let ghost upto = below.take(index + 1);
                proof {
                    assert(upto.drop_last() =~= below.take(index as int));
                    assert(upto.last() == below[index as int]);
                    assert(top_tasks(upto, options@, dir@) == earlier + top_entry_tasks(
                        below[index as int],
                        options@,
                        dir@,
                    ));
                }
                match &children[index] {
                    Node::CrawledDir(inner, grandchildren) => {
                        let inner_dir = join_path(
                            options.output_dir.as_str(),
                            inner.name.as_str(),
                        );
                        push_level(&mut items, grandchildren, options, inner_dir.as_str());
                    },
                    entry => {
                        let task = entry_task_of(entry, options, dir.as_str());
                        let ghost listed = items@;
                        items.push(task);
                        proof {
                            assert(tasks(items@) =~= tasks(listed).push(task@));
                            assert(tasks(items@) =~= earlier + seq![task@]);
                        }
                    },
                }
                index = index + 1;
            }
            proof {
                assert(below.take(index as int) =~= below);
            }
        },
        other => {
            let task = DownloadTask { node: other, options: options.clone() };
            items.push(task);
            proof {
                assert(tasks(items@) =~= seq![task@]);
            }
        },
    }
    items
}

/// Whether `url` is in the done list.
fn is_done(done: &Vec<String>, url: &String) -> (found: bool)
    ensures
        found == texts(done@).contains(url@),
{
    let mut index: usize = 0;
    while index < done.len()
        invariant
            index <= done.len(),
            forall|i: int| 0 <= i < index ==> (#[trigger] texts(done@)[i]) != url@,
        decreases done.len() - index,
    {
        if done[index] == *url {
            assert(texts(done@)[index as int] == url@);
            return true;
        }
        index = index + 1;
    }
    false
}

/// Whether a limit of the options is used up.
fn limits_used_up(options: &DownloadOptions, counters: &LimitCounts) -> (reached: bool)
    ensures
        reached == limit_reached(options@, *counters),
{
    let files_used_up = match options.max_files {
        Some(most) => counters.files >= most,
        None => false,
    };
    let bytes_used_up = match options.max_bytes {
        Some(most) => counters.bytes >= most,
        None => false,
    };
    files_used_up || bytes_used_up
}

/// Copies out what is left for later calls when the call stops before
/// item `stop`.
fn queue_of<'a>(items: &Vec<DownloadTask<'a>>, stop: usize) -> (queue: Vec<DownloadTask<'a>>)
    requires
        stop <= items.len(),
    ensures
        tasks(queue@) == queue_at(tasks(items@), stop as int),
{
    let ghost all = tasks(items@);
    let mut queue: Vec<DownloadTask<'a>> = Vec::new();
    let mut index: usize = 0;
    while index < stop
        invariant
            index <= stop <= items.len(),
            all == tasks(items@),
            tasks(queue@) == deferred(all, index as int),
        decreases stop - index,
    {
        match items[index].node {
            Node::File(_) => {},
            _ => {
                let task = items[index].clone();
                let ghost listed = queue@;
                queue.push(task);
                proof {
                    assert(tasks(queue@) =~= tasks(listed).push(task@));
                }
            },
        }
        index = index + 1;
    }
    while index < items.len()
        invariant
            stop <= index <= items.len(),
            all == tasks(items@),
            tasks(queue@) == deferred(all, stop as int) + all.subrange(stop as int, index as int),
        decreases items.len() - index,
    {
        let task = items[index].clone();
        let ghost listed = queue@;
        queue.push(task);
        proof {
            assert(tasks(queue@) =~= tasks(listed).push(task@));
            assert(all.subrange(stop as int, index + 1) =~= all.subrange(
                stop as int,
                index as int,
            ).push(all[index as int]));
        }
        index = index + 1;
    }
    proof {
        assert(all.subrange(stop as int, index as int) =~= all.skip(stop as int));
    }
    queue
}

impl<'a> Traversal<'a> {
    /// The cursor stands within the items or right behind them.
    pub open spec fn wf(&self) -> bool {
        self@.wf()
    }

    /// Begins a call on `node`: lists what the call has to deal with.
    pub fn new(node: &'a Node, options: &DownloadOptions) -> (run: Self)
        ensures
            run.wf(),
            run@ == (Walk { items: plan(node@, options@), cursor: 0, options: options@ }),
    {
        Traversal { items: plan_of(node, options), cursor: 0, options: options.clone() }
    }
}

/// Takes the caller's report and says what to do next.
///
/// A failure ends the call with the error that was reported, and nothing
/// is booked: the file is in no list and in no total. Any other report is
/// booked as [`booked`] says, and the traversal walks on: past the
/// directories, which are left for later calls, and past the files that
/// the done list holds. On the first other file it stops. If a limit is
/// used up by then, the call is over and that file and all behind it are
/// left for later; else the caller is asked to fetch it. With no file left
/// the call is over.
pub fn download_recursive<'a>(
    run: &mut Traversal<'a>,
    event: DownloadEvent,
    counters: &mut LimitCounts,
    done: &mut Vec<String>,
) -> (step: Result<DownloadStep<'a>, CrawlError>)
    requires
        old(run).wf(),
        event matches DownloadEvent::Stored(bytes) ==> old(run)@.awaiting() ==> old(
            counters,
        ).files < u64::MAX && old(counters).bytes + bytes <= u64::MAX,
    ensures
        final(run).wf(),
        final(run).items == old(run).items,
        final(run).options == old(run).options,
        match event {
            DownloadEvent::Failed(error) => {
                &&& step == Err::<DownloadStep<'a>, CrawlError>(error)
                &&& final(run).cursor == old(run).cursor
                &&& *final(counters) == *old(counters)
                &&& *final(done) == *old(done)
            },
            _ => {
                let ledger = booked(old(run)@, event, *old(counters), texts(old(done)@));
                &&& step matches Ok(next)
                &&& next@ == asked(old(run)@, ledger)
                &&& final(run).cursor == stop_of(old(run)@, ledger)
                &&& *final(counters) == ledger.counters
                &&& texts(final(done)@) == ledger.done
            },
        },
{
    let ghost walk = run@;
    match event {
        DownloadEvent::Failed(error) => { return Err(error); },
        DownloadEvent::Stored(bytes) => {
            if run.cursor < run.items.len() {
                match run.items[run.cursor].node {
                    Node::File(meta) => {
                        if !is_done(done, &meta.url) {
                            let ghost listed = done@;
                            done.push(meta.url.clone());
                            proof {
                                assert(texts(done@) =~= texts(listed).push(meta.url@));
                            }
                        }
                        counters.files = counters.files + 1;
                        counters.bytes = counters.bytes + bytes;
                        run.cursor = run.cursor + 1;
                    },
                    _ => {},
                }
            }
        },
        DownloadEvent::Begin => {},
    }
    let ghost ledger = booked(walk, event, *old(counters), texts(old(done)@));
    assert(run.cursor == ledger.cursor);
    assert(*counters == ledger.counters);
    assert(texts(done@) == ledger.done);
    let mut index: usize = run.cursor;
    while index < run.items.len()
        invariant
            !(event is Failed),
            walk == old(run)@,
            ledger == booked(walk, event, *old(counters), texts(old(done)@)),
            run.items == old(run).items,
            run.options == old(run).options,
            *counters == ledger.counters,
            0 <= ledger.cursor <= index <= run.items.len(),
            tasks(run.items@) == walk.items,
            texts(done@) == ledger.done,
            next_file(walk.items, ledger.cursor, ledger.done) == next_file(
                walk.items,
                index as int,
                ledger.done,
            ),
        decreases run.items.len() - index,
    {
        match run.items[index].node {
            Node::File(meta) => {
                if !is_done(done, &meta.url) {
                    run.cursor = index;
                    if limits_used_up(&run.options, counters) {
                        let queue = queue_of(&run.items, index);
                        return Ok(DownloadStep::Finished(status_for(queue)));
                    }
                    let destination = join_path(
                        run.items[index].options.output_dir.as_str(),
                        meta.name.as_str(),
                    );
                    return Ok(DownloadStep::Fetch { url: meta.url.clone(), destination });
                }
            },
            _ => {},
        }
        index = index + 1;
    }
    run.cursor = index;
    let queue = queue_of(&run.items, index);
    Ok(DownloadStep::Finished(status_for(queue)))
}

/// The status for a queue: `Done` if nothing is left.
fn status_for<'a>(queue: Vec<DownloadTask<'a>>) -> (status: DownloadRecursiveStatus<'a>)
    ensures
        status@ == status_of(tasks(queue@)),
{
    if queue.len() == 0 {
        DownloadRecursiveStatus::Done
    } else {
        DownloadRecursiveStatus::Do(queue)
    }
}

} // verus!
