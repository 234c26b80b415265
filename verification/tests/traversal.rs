use dirmirror::download::fetch::{
    download_recursive, DownloadEvent, DownloadOptions, DownloadRecursiveStatus, DownloadStep,
    DownloadTask, LimitCounts, Traversal,
};
use dirmirror::download::types::{CrawlError, DirLinkMetaData, FileLinkMetaData, Node};

fn file(name: &str) -> Node {
    Node::File(FileLinkMetaData {
        url: format!("http://example.org/{}", name),
        name: name.to_string(),
        last_modified: "2021-01-01 00:00".to_string(),
        size: "10".to_string(),
        description: "d".to_string(),
    })
}

fn meta(name: &str) -> DirLinkMetaData {
    DirLinkMetaData {
        url: format!("http://example.org{}/", name),
        name: name.to_string(),
        last_modified: "2021-01-01 00:00".to_string(),
        description: "d".to_string(),
    }
}

fn pending(name: &str) -> Node {
    Node::PendingDir(meta(name))
}

fn fetched(name: &str, children: Vec<Node>) -> Node {
    Node::CrawledDir(meta(name), children)
}

fn options(max_files: Option<u64>, max_bytes: Option<u64>) -> DownloadOptions {
    DownloadOptions { output_dir: "out".to_string(), max_files, max_bytes }
}

fn url(name: &str) -> String {
    format!("http://example.org/{}", name)
}

/// Runs one call to its end. `store` stands for the network and the disk.
fn drive<'a>(
    node: &'a Node,
    options: &DownloadOptions,
    counters: &mut LimitCounts,
    done: &mut Vec<String>,
    asked: &mut Vec<(String, String)>,
    store: &mut dyn FnMut(&str) -> Result<u64, CrawlError>,
) -> Result<DownloadRecursiveStatus<'a>, CrawlError> {
    let mut run = Traversal::new(node, options);
    let mut event = DownloadEvent::Begin;
    loop {
        match download_recursive(&mut run, event, counters, done)? {
            DownloadStep::Fetch { url, destination } => {
                event = match store(&url) {
                    Ok(bytes) => DownloadEvent::Stored(bytes),
                    Err(error) => DownloadEvent::Failed(error),
                };
                asked.push((url, destination));
            }
            DownloadStep::Finished(status) => return Ok(status),
        }
    }
}

fn queue_of<'a>(status: DownloadRecursiveStatus<'a>) -> Vec<DownloadTask<'a>> {
    match status {
        DownloadRecursiveStatus::Do(queue) => queue,
        DownloadRecursiveStatus::Done => Vec::new(),
    }
}

#[test]
fn a_failed_write_ends_the_call_and_keeps_what_was_stored() {
    let tree = fetched("/pub", vec![file("one"), file("two"), file("three")]);
    let mut counters = LimitCounts::new();
    let mut done = Vec::new();
    let mut asked = Vec::new();
    let result = drive(&tree, &options(None, None), &mut counters, &mut done, &mut asked, &mut |u| {
        if u.ends_with("two") {
            Err(CrawlError::FilesystemError)
        } else {
            Ok(7)
        }
    });
    assert_eq!(result, Err(CrawlError::FilesystemError));
    assert_eq!(done, vec![url("one")]);
    assert_eq!(
        asked,
        vec![
            (url("one"), "out/pub/one".to_string()),
            (url("two"), "out/pub/two".to_string()),
        ]
    );
    assert_eq!(counters, LimitCounts { files: 1, bytes: 7 });
}

#[test]
fn a_failed_fetch_is_handed_on_as_it_was_reported() {
    let tree = fetched("/pub", vec![file("one")]);
    let mut counters = LimitCounts::new();
    let mut done = Vec::new();
    let mut asked = Vec::new();
    let result = drive(&tree, &options(None, None), &mut counters, &mut done, &mut asked, &mut |_| {
        Err(CrawlError::FetchError)
    });
    assert_eq!(result, Err(CrawlError::FetchError));
    assert!(done.is_empty());
    assert_eq!(counters, LimitCounts::new());
}

#[test]
fn a_tree_that_is_stored_asks_for_nothing() {
    let tree = fetched(
        "/pub",
        vec![file("one"), fetched("/pub/sub", vec![file("two")]), file("three")],
    );
    let before = vec![url("three"), url("zero"), url("one"), url("two")];
    let mut done = before.clone();
    let mut counters = LimitCounts { files: 3, bytes: 300 };
    let mut asked = Vec::new();
    for _ in 0..2 {
        let status = drive(&tree, &options(None, None), &mut counters, &mut done, &mut asked, &mut |_| {
            panic!("nothing is to be fetched")
        });
        assert_eq!(status, Ok(DownloadRecursiveStatus::Done));
        assert!(asked.is_empty());
        assert_eq!(done, before);
        assert_eq!(counters, LimitCounts { files: 3, bytes: 300 });
    }
}

#[test]
fn a_stored_tree_does_not_even_meet_its_limits() {
    let tree = fetched("/pub", vec![file("one"), pending("/pub/later")]);
    let mut done = vec![url("one")];
    let mut counters = LimitCounts { files: 9, bytes: 9 };
    let mut asked = Vec::new();
    let opts = options(Some(0), Some(0));
    let status = drive(&tree, &opts, &mut counters, &mut done, &mut asked, &mut |_| Ok(1)).unwrap();
    assert!(asked.is_empty());
    let queue = queue_of(status);
    assert_eq!(queue.len(), 1);
    assert_eq!(queue[0].node, &pending("/pub/later"));
    assert_eq!(queue[0].options, opts);
}

#[test]
fn files_are_fetched_in_the_order_of_the_tree_two_levels_deep() {
    let deep = fetched("/pub/sub/deep", vec![file("too-deep")]);
    let tree = fetched(
        "/pub",
        vec![
            file("a"),
            pending("/pub/gap"),
            fetched("/pub/sub", vec![file("s1"), deep.clone(), pending("/pub/sub/gap"), file("s2")]),
            file("b"),
            fetched("/pub/empty", vec![]),
        ],
    );
    let mut counters = LimitCounts::new();
    let mut done = Vec::new();
    let mut asked = Vec::new();
    let opts = options(None, None);
    let status = drive(&tree, &opts, &mut counters, &mut done, &mut asked, &mut |_| Ok(10)).unwrap();
    assert_eq!(
        asked,
        vec![
            (url("a"), "out/pub/a".to_string()),
            (url("s1"), "out/pub/sub/s1".to_string()),
            (url("s2"), "out/pub/sub/s2".to_string()),
            (url("b"), "out/pub/b".to_string()),
        ]
    );
    assert_eq!(done, vec![url("a"), url("s1"), url("s2"), url("b")]);
    assert_eq!(counters, LimitCounts { files: 4, bytes: 40 });
    let queue = queue_of(status);
    let nodes: Vec<&Node> = queue.iter().map(|task| task.node).collect();
    assert_eq!(nodes, vec![&pending("/pub/gap"), &deep, &pending("/pub/sub/gap")]);
    for task in &queue {
        assert_eq!(task.options, opts);
    }

    let later = drive(queue[1].node, &queue[1].options, &mut counters, &mut done, &mut asked, &mut |_| Ok(1));
    assert_eq!(later, Ok(DownloadRecursiveStatus::Done));
    assert_eq!(asked.last(), Some(&(url("too-deep"), "out/pub/sub/deep/too-deep".to_string())));
    assert_eq!(counters, LimitCounts { files: 5, bytes: 41 });
}

#[test]
fn a_directory_that_was_not_fetched_is_left_for_later() {
    let gap = pending("/pub/gap");
    let mut counters = LimitCounts::new();
    let mut done = Vec::new();
    let mut asked = Vec::new();
    let opts = options(None, None);
    let status = drive(&gap, &opts, &mut counters, &mut done, &mut asked, &mut |_| Ok(1)).unwrap();
    let queue = queue_of(status);
    assert_eq!(queue.len(), 1);
    assert_eq!(queue[0].node, &gap);
    assert!(asked.is_empty());
}

#[test]
fn an_empty_directory_is_done() {
    let tree = fetched("/pub", vec![]);
    let mut counters = LimitCounts::new();
    let mut done = Vec::new();
    let mut asked = Vec::new();
    let status = drive(&tree, &options(None, None), &mut counters, &mut done, &mut asked, &mut |_| Ok(1));
    assert_eq!(status, Ok(DownloadRecursiveStatus::Done));
}

#[test]
fn a_file_alone_is_stored_in_the_output_directory() {
    let single = file("lonely");
    let mut counters = LimitCounts::new();
    let mut done = Vec::new();
    let mut asked = Vec::new();
    let status = drive(&single, &options(None, None), &mut counters, &mut done, &mut asked, &mut |_| Ok(3));
    assert_eq!(status, Ok(DownloadRecursiveStatus::Done));
    assert_eq!(asked, vec![(url("lonely"), "out/lonely".to_string())]);
    assert_eq!(done, vec![url("lonely")]);
}

#[test]
fn a_name_without_a_slash_is_joined_with_one() {
    let tree = fetched("mirror", vec![file("f")]);
    let mut counters = LimitCounts::new();
    let mut done = Vec::new();
    let mut asked = Vec::new();
    drive(&tree, &options(None, None), &mut counters, &mut done, &mut asked, &mut |_| Ok(3)).unwrap();
    assert_eq!(asked, vec![(url("f"), "out/mirror/f".to_string())]);
}

#[test]
fn the_file_limit_stops_the_call_and_leaves_the_rest() {
    let tree = fetched(
        "/pub",
        vec![
            file("a"),
            pending("/pub/gap"),
            fetched("/pub/sub", vec![file("s1"), file("s2"), pending("/pub/sub/gap")]),
            file("b"),
        ],
    );
    let mut counters = LimitCounts::new();
    let mut done = Vec::new();
    let mut asked = Vec::new();
    let opts = options(Some(2), None);
    let status = drive(&tree, &opts, &mut counters, &mut done, &mut asked, &mut |_| Ok(10)).unwrap();
    assert_eq!(done, vec![url("a"), url("s1")]);
    assert_eq!(counters, LimitCounts { files: 2, bytes: 20 });
    let queue = queue_of(status);
    let nodes: Vec<&Node> = queue.iter().map(|task| task.node).collect();
    let s2 = file("s2");
    let b = file("b");
    assert_eq!(
        nodes,
        vec![&pending("/pub/gap"), &s2, &pending("/pub/sub/gap"), &b]
    );
    let dirs: Vec<&str> = queue.iter().map(|task| task.options.output_dir.as_str()).collect();
    assert_eq!(dirs, vec!["out", "out/pub/sub", "out", "out/pub"]);
    for task in &queue {
        assert_eq!(task.options.max_files, Some(2));
        assert_eq!(task.options.max_bytes, None);
    }

    let mut fresh = LimitCounts::new();
    asked.clear();
    for task in &queue {
        let status = drive(task.node, &task.options, &mut fresh, &mut done, &mut asked, &mut |_| Ok(10)).unwrap();
        match task.node {
            Node::File(_) => assert_eq!(status, DownloadRecursiveStatus::Done),
            _ => assert_eq!(queue_of(status).len(), 1),
        }
    }
    assert_eq!(
        asked,
        vec![
            (url("s2"), "out/pub/sub/s2".to_string()),
            (url("b"), "out/pub/b".to_string()),
        ]
    );
    assert_eq!(done, vec![url("a"), url("s1"), url("s2"), url("b")]);
}

#[test]
fn the_byte_limit_is_checked_before_each_fetch() {
    let tree = fetched("/pub", vec![file("a"), file("b"), file("c")]);
    let mut counters = LimitCounts::new();
    let mut done = Vec::new();
    let mut asked = Vec::new();
    let opts = options(None, Some(25));
    let status = drive(&tree, &opts, &mut counters, &mut done, &mut asked, &mut |_| Ok(20)).unwrap();
    assert_eq!(done, vec![url("a"), url("b")]);
    assert_eq!(counters, LimitCounts { files: 2, bytes: 40 });
    assert_eq!(queue_of(status).len(), 1);
}

#[test]
fn a_limit_of_zero_fetches_nothing() {
    let tree = fetched("/pub", vec![file("a"), file("b")]);
    let mut counters = LimitCounts::new();
    let mut done = Vec::new();
    let mut asked = Vec::new();
    let status = drive(&tree, &options(Some(0), None), &mut counters, &mut done, &mut asked, &mut |_| Ok(1)).unwrap();
    assert!(asked.is_empty());
    assert!(done.is_empty());
    assert_eq!(queue_of(status).len(), 2);
}

#[test]
fn the_totals_are_shared_between_calls() {
    let first = fetched("/one", vec![file("a"), file("b")]);
    let second = fetched("/two", vec![file("c"), file("d")]);
    let mut counters = LimitCounts::new();
    let mut done = Vec::new();
    let mut asked = Vec::new();
    let opts = options(Some(3), None);
    drive(&first, &opts, &mut counters, &mut done, &mut asked, &mut |_| Ok(1)).unwrap();
    let status = drive(&second, &opts, &mut counters, &mut done, &mut asked, &mut |_| Ok(1)).unwrap();
    assert_eq!(done, vec![url("a"), url("b"), url("c")]);
    assert_eq!(counters, LimitCounts { files: 3, bytes: 3 });
    assert_eq!(queue_of(status).len(), 1);
}

#[test]
fn a_url_listed_twice_is_fetched_once() {
    let tree = fetched("/pub", vec![file("a"), file("a"), file("b")]);
    let mut counters = LimitCounts::new();
    let mut done = Vec::new();
    let mut asked = Vec::new();
    drive(&tree, &options(None, None), &mut counters, &mut done, &mut asked, &mut |_| Ok(1)).unwrap();
    assert_eq!(done, vec![url("a"), url("b")]);
    assert_eq!(counters.files, 2);
}

#[test]
fn asking_again_gives_the_same_file_and_an_unasked_report_changes_nothing() {
    let tree = fetched("/pub", vec![pending("/pub/gap"), file("a")]);
    let opts = options(None, None);
    let mut run = Traversal::new(&tree, &opts);
    assert_eq!(run.cursor, 0);
    assert_eq!(run.items.len(), 2);
    let mut counters = LimitCounts::new();
    let mut done = Vec::new();

    let unasked = download_recursive(&mut run, DownloadEvent::Stored(50), &mut counters, &mut done);
    let expected = DownloadStep::Fetch { url: url("a"), destination: "out/pub/a".to_string() };
    assert_eq!(unasked, Ok(expected));
    assert_eq!(counters, LimitCounts::new());
    assert!(done.is_empty());
    assert_eq!(run.cursor, 1);

    let again = download_recursive(&mut run, DownloadEvent::Begin, &mut counters, &mut done);
    assert_eq!(again, unasked);

    let failed = download_recursive(
        &mut run,
        DownloadEvent::Failed(CrawlError::FetchError),
        &mut counters,
        &mut done,
    );
    assert_eq!(failed, Err(CrawlError::FetchError));
    assert_eq!(run.cursor, 1);
    assert!(done.is_empty());

    let retried = download_recursive(&mut run, DownloadEvent::Begin, &mut counters, &mut done);
    assert_eq!(retried, unasked);

    let stored = download_recursive(&mut run, DownloadEvent::Stored(50), &mut counters, &mut done);
    match stored {
        Ok(DownloadStep::Finished(DownloadRecursiveStatus::Do(queue))) => {
            assert_eq!(queue.len(), 1);
            assert_eq!(queue[0].node, &pending("/pub/gap"));
        }
        other => panic!("not finished with one directory left: {:?}", other),
    }
    assert_eq!(counters, LimitCounts { files: 1, bytes: 50 });
    assert_eq!(done, vec![url("a")]);
    assert_eq!(run.cursor, 2);
}
