use file_watch_exporter::exporter::{observe, watch_names_valid, Exporter, TimedOutcome};
use file_watch_exporter::filter::{passes, FileFilter, FilterError};
use file_watch_exporter::walker::{
    DirEntryInfo, DirWalker, EntryKind, WalkAction, WalkError, WalkResult,
};

type Listing = Result<Vec<DirEntryInfo>, WalkError>;

/// An in-memory tree: each listable path with what listing it gives.
struct FakeFs {
    dirs: Vec<(String, Listing)>,
    listed: Vec<String>,
}

impl FakeFs {
    fn new() -> Self {
        FakeFs { dirs: Vec::new(), listed: Vec::new() }
    }

    fn dir(mut self, path: &str, entries: Vec<DirEntryInfo>) -> Self {
        self.dirs.push((path.to_string(), Ok(entries)));
        self
    }

    fn broken(mut self, path: &str, e: WalkError) -> Self {
        self.dirs.push((path.to_string(), Err(e)));
        self
    }

    fn list(&mut self, path: &str) -> Listing {
        self.listed.push(path.to_string());
        for (p, l) in &self.dirs {
            if p == path {
                return l.clone();
            }
        }
        Err(WalkError::NotADirectory)
    }
}

fn file(path: &str, t: u64) -> DirEntryInfo {
    DirEntryInfo { path: path.to_string(), kind: EntryKind::File { modified: Some(t) } }
}

fn subdir(path: &str) -> DirEntryInfo {
    DirEntryInfo { path: path.to_string(), kind: EntryKind::Directory }
}

fn watch(path: &str, recursive: bool, pattern: Option<&str>) -> DirWalker {
    let filter = pattern.map(|p| FileFilter::new(p).unwrap());
    DirWalker::new("w".to_string(), path.to_string(), recursive, filter)
}

fn drive(walker: &DirWalker, fs: &mut FakeFs) -> Result<WalkResult, WalkError> {
    let mut walk = walker.walk();
    loop {
        match walk.next_action() {
            WalkAction::List(p) => {
                let l = fs.list(&p);
                walk.on_listing(l);
            }
            WalkAction::Done(r) => return r,
        }
    }
}

fn sample_tree() -> FakeFs {
    FakeFs::new()
        .dir("/w", vec![file("/w/a.txt", 100), file("/w/b.txt", 300), subdir("/w/c")])
        .dir("/w/c", vec![file("/w/c/d.txt", 900)])
}

fn ok(files_visited: u64, max_time: u64) -> Result<WalkResult, WalkError> {
    Ok(WalkResult { max_time, files_visited })
}

#[test]
fn shallow_walk_of_sample_tree() {
    let mut fs = sample_tree();
    assert_eq!(drive(&watch("/w", false, None), &mut fs), ok(2, 300));
    assert_eq!(fs.listed, vec!["/w".to_string()]);
}

#[test]
fn recursive_walk_of_sample_tree() {
    let mut fs = sample_tree();
    assert_eq!(drive(&watch("/w", true, None), &mut fs), ok(3, 900));
}

#[test]
fn log_filter_counts_only_log_files() {
    let mut fs = FakeFs::new().dir(
        "/w",
        vec![file("/w/x.txt", 700), file("/w/y.txt", 800), file("/w/app.log", 500)],
    );
    assert_eq!(drive(&watch("/w", false, Some(r"\.log$")), &mut fs), ok(1, 500));
}

#[test]
fn root_that_is_a_file_fails_and_reports_no_values() {
    let mut fs = FakeFs::new();
    let r = drive(&watch("/w/a.txt", false, None), &mut fs);
    assert_eq!(r, Err(WalkError::NotADirectory));
    let o = observe(&"w".to_string(), TimedOutcome { outcome: r, duration_secs: 0 });
    assert!(!o.success);
    assert_eq!(o.files_visited, None);
    assert_eq!(o.max_time, None);
}

#[test]
fn empty_directory_gives_zero_and_epoch() {
    let mut fs = FakeFs::new().dir("/e", vec![]);
    assert_eq!(drive(&watch("/e", true, None), &mut fs), ok(0, 0));
}

#[test]
fn nothing_matching_gives_zero_and_epoch() {
    let mut fs = FakeFs::new()
        .dir("/e", vec![file("/e/a.txt", 10), subdir("/e/s")])
        .dir("/e/s", vec![file("/e/s/b.txt", 20)]);
    assert_eq!(drive(&watch("/e", true, Some(r"\.log$")), &mut fs), ok(0, 0));
}

#[test]
fn listing_order_does_not_matter() {
    let mut a = FakeFs::new().dir("/w", vec![file("/w/1", 5), file("/w/2", 50), file("/w/3", 20)]);
    let mut b = FakeFs::new().dir("/w", vec![file("/w/3", 20), file("/w/1", 5), file("/w/2", 50)]);
    let w = watch("/w", false, None);
    assert_eq!(drive(&w, &mut a), ok(3, 50));
    assert_eq!(drive(&w, &mut b), ok(3, 50));
}

#[test]
fn unmatched_files_change_nothing() {
    let w = watch("/w", false, Some(r"\.log$"));
    let mut plain = FakeFs::new().dir("/w", vec![file("/w/a.log", 40)]);
    let mut noisy = FakeFs::new().dir(
        "/w",
        vec![file("/w/z.txt", 9000), file("/w/a.log", 40), file("/w/q.dat", 8000)],
    );
    assert_eq!(drive(&w, &mut plain), ok(1, 40));
    assert_eq!(drive(&w, &mut noisy), ok(1, 40));
}

#[test]
fn shallow_walk_ignores_matching_files_below() {
    let mut fs = FakeFs::new()
        .dir("/w", vec![subdir("/w/s"), file("/w/top.log", 3)])
        .dir("/w/s", vec![file("/w/s/deep.log", 99)]);
    assert_eq!(drive(&watch("/w", false, Some(r"\.log$")), &mut fs), ok(1, 3));
    assert_eq!(fs.listed, vec!["/w".to_string()]);
}

#[test]
fn deep_nesting_counted_once() {
    let mut fs = FakeFs::new()
        .dir("/r", vec![subdir("/r/a"), file("/r/f0", 1)])
        .dir("/r/a", vec![subdir("/r/a/b"), file("/r/a/f1", 2)])
        .dir("/r/a/b", vec![subdir("/r/a/b/c")])
        .dir("/r/a/b/c", vec![file("/r/a/b/c/f3", 70), file("/r/a/b/c/f4", 60)]);
    assert_eq!(drive(&watch("/r", true, None), &mut fs), ok(4, 70));
    let mut listed = fs.listed.clone();
    listed.sort();
    assert_eq!(listed, vec!["/r", "/r/a", "/r/a/b", "/r/a/b/c"]);
}

#[test]
fn missing_root_is_not_a_directory() {
    let mut fs = FakeFs::new();
    assert_eq!(drive(&watch("/nowhere", true, None), &mut fs), Err(WalkError::NotADirectory));
    assert_eq!(fs.listed.len(), 1);
}

#[test]
fn unreadable_root_fails_walk() {
    let mut fs = FakeFs::new().broken("/w", WalkError::DirectoryUnreadable);
    assert_eq!(drive(&watch("/w", true, None), &mut fs), Err(WalkError::DirectoryUnreadable));
}

#[test]
fn walking_twice_gives_same_result() {
    let w = watch("/w", true, None);
    let mut fs = sample_tree();
    let first = drive(&w, &mut fs);
    let second = drive(&w, &mut fs);
    assert_eq!(first, second);
    assert_eq!(first, ok(3, 900));
}

#[test]
fn unreadable_subdirectory_is_left_out() {
    let mut fs = FakeFs::new()
        .dir("/w", vec![file("/w/a", 10), subdir("/w/locked"), subdir("/w/open")])
        .broken("/w/locked", WalkError::DirectoryUnreadable)
        .dir("/w/open", vec![file("/w/open/b", 20)]);
    assert_eq!(drive(&watch("/w", true, None), &mut fs), ok(2, 20));
}

#[test]
fn file_without_metadata_counts_without_time() {
    let mut fs = FakeFs::new().dir(
        "/w",
        vec![
            file("/w/a", 10),
            DirEntryInfo { path: "/w/b".to_string(), kind: EntryKind::File { modified: None } },
        ],
    );
    assert_eq!(drive(&watch("/w", false, None), &mut fs), ok(2, 10));
}

#[test]
fn only_file_without_metadata_counts_at_epoch() {
    let mut fs = FakeFs::new().dir(
        "/w",
        vec![DirEntryInfo { path: "/w/b".to_string(), kind: EntryKind::File { modified: None } }],
    );
    assert_eq!(drive(&watch("/w", false, None), &mut fs), ok(1, 0));
}

#[test]
fn other_and_unreadable_entries_are_skipped() {
    let mut fs = FakeFs::new().dir(
        "/w",
        vec![
            DirEntryInfo { path: "/w/sock".to_string(), kind: EntryKind::Other },
            DirEntryInfo { path: "/w/?".to_string(), kind: EntryKind::Unreadable },
            file("/w/a", 5),
        ],
    );
    assert_eq!(drive(&watch("/w", true, None), &mut fs), ok(1, 5));
}

#[test]
fn equal_times_keep_the_maximum() {
    let mut fs = FakeFs::new().dir("/w", vec![file("/w/a", 42), file("/w/b", 42)]);
    assert_eq!(drive(&watch("/w", false, None), &mut fs), ok(2, 42));
}

#[test]
fn filter_applies_to_full_path() {
    let mut fs = FakeFs::new()
        .dir("/data", vec![subdir("/data/keep"), file("/data/x", 1)])
        .dir("/data/keep", vec![file("/data/keep/y", 2)]);
    assert_eq!(drive(&watch("/data", true, Some("/keep/")), &mut fs), ok(1, 2));
}

#[test]
fn largest_time_is_kept() {
    let mut fs = FakeFs::new().dir("/w", vec![file("/w/a", u64::MAX), file("/w/b", 1)]);
    assert_eq!(drive(&watch("/w", false, None), &mut fs), ok(2, u64::MAX));
}

#[test]
fn finished_walk_ignores_further_listings() {
    let w = watch("/w", false, None);
    let mut walk = w.walk();
    walk.on_listing(Ok(vec![file("/w/a", 7)]));
    assert!(walk.is_done());
    walk.on_listing(Ok(vec![file("/w/b", 900)]));
    match walk.next_action() {
        WalkAction::Done(r) => assert_eq!(r, ok(1, 7)),
        WalkAction::List(p) => panic!("unexpected request for {}", p),
    }
}

#[test]
fn first_action_lists_the_root() {
    let w = watch("/root/dir", true, None);
    let walk = w.walk();
    assert!(!walk.is_done());
    match walk.next_action() {
        WalkAction::List(p) => assert_eq!(p, "/root/dir"),
        WalkAction::Done(_) => panic!("walk ended before listing its root"),
    }
}

#[test]
fn invalid_pattern_is_rejected() {
    assert!(matches!(FileFilter::new("foo(bar"), Err(FilterError::InvalidPattern(_))));
}

#[test]
fn filter_matches_by_pattern() {
    let f = FileFilter::new(r"\.log$").unwrap();
    assert_eq!(f.pattern(), r"\.log$");
    assert!(f.is_match("/var/app.log"));
    assert!(!f.is_match("/var/app.txt"));
    assert!(!f.is_match(r"\.log$x"));
}

#[test]
fn no_filter_passes_everything() {
    assert!(passes(&None, "/anything"));
    let some = Some(FileFilter::new("^/a").unwrap());
    assert!(passes(&some, "/a/b"));
    assert!(!passes(&some, "/b/a"));
}

#[test]
fn scrape_isolates_failures() {
    let exporter = Exporter::new(vec![
        DirWalker::new("broken".to_string(), "/missing".to_string(), false, None),
        DirWalker::new("good".to_string(), "/w".to_string(), true, None),
    ]);
    let mut fs = sample_tree();
    let mut outcomes = Vec::new();
    for (i, w) in exporter.file_walkers().iter().enumerate() {
        outcomes.push(TimedOutcome { outcome: drive(w, &mut fs), duration_secs: i as u64 + 4 });
    }
    let obs = exporter.collect(&outcomes);
    assert_eq!(obs.len(), 2);
    assert_eq!(obs[0].name, "broken");
    assert!(!obs[0].success);
    assert_eq!(obs[0].files_visited, None);
    assert_eq!(obs[0].max_time, None);
    assert_eq!(obs[0].duration_secs, 4);
    assert_eq!(obs[1].name, "good");
    assert!(obs[1].success);
    assert_eq!(obs[1].files_visited, Some(3));
    assert_eq!(obs[1].max_time, Some(900));
    assert_eq!(obs[1].duration_secs, 5);
}

#[test]
fn zero_files_is_distinct_from_failure() {
    let o = observe(&"empty".to_string(), TimedOutcome { outcome: ok(0, 0), duration_secs: 1 });
    assert!(o.success);
    assert_eq!(o.files_visited, Some(0));
    assert_eq!(o.max_time, Some(0));
}

#[test]
fn unique_non_empty_names_are_valid() {
    let ws = vec![watch("/a", false, None), {
        DirWalker::new("other".to_string(), "/b".to_string(), true, None)
    }];
    assert!(watch_names_valid(&ws));
    assert!(watch_names_valid(&Vec::new()));
}

#[test]
fn duplicate_names_are_invalid() {
    let ws = vec![
        DirWalker::new("x".to_string(), "/a".to_string(), false, None),
        DirWalker::new("y".to_string(), "/b".to_string(), false, None),
        DirWalker::new("x".to_string(), "/c".to_string(), false, None),
    ];
    assert!(!watch_names_valid(&ws));
}

#[test]
fn empty_name_is_invalid() {
    let ws = vec![DirWalker::new(String::new(), "/a".to_string(), false, None)];
    assert!(!watch_names_valid(&ws));
}
