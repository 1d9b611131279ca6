use vstd::prelude::*;

use crate::filter::{accepts, filter_pattern, passes, FileFilter};

verus! {

/// Why a walk failed as a whole.
#[derive(Debug, Clone, Copy, PartialEq, Eq)]
pub enum WalkError {
    /// The root does not exist or is not a directory.
    NotADirectory,
    /// The root is a directory but could not be listed.
    DirectoryUnreadable,
}

/// What a directory entry turned out to be when it was listed.
#[derive(Debug, Clone, Copy, PartialEq, Eq)]
pub enum EntryKind {
    /// A directory (symbolic links are followed).
    Directory,
    /// A regular file, with its last modification time in seconds since the
    /// epoch, or `None` where its metadata could not be read.
    File { modified: Option<u64> },
    /// Anything else: a socket, a device, a dangling link.
    Other,
    /// The entry itself could not be read from the listing.
    Unreadable,
}

/// One entry of a directory listing: its full path as text, and its kind.
#[derive(Debug, Clone)]
pub struct DirEntryInfo {
    pub path: String,
    pub kind: EntryKind,
}

/// The aggregate of one successful walk.
#[derive(Debug, Clone, Copy, PartialEq, Eq)]
pub struct WalkResult {
    /// Latest modification time among the counted files, in seconds since the
    /// epoch; 0 when no counted file has one.
    pub max_time: u64,
    /// Number of files that passed the filter.
    pub files_visited: u64,
}

/// A listing as the walk receives it: the entries, or why the directory
/// could not be listed.
pub type Listing = Result<Seq<DirEntryInfo>, WalkError>;

/// A listing as handed to [`Walk::on_listing`], seen as a sequence.
pub open spec fn listing_view(l: Result<Vec<DirEntryInfo>, WalkError>) -> Listing {
    match l {
        Ok(v) => Ok(v@),
        Err(e) => Err(e),
    }
}

/// An entry is counted when it is a file whose path passes the filter.
pub open spec fn counted(e: DirEntryInfo, filter: Option<Seq<char>>) -> bool {
    e.kind is File && accepts(filter, e.path@)
}

/// The time an entry contributes to the maximum: its modification time when
/// it is counted and the time is known, else the epoch.
pub open spec fn entry_time(e: DirEntryInfo, filter: Option<Seq<char>>) -> u64 {
    if counted(e, filter) {
        match e.kind {
            EntryKind::File { modified: Some(t) } => t,
            _ => 0,
        }
    } else {
        0
    }
}

/// The larger of two times; on a tie the first is kept.
pub open spec fn later(a: u64, b: u64) -> u64 {
    if a < b {
        b
    } else {
        a
    }
}

/// Number of counted entries in a listing.
pub open spec fn listing_count(es: Seq<DirEntryInfo>, filter: Option<Seq<char>>) -> nat
    decreases es.len(),
{
    if es.len() == 0 {
        0
    } else {
        listing_count(es.drop_last(), filter) + if counted(es.last(), filter) {
            1nat
        } else {
            0nat
        }
    }
}

/// Latest time contributed by the entries of a listing (the epoch if none).
pub open spec fn listing_max(es: Seq<DirEntryInfo>, filter: Option<Seq<char>>) -> u64
    decreases es.len(),
{
    if es.len() == 0 {
        0
    } else {
        later(listing_max(es.drop_last(), filter), entry_time(es.last(), filter))
    }
}

/// The directories of a listing that a walk descends into, in listing order:
/// none unless the walk is recursive.
pub open spec fn subdirs(es: Seq<DirEntryInfo>, recursive: bool) -> Seq<Seq<char>>
    decreases es.len(),
{
    if !recursive || es.len() == 0 {
        seq![]
    } else {
        subdirs(es.drop_last(), recursive) + if es.last().kind is Directory {
            seq![es.last().path@]
        } else {
            seq![]
        }
    }
}

/// `n`, or the largest `u64` where `n` does not fit.
pub open spec fn saturating(n: int) -> u64 {
    if n > u64::MAX {
        u64::MAX
    } else {
        n as u64
    }
}

/// The state of a walk in progress.
pub struct WalkView {
    pub recursive: bool,
    pub filter: Option<Seq<char>>,
    /// Directories still to be listed; the last is listed next.
    pub pending: Seq<Seq<char>>,
    /// Whether the root has been listed (or failed).
    pub started: bool,
    pub files_visited: u64,
    pub max_time: u64,
    pub failure: Option<WalkError>,
}

impl WalkView {
    /// A walk is done when no directory is left to list.
    pub open spec fn is_done(self) -> bool {
        self.pending.len() == 0
    }

    /// What a finished walk reports.
    pub open spec fn outcome(self) -> Result<WalkResult, WalkError> {
        match self.failure {
            Some(e) => Err(e),
            None => Ok(WalkResult { max_time: self.max_time, files_visited: self.files_visited }),
        }
    }
}

/// A fresh walk of `root`.
pub open spec fn start(root: Seq<char>, recursive: bool, filter: Option<Seq<char>>) -> WalkView {
    WalkView {
        recursive,
        filter,
        pending: seq![root],
        started: false,
        files_visited: 0,
        max_time: 0,
        failure: None,
    }
}

/// How a walk moves on when the directory it asked for has been listed.
///
/// A failure to list the root ends the walk with that failure; a failure to
/// list a directory below it leaves that subtree out and the walk goes on.
/// A successful listing adds its counted files and, in a recursive walk,
/// schedules its subdirectories.
pub open spec fn step(s: WalkView, listing: Listing) -> WalkView {
    if s.is_done() {
        s
    } else {
        let rest = s.pending.drop_last();
        match listing {
            Err(e) => if s.started {
                WalkView { pending: rest, ..s }
            } else {
                WalkView { pending: seq![], started: true, failure: Some(e), ..s }
            },
            Ok(es) => WalkView {
                pending: rest + subdirs(es, s.recursive),
                started: true,
                files_visited: saturating(s.files_visited + listing_count(es, s.filter)),
                max_time: later(s.max_time, listing_max(es, s.filter)),
                ..s
            },
        }
    }
}

/// One configured watch: a named root, whether to descend into
/// subdirectories, and an optional filter on the full paths of files.
pub struct DirWalker {
    pub name: String,
    pub path: String,
    pub recursive: bool,
    pub file_filter: Option<FileFilter>,
}

/// What a walk needs next.
#[derive(Debug)]
pub enum WalkAction {
    /// List this directory and hand the listing to [`Walk::on_listing`].
    List(String),
    /// The walk is over, with this outcome.
    Done(Result<WalkResult, WalkError>),
}

/// A walk in progress over the tree of one [`DirWalker`].
pub struct Walk<'a> {
    walker: &'a DirWalker,
    pending: Vec<String>,
    started: bool,
    files_visited: u64,
    max_time: u64,
    failure: Option<WalkError>,
}

/// The paths of a stack of directories, as text.
pub open spec fn paths_view(v: Seq<String>) -> Seq<Seq<char>> {
    v.map_values(|p: String| p@)
}

impl<'a> View for Walk<'a> {
    type V = WalkView;

    closed spec fn view(&self) -> WalkView {
        WalkView {
            recursive: self.walker.recursive,
            filter: filter_pattern(self.walker.file_filter),
            pending: paths_view(self.pending@),
            started: self.started,
            files_visited: self.files_visited,
            max_time: self.max_time,
            failure: self.failure,
        }
    }
}

impl DirWalker {
    pub fn new(name: String, path: String, recursive: bool, file_filter: Option<FileFilter>) -> (r:
        DirWalker)
        ensures
            r.name == name,
            r.path == path,
            r.recursive == recursive,
            r.file_filter == file_filter,
    {
        DirWalker { name, path, recursive, file_filter }
    }

    /// Begins a walk of this watch's root.
    pub fn walk(&self) -> (r: Walk<'_>)
        ensures
            r@ == start(self.path@, self.recursive, filter_pattern(self.file_filter)),
    {
        let mut pending: Vec<String> = Vec::new();
        pending.push(self.path.clone());
        let r = Walk {
            walker: self,
            pending,
            started: false,
            files_visited: 0,
            max_time: 0,
            failure: None,
        };
        assert(paths_view(r.pending@) =~= seq![self.path@]);
        r
    }
}

impl<'a> Walk<'a> {
    /// The next directory to list, or the outcome once the walk is over.
    pub fn next_action(&self) -> (r: WalkAction)
        ensures
            !self@.is_done() ==> (r matches WalkAction::List(p) && p@ == self@.pending.last()),
            self@.is_done() ==> r == WalkAction::Done(self@.outcome()),
    {
        let n = self.pending.len();
        if n > 0 {
            WalkAction::List(self.pending[n - 1].clone())
        } else {
            match self.failure {
                Some(e) => WalkAction::Done(Err(e)),
                None => WalkAction::Done(
                    Ok(WalkResult { max_time: self.max_time, files_visited: self.files_visited }),
                ),
            }
        }
    }

    /// Takes in the listing of the directory that [`Walk::next_action`] asked
    /// for; does nothing once the walk is over.
    pub fn on_listing(&mut self, listing: Result<Vec<DirEntryInfo>, WalkError>)
        ensures
            final(self)@ == step(old(self)@, listing_view(listing)),
    {
        if self.pending.len() == 0 {
            return ;
        }
        let ghost before = self@;
        let _ = self.pending.pop();
        assert(paths_view(self.pending@) =~= before.pending.drop_last());
        match listing {
            Err(e) => {
                if !self.started {
                    self.started = true;
                    self.failure = Some(e);
                    self.pending = Vec::new();
                    assert(paths_view(self.pending@) =~= seq![]);
                }
            },
            Ok(entries) => {
                let recursive = self.walker.recursive;
                let filter = &self.walker.file_filter;
                let ghost f = filter_pattern(*filter);
                let mut dirs: Vec<String> = Vec::new();
                let mut count: u64 = self.files_visited;
                let mut max_time: u64 = self.max_time;
                let mut i: usize = 0;
                while i < entries.len()
                    invariant
                        i <= entries@.len(),
                        f == before.filter,
                        f == filter_pattern(*filter),
                        recursive == before.recursive,
                        paths_view(dirs@) == subdirs(entries@.take(i as int), recursive),
                        count == saturating(
                            before.files_visited + listing_count(entries@.take(i as int), f),
                        ),
                        max_time == later(before.max_time, listing_max(entries@.take(i as int), f)),
                    decreases entries@.len() - i,
                {
                    let e = &entries[i];
                    let ghost prefix = entries@.take(i as int);
                    let ghost next = entries@.take(i as int + 1);
                    assert(next.drop_last() =~= prefix);
                    assert(next.last() == entries@[i as int]);
                    match e.kind {
                        EntryKind::Directory => {
                            if recursive {
                                dirs.push(e.path.clone());
                            }
                        },
                        EntryKind::File { modified } => {
                            let ok = passes(filter, e.path.as_str());
                            assert(ok == counted(entries@[i as int], f));
                            if ok {
                                if count < u64::MAX {
                                    count = count + 1;
                                }
                                match modified {
                                    Some(t) => {
                                        if max_time < t {
                                            max_time = t;
                                        }
                                    },
                                    None => {},
                                }
                            }
                        },
                        _ => {},
                    }
                    assert(paths_view(dirs@) =~= subdirs(next, recursive));
                    assert(listing_count(next, f) == listing_count(prefix, f) + if counted(
                        entries@[i as int],
                        f,
                    ) {
                        1nat
                    } else {
                        0nat
                    });
                    assert(listing_max(next, f) == later(
                        listing_max(prefix, f),
                        entry_time(entries@[i as int], f),
                    ));
                    i = i + 1;
                }
                assert(entries@.take(entries@.len() as int) =~= entries@);
                self.started = true;
                self.files_visited = count;
                self.max_time = max_time;
                self.pending.append(&mut dirs);
                assert(paths_view(self.pending@) =~= before.pending.drop_last() + subdirs(
                    entries@,
                    recursive,
                ));
            },
        }
    }

    /// Whether the walk is over.
    pub fn is_done(&self) -> (r: bool)
        ensures
            r == self@.is_done(),
    {
        self.pending.len() == 0
    }
}

} // verus!
