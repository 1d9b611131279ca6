//! Properties of walks and scrapes that hold for every input, proved from the
//! step function that [`crate::walker::Walk::on_listing`] follows.
use vstd::prelude::*;

use crate::exporter::{describes, Observation, TimedOutcome};
use crate::tree::{
    dir_children, entries_of, lemma_dir_children, lemma_stack_append, listing_of, next_stack,
    own_count, paths, stack_count, stack_max, tree_count, tree_max, FsTree,
};
use crate::walker::{
    counted, entry_time, later, listing_count, listing_max, saturating, start, step, subdirs,
    DirEntryInfo, Listing, WalkError, WalkResult, WalkView,
};

verus! {

/// The state a walk reaches from `s` when it is handed `ls`, in order.
pub open spec fn run(s: WalkView, ls: Seq<Listing>) -> WalkView
    decreases ls.len(),
{
    if ls.len() == 0 {
        s
    } else {
        run(step(s, ls[0]), ls.drop_first())
    }
}

/// A listing with nothing counted contributes no time.
proof fn lemma_no_count_no_time(es: Seq<DirEntryInfo>, f: Option<Seq<char>>)
    ensures
        listing_count(es, f) == 0 ==> listing_max(es, f) == 0,
    decreases es.len(),
{
    if es.len() > 0 {
        lemma_no_count_no_time(es.drop_last(), f);
    }
}

/// Taking one entry out of a listing takes out exactly its contribution.
proof fn lemma_remove_entry(b: Seq<DirEntryInfo>, j: int, f: Option<Seq<char>>, recursive: bool)
    requires
        0 <= j < b.len(),
    ensures
        listing_count(b, f) == listing_count(b.remove(j), f) + if counted(b[j], f) {
            1nat
        } else {
            0nat
        },
        listing_max(b, f) == later(listing_max(b.remove(j), f), entry_time(b[j], f)),
        !(b[j].kind is Directory) ==> subdirs(b, recursive) == subdirs(b.remove(j), recursive),
    decreases b.len(),
{
    if j == b.len() - 1 {
        assert(b.remove(j) =~= b.drop_last());
    } else {
        lemma_remove_entry(b.drop_last(), j, f, recursive);
        assert(b.remove(j).drop_last() =~= b.drop_last().remove(j));
        assert(b.remove(j).last() == b.last());
        assert(b.drop_last()[j] == b[j]);
    }
}

/// Listing order does not matter: two listings with the same entries, in any
/// order, count the same files and give the same latest time.
pub proof fn listing_order_is_irrelevant(a: Seq<DirEntryInfo>, b: Seq<DirEntryInfo>, f: Option<Seq<char>>)
    requires
        a.to_multiset() == b.to_multiset(),
    ensures
        listing_count(a, f) == listing_count(b, f),
        listing_max(a, f) == listing_max(b, f),
    decreases a.len(),
{
    a.to_multiset_ensures();
    b.to_multiset_ensures();
    if a.len() > 0 {
        let x = a.last();
        let rest = a.drop_last();
        rest.to_multiset_ensures();
        assert(rest.push(x) =~= a);
        assert(a.contains(x));
        assert(b.to_multiset().count(x) > 0);
        assert(b.contains(x));
        let j = choose|j: int| 0 <= j < b.len() && b[j] == x;
        assert(b.remove(j).to_multiset() =~= rest.to_multiset());
        listing_order_is_irrelevant(rest, b.remove(j), f);
        lemma_remove_entry(b, j, f, false);
    } else {
        assert(b.len() == 0);
    }
}

/// The count of a listing is the number of its entries that are counted.
pub proof fn listing_count_is_number_counted(es: Seq<DirEntryInfo>, f: Option<Seq<char>>)
    ensures
        listing_count(es, f) == es.filter(|e: DirEntryInfo| counted(e, f)).len(),
    decreases es.len(),
{
    reveal_with_fuel(Seq::filter, 1);
    if es.len() > 0 {
        listing_count_is_number_counted(es.drop_last(), f);
    }
}

/// The latest time of a listing is the maximum of the known modification
/// times of its counted files, or the epoch when there is none.
pub proof fn listing_max_is_maximum(es: Seq<DirEntryInfo>, f: Option<Seq<char>>)
    ensures
        forall|i: int|
            0 <= i < es.len() && counted(es[i], f) ==> #[trigger] entry_time(es[i], f)
                <= listing_max(es, f),
        listing_max(es, f) == 0 || exists|i: int|
            0 <= i < es.len() && counted(es[i], f) && #[trigger] entry_time(es[i], f)
                == listing_max(es, f),
    decreases es.len(),
{
    if es.len() > 0 {
        let rest = es.drop_last();
        listing_max_is_maximum(rest, f);
        assert forall|i: int|
            0 <= i < es.len() && counted(es[i], f) implies #[trigger] entry_time(es[i], f)
            <= listing_max(es, f) by {
            if i < es.len() - 1 {
                assert(es[i] == rest[i]);
            }
        }
        if listing_max(es, f) != 0 {
            if listing_max(es, f) == listing_max(rest, f) {
                let i = choose|i: int|
                    0 <= i < rest.len() && counted(rest[i], f) && #[trigger] entry_time(rest[i], f)
                        == listing_max(rest, f);
                assert(es[i] == rest[i]);
            } else {
                assert(entry_time(es[es.len() - 1], f) == listing_max(es, f));
            }
        }
    }
}

/// Where no listing holds a counted file, the walk counts nothing and reports
/// the epoch as the latest time.
pub proof fn nothing_matched_reports_nothing(s: WalkView, ls: Seq<Listing>)
    requires
        s.files_visited == 0,
        s.max_time == 0,
        forall|i: int|
            0 <= i < ls.len() ==> (#[trigger] ls[i] matches Ok(es) ==> listing_count(es, s.filter)
                == 0),
    ensures
        run(s, ls).files_visited == 0,
        run(s, ls).max_time == 0,
    decreases ls.len(),
{
    if ls.len() > 0 {
        if let Ok(es) = ls[0] {
            lemma_no_count_no_time(es, s.filter);
        }
        let n = step(s, ls[0]);
        assert forall|i: int|
            0 <= i < ls.drop_first().len() implies (#[trigger] ls.drop_first()[i] matches Ok(es)
            ==> listing_count(es, n.filter) == 0) by {
            assert(ls.drop_first()[i] == ls[i + 1]);
        }
        nothing_matched_reports_nothing(n, ls.drop_first());
    }
}

/// A walk that has counted no file reports the epoch as the latest time, in
/// every state it reaches.
pub proof fn no_files_means_epoch(s: WalkView, ls: Seq<Listing>)
    requires
        s.files_visited == 0 ==> s.max_time == 0,
    ensures
        run(s, ls).files_visited == 0 ==> run(s, ls).max_time == 0,
    decreases ls.len(),
{
    if ls.len() > 0 {
        if let Ok(es) = ls[0] {
            lemma_no_count_no_time(es, s.filter);
        }
        no_files_means_epoch(step(s, ls[0]), ls.drop_first());
    }
}

/// A finished walk stays as it is, whatever it is handed.
pub proof fn finished_walk_is_final(s: WalkView, ls: Seq<Listing>)
    requires
        s.is_done(),
    ensures
        run(s, ls) == s,
    decreases ls.len(),
{
    if ls.len() > 0 {
        finished_walk_is_final(s, ls.drop_first());
    }
}

/// A file whose path does not pass the filter changes nothing, wherever it
/// stands in a listing.
pub proof fn unmatched_file_changes_nothing(
    s: WalkView,
    es: Seq<DirEntryInfo>,
    k: int,
    e: DirEntryInfo,
)
    requires
        0 <= k <= es.len(),
        e.kind is File,
        !counted(e, s.filter),
    ensures
        step(s, Ok(es.insert(k, e))) == step(s, Ok(es)),
{
    let b = es.insert(k, e);
    assert(b.remove(k) =~= es);
    lemma_remove_entry(b, k, s.filter, s.recursive);
}

/// A walk that is not recursive lists its root and nothing else: whatever it
/// is handed after the root's listing, it reports that listing's files alone.
pub proof fn shallow_walk_reads_root_only(
    root: Seq<char>,
    f: Option<Seq<char>>,
    es: Seq<DirEntryInfo>,
    later_listings: Seq<Listing>,
)
    ensures
        ({
            let s = run(start(root, false, f), seq![Ok(es)] + later_listings);
            &&& s.is_done()
            &&& s.outcome() == Ok::<WalkResult, WalkError>(
                WalkResult { max_time: listing_max(es, f), files_visited: saturating(listing_count(es, f) as int) },
            )
        }),
{
    let s0 = start(root, false, f);
    let ls = seq![Ok(es)] + later_listings;
    let s1 = step(s0, Ok(es));
    assert(s1.pending =~= seq![]);
    assert(ls[0] == Ok::<Seq<DirEntryInfo>, WalkError>(es));
    assert(ls.drop_first() =~= later_listings);
    finished_walk_is_final(s1, later_listings);
}

/// A root that cannot be listed fails the whole walk with that failure, and
/// no partial result is reported.
pub proof fn root_failure_fails_walk(
    root: Seq<char>,
    recursive: bool,
    f: Option<Seq<char>>,
    e: WalkError,
    later_listings: Seq<Listing>,
)
    ensures
        ({
            let s = run(start(root, recursive, f), seq![Err(e)] + later_listings);
            &&& s.is_done()
            &&& s.outcome() == Err::<WalkResult, WalkError>(e)
        }),
{
    let ls = seq![Err(e)] + later_listings;
    let s1 = step(start(root, recursive, f), Err(e));
    assert(ls[0] == Err::<Seq<DirEntryInfo>, WalkError>(e));
    assert(ls.drop_first() =~= later_listings);
    finished_walk_is_final(s1, later_listings);
}

/// A directory below the root that cannot be listed is left out: the count
/// and the latest time stay as they were and the walk goes on.
pub proof fn subtree_failure_is_absorbed(s: WalkView, e: WalkError)
    requires
        s.started,
        !s.is_done(),
    ensures
        step(s, Err(e)).files_visited == s.files_visited,
        step(s, Err(e)).max_time == s.max_time,
        step(s, Err(e)).failure == s.failure,
        step(s, Err(e)).pending == s.pending.drop_last(),
{
}

/// Two walks of the same watch over an unchanged tree, which hands them the
/// same listings, end in the same state.
pub proof fn repeated_walks_agree(
    root: Seq<char>,
    recursive: bool,
    f: Option<Seq<char>>,
    ls: Seq<Listing>,
)
    ensures
        run(start(root, recursive, f), ls) == run(start(root, recursive, f), ls),
{
}

/// In one scrape a failed watch reports neither count nor time, and does not
/// change what another watch reports.
pub proof fn failures_are_isolated(
    failed: Observation,
    ok: Observation,
    failed_name: Seq<char>,
    ok_name: Seq<char>,
    failed_outcome: TimedOutcome,
    ok_outcome: TimedOutcome,
)
    requires
        describes(failed, failed_name, failed_outcome),
        describes(ok, ok_name, ok_outcome),
        failed_outcome.outcome is Err,
        ok_outcome.outcome is Ok,
    ensures
        !failed.success,
        failed.files_visited is None,
        failed.max_time is None,
        ok.success,
        ok.files_visited == Some(ok_outcome.outcome->Ok_0.files_visited),
        ok.max_time == Some(ok_outcome.outcome->Ok_0.max_time),
{
}

/// Where a walk of `tree` stands: `stack` holds the trees of the directories
/// still to be listed, `done` is the number of files counted so far, and
/// those files together with the ones in the stack are exactly the files of
/// the tree, each once; likewise for the latest time.
pub open spec fn walk_accounts(s: WalkView, stack: Seq<FsTree>, done: nat, tree: FsTree) -> bool {
    &&& s.failure is None
    &&& s.pending == paths(stack)
    &&& s.files_visited == saturating(done as int)
    &&& done + stack_count(stack, s.filter, s.recursive) == tree_count(tree, s.filter, s.recursive)
    &&& later(s.max_time, stack_max(stack, s.filter, s.recursive)) == tree_max(
        tree,
        s.filter,
        s.recursive,
    )
}

/// A fresh walk of a tree's root stands at the whole tree, with nothing
/// counted yet.
pub proof fn tree_walk_starts(tree: FsTree, recursive: bool, f: Option<Seq<char>>)
    ensures
        walk_accounts(start(tree.entry.path@, recursive, f), seq![tree], 0, tree),
{
    let st = seq![tree];
    assert(st.drop_last() =~= Seq::<FsTree>::empty());
    assert(stack_count(st.drop_last(), f, recursive) == 0);
    assert(stack_max(st.drop_last(), f, recursive) == 0);
    assert(st.last() == tree);
    assert(paths(st) =~= seq![tree.entry.path@]);
}

/// Listing the next directory of a tree keeps the account exact: the files of
/// its own listing move from the stack to the count, and its child
/// directories, in a recursive walk, take its place in the stack. So no file
/// of the tree is lost or counted twice, however deep it lies.
pub proof fn tree_walk_step(s: WalkView, stack: Seq<FsTree>, done: nat, tree: FsTree)
    requires
        walk_accounts(s, stack, done, tree),
        stack.len() > 0,
        s.started || stack.last().listing is Ok,
    ensures
        walk_accounts(
            step(s, listing_of(stack.last())),
            next_stack(stack, s.recursive),
            done + own_count(stack.last(), s.filter),
            tree,
        ),
{
    let t = stack.last();
    let rest = stack.drop_last();
    let f = s.filter;
    let r = s.recursive;
    assert(paths(rest) =~= paths(stack).drop_last());
    match t.listing {
        Ok(cs) => {
            let es = entries_of(cs);
            if r {
                lemma_dir_children(cs, f, r);
                lemma_stack_append(rest, dir_children(cs), f, r);
                assert(paths(rest + dir_children(cs)) =~= paths(rest) + paths(dir_children(cs)));
            } else {
                assert(paths(rest) + subdirs(es, r) =~= paths(rest));
            }
        },
        Err(_) => {},
    }
}

/// A walk whose stack is empty is over, and reports exactly the files of the
/// tree and the latest time among them.
pub proof fn tree_walk_ends(s: WalkView, done: nat, tree: FsTree)
    requires
        walk_accounts(s, seq![], done, tree),
    ensures
        s.is_done(),
        s.outcome() == Ok::<WalkResult, WalkError>(
            WalkResult {
                max_time: tree_max(tree, s.filter, s.recursive),
                files_visited: saturating(tree_count(tree, s.filter, s.recursive) as int),
            },
        ),
{
    assert(paths(seq![]) =~= Seq::<Seq<char>>::empty());
}

} // verus!
