//! A model of a directory tree, and the totals that a walk of it must report.
use vstd::prelude::*;

use crate::walker::{later, listing_count, listing_max, subdirs, DirEntryInfo, Listing, WalkError};

verus! {

/// A directory tree as a walk sees it: an entry and, for a directory, its
/// children or why it cannot be listed.
pub struct FsTree {
    pub entry: DirEntryInfo,
    pub listing: Result<Seq<FsTree>, WalkError>,
}

/// The entries of a list of children.
pub open spec fn entries_of(cs: Seq<FsTree>) -> Seq<DirEntryInfo> {
    cs.map_values(|c: FsTree| c.entry)
}

/// The listing a walk is handed for a tree.
pub open spec fn listing_of(t: FsTree) -> Listing {
    match t.listing {
        Ok(cs) => Ok(entries_of(cs)),
        Err(e) => Err(e),
    }
}

/// The paths of a list of trees.
pub open spec fn paths(ts: Seq<FsTree>) -> Seq<Seq<char>> {
    ts.map_values(|t: FsTree| t.entry.path@)
}

/// The children that are directories, in listing order.
pub open spec fn dir_children(cs: Seq<FsTree>) -> Seq<FsTree>
    decreases cs.len(),
{
    if cs.len() == 0 {
        seq![]
    } else {
        dir_children(cs.drop_last()) + if cs.last().entry.kind is Directory {
            seq![cs.last()]
        } else {
            seq![]
        }
    }
}

/// Files counted in a tree's own listing.
pub open spec fn own_count(t: FsTree, f: Option<Seq<char>>) -> nat {
    match t.listing {
        Ok(cs) => listing_count(entries_of(cs), f),
        Err(_) => 0,
    }
}

/// Latest time in a tree's own listing.
pub open spec fn own_max(t: FsTree, f: Option<Seq<char>>) -> u64 {
    match t.listing {
        Ok(cs) => listing_max(entries_of(cs), f),
        Err(_) => 0,
    }
}

/// Files counted in a tree: those of its own listing and, when recursive,
/// those below each child directory. A directory that cannot be listed adds
/// nothing.
pub open spec fn tree_count(t: FsTree, f: Option<Seq<char>>, recursive: bool) -> nat
    decreases t,
{
    match t.listing {
        Ok(cs) => listing_count(entries_of(cs), f) + if recursive {
            children_count(cs, f, recursive)
        } else {
            0
        },
        Err(_) => 0,
    }
}

/// Files counted below the child directories of a listing.
pub open spec fn children_count(cs: Seq<FsTree>, f: Option<Seq<char>>, recursive: bool) -> nat
    decreases cs,
{
    if cs.len() == 0 {
        0
    } else {
        children_count(cs.drop_last(), f, recursive) + if cs.last().entry.kind is Directory {
            tree_count(cs.last(), f, recursive)
        } else {
            0
        }
    }
}

/// Latest time in a tree, found the same way as its count.
pub open spec fn tree_max(t: FsTree, f: Option<Seq<char>>, recursive: bool) -> u64
    decreases t,
{
    match t.listing {
        Ok(cs) => later(
            listing_max(entries_of(cs), f),
            if recursive {
                children_max(cs, f, recursive)
            } else {
                0
            },
        ),
        Err(_) => 0,
    }
}

/// Latest time below the child directories of a listing.
pub open spec fn children_max(cs: Seq<FsTree>, f: Option<Seq<char>>, recursive: bool) -> u64
    decreases cs,
{
    if cs.len() == 0 {
        0
    } else {
        later(
            children_max(cs.drop_last(), f, recursive),
            if cs.last().entry.kind is Directory {
                tree_max(cs.last(), f, recursive)
            } else {
                0
            },
        )
    }
}

/// Files counted in all the trees of a stack.
pub open spec fn stack_count(ts: Seq<FsTree>, f: Option<Seq<char>>, recursive: bool) -> nat
    decreases ts.len(),
{
    if ts.len() == 0 {
        0
    } else {
        stack_count(ts.drop_last(), f, recursive) + tree_count(ts.last(), f, recursive)
    }
}

/// Latest time in all the trees of a stack.
pub open spec fn stack_max(ts: Seq<FsTree>, f: Option<Seq<char>>, recursive: bool) -> u64
    decreases ts.len(),
{
    if ts.len() == 0 {
        0
    } else {
        later(stack_max(ts.drop_last(), f, recursive), tree_max(ts.last(), f, recursive))
    }
}

/// The directories still to be listed after the last tree of a stack has been
/// listed: the rest of the stack, then, when recursive, its child directories.
pub open spec fn next_stack(ts: Seq<FsTree>, recursive: bool) -> Seq<FsTree> {
    match ts.last().listing {
        Ok(cs) => if recursive {
            ts.drop_last() + dir_children(cs)
        } else {
            ts.drop_last()
        },
        Err(_) => ts.drop_last(),
    }
}

pub proof fn lemma_stack_append(a: Seq<FsTree>, b: Seq<FsTree>, f: Option<Seq<char>>, recursive: bool)
    ensures
        stack_count(a + b, f, recursive) == stack_count(a, f, recursive) + stack_count(b, f, recursive),
        stack_max(a + b, f, recursive) == later(stack_max(a, f, recursive), stack_max(b, f, recursive)),
    decreases b.len(),
{
    if b.len() == 0 {
        assert(a + b =~= a);
    } else {
        lemma_stack_append(a, b.drop_last(), f, recursive);
        assert((a + b).drop_last() =~= a + b.drop_last());
        assert((a + b).last() == b.last());
    }
}

pub proof fn lemma_dir_children(cs: Seq<FsTree>, f: Option<Seq<char>>, recursive: bool)
    ensures
        stack_count(dir_children(cs), f, recursive) == children_count(cs, f, recursive),
        stack_max(dir_children(cs), f, recursive) == children_max(cs, f, recursive),
        paths(dir_children(cs)) == subdirs(entries_of(cs), true),
    decreases cs.len(),
{
    if cs.len() > 0 {
        let rest = cs.drop_last();
        lemma_dir_children(rest, f, recursive);
        let tail = if cs.last().entry.kind is Directory {
            seq![cs.last()]
        } else {
            seq![]
        };
        lemma_stack_append(dir_children(rest), tail, f, recursive);
        if cs.last().entry.kind is Directory {
            assert(tail.drop_last() =~= Seq::<FsTree>::empty());
            assert(stack_count(tail.drop_last(), f, recursive) == 0);
            assert(stack_max(tail.drop_last(), f, recursive) == 0);
            assert(tail.last() == cs.last());
            assert(stack_count(tail, f, recursive) == tree_count(cs.last(), f, recursive));
            assert(stack_max(tail, f, recursive) == tree_max(cs.last(), f, recursive));
        } else {
            assert(stack_count(tail, f, recursive) == 0);
            assert(stack_max(tail, f, recursive) == 0);
        }
        assert(children_count(cs, f, recursive) == children_count(rest, f, recursive) + stack_count(tail, f, recursive));
        assert(children_max(cs, f, recursive) == later(children_max(rest, f, recursive), stack_max(tail, f, recursive)));
        assert(entries_of(cs).drop_last() =~= entries_of(rest));
        assert(paths(dir_children(rest) + tail) =~= paths(dir_children(rest)) + paths(tail));
    }
}

} // verus!
