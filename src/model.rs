//! A model of the filesystem under the home directory and of what each
//! planned operation does to it when it succeeds.
use vstd::prelude::*;
use crate::paths::{is_prefix, Parts};
use crate::plan::Op;

verus! {

/// What stands at a path: a regular file, with its contents, or a directory.
pub enum Node {
    File(int),
    Dir,
}

/// The filesystem: each present path, relative to the home directory, and
/// what stands there.
pub type Fs = Map<Parts, Node>;

pub open spec fn is_dir_at(fs: Fs, p: Parts) -> bool {
    fs.contains_key(p) && fs[p] == Node::Dir
}

pub open spec fn is_file_at(fs: Fs, p: Parts) -> bool {
    fs.contains_key(p) && fs[p] is File
}

/// Every ancestor of a present path (the home directory aside) is a directory.
pub open spec fn fs_wf(fs: Fs) -> bool {
    forall|k: Parts, j: int|
        #![trigger fs.contains_key(k), k.take(j)]
        fs.contains_key(k) && 0 < j < k.len() ==> is_dir_at(fs, k.take(j))
}

/// `fs` without `p` and everything under it.
pub open spec fn remove_tree(fs: Fs, p: Parts) -> Fs {
    Map::new(|k: Parts| fs.contains_key(k) && !is_prefix(p, k), |k: Parts| fs[k])
}

/// `fs` with `p` and its missing ancestors created as directories.
pub open spec fn create_dirs(fs: Fs, p: Parts) -> Fs {
    if fs.contains_key(p) {
        fs
    } else {
        Map::new(
            |k: Parts| fs.contains_key(k) || (is_prefix(k, p) && k.len() > 0),
            |k: Parts|
                if fs.contains_key(k) {
                    fs[k]
                } else {
                    Node::Dir
                },
        )
    }
}

/// `fs` after a successful rename of the entry at `from` (with all under it)
/// to `to`; nothing changes when `from` is missing or `to` lies under it.
pub open spec fn move_tree(fs: Fs, from: Parts, to: Parts) -> Fs {
    if !fs.contains_key(from) || is_prefix(from, to) {
        fs
    } else {
        Map::new(
            |k: Parts|
                (fs.contains_key(k) && !is_prefix(from, k) && !is_prefix(to, k)) || (is_prefix(to, k)
                    && fs.contains_key(from + k.skip(to.len() as int))),
            |k: Parts|
                if is_prefix(to, k) {
                    fs[from + k.skip(to.len() as int)]
                } else {
                    fs[k]
                },
        )
    }
}

/// `fs` with the regular file at `from` copied to `to`; nothing changes when
/// `from` is no regular file or `to` is a directory.
pub open spec fn copy_file(fs: Fs, from: Parts, to: Parts) -> Fs {
    if is_file_at(fs, from) && !is_dir_at(fs, to) {
        fs.insert(to, fs[from])
    } else {
        fs
    }
}

/// The filesystem after one operation.
pub open spec fn step(fs: Fs, op: Op) -> Fs {
    match op {
        Op::RemoveAll(p) => remove_tree(fs, p),
        Op::CreateDirAll(p) => create_dirs(fs, p),
        Op::Rename(a, b) => move_tree(fs, a, b),
        Op::CopyFile(a, b) => copy_file(fs, a, b),
    }
}

/// The filesystem after the operations `ops`, in order.
pub open spec fn run(fs: Fs, ops: Seq<Op>) -> Fs
    decreases ops.len(),
{
    if ops.len() == 0 {
        fs
    } else {
        step(run(fs, ops.drop_last()), ops.last())
    }
}

/// Running two lists of operations one after the other.
pub proof fn lemma_run_append(fs: Fs, a: Seq<Op>, b: Seq<Op>)
    ensures
        run(fs, a + b) == run(run(fs, a), b),
    decreases b.len(),
{
    if b.len() == 0 {
        assert(a + b =~= a);
    } else {
        assert((a + b).drop_last() =~= a + b.drop_last());
        lemma_run_append(fs, a, b.drop_last());
    }
}

pub proof fn lemma_run_one(fs: Fs, x: Op)
    ensures
        run(fs, seq![x]) == step(fs, x),
{
    assert(seq![x].drop_last() =~= Seq::<Op>::empty());
    assert(run(fs, Seq::<Op>::empty()) == fs);
}

pub proof fn lemma_run_two(fs: Fs, x: Op, y: Op)
    ensures
        run(fs, seq![x, y]) == step(step(fs, x), y),
{
    assert(seq![x, y].drop_last() =~= seq![x]);
    lemma_run_one(fs, x);
}

} // verus!
