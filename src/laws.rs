//! Laws of the commands, over the filesystem model.
use vstd::prelude::*;
use crate::model::{
    copy_file, move_tree, create_dirs, lemma_run_append, fs_wf, is_dir_at, is_file_at, lemma_run_one, lemma_run_two, remove_tree, run, Fs,
    Node,
};
use crate::paths::{app_dir_spec, is_prefix, tmp_dir_spec, variant_dir_spec, Parts};
use crate::plan::{
    add_spec, apply_spec, delete_spec, populate_entry_spec, populate_spec, reset_spec, stash_spec,
    ConfigError, EntryView, Op, SnapshotView,
};
use crate::paths::{configs_dir_spec, configs_name, is_reserved, tmp_name};

verus! {

/// The snapshot that `apply` would read from `fs`, as far as the checks of
/// directories go.
pub open spec fn checks_match(fs: Fs, app: Seq<char>, config: Seq<char>, s: SnapshotView) -> bool {
    &&& s.app_is_dir == is_dir_at(fs, app_dir_spec(app))
    &&& s.tmp_is_dir == is_dir_at(fs, tmp_dir_spec(app))
    &&& s.variant_is_dir == is_dir_at(fs, variant_dir_spec(app, config))
}

/// `fs` with the directory at `p` present and empty.
pub open spec fn emptied(fs: Fs, p: Parts) -> Fs {
    remove_tree(fs, p).insert(p, Node::Dir)
}

pub proof fn lemma_prefix_refl(p: Parts)
    ensures
        is_prefix(p, p),
{
    assert(p.subrange(0, p.len() as int) =~= p);
}

/// Removing a subtree keeps every ancestor of what is left.
pub proof fn lemma_remove_tree_wf(fs: Fs, p: Parts)
    requires
        fs_wf(fs),
    ensures
        fs_wf(remove_tree(fs, p)),
{
    let fs1 = remove_tree(fs, p);
    assert forall|k: Parts, j: int|
        #![trigger fs1.contains_key(k), k.take(j)]
        fs1.contains_key(k) && 0 < j < k.len() implies is_dir_at(fs1, k.take(j)) by {
        assert(fs.contains_key(k));
        if is_prefix(p, k.take(j)) {
            assert(k.subrange(0, p.len() as int) =~= k.take(j).subrange(0, p.len() as int));
        }
    }
}

/// Creating a directory whose parent is a directory adds that one path.
pub proof fn lemma_create_child_dir(fs: Fs, p: Parts)
    requires
        fs_wf(fs),
        p.len() > 1,
        !fs.contains_key(p),
        is_dir_at(fs, p.drop_last()),
    ensures
        create_dirs(fs, p) == fs.insert(p, Node::Dir),
{
    let parent = p.drop_last();
    lemma_prefix_refl(p);
    assert forall|k: Parts| is_prefix(k, p) && k.len() > 0 && k != p implies fs.contains_key(k) by {
        assert(k.len() < p.len()) by {
            if k.len() == p.len() {
                assert(k =~= p.subrange(0, p.len() as int));
                assert(p.subrange(0, p.len() as int) =~= p);
            }
        }
        if k.len() < parent.len() {
            assert(parent.take(k.len() as int) =~= k);
        } else {
            assert(parent =~= k);
        }
    }
    assert forall|k: Parts|
        #![auto]
        create_dirs(fs, p).contains_key(k) <==> fs.insert(p, Node::Dir).contains_key(k) by {}
    assert(create_dirs(fs, p) =~= fs.insert(p, Node::Dir));
}

/// Resetting the stash of an existing application directory leaves it empty
/// and touches nothing else, whether or not it was there.
pub proof fn lemma_reset_tmp(fs: Fs, app: Seq<char>)
    requires
        fs_wf(fs),
        is_dir_at(fs, app_dir_spec(app)),
        !is_file_at(fs, tmp_dir_spec(app)),
    ensures
        run(fs, crate::plan::reset_spec(app, is_dir_at(fs, tmp_dir_spec(app)))) == emptied(
            fs,
            tmp_dir_spec(app),
        ),
{
    let tmp = tmp_dir_spec(app);
    let live = app_dir_spec(app);
    assert(tmp.drop_last() =~= live);
    assert(live.take(1) =~= seq![live[0]]);
    lemma_prefix_refl(tmp);
    if is_dir_at(fs, tmp) {
        let fs1 = remove_tree(fs, tmp);
        assert(!is_prefix(tmp, live));
        assert(fs1.contains_key(live));
        lemma_remove_tree_wf(fs, tmp);
        lemma_create_child_dir(fs1, tmp);
        lemma_run_two(fs, Op::RemoveAll(tmp), Op::CreateDirAll(tmp));
    } else {
        assert forall|k: Parts| fs.contains_key(k) implies !is_prefix(tmp, k) by {
            if is_prefix(tmp, k) {
                if k.len() == 3 {
                    assert(k =~= k.subrange(0, 3));
                } else {
                    assert(k.take(3) =~= tmp);
                }
            }
        }
        assert(remove_tree(fs, tmp) =~= fs);
        lemma_create_child_dir(fs, tmp);
        lemma_run_one(fs, Op::CreateDirAll(tmp));
    }
}

/// `apply` on an application whose directory is missing fails and changes
/// nothing.
pub proof fn law_apply_missing_app(fs: Fs, app: Seq<char>, config: Seq<char>, s: SnapshotView)
    requires
        checks_match(fs, app, config, s),
        !is_dir_at(fs, app_dir_spec(app)),
    ensures
        apply_spec(app, config, s).1 == Err::<(), ConfigError>(ConfigError::AppDirMissing),
        run(fs, apply_spec(app, config, s).0) == fs,
{
}

/// `apply` on a missing variant fails, yet the stash has been reset: what it
/// held is lost, and nothing else changes.
pub proof fn law_apply_missing_variant(fs: Fs, app: Seq<char>, config: Seq<char>, s: SnapshotView)
    requires
        fs_wf(fs),
        checks_match(fs, app, config, s),
        is_dir_at(fs, app_dir_spec(app)),
        !is_dir_at(fs, variant_dir_spec(app, config)),
        !is_file_at(fs, tmp_dir_spec(app)),
    ensures
        apply_spec(app, config, s).1 == Err::<(), ConfigError>(ConfigError::VariantMissing),
        run(fs, apply_spec(app, config, s).0) == emptied(fs, tmp_dir_spec(app)),
{
    lemma_reset_tmp(fs, app);
}

/// A second `add` of the same variant right after a first one fails because
/// the variant exists.
pub proof fn law_add_twice(fs: Fs, app: Seq<char>, config: Seq<char>)
    requires
        fs_wf(fs),
        is_dir_at(fs, app_dir_spec(app)),
    ensures
        ({
            let variant = variant_dir_spec(app, config);
            let after = match add_spec(app, config, true, fs.contains_key(variant)) {
                Ok(ops) => run(fs, ops),
                Err(_) => fs,
            };
            add_spec(
                app,
                config,
                is_dir_at(after, app_dir_spec(app)),
                after.contains_key(variant),
            ) == Err::<Seq<Op>, ConfigError>(ConfigError::VariantExists)
        }),
{
    let variant = variant_dir_spec(app, config);
    let live = app_dir_spec(app);
    if !fs.contains_key(variant) {
        lemma_run_one(fs, Op::CreateDirAll(variant));
        lemma_prefix_refl(variant);
        assert(is_prefix(live, variant)) by {
            assert(variant.subrange(0, 2) =~= live);
        }
    }
}

/// `delete` of a variant that is not there succeeds and changes nothing.
pub proof fn law_delete_missing(fs: Fs, app: Seq<char>, config: Seq<char>)
    requires
        is_dir_at(fs, app_dir_spec(app)),
        !fs.contains_key(variant_dir_spec(app, config)),
    ensures
        delete_spec(app, config, true, false) == Ok::<Seq<Op>, ConfigError>(Seq::empty()),
        run(fs, Seq::empty()) == fs,
{
}

/// `n` is a listed entry that the stash takes.
pub open spec fn stashable(names: Seq<Seq<char>>, n: Seq<char>) -> bool {
    names.contains(n) && !is_reserved(n)
}

/// `k` lies in a live entry that the stash takes.
pub open spec fn moved_src(app: Seq<char>, names: Seq<Seq<char>>, k: Parts) -> bool {
    k.len() >= 3 && k.take(2) == app_dir_spec(app) && stashable(names, k[2])
}

/// `k` lies in the stash, in an entry that the stash took.
pub open spec fn moved_dst(app: Seq<char>, names: Seq<Seq<char>>, k: Parts) -> bool {
    k.len() >= 4 && k.take(3) == tmp_dir_spec(app) && stashable(names, k[3])
}

/// Where the stashed path `k` came from.
pub open spec fn stash_source(app: Seq<char>, k: Parts) -> Parts {
    app_dir_spec(app) + k.skip(3)
}

/// `fs` with the live entries `names` (but `tmp` and `possible-configs`)
/// moved into the stash.
pub open spec fn stashed(fs: Fs, app: Seq<char>, names: Seq<Seq<char>>) -> Fs {
    Map::new(
        |k: Parts|
            (fs.contains_key(k) && !moved_src(app, names, k)) || (moved_dst(app, names, k)
                && fs.contains_key(stash_source(app, k))),
        |k: Parts|
            if moved_dst(app, names, k) {
                fs[stash_source(app, k)]
            } else {
                fs[k]
            },
    )
}

proof fn lemma_contains_push(s: Seq<Seq<char>>, n: Seq<char>, x: Seq<char>)
    ensures
        s.push(n).contains(x) <==> (s.contains(x) || x == n),
{
    if s.contains(x) {
        let j = choose|j: int| 0 <= j < s.len() && s[j] == x;
        assert(s.push(n)[j] == x);
    }
    if x == n {
        assert(s.push(n)[s.len() as int] == x);
    }
}

/// Running the stash moves on a filesystem whose stash is empty moves each
/// listed entry (a whole subtree for a directory) into the stash.
pub proof fn lemma_stash(fs: Fs, app: Seq<char>, names: Seq<Seq<char>>)
    requires
        names.no_duplicates(),
        forall|n: Seq<char>| #[trigger] names.contains(n) ==> fs.contains_key(app_dir_spec(app).push(n)),
        forall|k: Parts| fs.contains_key(k) ==> !(#[trigger] is_prefix(tmp_dir_spec(app), k) && k.len() > 3),
    ensures
        run(fs, stash_spec(app, names)) == stashed(fs, app, names),
    decreases names.len(),
{
    let live = app_dir_spec(app);
    let tmp = tmp_dir_spec(app);
    if names.len() == 0 {
        assert(stashed(fs, app, names) =~= fs);
    } else {
        let prev = names.drop_last();
        let n = names.last();
        assert forall|x: Seq<char>| #[trigger] prev.contains(x) implies names.contains(x) by {
            let j = choose|j: int| 0 <= j < prev.len() && prev[j] == x;
            assert(names[j] == x);
        }
        assert(prev.no_duplicates());
        lemma_stash(fs, app, prev);
        assert(names =~= prev.push(n));
        assert forall|x: Seq<char>| names.contains(x) <==> (prev.contains(x) || x == n) by {
            lemma_contains_push(prev, n, x);
        }
        assert(!prev.contains(n)) by {
            if prev.contains(n) {
                let j = choose|j: int| 0 <= j < prev.len() && prev[j] == n;
                assert(names[j] == names[names.len() - 1]);
            }
        }
        let m = stashed(fs, app, prev);
        let extra = if is_reserved(n) {
            Seq::<Op>::empty()
        } else {
            seq![Op::Rename(live.push(n), tmp.push(n))]
        };
        assert(stash_spec(app, names) == stash_spec(app, prev) + extra);
        lemma_run_append(fs, stash_spec(app, prev), extra);
        if is_reserved(n) {
            assert(run(m, extra) == m);
            assert forall|k: Parts| #![auto] moved_src(app, names, k) == moved_src(app, prev, k)
                && moved_dst(app, names, k) == moved_dst(app, prev, k) by {}
            assert(stashed(fs, app, names) =~= m);
        } else {
            let from = live.push(n);
            let to = tmp.push(n);
            assert(names.contains(n));
            assert(from.take(2) =~= live);
            assert(m.contains_key(from));
            assert(!is_prefix(from, to)) by {
                assert(to.subrange(0, 3)[2] == tmp_name());
            }
            lemma_run_one(m, Op::Rename(from, to));
            let after = move_tree(m, from, to);
            let want = stashed(fs, app, names);
            assert forall|k: Parts| #![auto] after.contains_key(k) <==> want.contains_key(k) by {
                lemma_key_cases(fs, app, prev, n, k);
            }
            assert forall|k: Parts| #![auto] after.contains_key(k) implies after[k] == want[k] by {
                lemma_key_cases(fs, app, prev, n, k);
            }
            assert(after =~= want);
        }
    }
}

/// One stash move, seen at one path.
proof fn lemma_key_cases(fs: Fs, app: Seq<char>, prev: Seq<Seq<char>>, n: Seq<char>, k: Parts)
    requires
        !prev.contains(n),
        !is_reserved(n),
        forall|x: Seq<char>| prev.push(n).contains(x) <==> (prev.contains(x) || x == n),
        forall|k: Parts| fs.contains_key(k) ==> !(#[trigger] is_prefix(tmp_dir_spec(app), k) && k.len() > 3),
    ensures
        ({
            let m = stashed(fs, app, prev);
            let after = move_tree(m, app_dir_spec(app).push(n), tmp_dir_spec(app).push(n));
            let want = stashed(fs, app, prev.push(n));
            m.contains_key(app_dir_spec(app).push(n)) ==> (after.contains_key(k) == want.contains_key(k)
                && (after.contains_key(k) ==> after[k] == want[k]))
        }),
{
    let live = app_dir_spec(app);
    let tmp = tmp_dir_spec(app);
    let from = live.push(n);
    let to = tmp.push(n);
    let names = prev.push(n);
    let m = stashed(fs, app, prev);
    assert(!is_prefix(from, to)) by {
        assert(to.subrange(0, 3)[2] == tmp_name());
    }
    if is_prefix(to, k) {
        let src = stash_source(app, k);
        assert(k.take(3) =~= tmp) by {
            assert(k.take(3) =~= k.subrange(0, 4).take(3));
        }
        assert(k[3] == n) by {
            assert(k.subrange(0, 4)[3] == k[3]);
        }
        assert(from + k.skip(4) =~= src);
        assert(src.take(2) =~= live);
        assert(src[2] == n);
        assert(!moved_dst(app, prev, src)) by {
            if src.len() >= 4 && src.take(3) == tmp {
                assert(src.take(3)[2] == n);
            }
        }
        assert(names.contains(n));
        assert(!is_prefix(from, k)) by {
            if is_prefix(from, k) {
                assert(k.subrange(0, 3)[2] == k[2]);
                assert(k.take(3)[2] == k[2]);
            }
        }
        assert(!fs.contains_key(k)) by {
            assert(is_prefix(tmp, k));
        }
    } else if is_prefix(from, k) {
        assert(k.take(2) =~= live) by {
            assert(k.take(2) =~= k.subrange(0, 3).take(2));
        }
        assert(k[2] == n) by {
            assert(k.subrange(0, 3)[2] == k[2]);
        }
        assert(names.contains(n));
        assert(!moved_dst(app, names, k)) by {
            if k.len() >= 4 && k.take(3) == tmp {
                assert(k.take(3)[2] == k[2]);
            }
        }
    } else {
        assert(moved_src(app, names, k) == moved_src(app, prev, k)) by {
            if k.len() >= 3 && k.take(2) == live && k[2] == n {
                assert(k.subrange(0, 3) =~= from);
            }
        }
        assert(moved_dst(app, names, k) == moved_dst(app, prev, k)) by {
            if k.len() >= 4 && k.take(3) == tmp && k[3] == n {
                assert(k.subrange(0, 4) =~= to);
            }
        }
    }
}

/// The variant's tree lists a regular file named `x` at its top.
pub open spec fn listed(tree: Seq<EntryView>, x: Seq<char>) -> bool {
    exists|j: int| 0 <= j < tree.len() && (#[trigger] tree[j]).parts == seq![x]
}

/// `k` is `<app dir>/<x>` for a file `x` of the variant's tree.
pub open spec fn copied_to(app: Seq<char>, tree: Seq<EntryView>, k: Parts) -> bool {
    k.len() == 3 && k.take(2) == app_dir_spec(app) && listed(tree, k[2])
}

/// `fs` with the files of a variant with no subdirectories copied into the
/// application's directory.
pub open spec fn populated(fs: Fs, app: Seq<char>, config: Seq<char>, tree: Seq<EntryView>) -> Fs {
    Map::new(
        |k: Parts| fs.contains_key(k) || copied_to(app, tree, k),
        |k: Parts|
            if copied_to(app, tree, k) {
                fs[variant_dir_spec(app, config).push(k[2])]
            } else {
                fs[k]
            },
    )
}

/// The variant has regular files only, none named `tmp` or `possible-configs`.
pub open spec fn flat_files(tree: Seq<EntryView>) -> bool {
    forall|j: int|
        0 <= j < tree.len() ==> {
            &&& (#[trigger] tree[j]).parts.len() == 1
            &&& !tree[j].is_dir
            &&& !is_reserved(tree[j].parts[0])
        }
}

/// Copying the files of a flat variant into a live directory that holds no
/// entry of theirs.
pub proof fn lemma_populate_flat(m: Fs, app: Seq<char>, config: Seq<char>, tree: Seq<EntryView>)
    requires
        flat_files(tree),
        forall|j: int|
            0 <= j < tree.len() ==> is_file_at(
                m,
                variant_dir_spec(app, config).push((#[trigger] tree[j]).parts[0]),
            ),
        forall|x: Seq<char>| !is_reserved(x) ==> !m.contains_key(#[trigger] app_dir_spec(app).push(x)),
    ensures
        run(m, populate_spec(app, config, tree)) == populated(m, app, config, tree),
    decreases tree.len(),
{
    let live = app_dir_spec(app);
    let variant = variant_dir_spec(app, config);
    if tree.len() == 0 {
        assert(populated(m, app, config, tree) =~= m);
    } else {
        let prev = tree.drop_last();
        let e = tree.last();
        let x = e.parts[0];
        assert(tree[tree.len() - 1] == e);
        assert forall|j: int| 0 <= j < prev.len() implies #[trigger] prev[j] == tree[j] by {}
        lemma_populate_flat(m, app, config, prev);
        let pm = populated(m, app, config, prev);
        let from = variant + e.parts;
        let to = live + e.parts;
        assert(e.parts =~= seq![x]);
        assert(from =~= variant.push(x));
        assert(to =~= live.push(x));
        assert(populate_entry_spec(app, config, e) == seq![Op::CopyFile(from, to)]);
        lemma_run_append(m, populate_spec(app, config, prev), seq![Op::CopyFile(from, to)]);
        lemma_run_one(pm, Op::CopyFile(from, to));
        assert(!copied_to(app, prev, from));
        assert(is_file_at(pm, from));
        assert(!is_dir_at(pm, to)) by {
            assert(!m.contains_key(to));
            if copied_to(app, prev, to) {
                assert(to[2] == x);
                let j = choose|j: int| 0 <= j < prev.len() && (#[trigger] prev[j]).parts == seq![to[2]];
                assert(prev[j] == tree[j]);
                assert(is_file_at(m, variant.push(prev[j].parts[0])));
            }
        }
        let after = copy_file(pm, from, to);
        let want = populated(m, app, config, tree);
        assert forall|k: Parts| #![auto] copied_to(app, tree, k) <==> (copied_to(app, prev, k) || k == to) by {
            if k == to {
                assert(to.take(2) =~= live);
                assert(to[2] == x);
                assert(tree[tree.len() - 1].parts == seq![k[2]]);
            }
            if copied_to(app, tree, k) && k != to {
                let j = choose|j: int| 0 <= j < tree.len() && (#[trigger] tree[j]).parts == seq![k[2]];
                if j == tree.len() - 1 {
                    assert(k =~= to);
                } else {
                    assert(prev[j] == tree[j]);
                }
            }
            if copied_to(app, prev, k) {
                let j = choose|j: int| 0 <= j < prev.len() && (#[trigger] prev[j]).parts == seq![k[2]];
                assert(prev[j] == tree[j]);
            }
        }
        assert(to[2] == x);
        assert(after =~= want);
    }
}

/// A path that differs from `p` at one of `p`'s components is not under `p`.
pub proof fn lemma_not_under(p: Parts, k: Parts, i: int)
    requires
        0 <= i < p.len(),
        i < k.len(),
        k[i] != p[i],
    ensures
        !is_prefix(p, k),
{
    if is_prefix(p, k) {
        assert(k.subrange(0, p.len() as int)[i] == k[i]);
    }
}

/// The names listed for the application's directory are exactly its entries.
pub open spec fn listing_matches(fs: Fs, app: Seq<char>, names: Seq<Seq<char>>) -> bool {
    &&& names.no_duplicates()
    &&& forall|n: Seq<char>|
        #![trigger names.contains(n)]
        #![trigger fs.contains_key(app_dir_spec(app).push(n))]
        names.contains(n) <==> fs.contains_key(app_dir_spec(app).push(n))
}

/// The tree lists exactly the variant's entries, each at the top, as a
/// regular file.
pub open spec fn variant_matches(fs: Fs, app: Seq<char>, config: Seq<char>, tree: Seq<EntryView>) -> bool {
    &&& forall|j: int|
        0 <= j < tree.len() ==> is_file_at(
            fs,
            variant_dir_spec(app, config).push((#[trigger] tree[j]).parts[0]),
        )
    &&& forall|k: Parts|
        #![trigger fs.contains_key(k)]
        fs.contains_key(k) && is_prefix(variant_dir_spec(app, config), k) && k.len() > 4 ==> k.len()
            == 5 && listed(tree, k[4])
}

/// `apply` with a variant that holds regular files only: every entry of the
/// application's directory but `tmp` and `possible-configs` ends up in the
/// stash with all it held; the live directory then holds exactly the
/// variant's files, with their contents, besides `tmp` and
/// `possible-configs`; and `possible-configs` is left as it was.
pub proof fn law_apply_flat_variant(fs: Fs, app: Seq<char>, config: Seq<char>, s: SnapshotView)
    requires
        fs_wf(fs),
        checks_match(fs, app, config, s),
        is_dir_at(fs, app_dir_spec(app)),
        is_dir_at(fs, variant_dir_spec(app, config)),
        !is_file_at(fs, tmp_dir_spec(app)),
        listing_matches(fs, app, s.app_entries),
        flat_files(s.variant_tree),
        variant_matches(fs, app, config, s.variant_tree),
    ensures
        apply_spec(app, config, s).1 == Ok::<(), ConfigError>(()),
        ({
            let fin = run(fs, apply_spec(app, config, s).0);
            let live = app_dir_spec(app);
            let tmp = tmp_dir_spec(app);
            let tree = s.variant_tree;
            &&& forall|x: Seq<char>|
                !is_reserved(x) ==> {
                    &&& (#[trigger] fin.contains_key(live.push(x))) == listed(tree, x)
                    &&& listed(tree, x) ==> fin[live.push(x)] == fs[variant_dir_spec(app, config).push(x)]
                }
            &&& forall|k: Parts|
                k.len() > 3 && k.take(2) == live && !is_reserved(k[2]) ==> !(
                #[trigger] fin.contains_key(k))
            &&& forall|x: Seq<char>, rest: Parts|
                !is_reserved(x) ==> {
                    &&& (#[trigger] fin.contains_key(tmp.push(x) + rest)) == fs.contains_key(
                        live.push(x) + rest,
                    )
                    &&& fin.contains_key(tmp.push(x) + rest) ==> fin[tmp.push(x) + rest]
                        == fs[live.push(x) + rest]
                }
            &&& forall|k: Parts|
                is_prefix(configs_dir_spec(app), k) ==> {
                    &&& (#[trigger] fin.contains_key(k)) == fs.contains_key(k)
                    &&& fin.contains_key(k) ==> fin[k] == fs[k]
                }
        }),
{
    let live = app_dir_spec(app);
    let tmp = tmp_dir_spec(app);
    let variant = variant_dir_spec(app, config);
    let names = s.app_entries;
    let tree = s.variant_tree;
    let r = reset_spec(app, s.tmp_is_dir);
    let st = stash_spec(app, names);
    let pop = populate_spec(app, config, tree);
    lemma_run_append(fs, r + st, pop);
    lemma_run_append(fs, r, st);
    lemma_reset_tmp(fs, app);
    let fs0 = emptied(fs, tmp);
    lemma_prefix_refl(tmp);
    // Off the stash, the reset changes nothing.
    assert forall|k: Parts| k.len() >= 3 && k[2] != tmp_name() implies #[trigger] fs0.contains_key(k)
        == fs.contains_key(k) && (fs.contains_key(k) ==> fs0[k] == fs[k]) by {
        lemma_not_under(tmp, k, 2);
    }
    assert forall|n: Seq<char>| #[trigger] names.contains(n) implies fs0.contains_key(live.push(n)) by {
        if n != tmp_name() {
            assert(live.push(n)[2] == n);
        }
    }
    assert forall|k: Parts| fs0.contains_key(k) implies !(#[trigger] is_prefix(tmp, k) && k.len() > 3) by {}
    lemma_stash(fs0, app, names);
    let m = stashed(fs0, app, names);
    assert(tmp_name() != configs_name());
    assert(variant[2] == configs_name());
    // The variant's files are still there after the stash.
    assert forall|x: Seq<char>| #![auto] m.contains_key(variant.push(x)) == fs.contains_key(variant.push(x))
        && (fs.contains_key(variant.push(x)) ==> m[variant.push(x)] == fs[variant.push(x)]) by {
        let k = variant.push(x);
        assert(k[2] == configs_name());
        assert(!moved_src(app, names, k));
        assert(!moved_dst(app, names, k)) by {
            if k.len() >= 4 && k.take(3) == tmp {
                assert(k.take(3)[2] == k[2]);
            }
        }
    }
    assert forall|x: Seq<char>| !is_reserved(x) implies !m.contains_key(#[trigger] live.push(x)) by {
        let k = live.push(x);
        assert(k[2] == x);
        assert(k.take(2) =~= live);
        assert(!moved_dst(app, names, k));
        if fs.contains_key(k) {
            assert(names.contains(x));
        }
    }
    assert forall|j: int| 0 <= j < tree.len() implies is_file_at(
        m,
        variant.push((#[trigger] tree[j]).parts[0]),
    ) by {}
    lemma_populate_flat(m, app, config, tree);
    let fin = populated(m, app, config, tree);
    assert(run(fs, apply_spec(app, config, s).0) == fin) by {
        assert(apply_spec(app, config, s).0 == r + st + pop);
    }
    assert forall|x: Seq<char>| !is_reserved(x) implies {
        &&& (#[trigger] fin.contains_key(live.push(x))) == listed(tree, x)
        &&& listed(tree, x) ==> fin[live.push(x)] == fs[variant.push(x)]
    } by {
        let k = live.push(x);
        assert(k.take(2) =~= live);
        assert(k[2] == x);
        assert(!m.contains_key(k));
    }
    assert forall|k: Parts| k.len() > 3 && k.take(2) == live && !is_reserved(k[2]) implies !(
    #[trigger] fin.contains_key(k)) by {
        assert(!copied_to(app, tree, k));
        assert(!moved_dst(app, names, k)) by {
            if k.len() >= 4 && k.take(3) == tmp {
                assert(k.take(3)[2] == k[2]);
            }
        }
        if fs0.contains_key(k) {
            assert(fs.contains_key(k));
            assert(k.take(3) =~= live.push(k[2]));
            assert(is_dir_at(fs, k.take(3)));
            assert(names.contains(k[2]));
            assert(moved_src(app, names, k));
        }
    }
    assert forall|x: Seq<char>, rest: Parts| !is_reserved(x) implies {
        &&& (#[trigger] fin.contains_key(tmp.push(x) + rest)) == fs.contains_key(live.push(x) + rest)
        &&& fin.contains_key(tmp.push(x) + rest) ==> fin[tmp.push(x) + rest] == fs[live.push(x) + rest]
    } by {
        let k = tmp.push(x) + rest;
        let src = live.push(x) + rest;
        assert(k.take(3) =~= tmp);
        assert(k[3] == x);
        assert(k.take(2) =~= live);
        assert(k[2] == tmp_name());
        assert(!copied_to(app, tree, k));
        assert(!moved_src(app, names, k));
        assert(stash_source(app, k) =~= src);
        assert(src[2] == x);
        assert(is_prefix(tmp, k)) by {
            assert(k.subrange(0, 3) =~= tmp);
        }
        if fs.contains_key(src) {
            assert(src.take(3) =~= live.push(x));
            if rest.len() > 0 {
                assert(is_dir_at(fs, src.take(3)));
            } else {
                assert(src =~= live.push(x));
            }
            assert(names.contains(x));
        }
    }
    assert forall|k: Parts| is_prefix(configs_dir_spec(app), k) implies {
        &&& (#[trigger] fin.contains_key(k)) == fs.contains_key(k)
        &&& fin.contains_key(k) ==> fin[k] == fs[k]
    } by {
        assert(k[2] == configs_name()) by {
            assert(k.subrange(0, 3)[2] == k[2]);
        }
        assert(!moved_src(app, names, k));
        assert(!moved_dst(app, names, k)) by {
            if k.len() >= 4 && k.take(3) == tmp {
                assert(k.take(3)[2] == k[2]);
            }
        }
        if copied_to(app, tree, k) {
            let j = choose|j: int| 0 <= j < tree.len() && (#[trigger] tree[j]).parts == seq![k[2]];
            assert(tree[j].parts[0] == k[2]);
        }
    }
}

/// Creating directories where no file stands in the way keeps every
/// ancestor a directory.
pub proof fn lemma_create_dirs_wf(fs: Fs, p: Parts)
    requires
        fs_wf(fs),
        forall|j: int| 0 < j <= p.len() ==> !is_file_at(fs, #[trigger] p.take(j)),
    ensures
        fs_wf(create_dirs(fs, p)),
{
    let c = create_dirs(fs, p);
    if !fs.contains_key(p) {
        assert forall|k: Parts, j: int|
            #![trigger c.contains_key(k), k.take(j)]
            c.contains_key(k) && 0 < j < k.len() implies is_dir_at(c, k.take(j)) by {
            if !fs.contains_key(k) {
                assert(k.take(j) =~= p.take(j));
                assert(!is_file_at(fs, p.take(j)));
                assert(is_prefix(k.take(j), p));
            }
        }
    }
}

/// `add` of a new variant, then `apply` of it: the variant is empty, so
/// every entry of the application's directory but `tmp` and
/// `possible-configs` leaves the live directory and stands in the stash with
/// all it held.
pub proof fn law_add_then_apply(fs: Fs, app: Seq<char>, config: Seq<char>, s: SnapshotView)
    requires
        fs_wf(fs),
        is_dir_at(fs, app_dir_spec(app)),
        !fs.contains_key(variant_dir_spec(app, config)),
        !is_file_at(fs, configs_dir_spec(app)),
        !is_file_at(fs, tmp_dir_spec(app)),
        s.variant_tree.len() == 0,
        add_spec(app, config, true, false) is Ok,
        checks_match(run(fs, add_spec(app, config, true, false)->Ok_0), app, config, s),
        listing_matches(run(fs, add_spec(app, config, true, false)->Ok_0), app, s.app_entries),
    ensures
        apply_spec(app, config, s).1 == Ok::<(), ConfigError>(()),
        ({
            let before = run(fs, add_spec(app, config, true, false)->Ok_0);
            let fin = run(before, apply_spec(app, config, s).0);
            let live = app_dir_spec(app);
            let tmp = tmp_dir_spec(app);
            &&& forall|k: Parts|
                k.len() > 2 && k.take(2) == live && !is_reserved(k[2]) ==> !(
                #[trigger] fin.contains_key(k))
            &&& forall|x: Seq<char>, rest: Parts|
                !is_reserved(x) ==> {
                    &&& (#[trigger] fin.contains_key(tmp.push(x) + rest)) == before.contains_key(
                        live.push(x) + rest,
                    )
                    &&& fin.contains_key(tmp.push(x) + rest) ==> fin[tmp.push(x) + rest]
                        == before[live.push(x) + rest]
                }
        }),
{
    let live = app_dir_spec(app);
    let tmp = tmp_dir_spec(app);
    let variant = variant_dir_spec(app, config);
    lemma_run_one(fs, Op::CreateDirAll(variant));
    let before = create_dirs(fs, variant);
    assert(variant.take(4) =~= variant);
    assert(variant.take(3) =~= configs_dir_spec(app));
    assert(variant.take(2) =~= live);
    assert(live.take(1) =~= variant.take(1));
    assert forall|j: int| 0 < j <= variant.len() implies !is_file_at(fs, #[trigger] variant.take(j)) by {}
    lemma_create_dirs_wf(fs, variant);
    lemma_prefix_refl(variant);
    assert(is_prefix(live, variant)) by {
        assert(variant.subrange(0, 2) =~= live);
    }
    assert(!is_prefix(tmp, variant)) by {
        lemma_not_under(tmp, variant, 2);
    }
    assert(!is_file_at(before, tmp)) by {
        if !fs.contains_key(tmp) && is_prefix(tmp, variant) {
        }
    }
    assert forall|k: Parts|
        #![trigger before.contains_key(k)]
        before.contains_key(k) && is_prefix(variant, k) && k.len() > 4 implies k.len() == 5 && listed(
        s.variant_tree,
        k[4],
    ) by {
        if fs.contains_key(k) {
            assert(k.take(4) =~= variant);
        } else {
            assert(k.len() <= variant.len());
        }
    }
    law_apply_flat_variant(before, app, config, s);
    let fin = run(before, apply_spec(app, config, s).0);
    assert forall|k: Parts| k.len() > 2 && k.take(2) == live && !is_reserved(k[2]) implies !(
    #[trigger] fin.contains_key(k)) by {
        if k.len() == 3 {
            assert(k =~= live.push(k[2]));
            assert(!listed(s.variant_tree, k[2]));
        }
    }
}

} // verus!
