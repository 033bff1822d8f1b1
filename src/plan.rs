//! Planning of the filesystem operations of each command: what is observed
//! on disk goes in, the operations to perform and the command's outcome come
//! out.
use vstd::prelude::*;
use crate::paths::{
    app_dir, app_dir_spec, child, is_reserved, is_reserved_name, join_from, parts_of, tmp_dir,
    tmp_dir_spec, variant_dir, variant_dir_spec, Parts,
};

verus! {

/// A fatal condition that ends a command with a failure.
#[derive(Clone, Copy, Debug, PartialEq, Eq, Structural)]
pub enum ConfigError {
    /// `<home>/.config/<app>` is not a directory.
    AppDirMissing,
    /// The selected variant directory is not a directory.
    VariantMissing,
    /// The variant directory to create is already present.
    VariantExists,
}

/// One filesystem operation, with paths relative to the home directory.
#[derive(Clone, Debug, PartialEq, Eq)]
pub enum Action {
    /// Remove a directory and everything under it.
    RemoveAll(Vec<String>),
    /// Create a directory and any missing ancestors.
    CreateDirAll(Vec<String>),
    /// Move an entry (a whole subtree for a directory) to a new path.
    Rename(Vec<String>, Vec<String>),
    /// Copy a regular file, overwriting the destination.
    CopyFile(Vec<String>, Vec<String>),
}

/// The mathematical form of an [`Action`].
pub enum Op {
    RemoveAll(Parts),
    CreateDirAll(Parts),
    Rename(Parts, Parts),
    CopyFile(Parts, Parts),
}

impl View for Action {
    type V = Op;

    open spec fn view(&self) -> Op {
        match self {
            Action::RemoveAll(p) => Op::RemoveAll(parts_of(p@)),
            Action::CreateDirAll(p) => Op::CreateDirAll(parts_of(p@)),
            Action::Rename(a, b) => Op::Rename(parts_of(a@), parts_of(b@)),
            Action::CopyFile(a, b) => Op::CopyFile(parts_of(a@), parts_of(b@)),
        }
    }
}

/// The mathematical form of a list of actions.
pub open spec fn ops_of(v: Seq<Action>) -> Seq<Op> {
    v.map_values(|a: Action| a@)
}

/// An entry of a directory tree, by its path relative to the tree's root.
#[derive(Clone, Debug, PartialEq, Eq)]
pub struct TreeEntry {
    pub parts: Vec<String>,
    pub is_dir: bool,
}

/// The mathematical form of a [`TreeEntry`].
pub struct EntryView {
    pub parts: Parts,
    pub is_dir: bool,
}

impl View for TreeEntry {
    type V = EntryView;

    open spec fn view(&self) -> EntryView {
        EntryView { parts: parts_of(self.parts@), is_dir: self.is_dir }
    }
}

/// The mathematical form of a tree listing.
pub open spec fn entries_of(v: Seq<TreeEntry>) -> Seq<EntryView> {
    v.map_values(|e: TreeEntry| e@)
}

/// What `apply` reads from disk before it acts.
#[derive(Clone, Debug)]
pub struct Snapshot {
    /// `<home>/.config/<app>` is a directory.
    pub app_is_dir: bool,
    /// `<home>/.config/<app>/tmp` is a directory.
    pub tmp_is_dir: bool,
    /// `<home>/.config/<app>/possible-configs/<config>` is a directory.
    pub variant_is_dir: bool,
    /// The names of the entries directly under the application's directory.
    pub app_entries: Vec<String>,
    /// The entries under the variant directory, parents before children.
    pub variant_tree: Vec<TreeEntry>,
}

/// The mathematical form of a [`Snapshot`].
pub struct SnapshotView {
    pub app_is_dir: bool,
    pub tmp_is_dir: bool,
    pub variant_is_dir: bool,
    pub app_entries: Seq<Seq<char>>,
    pub variant_tree: Seq<EntryView>,
}

impl View for Snapshot {
    type V = SnapshotView;

    open spec fn view(&self) -> SnapshotView {
        SnapshotView {
            app_is_dir: self.app_is_dir,
            tmp_is_dir: self.tmp_is_dir,
            variant_is_dir: self.variant_is_dir,
            app_entries: parts_of(self.app_entries@),
            variant_tree: entries_of(self.variant_tree@),
        }
    }
}

/// The operations that `apply` performs, and its outcome.
#[derive(Debug)]
pub struct ApplyPlan {
    pub actions: Vec<Action>,
    pub result: Result<(), ConfigError>,
}

/// The directory that copying the tree at `src` into `dest` creates first:
/// `dest` joined with the last component of `src`.
pub open spec fn eager_dir(dest: Parts, src: Parts) -> Parts {
    if src.len() == 0 {
        dest
    } else {
        dest.push(src.last())
    }
}

/// Operations that reset the stash directory.
pub open spec fn reset_spec(app: Seq<char>, tmp_is_dir: bool) -> Seq<Op> {
    if tmp_is_dir {
        seq![Op::RemoveAll(tmp_dir_spec(app)), Op::CreateDirAll(tmp_dir_spec(app))]
    } else {
        seq![Op::CreateDirAll(tmp_dir_spec(app))]
    }
}

/// Moves of every listed entry but `tmp` and `possible-configs` into the stash.
pub open spec fn stash_spec(app: Seq<char>, names: Seq<Seq<char>>) -> Seq<Op>
    decreases names.len(),
{
    if names.len() == 0 {
        Seq::empty()
    } else {
        let n = names.last();
        stash_spec(app, names.drop_last()) + if is_reserved(n) {
            Seq::empty()
        } else {
            seq![Op::Rename(app_dir_spec(app).push(n), tmp_dir_spec(app).push(n))]
        }
    }
}

/// What copying the tree at `src` into `dest` does for one of its entries.
pub open spec fn entry_copy_spec(src: Parts, dest: Parts, e: EntryView) -> Seq<Op> {
    if e.is_dir {
        seq![
            Op::CreateDirAll(dest + e.parts),
            Op::CreateDirAll(eager_dir(dest + e.parts, src + e.parts)),
        ]
    } else {
        seq![Op::CopyFile(src + e.parts, dest + e.parts)]
    }
}

pub open spec fn copy_entries_spec(src: Parts, dest: Parts, tree: Seq<EntryView>) -> Seq<Op>
    decreases tree.len(),
{
    if tree.len() == 0 {
        Seq::empty()
    } else {
        copy_entries_spec(src, dest, tree.drop_last()) + entry_copy_spec(src, dest, tree.last())
    }
}

/// Copying the tree at `src` into the directory `dest`.
pub open spec fn copy_dir_spec(
    src: Parts,
    dest: Parts,
    src_is_dir: bool,
    dest_is_dir: bool,
    tree: Seq<EntryView>,
) -> Seq<Op> {
    if !src_is_dir || !dest_is_dir || src == dest {
        Seq::empty()
    } else {
        seq![Op::CreateDirAll(eager_dir(dest, src))] + copy_entries_spec(src, dest, tree)
    }
}

/// What populating the application's directory does for one entry of the
/// variant: a top-level file is copied in, a top-level directory is copied
/// with the application's directory as destination.
pub open spec fn populate_entry_spec(app: Seq<char>, config: Seq<char>, e: EntryView) -> Seq<Op> {
    let variant = variant_dir_spec(app, config);
    let live = app_dir_spec(app);
    if e.parts.len() <= 1 {
        if e.is_dir {
            seq![Op::CreateDirAll(eager_dir(live, variant + e.parts))]
        } else {
            seq![Op::CopyFile(variant + e.parts, live + e.parts)]
        }
    } else {
        entry_copy_spec(
            variant.push(e.parts[0]),
            live,
            EntryView { parts: e.parts.skip(1), is_dir: e.is_dir },
        )
    }
}

pub open spec fn populate_spec(app: Seq<char>, config: Seq<char>, tree: Seq<EntryView>) -> Seq<Op>
    decreases tree.len(),
{
    if tree.len() == 0 {
        Seq::empty()
    } else {
        populate_spec(app, config, tree.drop_last()) + populate_entry_spec(app, config, tree.last())
    }
}

/// The operations of `apply` and its outcome.
pub open spec fn apply_spec(app: Seq<char>, config: Seq<char>, s: SnapshotView) -> (Seq<Op>, Result<(), ConfigError>) {
    if !s.app_is_dir {
        (Seq::empty(), Err(ConfigError::AppDirMissing))
    } else if !s.variant_is_dir {
        (reset_spec(app, s.tmp_is_dir), Err(ConfigError::VariantMissing))
    } else {
        (
            reset_spec(app, s.tmp_is_dir) + stash_spec(app, s.app_entries) + populate_spec(
                app,
                config,
                s.variant_tree,
            ),
            Ok(()),
        )
    }
}

/// The operations of `add`, or its failure.
pub open spec fn add_spec(
    app: Seq<char>,
    config: Seq<char>,
    app_is_dir: bool,
    variant_exists: bool,
) -> Result<Seq<Op>, ConfigError> {
    if !app_is_dir {
        Err(ConfigError::AppDirMissing)
    } else if variant_exists {
        Err(ConfigError::VariantExists)
    } else {
        Ok(seq![Op::CreateDirAll(variant_dir_spec(app, config))])
    }
}

/// The operations of `delete`, or its failure.
pub open spec fn delete_spec(
    app: Seq<char>,
    config: Seq<char>,
    app_is_dir: bool,
    variant_exists: bool,
) -> Result<Seq<Op>, ConfigError> {
    if !app_is_dir {
        Err(ConfigError::AppDirMissing)
    } else if variant_exists {
        Ok(seq![Op::RemoveAll(variant_dir_spec(app, config))])
    } else {
        Ok(Seq::empty())
    }
}

/// Resolves `<home>/.config/<app>`, which must be a directory.
pub fn get_app_dir(app: &String, app_is_dir: bool) -> (r: Result<Vec<String>, ConfigError>)
    ensures
        match r {
            Ok(p) => app_is_dir && parts_of(p@) == app_dir_spec(app@),
            Err(e) => !app_is_dir && e == ConfigError::AppDirMissing,
        },
{
    if !app_is_dir {
        return Err(ConfigError::AppDirMissing);
    }
    Ok(app_dir(app))
}

/// Resolves `<home>/.config/<app>/possible-configs/<config>`; the application's
/// directory and the variant directory must both be directories.
pub fn select_config(app: &String, config: &String, app_is_dir: bool, variant_is_dir: bool) -> (r:
    Result<Vec<String>, ConfigError>)
    ensures
        match r {
            Ok(p) => app_is_dir && variant_is_dir && parts_of(p@) == variant_dir_spec(app@, config@),
            Err(e) => if !app_is_dir {
                e == ConfigError::AppDirMissing
            } else {
                !variant_is_dir && e == ConfigError::VariantMissing
            },
        },
{
    let _app_dir = get_app_dir(app, app_is_dir)?;
    if !variant_is_dir {
        return Err(ConfigError::VariantMissing);
    }
    Ok(variant_dir(app, config))
}

fn push_action(v: &mut Vec<Action>, a: Action)
    ensures
        ops_of(final(v)@) == ops_of(old(v)@).push(a@),
{
    let ghost before = v@;
    v.push(a);
    assert(ops_of(v@) =~= ops_of(before).push(a@));
}

/// The operations that empty the stash directory: it is removed if present,
/// then created.
pub fn reset_tmp_dir(app: &String, tmp_is_dir: bool) -> (r: Vec<Action>)
    ensures
        ops_of(r@) == reset_spec(app@, tmp_is_dir),
{
    let mut r: Vec<Action> = Vec::new();
    if tmp_is_dir {
        push_action(&mut r, Action::RemoveAll(tmp_dir(app)));
    }
    push_action(&mut r, Action::CreateDirAll(tmp_dir(app)));
    assert(ops_of(r@) =~= reset_spec(app@, tmp_is_dir));
    r
}

/// The moves that stash the application's directory: every listed entry but
/// `tmp` and `possible-configs` goes into `tmp` under its own name, in the
/// order listed.
pub fn stash(app: &String, entries: &Vec<String>) -> (r: Vec<Action>)
    ensures
        ops_of(r@) == stash_spec(app@, parts_of(entries@)),
{
    let live = app_dir(app);
    let tmp = tmp_dir(app);
    let mut r: Vec<Action> = Vec::new();
    let mut i: usize = 0;
    while i < entries.len()
        invariant
            i <= entries.len(),
            parts_of(live@) == app_dir_spec(app@),
            parts_of(tmp@) == tmp_dir_spec(app@),
            ops_of(r@) == stash_spec(app@, parts_of(entries@).take(i as int)),
        decreases entries.len() - i,
    {
        let name = &entries[i];
        proof {
            assert(parts_of(entries@).take(i + 1).drop_last() =~= parts_of(entries@).take(i as int));
        }
        if !is_reserved_name(name) {
            push_action(&mut r, Action::Rename(child(&live, name), child(&tmp, name)));
        }
        i = i + 1;
        assert(ops_of(r@) =~= stash_spec(app@, parts_of(entries@).take(i as int)));
    }
    assert(parts_of(entries@).take(i as int) =~= parts_of(entries@));
    r
}

/// Appends what copying the tree at `src` into `dest` does for the entry at
/// `rel` from index `from` on.
fn push_entry_copy(
    r: &mut Vec<Action>,
    src: &Vec<String>,
    dest: &Vec<String>,
    rel: &Vec<String>,
    from: usize,
    is_dir: bool,
)
    requires
        from <= rel.len(),
    ensures
        ops_of(final(r)@) == ops_of(old(r)@) + entry_copy_spec(
            parts_of(src@),
            parts_of(dest@),
            EntryView { parts: parts_of(rel@).skip(from as int), is_dir },
        ),
{
    let ghost before = ops_of(r@);
    let ghost e = EntryView { parts: parts_of(rel@).skip(from as int), is_dir };
    let source = join_from(src, rel, from);
    let target = join_from(dest, rel, from);
    if is_dir {
        let eager = if source.len() == 0 {
            join_from(&target, &Vec::new(), 0)
        } else {
            child(&target, &source[source.len() - 1])
        };
        proof {
            assert(parts_of(Seq::<String>::empty()).skip(0) =~= Seq::<Seq<char>>::empty());
            assert(parts_of(target@) + Seq::<Seq<char>>::empty() =~= parts_of(target@));
        }
        push_action(r, Action::CreateDirAll(target));
        push_action(r, Action::CreateDirAll(eager));
    } else {
        push_action(r, Action::CopyFile(source, target));
    }
    assert(ops_of(r@) =~= before + entry_copy_spec(parts_of(src@), parts_of(dest@), e));
}

/// Returns whether two paths are equal.
pub fn same_path(a: &Vec<String>, b: &Vec<String>) -> (r: bool)
    ensures
        r == (parts_of(a@) == parts_of(b@)),
{
    if a.len() != b.len() {
        assert(parts_of(a@).len() != parts_of(b@).len());
        return false;
    }
    let mut i: usize = 0;
    while i < a.len()
        invariant
            i <= a.len() == b.len(),
            parts_of(a@).take(i as int) == parts_of(b@).take(i as int),
        decreases a.len() - i,
    {
        if !a[i].eq(&b[i]) {
            assert(parts_of(a@)[i as int] != parts_of(b@)[i as int]);
            return false;
        }
        i = i + 1;
        assert(parts_of(a@).take(i as int) =~= parts_of(b@).take(i as int));
    }
    assert(parts_of(a@) =~= parts_of(a@).take(i as int));
    assert(parts_of(b@) =~= parts_of(b@).take(i as int));
    true
}

/// The operations that copy the tree at `src` into the directory `dest`.
///
/// Nothing is done unless both are directories and they differ. Otherwise
/// `dest/<last component of src>` is created first; then, for each entry of
/// the tree at relative path `q`, a directory becomes `dest/q` together with
/// `dest/q/<last component of q>`, and a file is copied to `dest/q`.
pub fn copy_dir(
    src: &Vec<String>,
    dest: &Vec<String>,
    src_is_dir: bool,
    dest_is_dir: bool,
    tree: &Vec<TreeEntry>,
) -> (r: Vec<Action>)
    ensures
        ops_of(r@) == copy_dir_spec(
            parts_of(src@),
            parts_of(dest@),
            src_is_dir,
            dest_is_dir,
            entries_of(tree@),
        ),
{
    let mut r: Vec<Action> = Vec::new();
    if !src_is_dir || !dest_is_dir || same_path(src, dest) {
        return r;
    }
    let eager = if src.len() == 0 {
        join_from(dest, &Vec::new(), 0)
    } else {
        child(dest, &src[src.len() - 1])
    };
    proof {
        assert(parts_of(Seq::<String>::empty()).skip(0) =~= Seq::<Seq<char>>::empty());
        assert(parts_of(dest@) + Seq::<Seq<char>>::empty() =~= parts_of(dest@));
    }
    push_action(&mut r, Action::CreateDirAll(eager));
    let ghost head = ops_of(r@);
    let mut i: usize = 0;
    while i < tree.len()
        invariant
            i <= tree.len(),
            ops_of(r@) == head + copy_entries_spec(
                parts_of(src@),
                parts_of(dest@),
                entries_of(tree@).take(i as int),
            ),
        decreases tree.len() - i,
    {
        let e = &tree[i];
        proof {
            assert(entries_of(tree@).take(i + 1).drop_last() =~= entries_of(tree@).take(i as int));
            assert(parts_of(e.parts@).skip(0) =~= parts_of(e.parts@));
        }
        push_entry_copy(&mut r, src, dest, &e.parts, 0, e.is_dir);
        i = i + 1;
        assert(ops_of(r@) =~= head + copy_entries_spec(
            parts_of(src@),
            parts_of(dest@),
            entries_of(tree@).take(i as int),
        ));
    }
    assert(entries_of(tree@).take(i as int) =~= entries_of(tree@));
    r
}

/// The operations that populate the application's directory from the tree
/// of the variant `config`.
pub fn populate(app: &String, config: &String, tree: &Vec<TreeEntry>) -> (r: Vec<Action>)
    ensures
        ops_of(r@) == populate_spec(app@, config@, entries_of(tree@)),
{
    let live = app_dir(app);
    let variant = variant_dir(app, config);
    let mut r: Vec<Action> = Vec::new();
    let mut i: usize = 0;
    while i < tree.len()
        invariant
            i <= tree.len(),
            parts_of(live@) == app_dir_spec(app@),
            parts_of(variant@) == variant_dir_spec(app@, config@),
            ops_of(r@) == populate_spec(app@, config@, entries_of(tree@).take(i as int)),
        decreases tree.len() - i,
    {
        let e = &tree[i];
        let ghost before = ops_of(r@);
        proof {
            assert(entries_of(tree@).take(i + 1).drop_last() =~= entries_of(tree@).take(i as int));
        }
        if e.parts.len() <= 1 {
            if e.is_dir {
                if e.parts.len() == 0 {
                    push_action(&mut r, Action::CreateDirAll(child(&live, config)));
                    proof {
                        assert(parts_of(variant@) + parts_of(e.parts@) =~= parts_of(variant@));
                    }
                } else {
                    push_action(&mut r, Action::CreateDirAll(child(&live, &e.parts[0])));
                    proof {
                        assert((parts_of(variant@) + parts_of(e.parts@)).last() == e.parts@[0]@);
                    }
                }
            } else {
                push_action(
                    &mut r,
                    Action::CopyFile(join_from(&variant, &e.parts, 0), join_from(&live, &e.parts, 0)),
                );
                proof {
                    assert(parts_of(e.parts@).skip(0) =~= parts_of(e.parts@));
                }
            }
        } else {
            let top = child(&variant, &e.parts[0]);
            push_entry_copy(&mut r, &top, &live, &e.parts, 1, e.is_dir);
        }
        assert(ops_of(r@) =~= before + populate_entry_spec(app@, config@, e@));
        i = i + 1;
        assert(ops_of(r@) =~= populate_spec(app@, config@, entries_of(tree@).take(i as int)));
    }
    assert(entries_of(tree@).take(i as int) =~= entries_of(tree@));
    r
}

fn append_actions(r: &mut Vec<Action>, mut more: Vec<Action>)
    ensures
        ops_of(final(r)@) == ops_of(old(r)@) + ops_of(more@),
{
    let ghost before = r@;
    let ghost added = more@;
    r.append(&mut more);
    assert(ops_of(r@) =~= ops_of(before) + ops_of(added));
}

/// Plans the switch of `app` to the variant `config`.
///
/// When the application's directory is missing, nothing is done. Otherwise
/// the stash directory is reset; then, when the variant is missing, the
/// command fails there. Otherwise every entry of the application's directory
/// but `tmp` and `possible-configs` is moved into the stash and the variant
/// is copied in.
pub fn apply(app: &String, config: &String, snap: &Snapshot) -> (r: ApplyPlan)
    ensures
        ops_of(r.actions@) == apply_spec(app@, config@, snap@).0,
        r.result == apply_spec(app@, config@, snap@).1,
{
    if let Err(e) = get_app_dir(app, snap.app_is_dir) {
        return ApplyPlan { actions: Vec::new(), result: Err(e) };
    }
    let mut actions = reset_tmp_dir(app, snap.tmp_is_dir);
    if let Err(e) = select_config(app, config, snap.app_is_dir, snap.variant_is_dir) {
        return ApplyPlan { actions, result: Err(e) };
    }
    append_actions(&mut actions, stash(app, &snap.app_entries));
    append_actions(&mut actions, populate(app, config, &snap.variant_tree));
    ApplyPlan { actions, result: Ok(()) }
}

/// Plans the creation of the empty variant `config` of `app`.
pub fn add(app: &String, config: &String, app_is_dir: bool, variant_exists: bool) -> (r: Result<
    Vec<Action>,
    ConfigError,
>)
    ensures
        match (r, add_spec(app@, config@, app_is_dir, variant_exists)) {
            (Ok(v), Ok(s)) => ops_of(v@) == s,
            (Err(e), Err(s)) => e == s,
            _ => false,
        },
{
    get_app_dir(app, app_is_dir)?;
    if variant_exists {
        return Err(ConfigError::VariantExists);
    }
    let mut r: Vec<Action> = Vec::new();
    push_action(&mut r, Action::CreateDirAll(variant_dir(app, config)));
    assert(ops_of(r@) =~= seq![Op::CreateDirAll(variant_dir_spec(app@, config@))]);
    Ok(r)
}

/// Plans the removal of the variant `config` of `app`; a missing variant is
/// no error.
pub fn delete(app: &String, config: &String, app_is_dir: bool, variant_exists: bool) -> (r:
    Result<Vec<Action>, ConfigError>)
    ensures
        match (r, delete_spec(app@, config@, app_is_dir, variant_exists)) {
            (Ok(v), Ok(s)) => ops_of(v@) == s,
            (Err(e), Err(s)) => e == s,
            _ => false,
        },
{
    get_app_dir(app, app_is_dir)?;
    let mut r: Vec<Action> = Vec::new();
    if variant_exists {
        push_action(&mut r, Action::RemoveAll(variant_dir(app, config)));
        assert(ops_of(r@) =~= seq![Op::RemoveAll(variant_dir_spec(app@, config@))]);
    } else {
        assert(ops_of(r@) =~= Seq::<Op>::empty());
    }
    Ok(r)
}

} // verus!
