//! Paths of the managed directories, as sequences of components relative to
//! the user's home directory.
use vstd::prelude::*;

verus! {

/// A path as the sequence of its components.
pub type Parts = Seq<Seq<char>>;

/// The components of an executable path.
pub open spec fn parts_of(v: Seq<String>) -> Parts {
    v.map_values(|s: String| s@)
}

/// `p` is `k` itself or one of its ancestors.
pub open spec fn is_prefix(p: Parts, k: Parts) -> bool {
    p.len() <= k.len() && k.subrange(0, p.len() as int) == p
}

/// The directory under the home directory that holds applications' configurations.
pub open spec fn config_root_name() -> Seq<char> {
    seq!['.', 'c', 'o', 'n', 'f', 'i', 'g']
}

/// The name of the stash directory inside an application's directory.
pub open spec fn tmp_name() -> Seq<char> {
    seq!['t', 'm', 'p']
}

/// The name of the directory inside an application's directory that holds
/// the variants.
pub open spec fn configs_name() -> Seq<char> {
    seq!['p', 'o', 's', 's', 'i', 'b', 'l', 'e', '-', 'c', 'o', 'n', 'f', 'i', 'g', 's']
}

/// `<home>/.config/<app>`
pub open spec fn app_dir_spec(app: Seq<char>) -> Parts {
    seq![config_root_name(), app]
}

/// `<home>/.config/<app>/tmp`
pub open spec fn tmp_dir_spec(app: Seq<char>) -> Parts {
    app_dir_spec(app).push(tmp_name())
}

/// `<home>/.config/<app>/possible-configs`
pub open spec fn configs_dir_spec(app: Seq<char>) -> Parts {
    app_dir_spec(app).push(configs_name())
}

/// `<home>/.config/<app>/possible-configs/<config>`
pub open spec fn variant_dir_spec(app: Seq<char>, config: Seq<char>) -> Parts {
    configs_dir_spec(app).push(config)
}

/// Entries of an application's directory that are never stashed.
pub open spec fn is_reserved(name: Seq<char>) -> bool {
    name == tmp_name() || name == configs_name()
}

/// Returns whether `name` is `tmp` or `possible-configs`.
pub fn is_reserved_name(name: &String) -> (r: bool)
    ensures
        r == is_reserved(name@),
{
    let t = "tmp".to_owned();
    let c = "possible-configs".to_owned();
    proof {
        reveal_strlit("tmp");
        reveal_strlit("possible-configs");
        assert("tmp"@ =~= tmp_name());
        assert("possible-configs"@ =~= configs_name());
    }
    name.eq(&t) || name.eq(&c)
}

/// `base` followed by the components of `rel` from index `from` on.
pub fn join_from(base: &Vec<String>, rel: &Vec<String>, from: usize) -> (r: Vec<String>)
    requires
        from <= rel.len(),
    ensures
        parts_of(r@) == parts_of(base@) + parts_of(rel@).skip(from as int),
{
    let mut r: Vec<String> = Vec::new();
    let mut i: usize = 0;
    while i < base.len()
        invariant
            i <= base.len(),
            r@ == base@.take(i as int),
        decreases base.len() - i,
    {
        r.push(base[i].clone());
        i = i + 1;
        assert(r@ =~= base@.take(i as int));
    }
    assert(base@.take(i as int) =~= base@);
    let mut j: usize = from;
    while j < rel.len()
        invariant
            from <= j <= rel.len(),
            r@ == base@ + rel@.subrange(from as int, j as int),
        decreases rel.len() - j,
    {
        r.push(rel[j].clone());
        j = j + 1;
        assert(r@ =~= base@ + rel@.subrange(from as int, j as int));
    }
    assert(r@ =~= base@ + rel@.skip(from as int));
    assert(parts_of(r@) =~= parts_of(base@) + parts_of(rel@).skip(from as int));
    r
}

/// `base` followed by `name`.
pub fn child(base: &Vec<String>, name: &String) -> (r: Vec<String>)
    ensures
        parts_of(r@) == parts_of(base@).push(name@),
{
    let mut r = join_from(base, &Vec::new(), 0);
    proof {
        assert(parts_of(Seq::<String>::empty()).skip(0) =~= Seq::<Seq<char>>::empty());
        assert(parts_of(r@) =~= parts_of(base@));
    }
    r.push(name.clone());
    assert(parts_of(r@) =~= parts_of(base@).push(name@));
    r
}

/// The components of `<home>/.config/<app>`.
pub fn app_dir(app: &String) -> (r: Vec<String>)
    ensures
        parts_of(r@) == app_dir_spec(app@),
{
    let root = ".config".to_owned();
    proof {
        reveal_strlit(".config");
        assert(".config"@ =~= config_root_name());
    }
    let r = vec![root, app.clone()];
    assert(parts_of(r@) =~= app_dir_spec(app@));
    r
}

/// The components of `<home>/.config/<app>/tmp`.
pub fn tmp_dir(app: &String) -> (r: Vec<String>)
    ensures
        parts_of(r@) == tmp_dir_spec(app@),
{
    let t = "tmp".to_owned();
    proof {
        reveal_strlit("tmp");
        assert("tmp"@ =~= tmp_name());
    }
    child(&app_dir(app), &t)
}

/// The components of `<home>/.config/<app>/possible-configs/<config>`.
pub fn variant_dir(app: &String, config: &String) -> (r: Vec<String>)
    ensures
        parts_of(r@) == variant_dir_spec(app@, config@),
{
    let c = "possible-configs".to_owned();
    proof {
        reveal_strlit("possible-configs");
        assert("possible-configs"@ =~= configs_name());
    }
    child(&child(&app_dir(app), &c), config)
}

} // verus!
