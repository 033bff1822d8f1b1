use config_switch::paths::{app_dir, child, is_reserved_name, join_from, tmp_dir, variant_dir};
use config_switch::plan::{
    add, apply, copy_dir, delete, get_app_dir, populate, reset_tmp_dir, same_path, select_config,
    stash, Action, ConfigError, Snapshot, TreeEntry,
};

fn p(parts: &[&str]) -> Vec<String> {
    parts.iter().map(|s| s.to_string()).collect()
}

fn s(x: &str) -> String {
    x.to_string()
}

fn file(parts: &[&str]) -> TreeEntry {
    TreeEntry { parts: p(parts), is_dir: false }
}

fn dir(parts: &[&str]) -> TreeEntry {
    TreeEntry { parts: p(parts), is_dir: true }
}

#[test]
fn resolves_paths() {
    assert_eq!(app_dir(&s("bar")), p(&[".config", "bar"]));
    assert_eq!(tmp_dir(&s("bar")), p(&[".config", "bar", "tmp"]));
    assert_eq!(
        variant_dir(&s("bar"), &s("dark")),
        p(&[".config", "bar", "possible-configs", "dark"])
    );
}

#[test]
fn joins_components() {
    assert_eq!(join_from(&p(&["a", "b"]), &p(&["c", "d", "e"]), 1), p(&["a", "b", "d", "e"]));
    assert_eq!(join_from(&p(&["a"]), &p(&["c"]), 1), p(&["a"]));
    assert_eq!(child(&p(&["a"]), &s("z")), p(&["a", "z"]));
    assert!(same_path(&p(&["a", "b"]), &p(&["a", "b"])));
    assert!(!same_path(&p(&["a", "b"]), &p(&["a", "c"])));
    assert!(!same_path(&p(&["a"]), &p(&["a", "b"])));
}

#[test]
fn reserved_names() {
    assert!(is_reserved_name(&s("tmp")));
    assert!(is_reserved_name(&s("possible-configs")));
    assert!(!is_reserved_name(&s("config.json")));
    assert!(!is_reserved_name(&s("tmp2")));
}

#[test]
fn app_dir_must_exist() {
    assert_eq!(get_app_dir(&s("bar"), false), Err(ConfigError::AppDirMissing));
    assert_eq!(get_app_dir(&s("bar"), true), Ok(p(&[".config", "bar"])));
}

#[test]
fn variant_must_exist() {
    assert_eq!(select_config(&s("bar"), &s("dark"), false, true), Err(ConfigError::AppDirMissing));
    assert_eq!(select_config(&s("bar"), &s("dark"), true, false), Err(ConfigError::VariantMissing));
    assert_eq!(
        select_config(&s("bar"), &s("dark"), true, true),
        Ok(p(&[".config", "bar", "possible-configs", "dark"]))
    );
}

#[test]
fn reset_removes_existing_stash() {
    let tmp = p(&[".config", "bar", "tmp"]);
    assert_eq!(
        reset_tmp_dir(&s("bar"), true),
        vec![Action::RemoveAll(tmp.clone()), Action::CreateDirAll(tmp.clone())]
    );
    assert_eq!(reset_tmp_dir(&s("bar"), false), vec![Action::CreateDirAll(tmp)]);
}

#[test]
fn stash_skips_reserved_entries() {
    let entries = vec![s("a.conf"), s("tmp"), s("possible-configs"), s("themes")];
    assert_eq!(
        stash(&s("bar"), &entries),
        vec![
            Action::Rename(p(&[".config", "bar", "a.conf"]), p(&[".config", "bar", "tmp", "a.conf"])),
            Action::Rename(p(&[".config", "bar", "themes"]), p(&[".config", "bar", "tmp", "themes"])),
        ]
    );
    assert_eq!(stash(&s("bar"), &vec![]), vec![]);
}

#[test]
fn copy_dir_keeps_relative_paths() {
    let tree = vec![file(&["f"]), dir(&["d"]), file(&["d", "g"])];
    assert_eq!(
        copy_dir(&p(&["src", "s"]), &p(&["dst"]), true, true, &tree),
        vec![
            Action::CreateDirAll(p(&["dst", "s"])),
            Action::CopyFile(p(&["src", "s", "f"]), p(&["dst", "f"])),
            Action::CreateDirAll(p(&["dst", "d"])),
            Action::CreateDirAll(p(&["dst", "d", "d"])),
            Action::CopyFile(p(&["src", "s", "d", "g"]), p(&["dst", "d", "g"])),
        ]
    );
}

#[test]
fn copy_dir_refuses_bad_arguments() {
    let tree = vec![file(&["f"])];
    assert_eq!(copy_dir(&p(&["a"]), &p(&["b"]), false, true, &tree), vec![]);
    assert_eq!(copy_dir(&p(&["a"]), &p(&["b"]), true, false, &tree), vec![]);
    assert_eq!(copy_dir(&p(&["a"]), &p(&["a"]), true, true, &tree), vec![]);
}

#[test]
fn populate_copies_into_app_dir() {
    let tree = vec![file(&["style.css"]), dir(&["sub"]), file(&["sub", "x.conf"])];
    assert_eq!(
        populate(&s("bar"), &s("dark"), &tree),
        vec![
            Action::CopyFile(
                p(&[".config", "bar", "possible-configs", "dark", "style.css"]),
                p(&[".config", "bar", "style.css"])
            ),
            Action::CreateDirAll(p(&[".config", "bar", "sub"])),
            Action::CopyFile(
                p(&[".config", "bar", "possible-configs", "dark", "sub", "x.conf"]),
                p(&[".config", "bar", "x.conf"])
            ),
        ]
    );
}

fn snapshot(app: bool, tmp: bool, variant: bool, entries: &[&str], tree: Vec<TreeEntry>) -> Snapshot {
    Snapshot {
        app_is_dir: app,
        tmp_is_dir: tmp,
        variant_is_dir: variant,
        app_entries: p(entries),
        variant_tree: tree,
    }
}

#[test]
fn apply_scenario_bar_dark() {
    let snap = snapshot(
        true,
        false,
        true,
        &["config.json", "possible-configs", "style.css"],
        vec![file(&["style.css"])],
    );
    let plan = apply(&s("bar"), &s("dark"), &snap);
    assert_eq!(plan.result, Ok(()));
    assert_eq!(
        plan.actions,
        vec![
            Action::CreateDirAll(p(&[".config", "bar", "tmp"])),
            Action::Rename(
                p(&[".config", "bar", "config.json"]),
                p(&[".config", "bar", "tmp", "config.json"])
            ),
            Action::Rename(
                p(&[".config", "bar", "style.css"]),
                p(&[".config", "bar", "tmp", "style.css"])
            ),
            Action::CopyFile(
                p(&[".config", "bar", "possible-configs", "dark", "style.css"]),
                p(&[".config", "bar", "style.css"])
            ),
        ]
    );
}

#[test]
fn apply_missing_app_does_nothing() {
    let snap = snapshot(false, true, true, &["a"], vec![file(&["b"])]);
    let plan = apply(&s("app"), &s("x"), &snap);
    assert_eq!(plan.result, Err(ConfigError::AppDirMissing));
    assert!(plan.actions.is_empty());
}

#[test]
fn apply_missing_variant_still_resets_stash() {
    let snap = snapshot(true, true, false, &["a", "tmp"], vec![]);
    let plan = apply(&s("app"), &s("x"), &snap);
    assert_eq!(plan.result, Err(ConfigError::VariantMissing));
    let tmp = p(&[".config", "app", "tmp"]);
    assert_eq!(plan.actions, vec![Action::RemoveAll(tmp.clone()), Action::CreateDirAll(tmp)]);
}

#[test]
fn apply_empty_variant_only_stashes() {
    let snap = snapshot(true, false, true, &["a", "possible-configs", "b"], vec![]);
    let plan = apply(&s("app"), &s("x"), &snap);
    assert_eq!(plan.result, Ok(()));
    assert_eq!(
        plan.actions,
        vec![
            Action::CreateDirAll(p(&[".config", "app", "tmp"])),
            Action::Rename(p(&[".config", "app", "a"]), p(&[".config", "app", "tmp", "a"])),
            Action::Rename(p(&[".config", "app", "b"]), p(&[".config", "app", "tmp", "b"])),
        ]
    );
}

#[test]
fn add_creates_variant_once() {
    assert_eq!(
        add(&s("app"), &s("x"), true, false),
        Ok(vec![Action::CreateDirAll(p(&[".config", "app", "possible-configs", "x"]))])
    );
    assert_eq!(add(&s("app"), &s("x"), true, true), Err(ConfigError::VariantExists));
    assert_eq!(add(&s("app"), &s("x"), false, false), Err(ConfigError::AppDirMissing));
}

#[test]
fn delete_missing_variant_is_no_op() {
    assert_eq!(delete(&s("app"), &s("x"), true, false), Ok(vec![]));
    assert_eq!(
        delete(&s("app"), &s("x"), true, true),
        Ok(vec![Action::RemoveAll(p(&[".config", "app", "possible-configs", "x"]))])
    );
    assert_eq!(delete(&s("app"), &s("x"), false, true), Err(ConfigError::AppDirMissing));
}

#[test]
fn populate_nested_directories_land_in_app_dir() {
    let tree = vec![dir(&["sub"]), dir(&["sub", "deep"]), file(&["sub", "deep", "y"])];
    assert_eq!(
        populate(&s("bar"), &s("dark"), &tree),
        vec![
            Action::CreateDirAll(p(&[".config", "bar", "sub"])),
            Action::CreateDirAll(p(&[".config", "bar", "deep"])),
            Action::CreateDirAll(p(&[".config", "bar", "deep", "deep"])),
            Action::CopyFile(
                p(&[".config", "bar", "possible-configs", "dark", "sub", "deep", "y"]),
                p(&[".config", "bar", "deep", "y"])
            ),
        ]
    );
}

#[test]
fn copy_dir_of_empty_source_path_uses_dest() {
    assert_eq!(
        copy_dir(&p(&[]), &p(&["d"]), true, true, &vec![]),
        vec![Action::CreateDirAll(p(&["d"]))]
    );
}
