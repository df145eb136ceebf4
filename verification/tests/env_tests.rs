use sunset::descriptor::{ShimConfigEnvAction, ShimConfigEnvActionItem};
use sunset::envmap::{apply, EnvMap};

fn item(
    var: &str,
    action: ShimConfigEnvAction,
    value: &str,
    separator: &str,
) -> ShimConfigEnvActionItem {
    ShimConfigEnvActionItem {
        var: String::from(var),
        action,
        value: String::from(value),
        separator: String::from(separator),
    }
}

fn get(m: &EnvMap, name: &str) -> Option<String> {
    m.lookup(name)
}

#[test]
fn set_and_lookup() {
    let mut m = EnvMap::new();
    m.set(&String::from("A"), &String::from("1"));
    assert_eq!(get(&m, "A"), Some(String::from("1")));
    assert_eq!(get(&m, "B"), None);
    m.set(&String::from("A"), &String::from("2"));
    assert_eq!(get(&m, "A"), Some(String::from("2")));
}

#[test]
fn remove_is_a_no_op_on_absent_names() {
    let mut m = EnvMap::new();
    m.set(&String::from("A"), &String::from("1"));
    m.remove(&String::from("B"));
    assert_eq!(get(&m, "A"), Some(String::from("1")));
    m.remove(&String::from("A"));
    assert_eq!(get(&m, "A"), None);
}

#[test]
fn all_clear_removes_named_variables_whatever_they_held() {
    let mut base = EnvMap::new();
    base.set(&String::from("X"), &String::from("kept?"));
    base.set(&String::from("Y"), &String::from("anything"));
    base.set(&String::from("Z"), &String::from("stays"));
    let actions = vec![
        item("X", ShimConfigEnvAction::CLEAR, "", ""),
        item("Y", ShimConfigEnvAction::CLEAR, "", ""),
        item("MISSING", ShimConfigEnvAction::CLEAR, "", ""),
    ];
    let out = apply(&base, &actions);
    assert_eq!(get(&out, "X"), None);
    assert_eq!(get(&out, "Y"), None);
    assert_eq!(get(&out, "MISSING"), None);
    assert_eq!(get(&out, "Z"), Some(String::from("stays")));
}

#[test]
fn set_then_append_composes_sequentially() {
    let base = EnvMap::new();
    let actions = vec![
        item("X", ShimConfigEnvAction::SET, "a", ""),
        item("X", ShimConfigEnvAction::APPEND, "b", ","),
    ];
    let out = apply(&base, &actions);
    assert_eq!(get(&out, "X"), Some(String::from("a,b")));
}

#[test]
fn later_set_overrides_earlier_append() {
    let base = EnvMap::new();
    let actions = vec![
        item("X", ShimConfigEnvAction::APPEND, "b", ""),
        item("X", ShimConfigEnvAction::SET, "a", ""),
    ];
    let out = apply(&base, &actions);
    assert_eq!(get(&out, "X"), Some(String::from("a")));
}

#[test]
fn append_on_unset_variable_starts_from_empty() {
    let base = EnvMap::new();
    let actions = vec![item("X", ShimConfigEnvAction::APPEND, "b", ";")];
    let out = apply(&base, &actions);
    assert_eq!(get(&out, "X"), Some(String::from(";b")));
}

#[test]
fn prepend_joins_value_separator_current() {
    let mut base = EnvMap::new();
    base.set(&String::from("PATH"), &String::from("/usr/bin"));
    let actions = vec![item("PATH", ShimConfigEnvAction::PREPEND, "/opt/bin", ":")];
    let out = apply(&base, &actions);
    assert_eq!(get(&out, "PATH"), Some(String::from("/opt/bin:/usr/bin")));
}

#[test]
fn apply_leaves_the_base_snapshot_unchanged() {
    let mut base = EnvMap::new();
    base.set(&String::from("X"), &String::from("old"));
    let actions = vec![item("X", ShimConfigEnvAction::SET, "new", "")];
    let out = apply(&base, &actions);
    assert_eq!(get(&base, "X"), Some(String::from("old")));
    assert_eq!(get(&out, "X"), Some(String::from("new")));
}

#[test]
fn pairs_lists_every_variable_once() {
    let mut m = EnvMap::new();
    m.set(&String::from("A"), &String::from("1"));
    m.set(&String::from("B"), &String::from("2"));
    m.set(&String::from("A"), &String::from("3"));
    let mut names: Vec<String> = m.pairs().iter().map(|p| p.0.clone()).collect();
    names.sort();
    assert_eq!(names, vec![String::from("A"), String::from("B")]);
}
