use viva::merge::{
    check_for_new, clone_list, distinct_list, list_contains, merge_into, union_lists,
};
use viva::models::environment::{
    channels_are_equal, check_for_new_channels, check_for_new_pkg_specs, join_channels,
    join_pkg_specs, pkg_specs_are_equal, VivaEnvSpec,
};

fn strings(items: &[&str]) -> Vec<String> {
    items.iter().map(|s| s.to_string()).collect()
}

fn spec(channels: &[&str], pkg_specs: &[&str]) -> VivaEnvSpec {
    VivaEnvSpec { channels: strings(channels), pkg_specs: strings(pkg_specs) }
}

#[test]
fn union_merge_appends_only_what_is_new() {
    let a = spec(&["conda-forge"], &["numpy"]);
    let b = spec(&["bioconda", "conda-forge"], &["numpy", "pandas", "pandas"]);
    let merged = a.union_merge(&b);
    assert_eq!(merged.channels, strings(&["conda-forge", "bioconda"]));
    assert_eq!(merged.pkg_specs, strings(&["numpy", "pandas"]));
}

#[test]
fn union_merge_with_empty_changes_nothing() {
    let a = spec(&["conda-forge"], &["numpy", "scipy"]);
    let merged = a.union_merge(&VivaEnvSpec::new());
    assert_eq!(merged.channels, strings(&["conda-forge"]));
    assert_eq!(merged.pkg_specs, strings(&["numpy", "scipy"]));
    let other = VivaEnvSpec::new().union_merge(&a);
    assert_eq!(other.channels, strings(&["conda-forge"]));
    assert_eq!(other.pkg_specs, strings(&["numpy", "scipy"]));
}

#[test]
fn union_merge_twice_is_union_merge_once() {
    let a = spec(&["conda-forge", "bioconda"], &["numpy"]);
    let b = spec(&["defaults", "conda-forge"], &["scipy", "numpy", "pandas"]);
    let once = a.union_merge(&b);
    let twice = once.union_merge(&b);
    assert_eq!(twice.channels, once.channels);
    assert_eq!(twice.pkg_specs, once.pkg_specs);
    assert!(twice == once);
}

#[test]
fn new_spec_is_empty() {
    let s = VivaEnvSpec::new();
    assert!(s.channels.is_empty());
    assert!(s.pkg_specs.is_empty());
}

#[test]
fn satisfaction_is_containment_in_one_direction() {
    let desired = spec(&["conda-forge"], &["numpy"]);
    let actual = spec(&["bioconda", "conda-forge"], &["pandas", "numpy"]);
    assert!(desired.is_satisfied_by(&actual));
    assert!(!actual.is_satisfied_by(&desired));
    assert!(desired.is_satisfied_by(&desired));
    assert!(VivaEnvSpec::new().is_satisfied_by(&VivaEnvSpec::new()));
    assert!(VivaEnvSpec::new().is_satisfied_by(&desired));
    assert!(!desired.is_satisfied_by(&VivaEnvSpec::new()));
}

#[test]
fn satisfaction_needs_channels_and_pkg_specs() {
    let desired = spec(&["conda-forge"], &["numpy"]);
    assert!(!desired.is_satisfied_by(&spec(&["conda-forge"], &[])));
    assert!(!desired.is_satisfied_by(&spec(&[], &["numpy"])));
}

#[test]
fn satisfaction_survives_a_merge_into_actual() {
    let desired = spec(&["conda-forge"], &["numpy"]);
    let actual = spec(&["conda-forge"], &["numpy", "scipy"]);
    assert!(desired.is_satisfied_by(&actual));
    let extra = spec(&["bioconda"], &["pandas", "numpy"]);
    assert!(desired.is_satisfied_by(&actual.union_merge(&extra)));
}

#[test]
fn equality_ignores_channel_order_only() {
    let a = spec(&["conda-forge", "bioconda"], &["numpy", "scipy"]);
    assert!(a == spec(&["bioconda", "conda-forge"], &["numpy", "scipy"]));
    assert!(a != spec(&["conda-forge", "bioconda"], &["scipy", "numpy"]));
    assert!(a != spec(&["conda-forge"], &["numpy", "scipy"]));
    assert!(a != spec(&["conda-forge", "bioconda", "bioconda"], &["numpy", "scipy"]));
    assert!(spec(&["conda-forge", "conda-forge", "bioconda"], &[]) == spec(&["conda-forge", "bioconda", "conda-forge"], &[]));
    assert!(spec(&["conda-forge", "conda-forge", "bioconda"], &[]) != spec(&["conda-forge", "bioconda", "bioconda"], &[]));
}

#[test]
fn clone_keeps_both_lists() {
    let a = spec(&["conda-forge", "bioconda"], &["numpy", "scipy"]);
    let b = a.clone();
    assert_eq!(b.channels, strings(&["conda-forge", "bioconda"]));
    assert_eq!(b.pkg_specs, strings(&["numpy", "scipy"]));
}

#[test]
fn diff_keeps_the_order_of_the_new_list() {
    let old = strings(&["b", "d"]);
    let new = strings(&["e", "d", "a", "b", "c", "a"]);
    assert_eq!(check_for_new(&old, &new), strings(&["e", "a", "c", "a"]));
    assert_eq!(check_for_new_channels(&old, &new), strings(&["e", "a", "c", "a"]));
    assert_eq!(check_for_new_pkg_specs(&old, &new), strings(&["e", "a", "c", "a"]));
    assert!(check_for_new(&new, &old).is_empty());
    assert!(check_for_new(&old, &Vec::new()).is_empty());
    assert_eq!(check_for_new(&Vec::new(), &old), old);
}

#[test]
fn join_is_a_union_without_repeats() {
    let a = strings(&["x", "y"]);
    let b = strings(&["y", "z", "z", "x", "w"]);
    assert_eq!(join_channels(&a, &b), strings(&["x", "y", "z", "w"]));
    assert_eq!(join_pkg_specs(&a, &b), strings(&["x", "y", "z", "w"]));
    assert_eq!(join_channels(&Vec::new(), &b), strings(&["y", "z", "x", "w"]));
}

#[test]
fn merge_into_reports_whether_anything_was_added() {
    let mut list = strings(&["a"]);
    assert!(!merge_into(&mut list, &strings(&["a", "a"])));
    assert_eq!(list, strings(&["a"]));
    assert!(merge_into(&mut list, &strings(&["a", "b"])));
    assert_eq!(list, strings(&["a", "b"]));
    assert!(!merge_into(&mut list, &Vec::new()));
}

#[test]
fn set_equality_ignores_order_and_repeats() {
    assert!(channels_are_equal(&strings(&["a", "b"]), &strings(&["b", "a", "a"])));
    assert!(!channels_are_equal(&strings(&["a", "b"]), &strings(&["a"])));
    assert!(pkg_specs_are_equal(&strings(&[]), &strings(&[])));
    assert!(!pkg_specs_are_equal(&strings(&["a"]), &strings(&["b"])));
    assert!(pkg_specs_are_equal(&strings(&["x", "y", "x"]), &strings(&["y", "x"])));
}

#[test]
fn list_helpers() {
    let list = strings(&["numpy", "pandas"]);
    assert!(list_contains(&list, "pandas"));
    assert!(!list_contains(&list, "panda"));
    assert!(!list_contains(&Vec::new(), ""));
    assert_eq!(clone_list(&list), list);
}

#[test]
fn naming_the_same_ignores_order_in_both_lists() {
    let a = spec(&["x", "y"], &["numpy", "scipy"]);
    assert!(a.names_the_same(&spec(&["y", "x"], &["scipy", "numpy", "numpy"])));
    assert!(!a.names_the_same(&spec(&["y"], &["scipy", "numpy"])));
    assert!(!a.names_the_same(&spec(&["y", "x"], &["scipy"])));
    assert!(a != spec(&["y", "x"], &["scipy", "numpy"]));
}

#[test]
fn union_holds_nothing_twice_whatever_the_lists_hold() {
    assert_eq!(join_channels(&strings(&["a", "a"]), &Vec::new()), strings(&["a"]));
    assert_eq!(join_pkg_specs(&strings(&["a", "a"]), &Vec::new()), strings(&["a"]));
    assert_eq!(
        join_channels(&strings(&["b", "a", "b", "a"]), &strings(&["c", "a", "c"])),
        strings(&["b", "a", "c"])
    );
    assert_eq!(union_lists(&strings(&["x", "x"]), &strings(&["x", "y", "y"])), strings(&["x", "y"]));
    assert_eq!(distinct_list(&strings(&["b", "a", "b", "c", "a"])), strings(&["b", "a", "c"]));
    assert!(distinct_list(&Vec::new()).is_empty());
    let merged = spec(&["ch", "ch"], &["numpy", "scipy", "numpy"]).union_merge(&spec(&["ch"], &["scipy"]));
    assert_eq!(merged.channels, strings(&["ch"]));
    assert_eq!(merged.pkg_specs, strings(&["numpy", "scipy"]));
}

#[test]
fn merge_into_leaves_a_list_without_repeats() {
    let mut list = strings(&["a", "b", "a"]);
    assert!(!merge_into(&mut list, &strings(&["b"])));
    assert_eq!(list, strings(&["a", "b"]));
    let mut list = strings(&["a", "a"]);
    assert!(merge_into(&mut list, &strings(&["c", "c"])));
    assert_eq!(list, strings(&["a", "c"]));
}
