use du_scan::exclusion::{plan_scan, should_exclude, RootEntry};

fn entry(name: &str) -> RootEntry {
    RootEntry::new(name.to_string(), format!("/data/{}", name))
}

fn names(v: &[RootEntry]) -> Vec<String> {
    v.iter().map(|e| e.name.clone()).collect()
}

#[test]
fn exclude_by_bare_name() {
    let set = vec!["c".to_string()];
    assert!(should_exclude(&entry("c"), &set));
    assert!(!should_exclude(&entry("a"), &set));
}

#[test]
fn exclude_by_full_path() {
    let set = vec!["/data/b".to_string()];
    assert!(should_exclude(&entry("b"), &set));
    assert!(!should_exclude(&entry("a"), &set));
}

#[test]
fn exclude_needs_exact_text() {
    let set = vec!["/data/b/".to_string(), "a*".to_string(), "dat".to_string()];
    assert!(!should_exclude(&entry("b"), &set));
    assert!(!should_exclude(&entry("a"), &set));
    assert!(!should_exclude(&entry("ab"), &set));
}

#[test]
fn empty_exclusion_set_keeps_everything() {
    let set: Vec<String> = vec![];
    assert!(!should_exclude(&entry("a"), &set));
    let plan = plan_scan(&vec![entry("a"), entry("b")], &set);
    assert_eq!(names(&plan.scan), vec!["a", "b"]);
    assert!(plan.skipped.is_empty());
}

#[test]
fn plan_skips_excluded_entry_once() {
    let entries = vec![entry("a"), entry("b"), entry("c")];
    let set = vec!["c".to_string()];
    let plan = plan_scan(&entries, &set);
    assert_eq!(names(&plan.scan), vec!["a", "b"]);
    assert_eq!(names(&plan.skipped), vec!["c"]);
}

#[test]
fn plan_keeps_listing_order_on_both_sides() {
    let entries = vec![entry("z"), entry("x"), entry("y"), entry("w")];
    let set = vec!["/data/x".to_string(), "w".to_string()];
    let plan = plan_scan(&entries, &set);
    assert_eq!(names(&plan.scan), vec!["z", "y"]);
    assert_eq!(names(&plan.skipped), vec!["x", "w"]);
}
