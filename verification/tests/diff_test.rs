use calix::{three_way_merge, StrMap};

fn state(pairs: &[(&str, &str)]) -> StrMap<String> {
    let mut m = StrMap::new();
    for (k, v) in pairs {
        m.insert(k.to_string(), v.to_string());
    }
    m
}

#[test]
fn test_three_way_merge_no_conflict() {
    let mut ancestor = StrMap::new();
    ancestor.insert("x".to_string(), "1".to_string());

    let mut ours = ancestor.clone();
    ours.insert("y".to_string(), "2".to_string());

    let mut theirs = ancestor.clone();
    theirs.insert("z".to_string(), "3".to_string());

    let result = three_way_merge(&ancestor, &ours, &theirs).unwrap();
    assert_eq!(result.get("x").unwrap(), "1");
    assert_eq!(result.get("y").unwrap(), "2");
    assert_eq!(result.get("z").unwrap(), "3");
}

#[test]
fn test_three_way_merge_conflict() {
    let mut ancestor = StrMap::new();
    ancestor.insert("x".to_string(), "1".to_string());

    let mut ours = ancestor.clone();
    ours.insert("x".to_string(), "2".to_string());

    let mut theirs = ancestor.clone();
    theirs.insert("x".to_string(), "3".to_string());

    let err = three_way_merge(&ancestor, &ours, &theirs).unwrap_err();
    assert_eq!(err.len(), 1);
    assert_eq!(err[0].key, "x");
    assert_eq!(err[0].base_value.as_deref(), Some("1"));
    assert_eq!(err[0].current_value.as_deref(), Some("2"));
    assert_eq!(err[0].incoming_value.as_deref(), Some("3"));
}

#[test]
fn test_three_way_merge_same_change() {
    let mut ancestor = StrMap::new();
    ancestor.insert("x".to_string(), "1".to_string());

    let mut ours = ancestor.clone();
    ours.insert("x".to_string(), "2".to_string());

    let mut theirs = ancestor.clone();
    theirs.insert("x".to_string(), "2".to_string());

    let result = three_way_merge(&ancestor, &ours, &theirs).unwrap();
    assert_eq!(result.get("x").unwrap(), "2");
}

#[test]
fn test_three_way_merge_delete_vs_modify() {
    let mut ancestor = StrMap::new();
    ancestor.insert("x".to_string(), "1".to_string());

    let ours = StrMap::new();

    let mut theirs = ancestor.clone();
    theirs.insert("x".to_string(), "2".to_string());

    let err = three_way_merge(&ancestor, &ours, &theirs).unwrap_err();
    assert_eq!(err.len(), 1);
    assert_eq!(err[0].key, "x");
    assert_eq!(err[0].current_value, None);
    assert_eq!(err[0].incoming_value.as_deref(), Some("2"));
}

#[test]
fn merge_with_one_side_unchanged_takes_the_other() {
    let ancestor = state(&[("a", "1"), ("b", "2")]);
    let theirs = state(&[("a", "10"), ("c", "3")]);
    let merged = three_way_merge(&ancestor, &ancestor, &theirs).unwrap();
    assert_eq!(merged, theirs);
    let merged = three_way_merge(&ancestor, &theirs, &ancestor).unwrap();
    assert_eq!(merged, theirs);
}

#[test]
fn merge_deletion_on_one_side_is_kept() {
    let ancestor = state(&[("x", "1"), ("y", "2")]);
    let ours = state(&[("x", "1")]);
    let theirs = state(&[("x", "5"), ("y", "2")]);
    let merged = three_way_merge(&ancestor, &ours, &theirs).unwrap();
    assert_eq!(merged, state(&[("x", "5")]));
    assert!(merged.get("y").is_none());
}

#[test]
fn merge_both_delete_and_both_add_same() {
    let ancestor = state(&[("gone", "1")]);
    let ours = state(&[("new", "v")]);
    let theirs = state(&[("new", "v")]);
    let merged = three_way_merge(&ancestor, &ours, &theirs).unwrap();
    assert_eq!(merged, state(&[("new", "v")]));
}

#[test]
fn merge_add_add_different_values_conflicts() {
    let ancestor = state(&[]);
    let ours = state(&[("k", "a")]);
    let theirs = state(&[("k", "b")]);
    let err = three_way_merge(&ancestor, &ours, &theirs).unwrap_err();
    assert_eq!(err.len(), 1);
    assert_eq!(err[0].base_value, None);
    assert_eq!(err[0].current_value.as_deref(), Some("a"));
    assert_eq!(err[0].incoming_value.as_deref(), Some("b"));
}

#[test]
fn merge_reports_every_conflicting_key_once() {
    let ancestor = state(&[("x", "1"), ("y", "1"), ("z", "1")]);
    let ours = state(&[("x", "100"), ("y", "200"), ("z", "1")]);
    let theirs = state(&[("x", "300"), ("y", "400"), ("z", "9")]);
    let err = three_way_merge(&ancestor, &ours, &theirs).unwrap_err();
    let mut keys: Vec<String> = err.iter().map(|c| c.key.clone()).collect();
    keys.sort();
    assert_eq!(keys, vec!["x".to_string(), "y".to_string()]);
}

#[test]
fn merge_is_symmetric() {
    let ancestor = state(&[("a", "1"), ("b", "2"), ("c", "3")]);
    let ours = state(&[("a", "1"), ("b", "20"), ("d", "4")]);
    let theirs = state(&[("a", "10"), ("b", "2"), ("c", "3")]);
    let left = three_way_merge(&ancestor, &ours, &theirs).unwrap();
    let right = three_way_merge(&ancestor, &theirs, &ours).unwrap();
    assert_eq!(left, right);
    assert_eq!(left, state(&[("a", "10"), ("b", "20"), ("d", "4")]));
}
