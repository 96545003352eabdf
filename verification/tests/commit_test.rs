use calix::{Commit, Diff, GlobalOrder, StrMap};

fn state(pairs: &[(&str, &str)]) -> StrMap<String> {
    let mut m = StrMap::new();
    for (k, v) in pairs {
        m.insert(k.to_string(), v.to_string());
    }
    m
}

#[test]
fn test_diff_apply() {
    let mut before = StrMap::new();
    before.insert("x".to_string(), "1".to_string());
    before.insert("y".to_string(), "2".to_string());

    let mut after = before.clone();
    after.insert("x".to_string(), "999".to_string());
    after.remove("y");
    after.insert("z".to_string(), "3".to_string());

    let diff = Diff::from_states(&before, &after);
    let result = diff.apply(&before);

    assert_eq!(result, after);
}

#[test]
fn test_diff_empty() {
    let state: StrMap<String> = StrMap::new();
    let diff = Diff::from_states(&state, &state);
    assert!(diff.is_empty());
}

#[test]
fn from_states_lists_changes_and_removals() {
    let before = state(&[("a", "1"), ("b", "2"), ("c", "3")]);
    let after = state(&[("a", "1"), ("b", "20"), ("d", "4")]);
    let diff = Diff::from_states(&before, &after);
    assert_eq!(diff.set, state(&[("b", "20"), ("d", "4")]));
    assert_eq!(diff.remove, vec!["c".to_string()]);
    assert!(!diff.is_empty());
}

#[test]
fn apply_removes_then_sets() {
    let current = state(&[("a", "1"), ("b", "2")]);
    let mut diff = Diff::new();
    diff.remove.push("a".to_string());
    diff.set.insert("a".to_string(), "10".to_string());
    diff.remove.push("missing".to_string());
    let next = diff.apply(&current);
    assert_eq!(next, state(&[("a", "10"), ("b", "2")]));
}

#[test]
fn empty_diff_keeps_state() {
    let current = state(&[("k", "v"), ("w", "u")]);
    let diff = Diff::default();
    assert!(diff.is_empty());
    assert_eq!(diff.apply(&current), current);
}

#[test]
fn diff_of_same_nonempty_state_is_empty() {
    let s = state(&[("a", "1"), ("b", "2")]);
    let diff = Diff::from_states(&s, &s);
    assert!(diff.is_empty());
}

#[test]
fn diff_roundtrip_from_empty_and_to_empty() {
    let empty: StrMap<String> = StrMap::new();
    let full = state(&[("intensity", "0.5"), ("radius", "10")]);
    let up = Diff::from_states(&empty, &full);
    assert_eq!(up.apply(&empty), full);
    let down = Diff::from_states(&full, &empty);
    assert_eq!(down.apply(&full), empty);
    assert_eq!(down.remove.len(), 2);
}

#[test]
fn diff_and_commit_equality() {
    let before = state(&[("a", "1")]);
    let after = state(&[("a", "2")]);
    let d1 = Diff::from_states(&before, &after);
    let d2 = Diff::from_states(&before, &after);
    assert_eq!(d1, d2);
    assert_ne!(d1, Diff::new());
    let c1 = Commit {
        id: "c1".to_string(),
        parent_id: None,
        message: "m".to_string(),
        submodule_id: "s".to_string(),
        global_order: GlobalOrder { timestamp: 1, sequence: 2 },
        diff: d1.clone(),
        created_at: 1,
    };
    let mut c2 = c1.clone();
    assert_eq!(c1, c2);
    c2.parent_id = Some("c0".to_string());
    assert_ne!(c1, c2);
}
