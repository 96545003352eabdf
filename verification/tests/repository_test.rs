use calix::{
    Commit, CommitChain, Diff, GlobalOrder, GlobalState, Repository, StrMap, Submodule,
    SubmoduleKind,
};

fn state(pairs: &[(&str, &str)]) -> StrMap<String> {
    let mut m = StrMap::new();
    for (k, v) in pairs {
        m.insert(k.to_string(), v.to_string());
    }
    m
}

fn commit(id: &str, parent: Option<&str>, diff: Diff) -> Commit {
    Commit {
        id: id.to_string(),
        parent_id: parent.map(|p| p.to_string()),
        message: "test commit".to_string(),
        submodule_id: "sub".to_string(),
        global_order: GlobalOrder { timestamp: 0, sequence: 0 },
        diff,
        created_at: 0,
    }
}

fn is_uuid_v4_text(s: &str) -> bool {
    let chars: Vec<char> = s.chars().collect();
    if chars.len() != 36 {
        return false;
    }
    for (i, c) in chars.iter().enumerate() {
        if i == 8 || i == 13 || i == 18 || i == 23 {
            if *c != '-' {
                return false;
            }
        } else if !(c.is_ascii_digit() || ('a'..='f').contains(c)) {
            return false;
        }
    }
    chars[14] == '4' && matches!(chars[19], '8' | '9' | 'a' | 'b')
}

#[test]
fn initial_state_is_empty() {
    let s = GlobalState::initial();
    assert_eq!(s.version, 1);
    assert_eq!(s.submodule_index.len(), 0);
    assert!(s.timeline.is_empty());
    assert_eq!(s.global_sequence, 0);
}

#[test]
fn record_event_numbers_events() {
    let mut s = GlobalState::initial();
    s.record_event("sub1".to_string(), "commit1".to_string(), 100);
    s.record_event("sub1".to_string(), "merge1".to_string(), 101);
    assert_eq!(s.global_sequence, 2);
    assert_eq!(s.timeline.len(), 2);
    assert_eq!(s.timeline[0].sequence, 1);
    assert_eq!(s.timeline[0].commit_id, "commit1");
    assert_eq!(s.timeline[0].timestamp, 100);
    assert_eq!(s.timeline[1].sequence, 2);
    assert_eq!(s.timeline[1].submodule_id, "sub1");
}

#[test]
fn repository_records_and_registers() {
    let mut repo = Repository {
        project_root: std::path::PathBuf::from("/tmp/project"),
        state: GlobalState::initial(),
    };
    repo.record_global_event("s".to_string(), "c".to_string());
    assert_eq!(repo.state.global_sequence, 1);
    assert_eq!(repo.state.timeline[0].sequence, 1);

    let random = [70, 235, 208, 238, 14, 109, 67, 201, 185, 13, 204, 195, 90, 145, 63, 62];
    let sub = repo.register_submodule(SubmoduleKind::Clip, "clips/clip_01".to_string(), random);
    assert!(is_uuid_v4_text(&sub.info.id));
    assert_eq!(sub.info.id, "46ebd0ee-0e6d-43c9-b90d-ccc35a913f3e");
    assert_eq!(sub.info.kind, SubmoduleKind::Clip);
    assert_eq!(sub.info.relative_path, "clips/clip_01");
    assert_eq!(sub.info.current_branch, "main");
    assert!(sub.info.head_commit_id.is_none());
    assert!(sub.info.dependencies.is_empty());
    assert_eq!(repo.state.submodule_index.get(&sub.info.id).unwrap(), "clips/clip_01");
    assert_eq!(
        sub.storage_root,
        std::path::PathBuf::from("/tmp/project/.calix/submodules").join(&sub.info.id)
    );
    assert_eq!(repo.calix_dir(), std::path::PathBuf::from("/tmp/project/.calix"));
    assert_eq!(
        repo.submodule_storage_root("abc"),
        std::path::PathBuf::from("/tmp/project/.calix/submodules/abc")
    );

    let other =
        repo.register_submodule(SubmoduleKind::Effect, "effects/blur".to_string(), [0xff; 16]);
    assert_eq!(other.info.id, "ffffffff-ffff-4fff-bfff-ffffffffffff");
    assert!(is_uuid_v4_text(&other.info.id));
    assert_ne!(other.info.id, sub.info.id);
    assert_eq!(repo.state.submodule_index.len(), 2);
}

#[test]
fn append_commit_moves_head() {
    let mut sub = Submodule::create(
        std::path::PathBuf::from("/tmp/sub"),
        "id1".to_string(),
        SubmoduleKind::Track,
        "tracks/t1".to_string(),
    );
    assert_eq!(sub.info.current_branch, "main");
    assert_eq!(sub.storage_root, std::path::PathBuf::from("/tmp/sub"));
    sub.append_commit(commit("c1", None, Diff::new()));
    assert_eq!(sub.info.head_commit_id.as_deref(), Some("c1"));
    assert_eq!(sub.info.id, "id1");
}

#[test]
fn replay_rebuilds_states() {
    let empty: StrMap<String> = StrMap::new();
    let s1 = state(&[("intensity", "0.5"), ("radius", "10")]);
    let s2 = state(&[("intensity", "0.8"), ("radius", "10")]);
    let s3 = state(&[("intensity", "0.8")]);
    let chain = vec![
        commit("c1", None, Diff::from_states(&empty, &s1)),
        commit("c2", Some("c1"), Diff::from_states(&s1, &s2)),
        commit("c3", Some("c2"), Diff::from_states(&s2, &s3)),
    ];
    assert_eq!(Submodule::replay(&chain), s3);
    assert_eq!(Submodule::replay(&chain[..2].to_vec()), s2);
    assert_eq!(Submodule::replay(&Vec::new()), empty);
}

#[test]
fn commit_chain_reads_back_to_first() {
    let mut chain = CommitChain::start("c3");
    assert_eq!(chain.next_id.as_deref(), Some("c3"));
    chain.push(commit("c3", Some("c2"), Diff::new()));
    assert_eq!(chain.next_id.as_deref(), Some("c2"));
    chain.push(commit("c2", Some("c1"), Diff::new()));
    chain.push(commit("c1", None, Diff::new()));
    assert_eq!(chain.next_id, None);
    let ids: Vec<String> = chain.oldest_first().into_iter().map(|c| c.id).collect();
    assert_eq!(ids, vec!["c1".to_string(), "c2".to_string(), "c3".to_string()]);
}

#[test]
fn strmap_basics() {
    let mut m = state(&[("a", "1"), ("b", "2")]);
    assert_eq!(m.len(), 2);
    assert!(m.contains_key("a"));
    assert!(!m.is_empty());
    m.insert("a".to_string(), "3".to_string());
    assert_eq!(m.len(), 2);
    assert_eq!(m.get("a").unwrap(), "3");
    assert_eq!(m.key_at(0), "a");
    assert_eq!(m.value_at(1), "2");
    assert_eq!(m.remove("a").as_deref(), Some("3"));
    assert_eq!(m.remove("a"), None);
    assert_eq!(m.key_at(0), "b");
    assert_eq!(m, state(&[("b", "2")]));
    assert_ne!(m, state(&[("b", "3")]));
    assert_ne!(m, state(&[("b", "2"), ("c", "2")]));
}

#[test]
fn replay_long_chain_with_deletions_and_empty_diffs() {
    let mut states: Vec<StrMap<String>> = vec![StrMap::new()];
    for i in 0..20 {
        let mut next = states.last().unwrap().clone();
        next.insert(format!("key_{}", i), format!("value_{}", i));
        if i % 5 == 4 {
            next.remove(&format!("key_{}", i - 2));
        }
        states.push(next);
    }
    let last = states.last().unwrap().clone();
    states.push(last);
    let mut chain = Vec::new();
    for i in 1..states.len() {
        let parent = if i == 1 { None } else { Some(format!("c{}", i - 1)) };
        let diff = Diff::from_states(&states[i - 1], &states[i]);
        chain.push(commit(&format!("c{}", i), parent.as_deref(), diff));
    }
    assert!(chain.last().unwrap().diff.is_empty());
    for n in 0..chain.len() {
        assert_eq!(Submodule::replay(&chain[..=n].to_vec()), states[n + 1]);
    }
    let full = Submodule::replay(&chain);
    assert_eq!(full.len(), 16);
    assert!(full.get("key_2").is_none());
    assert_eq!(full.get("key_19").unwrap(), "value_19");
}

#[test]
fn register_sets_version_and_variant_bits() {
    let mut repo = Repository {
        project_root: std::path::PathBuf::from("/tmp/project"),
        state: GlobalState::initial(),
    };
    let sub = repo.register_submodule(SubmoduleKind::Subtitle, "subtitles/s1".to_string(), [0; 16]);
    assert_eq!(sub.info.id, "00000000-0000-4000-8000-000000000000");
    assert!(is_uuid_v4_text(&sub.info.id));
}

#[test]
fn io_error_converts_to_io_variant() {
    let e = std::io::Error::new(std::io::ErrorKind::NotFound, "gone");
    match calix::CalixError::from(e) {
        calix::CalixError::Io(inner) => assert_eq!(inner.kind(), std::io::ErrorKind::NotFound),
        other => panic!("unexpected {:?}", other),
    }
}
