//! Three-way merge of key-value states.
use crate::commit::StateModel;
use crate::error::ConflictEntry;
use crate::strmap::StrMap;
use vstd::prelude::*;

verus! {

/// The value that a merge keeps for `key`: the common value where both sides
/// agree, the changed side's value where only one side changed, and `None`
/// where the key ends up absent or in conflict.
pub open spec fn merged_value(
    ancestor: StateModel,
    ours: StateModel,
    theirs: StateModel,
    key: Seq<char>,
) -> Option<Seq<char>> {
    let va = ancestor.get(key);
    let vo = ours.get(key);
    let vt = theirs.get(key);
    if vo == vt {
        vo
    } else if vo == va {
        vt
    } else if vt == va {
        vo
    } else {
        None
    }
}

/// Both sides changed `key`, each in its own way.
pub open spec fn is_conflict(
    ancestor: StateModel,
    ours: StateModel,
    theirs: StateModel,
    key: Seq<char>,
) -> bool {
    let va = ancestor.get(key);
    let vo = ours.get(key);
    let vt = theirs.get(key);
    vo != vt && vo != va && vt != va
}

/// The merged state: every key with a kept value.
pub open spec fn merged(ancestor: StateModel, ours: StateModel, theirs: StateModel) -> StateModel {
    Map::new(
        |k: Seq<char>| merged_value(ancestor, ours, theirs, k) is Some,
        |k: Seq<char>| merged_value(ancestor, ours, theirs, k)->0,
    )
}

/// The keys in conflict.
pub open spec fn conflict_keys(
    ancestor: StateModel,
    ours: StateModel,
    theirs: StateModel,
) -> Set<Seq<char>> {
    Set::new(|k: Seq<char>| is_conflict(ancestor, ours, theirs, k))
}

/// The keys of a list of conflict entries, in order.
pub open spec fn conflict_key_seq(conflicts: Seq<ConflictEntry>) -> Seq<Seq<char>> {
    conflicts.map_values(|c: ConflictEntry| c.key@)
}

/// Whether two looked-up values are equal.
fn same_value(x: Option<&String>, y: Option<&String>) -> (b: bool)
    ensures
        b == (x.deep_view() == y.deep_view()),
{
    match (x, y) {
        (Some(a), Some(b)) => *a == *b,
        (None, None) => true,
        _ => false,
    }
}

/// A copy of a looked-up value.
fn copy_value(x: Option<&String>) -> (r: Option<String>)
    ensures
        r.deep_view() == x.deep_view(),
{
    match x {
        Some(s) => Some(s.clone()),
        None => None,
    }
}

/// Whether `keys` holds `key`.
fn holds_key(keys: &Vec<String>, key: &String) -> (b: bool)
    ensures
        b == keys.deep_view().contains(key@),
{
    let n = keys.len();
    let mut i: usize = 0;
    while i < n
        invariant
            n == keys@.len(),
            0 <= i <= n,
            forall|j: int| 0 <= j < i ==> keys.deep_view()[j] != key@,
        decreases n - i,
    {
        if keys[i] == *key {
            assert(keys.deep_view()[i as int] == key@);
            return true;
        }
        i = i + 1;
    }
    false
}

/// Appends to `keys` each key of `m` that it does not hold yet.
fn add_keys(keys: &mut Vec<String>, m: &StrMap<String>)
    requires
        old(keys).deep_view().no_duplicates(),
    ensures
        final(keys).deep_view().no_duplicates(),
        final(keys).deep_view().to_set() == old(keys).deep_view().to_set().union(m@.dom()),
{
    let n = m.len();
    let mut i: usize = 0;
    while i < n
        invariant
            n == m.key_seq().len(),
            m.key_seq().no_duplicates(),
            m@.dom() == m.key_seq().to_set(),
            0 <= i <= n,
            keys.deep_view().no_duplicates(),
            keys.deep_view().to_set() == old(keys).deep_view().to_set().union(
                m.key_seq().take(i as int).to_set(),
            ),
        decreases n - i,
    {
        let k = m.key_at(i);
        let ghost prev = keys.deep_view();
        if !holds_key(keys, k) {
            keys.push(k.clone());
            assert(keys.deep_view() =~= prev.push(k@));
            proof {
                prev.lemma_push_to_set_commute(k@);
            }
        }
        assert(m.key_seq().take(i + 1) =~= m.key_seq().take(i as int).push(k@));
        proof {
            m.key_seq().take(i as int).lemma_push_to_set_commute(k@);
        }
        assert(keys.deep_view().to_set() =~= old(keys).deep_view().to_set().union(
            m.key_seq().take(i + 1).to_set(),
        ));
        i = i + 1;
    }
    assert(m.key_seq().take(n as int) =~= m.key_seq());
}

/// Every key of the three states, once each.
fn all_keys(a: &StrMap<String>, o: &StrMap<String>, t: &StrMap<String>) -> (keys: Vec<String>)
    ensures
        keys.deep_view().no_duplicates(),
        keys.deep_view().to_set() == a@.dom().union(o@.dom()).union(t@.dom()),
{
    let mut keys: Vec<String> = Vec::new();
    assert(keys.deep_view().to_set() =~= Set::<Seq<char>>::empty());
    add_keys(&mut keys, a);
    add_keys(&mut keys, o);
    add_keys(&mut keys, t);
    assert(keys.deep_view().to_set() =~= a@.dom().union(o@.dom()).union(t@.dom()));
    keys
}

/// Merges `ours` and `theirs`, two states that grew from `ancestor`.
///
/// For each key: where both sides hold the same value (or both lack the
/// key) that is kept; where only one side differs from the ancestor, its
/// value (or its removal) is kept; where both sides differ from the ancestor
/// and from each other, the key is in conflict.  Without a conflict the
/// merged state comes back; otherwise one entry per conflicting key, with
/// the ancestor's, our and their value.
pub fn three_way_merge(
    ancestor: &StrMap<String>,
    ours: &StrMap<String>,
    theirs: &StrMap<String>,
) -> (r: Result<StrMap<String>, Vec<ConflictEntry>>)
    ensures
        (r is Ok) == (conflict_keys(ancestor@, ours@, theirs@) == Set::<Seq<char>>::empty()),
        (r is Err) == exists|k: Seq<char>|
            #![trigger ours@.get(k), theirs@.get(k)]
            ours@.get(k) != theirs@.get(k) && ours@.get(k) != ancestor@.get(k) && theirs@.get(k)
                != ancestor@.get(k),
        forall|k: Seq<char>|
            #![trigger ours@.get(k), theirs@.get(k)]
            ours@.get(k) != theirs@.get(k) && ours@.get(k) != ancestor@.get(k) && theirs@.get(k)
                != ancestor@.get(k) ==> (r matches Err(cs) && exists|j: int|
                0 <= j < cs@.len() && #[trigger] cs@[j].key@ == k),
        r matches Ok(m) ==> forall|k: Seq<char>|
            #![trigger m@.get(k)]
            {
                &&& ours@.get(k) == theirs@.get(k) ==> m@.get(k) == ours@.get(k)
                &&& ours@.get(k) == ancestor@.get(k) ==> m@.get(k) == theirs@.get(k)
                &&& theirs@.get(k) == ancestor@.get(k) ==> m@.get(k) == ours@.get(k)
            },
        match r {
            Ok(m) => {
                &&& conflict_keys(ancestor@, ours@, theirs@) == Set::<Seq<char>>::empty()
                &&& m@ == merged(ancestor@, ours@, theirs@)
            },
            Err(conflicts) => {
                &&& conflicts@.len() > 0
                &&& conflict_key_seq(conflicts@).no_duplicates()
                &&& conflict_key_seq(conflicts@).to_set() == conflict_keys(
                    ancestor@,
                    ours@,
                    theirs@,
                )
                &&& forall|j: int|
                    0 <= j < conflicts@.len() ==> {
                        let key = #[trigger] conflicts@[j].key@;
                        conflicts@[j].reports(
                            key,
                            ancestor@.get(key),
                            ours@.get(key),
                            theirs@.get(key),
                        )
                    }
            },
        },
{
    let keys = all_keys(ancestor, ours, theirs);
    let ghost a = ancestor@;
    let ghost o = ours@;
    let ghost t = theirs@;
    let ghost kv = keys.deep_view();
    let mut result: StrMap<String> = StrMap::new();
    let mut conflicts: Vec<ConflictEntry> = Vec::new();
    let n = keys.len();
    let mut i: usize = 0;
    while i < n
        invariant
            n == keys@.len(),
            kv == keys.deep_view(),
            a == ancestor@,
            o == ours@,
            t == theirs@,
            kv.no_duplicates(),
            0 <= i <= n,
            result@ == merged(a, o, t).restrict(kv.take(i as int).to_set()),
            conflict_key_seq(conflicts@).no_duplicates(),
            conflict_key_seq(conflicts@).to_set() == conflict_keys(a, o, t).intersect(
                kv.take(i as int).to_set(),
            ),
            forall|j: int|
                0 <= j < conflicts@.len() ==> {
                    let key = #[trigger] conflicts@[j].key@;
                    conflicts@[j].reports(key, a.get(key), o.get(key), t.get(key))
                },
        decreases n - i,
    {
        let key = &keys[i];
        let val_a = ancestor.get(key.as_str());
        let val_o = ours.get(key.as_str());
        let val_t = theirs.get(key.as_str());
        assert(val_a.deep_view() == a.get(key@));
        assert(val_o.deep_view() == o.get(key@));
        assert(val_t.deep_view() == t.get(key@));
        let ghost prev_conflicts = conflict_key_seq(conflicts@);
        let ghost prev_result = result@;
        if same_value(val_o, val_t) {
            if let Some(v) = val_o {
                result.insert(key.clone(), v.clone());
            }
        } else if same_value(val_o, val_a) {
            if let Some(v) = val_t {
                result.insert(key.clone(), v.clone());
            }
        } else if same_value(val_t, val_a) {
            if let Some(v) = val_o {
                result.insert(key.clone(), v.clone());
            }
        } else {
            let entry = ConflictEntry {
                key: key.clone(),
                base_value: copy_value(val_a),
                current_value: copy_value(val_o),
                incoming_value: copy_value(val_t),
            };
            conflicts.push(entry);
            assert(conflict_key_seq(conflicts@) =~= prev_conflicts.push(key@));
            assert(!prev_conflicts.contains(key@)) by {
                if prev_conflicts.contains(key@) {
                    assert(prev_conflicts.to_set().contains(key@));
                    let w = choose|w: int| 0 <= w < i && kv[w] == key@;
                    assert(kv[w] == kv[i as int]);
                }
            }
            proof {
                prev_conflicts.lemma_push_to_set_commute(key@);
            }
        }
        assert(kv.take(i + 1) =~= kv.take(i as int).push(key@));
        proof {
            kv.take(i as int).lemma_push_to_set_commute(key@);
        }
        assert(result@ =~= merged(a, o, t).restrict(kv.take(i + 1).to_set()));
        assert(conflict_key_seq(conflicts@).to_set() =~= conflict_keys(a, o, t).intersect(
            kv.take(i + 1).to_set(),
        ));
        i = i + 1;
    }
    assert(kv.take(n as int) =~= kv);
    assert(merged(a, o, t).restrict(kv.to_set()) =~= merged(a, o, t));
    assert(conflict_keys(a, o, t).intersect(kv.to_set()) =~= conflict_keys(a, o, t));
    if conflicts.len() == 0 {
        assert(conflict_key_seq(conflicts@) =~= Seq::<Seq<char>>::empty());
        assert(conflict_keys(a, o, t) =~= Set::<Seq<char>>::empty());
        proof {
            assert forall|k: Seq<char>| #![trigger o.get(k), t.get(k)]
                !(o.get(k) != t.get(k) && o.get(k) != a.get(k) && t.get(k) != a.get(k)) by {
                lemma_conflict_keys_pointwise(a, o, t, k);
            }
            assert forall|k: Seq<char>| #![trigger result@.get(k)]
                {
                    &&& o.get(k) == t.get(k) ==> result@.get(k) == o.get(k)
                    &&& o.get(k) == a.get(k) ==> result@.get(k) == t.get(k)
                    &&& t.get(k) == a.get(k) ==> result@.get(k) == o.get(k)
                } by {
                lemma_merge_pointwise(a, o, t, k);
            }
        }
        Ok(result)
    } else {
        assert(conflict_key_seq(conflicts@)[0] == conflicts@[0].key@);
        assert(conflict_key_seq(conflicts@).contains(conflicts@[0].key@));
        assert(conflict_keys(a, o, t).contains(conflicts@[0].key@));
        proof {
            let k0 = conflicts@[0].key@;
            lemma_conflict_keys_pointwise(a, o, t, k0);
            assert(o.get(k0) != t.get(k0) && o.get(k0) != a.get(k0) && t.get(k0) != a.get(k0));
            assert forall|k: Seq<char>| #![trigger o.get(k), t.get(k)]
                o.get(k) != t.get(k) && o.get(k) != a.get(k) && t.get(k) != a.get(k) implies exists|j: int|
                0 <= j < conflicts@.len() && #[trigger] conflicts@[j].key@ == k by {
                lemma_conflict_keys_pointwise(a, o, t, k);
                assert(conflict_key_seq(conflicts@).to_set().contains(k));
                let j = choose|j: int|
                    0 <= j < conflict_key_seq(conflicts@).len() && conflict_key_seq(conflicts@)[j] == k;
                assert(conflicts@[j].key@ == k);
            }
        }
        Err(conflicts)
    }
}

/// A key is in conflict exactly when the ancestor, our side and their side
/// hold three different values for it (a missing key counting as a value of
/// its own), whatever the other keys hold.
pub proof fn lemma_conflict_keys_pointwise(
    ancestor: StateModel,
    ours: StateModel,
    theirs: StateModel,
    key: Seq<char>,
)
    ensures
        conflict_keys(ancestor, ours, theirs).contains(key) <==> (ours.get(key) != theirs.get(key)
            && ours.get(key) != ancestor.get(key) && theirs.get(key) != ancestor.get(key)),
{
}

/// Key by key, whatever the other keys hold, the merge keeps the value that
/// both sides agree on, or else the value of the side that changed the key
/// (a missing key counting as a value): where both sides agree it keeps
/// that; where one side left the ancestor's value it takes the other
/// side's.
pub proof fn lemma_merge_pointwise(
    ancestor: StateModel,
    ours: StateModel,
    theirs: StateModel,
    key: Seq<char>,
)
    ensures
        ours.get(key) == theirs.get(key) ==> merged(ancestor, ours, theirs).get(key) == ours.get(
            key,
        ),
        ours.get(key) == ancestor.get(key) ==> merged(ancestor, ours, theirs).get(key)
            == theirs.get(key),
        theirs.get(key) == ancestor.get(key) ==> merged(ancestor, ours, theirs).get(key)
            == ours.get(key),
{
}

/// Where our side left the ancestor as it was, the merge takes their state
/// whole, without conflict.
pub proof fn lemma_merge_ours_unchanged(ancestor: StateModel, theirs: StateModel)
    ensures
        conflict_keys(ancestor, ancestor, theirs) == Set::<Seq<char>>::empty(),
        merged(ancestor, ancestor, theirs) == theirs,
{
    assert(conflict_keys(ancestor, ancestor, theirs) =~= Set::<Seq<char>>::empty());
    assert(merged(ancestor, ancestor, theirs) =~= theirs);
}

/// Where their side left the ancestor as it was, the merge takes our state
/// whole, without conflict.
pub proof fn lemma_merge_theirs_unchanged(ancestor: StateModel, ours: StateModel)
    ensures
        conflict_keys(ancestor, ours, ancestor) == Set::<Seq<char>>::empty(),
        merged(ancestor, ours, ancestor) == ours,
{
    assert(conflict_keys(ancestor, ours, ancestor) =~= Set::<Seq<char>>::empty());
    assert(merged(ancestor, ours, ancestor) =~= ours);
}

/// Where both sides reached the same state, the merge gives that state,
/// without conflict.
pub proof fn lemma_merge_same_change(ancestor: StateModel, both: StateModel)
    ensures
        conflict_keys(ancestor, both, both) == Set::<Seq<char>>::empty(),
        merged(ancestor, both, both) == both,
{
    assert(conflict_keys(ancestor, both, both) =~= Set::<Seq<char>>::empty());
    assert(merged(ancestor, both, both) =~= both);
}

/// Swapping the two sides changes neither the merged state nor the keys in
/// conflict.
pub proof fn lemma_merge_symmetric(ancestor: StateModel, ours: StateModel, theirs: StateModel)
    ensures
        conflict_keys(ancestor, ours, theirs) == conflict_keys(ancestor, theirs, ours),
        merged(ancestor, ours, theirs) == merged(ancestor, theirs, ours),
{
    assert(conflict_keys(ancestor, ours, theirs) =~= conflict_keys(ancestor, theirs, ours));
    assert(merged(ancestor, ours, theirs) =~= merged(ancestor, theirs, ours));
}

} // verus!
