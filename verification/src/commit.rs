//! Commits and the diffs between two states of a submodule.
use crate::strmap::StrMap;
use vstd::prelude::*;
use vstd::std_specs::cmp::PartialEqSpecImpl;

verus! {

/// The model of a state: the key-value pairs that a submodule holds.
pub type StateModel = Map<Seq<char>, Seq<char>>;

/// The state that `current` becomes when the keys in `removed` are taken out
/// of it and then every pair of `set` is written into it.
pub open spec fn applied(current: StateModel, set: StateModel, removed: Set<Seq<char>>) -> StateModel {
    current.remove_keys(removed).union_prefer_right(set)
}

/// The pairs of `after` that `before` does not already hold.
pub open spec fn changed_entries(before: StateModel, after: StateModel) -> StateModel {
    after.filter_keys(|k: Seq<char>| !(before.contains_key(k) && before[k] == after[k]))
}

/// The keys of `before` that `after` no longer holds.
pub open spec fn removed_keys(before: StateModel, after: StateModel) -> Set<Seq<char>> {
    before.dom().difference(after.dom())
}

/// A commit of one submodule.
#[derive(Debug, Clone)]
pub struct Commit {
    /// The commit's unique identifier.
    pub id: String,
    /// The parent commit; `None` for the first commit.
    pub parent_id: Option<String>,
    pub message: String,
    /// The submodule that the commit belongs to.
    pub submodule_id: String,
    /// The commit's place on the global timeline.
    pub global_order: GlobalOrder,
    /// The change from the parent's state.
    pub diff: Diff,
    /// Creation time, in seconds since the Unix epoch.
    pub created_at: u64,
}

/// A place on the global timeline: a Unix timestamp and a sequence number.
#[derive(Debug, Clone, Copy, PartialEq, Eq, Structural)]
pub struct GlobalOrder {
    pub timestamp: u64,
    pub sequence: u64,
}

/// A change between two states: the pairs to write and the keys to remove.
#[derive(Debug, Clone)]
pub struct Diff {
    /// Keys added or updated, with their new values.
    pub set: StrMap<String>,
    /// Keys removed.
    pub remove: Vec<String>,
}

impl Diff {
    /// The keys that the diff removes.
    pub open spec fn removed(&self) -> Set<Seq<char>> {
        self.remove.deep_view().to_set()
    }

    /// The state that the diff turns `current` into.
    pub open spec fn applied_to(&self, current: StateModel) -> StateModel {
        applied(current, self.set@, self.removed())
    }

    /// The diff records exactly the change from `before` to `after`: it sets
    /// the changed pairs and removes each vanished key once.
    pub open spec fn records(&self, before: StateModel, after: StateModel) -> bool {
        &&& self.set@ == changed_entries(before, after)
        &&& self.removed() == removed_keys(before, after)
        &&& self.remove.deep_view().no_duplicates()
    }

    /// A diff that changes nothing.
    pub fn new() -> (d: Self)
        ensures
            d.set@ == Map::<Seq<char>, Seq<char>>::empty(),
            d.remove@.len() == 0,
    {
        Diff { set: StrMap::new(), remove: Vec::new() }
    }

    /// Whether the diff sets no key and removes no key.
    pub fn is_empty(&self) -> (b: bool)
        ensures
            b == (self.set@.len() == 0 && self.remove@.len() == 0),
    {
        self.set.is_empty() && self.remove.len() == 0
    }

    /// Applies the diff to `current`: the removed keys go first, then every
    /// pair of `set` is written.
    pub fn apply(&self, current: &StrMap<String>) -> (next: StrMap<String>)
        ensures
            next@ == self.applied_to(current@),
            forall|k: Seq<char>| #[trigger]
                self.set@.contains_key(k) ==> next@.contains_key(k) && next@[k] == self.set@[k],
            forall|k: Seq<char>|
                !self.set@.contains_key(k) && #[trigger] self.remove.deep_view().contains(k)
                    ==> !next@.contains_key(k),
            forall|k: Seq<char>| #![trigger next@.get(k)]
                !self.set@.contains_key(k) && !self.remove.deep_view().contains(k) ==> next@.get(
                    k,
                ) == current@.get(k),
    {
        let mut next = current.clone();
        proof {
            assert forall|i: int| 0 <= i < current.value_seq().len() implies #[trigger]
                current.value_seq()[i]@ == next.value_seq()[i]@ by {
                assert(cloned::<String>(current.value_seq()[i], next.value_seq()[i]));
            }
            current.lemma_same_view(&next);
        }
        let n_remove = self.remove.len();
        let mut i: usize = 0;
        while i < n_remove
            invariant
                n_remove == self.remove@.len(),
                0 <= i <= n_remove,
                next@ == current@.remove_keys(self.remove.deep_view().take(i as int).to_set()),
            decreases n_remove - i,
        {
            next.remove(self.remove[i].as_str());
            assert(self.remove.deep_view().take(i + 1) =~= self.remove.deep_view().take(
                i as int,
            ).push(self.remove[i as int]@));
            proof {
                self.remove.deep_view().take(i as int).lemma_push_to_set_commute(
                    self.remove[i as int]@,
                );
            }
            assert(next@ =~= current@.remove_keys(
                self.remove.deep_view().take(i + 1).to_set(),
            ));
            i = i + 1;
        }
        assert(self.remove.deep_view().take(n_remove as int) =~= self.remove.deep_view());
        let n_set = self.set.len();
        let ghost base = next@;
        let mut j: usize = 0;
        while j < n_set
            invariant
                n_set == self.set.key_seq().len(),
                self.set.key_seq().no_duplicates(),
                self.set@.dom() == self.set.key_seq().to_set(),
                0 <= j <= n_set,
                next@ == base.union_prefer_right(
                    self.set@.restrict(self.set.key_seq().take(j as int).to_set()),
                ),
            decreases n_set - j,
        {
            let k = self.set.key_at(j);
            let v = self.set.value_at(j);
            next.insert(k.clone(), v.clone());
            assert(self.set.key_seq().take(j + 1) =~= self.set.key_seq().take(j as int).push(
                k@,
            ));
            proof {
                self.set.key_seq().take(j as int).lemma_push_to_set_commute(k@);
            }
            assert(next@ =~= base.union_prefer_right(
                self.set@.restrict(self.set.key_seq().take(j + 1).to_set()),
            ));
            j = j + 1;
        }
        assert(self.set.key_seq().take(n_set as int) =~= self.set.key_seq());
        assert(self.set@.restrict(self.set.key_seq().to_set()) =~= self.set@);
        assert(next@ =~= self.applied_to(current@));
        proof {
            assert forall|k: Seq<char>| #![trigger next@.get(k)]
                !self.set@.contains_key(k) && !self.remove.deep_view().contains(k) implies next@.get(
                    k,
                ) == current@.get(k) by {
                lemma_applied_pointwise(current@, self.set@, self.removed(), k);
            }
            assert forall|k: Seq<char>|
                !self.set@.contains_key(k) && #[trigger] self.remove.deep_view().contains(
                    k,
                ) implies !next@.contains_key(k) by {
                lemma_applied_pointwise(current@, self.set@, self.removed(), k);
            }
            assert forall|k: Seq<char>| #[trigger]
                self.set@.contains_key(k) implies next@.contains_key(k) && next@[k]
                == self.set@[k] by {
                lemma_applied_pointwise(current@, self.set@, self.removed(), k);
            }
        }
        next
    }

    /// The diff that turns `before` into `after`.
    ///
    /// `set` holds every pair of `after` whose key `before` lacks or maps to
    /// another value; `remove` lists once each key of `before` that `after`
    /// lacks.
    pub fn from_states(before: &StrMap<String>, after: &StrMap<String>) -> (d: Self)
        ensures
            d.records(before@, after@),
            forall|k: Seq<char>| #[trigger]
                d.set@.contains_key(k) <==> after@.contains_key(k) && !(before@.contains_key(k)
                    && before@[k] == after@[k]),
            forall|k: Seq<char>| #[trigger] d.set@.contains_key(k) ==> d.set@[k] == after@[k],
            forall|k: Seq<char>| #[trigger]
                d.remove.deep_view().contains(k) <==> before@.contains_key(k)
                    && !after@.contains_key(k),
            d.remove.deep_view().no_duplicates(),
    {
        let mut diff = Diff::new();
        let n_after = after.len();
        let mut i: usize = 0;
        while i < n_after
            invariant
                n_after == after.key_seq().len(),
                after.key_seq().no_duplicates(),
                after@.dom() == after.key_seq().to_set(),
                0 <= i <= n_after,
                diff.remove@.len() == 0,
                diff.set@ == changed_entries(before@, after@).restrict(
                    after.key_seq().take(i as int).to_set(),
                ),
            decreases n_after - i,
        {
            let k = after.key_at(i);
            let v = after.value_at(i);
            let unchanged = match before.get(k.as_str()) {
                Some(old) => *old == *v,
                None => false,
            };
            if !unchanged {
                diff.set.insert(k.clone(), v.clone());
            }
            assert(after.key_seq().take(i + 1) =~= after.key_seq().take(i as int).push(k@));
            proof {
                after.key_seq().take(i as int).lemma_push_to_set_commute(k@);
            }
            assert(diff.set@ =~= changed_entries(before@, after@).restrict(
                after.key_seq().take(i + 1).to_set(),
            ));
            i = i + 1;
        }
        assert(after.key_seq().take(n_after as int) =~= after.key_seq());
        assert(diff.set@ =~= changed_entries(before@, after@));
        let n_before = before.len();
        let mut j: usize = 0;
        while j < n_before
            invariant
                n_before == before.key_seq().len(),
                before.key_seq().no_duplicates(),
                before@.dom() == before.key_seq().to_set(),
                0 <= j <= n_before,
                diff.set@ == changed_entries(before@, after@),
                diff.remove.deep_view().no_duplicates(),
                diff.remove.deep_view().to_set() == removed_keys(before@, after@).intersect(
                    before.key_seq().take(j as int).to_set(),
                ),
            decreases n_before - j,
        {
            let k = before.key_at(j);
            let ghost prev = diff.remove.deep_view();
            if !after.contains_key(k.as_str()) {
                diff.remove.push(k.clone());
                assert(diff.remove.deep_view() =~= prev.push(k@));
                assert(!prev.contains(k@)) by {
                    if prev.contains(k@) {
                        assert(prev.to_set().contains(k@));
                        let w = choose|w: int| 0 <= w < j && before.key_seq()[w] == k@;
                        assert(before.key_seq()[w] == before.key_seq()[j as int]);
                    }
                }
            }
            assert(before.key_seq().take(j + 1) =~= before.key_seq().take(j as int).push(k@));
            proof {
                before.key_seq().take(j as int).lemma_push_to_set_commute(k@);
                prev.lemma_push_to_set_commute(k@);
            }
            assert(diff.remove.deep_view().to_set() =~= removed_keys(before@, after@).intersect(
                before.key_seq().take(j + 1).to_set(),
            ));
            j = j + 1;
        }
        assert(before.key_seq().take(n_before as int) =~= before.key_seq());
        assert(diff.remove.deep_view().to_set() =~= removed_keys(before@, after@));
        proof {
            assert forall|k: Seq<char>| #[trigger]
                diff.set@.contains_key(k) <==> after@.contains_key(k) && !(before@.contains_key(k)
                    && before@[k] == after@[k]) by {
                lemma_changed_entries_pointwise(before@, after@, k);
            }
            assert forall|k: Seq<char>| #[trigger] diff.set@.contains_key(k) implies diff.set@[k]
                == after@[k] by {
                lemma_changed_entries_pointwise(before@, after@, k);
            }
            assert forall|k: Seq<char>| #[trigger]
                diff.remove.deep_view().contains(k) <==> before@.contains_key(k)
                    && !after@.contains_key(k) by {
                assert(diff.remove.deep_view().to_set().contains(k) == diff.remove.deep_view().contains(k));
                lemma_removed_keys_pointwise(before@, after@, k);
            }
        }
        diff
    }
}

impl Default for Diff {
    /// A diff that changes nothing.
    fn default() -> (d: Self)
        ensures
            d.set@ == Map::<Seq<char>, Seq<char>>::empty(),
            d.remove@.len() == 0,
    {
        Self::new()
    }
}

/// Whether two lists of strings are equal, element by element.
fn same_strings(a: &Vec<String>, b: &Vec<String>) -> (r: bool)
    ensures
        r == (a.deep_view() == b.deep_view()),
{
    if a.len() != b.len() {
        assert(a.deep_view().len() != b.deep_view().len());
        return false;
    }
    let n = a.len();
    let mut i: usize = 0;
    while i < n
        invariant
            n == a@.len(),
            n == b@.len(),
            0 <= i <= n,
            forall|j: int| 0 <= j < i ==> a.deep_view()[j] == b.deep_view()[j],
        decreases n - i,
    {
        if !(a[i] == b[i]) {
            assert(a.deep_view()[i as int] != b.deep_view()[i as int]);
            return false;
        }
        i = i + 1;
    }
    assert(a.deep_view() =~= b.deep_view());
    true
}

/// Whether two optional strings are equal.
fn same_opt(a: &Option<String>, b: &Option<String>) -> (r: bool)
    ensures
        r == (a.deep_view() == b.deep_view()),
{
    match (a, b) {
        (Some(x), Some(y)) => *x == *y,
        (None, None) => true,
        _ => false,
    }
}

impl PartialEq for Diff {
    /// Equal diffs set the same pairs and list the same removed keys in the
    /// same order.
    fn eq(&self, other: &Self) -> (r: bool) {
        self.set == other.set && same_strings(&self.remove, &other.remove)
    }
}

impl PartialEqSpecImpl for Diff {
    open spec fn obeys_eq_spec() -> bool {
        true
    }

    open spec fn eq_spec(&self, other: &Self) -> bool {
        self.set@ == other.set@ && self.remove.deep_view() == other.remove.deep_view()
    }
}

impl PartialEq for Commit {
    /// Equal commits agree on every field.
    fn eq(&self, other: &Self) -> (r: bool) {
        self.id == other.id && same_opt(&self.parent_id, &other.parent_id) && self.message
            == other.message && self.submodule_id == other.submodule_id && self.global_order
            == other.global_order && self.diff == other.diff && self.created_at == other.created_at
    }
}

impl PartialEqSpecImpl for Commit {
    open spec fn obeys_eq_spec() -> bool {
        true
    }

    open spec fn eq_spec(&self, other: &Self) -> bool {
        &&& self.id@ == other.id@
        &&& self.parent_id.deep_view() == other.parent_id.deep_view()
        &&& self.message@ == other.message@
        &&& self.submodule_id@ == other.submodule_id@
        &&& self.global_order == other.global_order
        &&& self.diff.set@ == other.diff.set@
        &&& self.diff.remove.deep_view() == other.diff.remove.deep_view()
        &&& self.created_at == other.created_at
    }
}

/// Key by key, applying a diff writes every pair it sets (whatever the
/// state held there), drops every key it removes and does not set, and
/// leaves every other key as it was.
pub proof fn lemma_applied_pointwise(
    current: StateModel,
    set: StateModel,
    removed: Set<Seq<char>>,
    key: Seq<char>,
)
    ensures
        set.contains_key(key) ==> applied(current, set, removed).get(key) == Some(set[key]),
        !set.contains_key(key) && removed.contains(key) ==> applied(current, set, removed).get(key)
            == None::<Seq<char>>,
        !set.contains_key(key) && !removed.contains(key) ==> applied(current, set, removed).get(
            key,
        ) == current.get(key),
{
}

/// Applying a diff twice is applying it once.
pub proof fn lemma_applied_idempotent(
    current: StateModel,
    set: StateModel,
    removed: Set<Seq<char>>,
)
    ensures
        applied(applied(current, set, removed), set, removed) == applied(current, set, removed),
{
    assert(applied(applied(current, set, removed), set, removed) =~= applied(
        current,
        set,
        removed,
    ));
}

/// Key by key, the pairs of the diff from `before` to `after` are exactly
/// those of `after` whose key `before` lacks or maps to another value.
pub proof fn lemma_changed_entries_pointwise(before: StateModel, after: StateModel, key: Seq<char>)
    ensures
        changed_entries(before, after).contains_key(key) <==> after.contains_key(key) && !(
        before.contains_key(key) && before[key] == after[key]),
        changed_entries(before, after).contains_key(key) ==> changed_entries(before, after)[key]
            == after[key],
{
}

/// The keys that the diff from `before` to `after` removes are exactly those
/// of `before` that `after` lacks.
pub proof fn lemma_removed_keys_pointwise(before: StateModel, after: StateModel, key: Seq<char>)
    ensures
        removed_keys(before, after).contains(key) <==> before.contains_key(key)
            && !after.contains_key(key),
{
}

/// Applying the diff from `before` to `after` to `before` gives `after`.
pub proof fn lemma_diff_roundtrip(before: StateModel, after: StateModel)
    ensures
        applied(before, changed_entries(before, after), removed_keys(before, after)) == after,
{
    assert(applied(before, changed_entries(before, after), removed_keys(before, after)) =~= after);
}

/// The diff that records the change from a state to itself sets nothing and
/// removes nothing.
pub proof fn lemma_diff_of_same_state(d: Diff, state: StateModel)
    requires
        d.records(state, state),
    ensures
        d.set@ == Map::<Seq<char>, Seq<char>>::empty(),
        d.remove@.len() == 0,
{
    assert(changed_entries(state, state) =~= Map::<Seq<char>, Seq<char>>::empty());
    assert(removed_keys(state, state) =~= Set::<Seq<char>>::empty());
    if d.remove@.len() > 0 {
        assert(d.remove.deep_view()[0] == d.remove@[0]@);
        assert(d.remove.deep_view().contains(d.remove@[0]@));
        assert(d.removed().contains(d.remove@[0]@));
    }
}

/// A diff that sets nothing and removes nothing leaves every state as it is.
pub proof fn lemma_empty_diff_is_identity(current: StateModel)
    ensures
        applied(current, Map::<Seq<char>, Seq<char>>::empty(), Set::<Seq<char>>::empty()) == current,
{
    assert(applied(current, Map::<Seq<char>, Seq<char>>::empty(), Set::<Seq<char>>::empty())
        =~= current);
}

} // verus!
