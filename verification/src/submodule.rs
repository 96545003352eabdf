//! Submodules: their metadata, their commit chains and the states the
//! chains rebuild.
use crate::branch::{main_branch_name, main_name};
use crate::commit::{Commit, Diff, StateModel, applied, lemma_applied_pointwise, lemma_diff_roundtrip};
use crate::strmap::StrMap;
use vstd::prelude::*;

verus! {

/// What a submodule holds.
#[derive(Debug, Clone, PartialEq, Eq, Structural)]
pub enum SubmoduleKind {
    Clip,
    Effect,
    Transition,
    Subtitle,
    Track,
    GlobalEffect,
}

/// A submodule that another one depends on, with its priority (1 is the
/// highest).
#[derive(Debug, Clone)]
pub struct Dependency {
    pub submodule_id: String,
    pub priority: u32,
}

/// The metadata of a submodule.
#[derive(Debug, Clone)]
pub struct SubmoduleInfo {
    pub id: String,
    pub kind: SubmoduleKind,
    /// Path from the project root.
    pub relative_path: String,
    /// The current head commit.
    pub head_commit_id: Option<String>,
    /// The current branch's name.
    pub current_branch: String,
    /// The submodules this one depends on.
    pub dependencies: Vec<Dependency>,
}

/// A submodule and the directory that holds its data.
#[derive(Debug)]
pub struct Submodule {
    pub info: SubmoduleInfo,
    /// The directory under `.calix/submodules/` that holds the submodule.
    pub storage_root: std::path::PathBuf,
}

/// The state that a chain of commits, oldest first, builds from the empty
/// state: each commit's diff applied in turn.
pub open spec fn replayed(chain: Seq<Commit>) -> StateModel
    decreases chain.len(),
{
    if chain.len() == 0 {
        Map::empty()
    } else {
        chain.last().diff.applied_to(replayed(chain.drop_last()))
    }
}

impl Submodule {
    /// A new submodule on the branch `main`, with no commit and no
    /// dependency, kept under `storage_root`.
    pub fn create(
        storage_root: std::path::PathBuf,
        id: String,
        kind: SubmoduleKind,
        relative_path: String,
    ) -> (s: Self)
        ensures
            s.info.id == id,
            s.info.kind == kind,
            s.info.relative_path == relative_path,
            s.info.head_commit_id is None,
            s.info.current_branch@ == main_name(),
            s.info.dependencies@.len() == 0,
            s.storage_root == storage_root,
    {
        let info = SubmoduleInfo {
            id,
            kind,
            relative_path,
            head_commit_id: None,
            current_branch: main_branch_name(),
            dependencies: Vec::new(),
        };
        Submodule { info, storage_root }
    }

    /// Makes `commit` the submodule's head.
    pub fn append_commit(&mut self, commit: Commit)
        ensures
            final(self).info.head_commit_id.deep_view() == Some(commit.id@),
            final(self).info.id == old(self).info.id,
            final(self).info.kind == old(self).info.kind,
            final(self).info.relative_path == old(self).info.relative_path,
            final(self).info.current_branch == old(self).info.current_branch,
            final(self).info.dependencies == old(self).info.dependencies,
            final(self).storage_root == old(self).storage_root,
    {
        self.info.head_commit_id = Some(commit.id);
    }

    /// The state that `chain`, oldest commit first, builds from the empty
    /// state.
    pub fn replay(chain: &Vec<Commit>) -> (state: StrMap<String>)
        ensures
            state@ == replayed(chain@),
    {
        let mut state: StrMap<String> = StrMap::new();
        let n = chain.len();
        let mut i: usize = 0;
        assert(chain@.take(0) =~= Seq::<Commit>::empty());
        while i < n
            invariant
                n == chain@.len(),
                0 <= i <= n,
                state@ == replayed(chain@.take(i as int)),
            decreases n - i,
        {
            state = chain[i].diff.apply(&state);
            assert(chain@.take(i + 1).drop_last() =~= chain@.take(i as int));
            i = i + 1;
        }
        assert(chain@.take(n as int) =~= chain@);
        state
    }
}

/// A chain of commits being read from a head back to the first commit.
///
/// `start` names the head; the reader loads the commit that `next_id`
/// names and hands it to `push`, until `next_id` is `None`; then
/// `oldest_first` gives the chain in the order `replay` takes.
#[derive(Debug)]
pub struct CommitChain {
    /// The commits read so far, newest first.
    pub loaded: Vec<Commit>,
    /// The commit to read next; `None` once the first commit has been read.
    pub next_id: Option<String>,
}

impl CommitChain {
    /// A chain that starts at `commit_id`.
    pub fn start(commit_id: &str) -> (c: Self)
        ensures
            c.loaded@.len() == 0,
            c.next_id.deep_view() == Some(commit_id@),
    {
        CommitChain { loaded: Vec::new(), next_id: Some(commit_id.to_owned()) }
    }

    /// Adds the commit just read; its parent is the one to read next.
    pub fn push(&mut self, commit: Commit)
        ensures
            final(self).loaded@ == old(self).loaded@.push(commit),
            final(self).next_id.deep_view() == commit.parent_id.deep_view(),
    {
        let next = match &commit.parent_id {
            Some(p) => Some(p.clone()),
            None => None,
        };
        self.loaded.push(commit);
        self.next_id = next;
    }

    /// The commits read, oldest first.
    pub fn oldest_first(self) -> (chain: Vec<Commit>)
        ensures
            chain@ == self.loaded@.reverse(),
    {
        let mut loaded = self.loaded;
        let ghost all = loaded@;
        let mut chain: Vec<Commit> = Vec::new();
        while loaded.len() > 0
            invariant
                all.len() == loaded@.len() + chain@.len(),
                loaded@ == all.take(loaded@.len() as int),
                chain@ == all.reverse().take(chain@.len() as int),
            decreases loaded@.len(),
        {
            let ghost k = loaded@.len();
            match loaded.pop() {
                Some(c) => {
                    chain.push(c);
                    assert(chain@ =~= all.reverse().take(chain@.len() as int));
                    assert(loaded@ =~= all.take(loaded@.len() as int));
                },
                None => {},
            }
        }
        assert(chain@ =~= all.reverse());
        chain
    }
}

/// Replaying no commit gives the empty state; replaying one more commit
/// applies its diff, key by key as `lemma_applied_pointwise` states, to the
/// state the earlier commits build.
pub proof fn lemma_replay_push(chain: Seq<Commit>, commit: Commit, key: Seq<char>)
    ensures
        replayed(Seq::<Commit>::empty()) == Map::<Seq<char>, Seq<char>>::empty(),
        commit.diff.set@.contains_key(key) ==> replayed(chain.push(commit)).get(key) == Some(
            commit.diff.set@[key],
        ),
        !commit.diff.set@.contains_key(key) && commit.diff.remove.deep_view().contains(key)
            ==> replayed(chain.push(commit)).get(key) == None::<Seq<char>>,
        !commit.diff.set@.contains_key(key) && !commit.diff.remove.deep_view().contains(key)
            ==> replayed(chain.push(commit)).get(key) == replayed(chain).get(key),
{
    assert(chain.push(commit).drop_last() =~= chain);
    lemma_applied_pointwise(replayed(chain), commit.diff.set@, commit.diff.removed(), key);
}

/// The state at a head commit is its diff applied to the state at its
/// parent: replaying the chain read back from the head (`loaded`, newest
/// first, in the order `CommitChain::push` collects it) is the head's diff
/// applied to the replay of the chain read back from its parent.
pub proof fn lemma_replay_head(loaded: Seq<Commit>)
    requires
        loaded.len() > 0,
    ensures
        replayed(loaded.reverse()) == loaded[0].diff.applied_to(
            replayed(loaded.drop_first().reverse()),
        ),
{
    assert(loaded.reverse().drop_last() =~= loaded.drop_first().reverse());
    assert(loaded.reverse().last() == loaded[0]);
}

/// Replaying a chain of commits whose diffs each record the change from one
/// state to the next, starting from the empty state, rebuilds the last
/// state.
pub proof fn lemma_replay_rebuilds(chain: Seq<Commit>, states: Seq<StateModel>)
    requires
        states.len() == chain.len() + 1,
        states[0] == Map::<Seq<char>, Seq<char>>::empty(),
        forall|i: int|
            0 <= i < chain.len() ==> (#[trigger] chain[i]).diff.records(states[i], states[i + 1]),
    ensures
        replayed(chain) == states.last(),
    decreases chain.len(),
{
    if chain.len() > 0 {
        let n = chain.len() - 1;
        assert forall|i: int| 0 <= i < chain.drop_last().len() implies (
        #[trigger] chain.drop_last()[i]).diff.records(
            states.drop_last()[i],
            states.drop_last()[i + 1],
        ) by {
            assert(chain.drop_last()[i] == chain[i]);
        }
        lemma_replay_rebuilds(chain.drop_last(), states.drop_last());
        assert(chain[n].diff.records(states[n], states[n + 1]));
        lemma_diff_roundtrip(states[n], states[n + 1]);
    }
}

} // verus!
