//! The branches of one submodule.
use crate::error::{CalixError, CalixResult};
use crate::host::unix_time_secs;
use crate::strmap::StrMap;
use vstd::prelude::*;

verus! {

/// The name of the branch that every submodule starts with.
pub open spec fn main_name() -> Seq<char> {
    seq!['m', 'a', 'i', 'n']
}

/// The name of the branch that every submodule starts with.
pub fn main_branch_name() -> (s: String)
    ensures
        s@ == main_name(),
{
    let s = "main".to_owned();
    proof {
        reveal_strlit("main");
    }
    s
}

/// A branch of a submodule.
#[derive(Debug)]
pub struct Branch {
    /// The branch's name.
    pub name: String,
    /// The submodule the branch belongs to.
    pub submodule_id: String,
    /// The commit at the tip of the branch.
    pub head_commit_id: Option<String>,
    /// The commit the branch was forked from.
    pub fork_commit_id: Option<String>,
    /// Creation time, in seconds since the Unix epoch.
    pub created_at: u64,
}

/// The model of a branch.
pub struct BranchView {
    pub name: Seq<char>,
    pub submodule_id: Seq<char>,
    pub head_commit_id: Option<Seq<char>>,
    pub fork_commit_id: Option<Seq<char>>,
    pub created_at: u64,
}

impl View for Branch {
    type V = BranchView;

    open spec fn view(&self) -> BranchView {
        BranchView {
            name: self.name@,
            submodule_id: self.submodule_id@,
            head_commit_id: self.head_commit_id.deep_view(),
            fork_commit_id: self.fork_commit_id.deep_view(),
            created_at: self.created_at,
        }
    }
}

fn copy_opt(o: &Option<String>) -> (r: Option<String>)
    ensures
        r.deep_view() == o.deep_view(),
{
    match o {
        Some(s) => Some(s.clone()),
        None => None,
    }
}

impl Clone for Branch {
    fn clone(&self) -> (r: Self)
        ensures
            r@ == self@,
    {
        Branch {
            name: self.name.clone(),
            submodule_id: self.submodule_id.clone(),
            head_commit_id: copy_opt(&self.head_commit_id),
            fork_commit_id: copy_opt(&self.fork_commit_id),
            created_at: self.created_at,
        }
    }
}

/// The branch map that a new submodule starts with: `main` alone, with no
/// commit, created at `now`.
pub open spec fn initial_branches(submodule_id: Seq<char>, now: u64) -> Map<Seq<char>, BranchView> {
    Map::empty().insert(
        main_name(),
        BranchView {
            name: main_name(),
            submodule_id,
            head_commit_id: None,
            fork_commit_id: None,
            created_at: now,
        },
    )
}

/// A branch created under `name`, forked from `fork_commit_id` at `now`.
pub open spec fn forked_branch(
    name: Seq<char>,
    submodule_id: Seq<char>,
    fork_commit_id: Seq<char>,
    now: u64,
) -> BranchView {
    BranchView {
        name,
        submodule_id,
        head_commit_id: Some(fork_commit_id),
        fork_commit_id: Some(fork_commit_id),
        created_at: now,
    }
}

/// `branches` with the tip of the branch `name` moved to `commit_id`.
pub open spec fn with_head(
    branches: Map<Seq<char>, BranchView>,
    name: Seq<char>,
    commit_id: Seq<char>,
) -> Map<Seq<char>, BranchView> {
    branches.insert(name, BranchView { head_commit_id: Some(commit_id), ..branches[name] })
}

/// All branches of one submodule, and which one is current.
#[derive(Debug, Clone)]
pub struct BranchStore {
    /// Branch name to branch.
    pub branches: StrMap<Branch>,
    /// The current branch's name.
    pub current_branch: String,
}

impl BranchStore {
    /// The store is as its operations keep it: `main` and the current branch
    /// exist, and each branch is stored under its own name.
    pub open spec fn consistent(&self) -> bool {
        &&& self.branches@.contains_key(main_name())
        &&& self.branches@.contains_key(self.current_branch@)
        &&& forall|k: Seq<char>| #[trigger]
            self.branches@.contains_key(k) ==> self.branches@[k].name == k
    }

    /// A store that holds only `main`, created at `now`, with `main` current.
    pub fn new_at(submodule_id: &str, now: u64) -> (s: Self)
        ensures
            s.branches@ == initial_branches(submodule_id@, now),
            s.current_branch@ == main_name(),
            s.consistent(),
    {
        let main = Branch {
            name: main_branch_name(),
            submodule_id: submodule_id.to_owned(),
            head_commit_id: None,
            fork_commit_id: None,
            created_at: now,
        };
        let mut branches = StrMap::new();
        branches.insert(main_branch_name(), main);
        assert(branches@ =~= initial_branches(submodule_id@, now));
        BranchStore { branches, current_branch: main_branch_name() }
    }

    /// A store that holds only `main`, created now by the system clock, with
    /// `main` current.
    pub fn new(submodule_id: &str) -> (s: Self)
        ensures
            exists|now: u64| s.branches@ == initial_branches(submodule_id@, now),
            s.current_branch@ == main_name(),
            s.consistent(),
    {
        let now = unix_time_secs();
        Self::new_at(submodule_id, now)
    }

    /// Creates the branch `name`, forked from `fork_commit_id` at `now`, with
    /// its tip there too.  A name already taken is refused.
    pub fn create_branch_at(
        &mut self,
        name: &str,
        submodule_id: &str,
        fork_commit_id: &str,
        now: u64,
    ) -> (r: CalixResult<()>)
        ensures
            final(self).current_branch == old(self).current_branch,
            old(self).branches@.contains_key(name@) ==> {
                &&& r matches Err(CalixError::BranchAlreadyExists { name: n }) && n@ == name@
                &&& final(self).branches@ == old(self).branches@
            },
            !old(self).branches@.contains_key(name@) ==> {
                &&& r is Ok
                &&& final(self).branches@ == old(self).branches@.insert(
                    name@,
                    forked_branch(name@, submodule_id@, fork_commit_id@, now),
                )
            },
            old(self).consistent() ==> final(self).consistent(),
    {
        if self.branches.contains_key(name) {
            return Err(CalixError::BranchAlreadyExists { name: name.to_owned() });
        }
        let branch = Branch {
            name: name.to_owned(),
            submodule_id: submodule_id.to_owned(),
            head_commit_id: Some(fork_commit_id.to_owned()),
            fork_commit_id: Some(fork_commit_id.to_owned()),
            created_at: now,
        };
        self.branches.insert(name.to_owned(), branch);
        Ok(())
    }

    /// Creates the branch `name`, forked from `fork_commit_id` now by the
    /// system clock, with its tip there too.  A name already taken is
    /// refused.
    pub fn create_branch(&mut self, name: &str, submodule_id: &str, fork_commit_id: &str) -> (r:
        CalixResult<()>)
        ensures
            final(self).current_branch == old(self).current_branch,
            old(self).branches@.contains_key(name@) ==> {
                &&& r matches Err(CalixError::BranchAlreadyExists { name: n }) && n@ == name@
                &&& final(self).branches@ == old(self).branches@
            },
            !old(self).branches@.contains_key(name@) ==> {
                &&& r is Ok
                &&& exists|now: u64|
                    final(self).branches@ == old(self).branches@.insert(
                        name@,
                        forked_branch(name@, submodule_id@, fork_commit_id@, now),
                    )
            },
            old(self).consistent() ==> final(self).consistent(),
    {
        let now = unix_time_secs();
        self.create_branch_at(name, submodule_id, fork_commit_id, now)
    }

    /// Makes `name` the current branch; a name without a branch is refused.
    pub fn checkout(&mut self, name: &str) -> (r: CalixResult<()>)
        ensures
            final(self).branches == old(self).branches,
            old(self).branches@.contains_key(name@) ==> {
                &&& r is Ok
                &&& final(self).current_branch@ == name@
            },
            !old(self).branches@.contains_key(name@) ==> {
                &&& r matches Err(CalixError::BranchNotFound { name: n }) && n@ == name@
                &&& final(self).current_branch == old(self).current_branch
            },
            old(self).consistent() ==> final(self).consistent(),
    {
        if !self.branches.contains_key(name) {
            return Err(CalixError::BranchNotFound { name: name.to_owned() });
        }
        self.current_branch = name.to_owned();
        Ok(())
    }

    /// Deletes the branch `name`.  `main` and the current branch cannot be
    /// deleted, in that order of checks; then a name without a branch is
    /// refused.
    pub fn delete_branch(&mut self, name: &str) -> (r: CalixResult<()>)
        ensures
            final(self).current_branch == old(self).current_branch,
            name@ == main_name() ==> {
                &&& r matches Err(CalixError::CannotDeleteMainBranch)
                &&& final(self).branches@ == old(self).branches@
            },
            name@ != main_name() && name@ == old(self).current_branch@ ==> {
                &&& r matches Err(CalixError::CannotDeleteCurrentBranch { name: n }) && n@
                    == name@
                &&& final(self).branches@ == old(self).branches@
            },
            name@ != main_name() && name@ != old(self).current_branch@
                && !old(self).branches@.contains_key(name@) ==> {
                &&& r matches Err(CalixError::BranchNotFound { name: n }) && n@ == name@
                &&& final(self).branches@ == old(self).branches@
            },
            name@ != main_name() && name@ != old(self).current_branch@
                && old(self).branches@.contains_key(name@) ==> {
                &&& r is Ok
                &&& final(self).branches@ == old(self).branches@.remove(name@)
            },
            old(self).consistent() ==> final(self).consistent(),
    {
        let name_s = name.to_owned();
        if name_s == main_branch_name() {
            return Err(CalixError::CannotDeleteMainBranch);
        }
        if name_s == self.current_branch {
            return Err(CalixError::CannotDeleteCurrentBranch { name: name_s });
        }
        if self.branches.remove(name).is_none() {
            return Err(CalixError::BranchNotFound { name: name_s });
        }
        Ok(())
    }

    /// Every branch, in the order of the store's keys.
    pub fn list_branches(&self) -> (r: Vec<&Branch>)
        ensures
            self.branches.key_seq().no_duplicates(),
            self.branches.key_seq().to_set() == self.branches@.dom(),
            r@.len() == self.branches.key_seq().len(),
            forall|i: int|
                0 <= i < r@.len() ==> (#[trigger] r@[i])@ == self.branches@[self.branches.key_seq()[i]],
    {
        let n = self.branches.len();
        let mut r: Vec<&Branch> = Vec::new();
        let mut i: usize = 0;
        while i < n
            invariant
                n == self.branches.key_seq().len(),
                0 <= i <= n,
                r@.len() == i,
                forall|j: int|
                    0 <= j < i ==> (#[trigger] r@[j])@ == self.branches@[self.branches.key_seq()[j]],
            decreases n - i,
        {
            r.push(self.branches.value_at(i));
            i = i + 1;
        }
        r
    }

    /// Moves the tip of the branch `name` to `commit_id`.
    fn move_head(&mut self, name: &String, commit_id: &str) -> (r: CalixResult<()>)
        ensures
            final(self).current_branch == old(self).current_branch,
            old(self).branches@.contains_key(name@) ==> {
                &&& r is Ok
                &&& final(self).branches@ == with_head(old(self).branches@, name@, commit_id@)
            },
            !old(self).branches@.contains_key(name@) ==> {
                &&& r matches Err(CalixError::BranchNotFound { name: n }) && n@ == name@
                &&& final(self).branches@ == old(self).branches@
            },
            old(self).consistent() ==> final(self).consistent(),
    {
        let mut branch = match self.branches.get(name.as_str()) {
            Some(b) => b.clone(),
            None => {
                return Err(CalixError::BranchNotFound { name: name.clone() });
            },
        };
        branch.head_commit_id = Some(commit_id.to_owned());
        self.branches.insert(name.clone(), branch);
        assert(self.branches@ =~= with_head(old(self).branches@, name@, commit_id@));
        Ok(())
    }

    /// Moves the tip of the current branch to `commit_id`.
    pub fn advance_branch(&mut self, commit_id: &str) -> (r: CalixResult<()>)
        ensures
            final(self).current_branch == old(self).current_branch,
            old(self).branches@.contains_key(old(self).current_branch@) ==> {
                &&& r is Ok
                &&& final(self).branches@ == with_head(
                    old(self).branches@,
                    old(self).current_branch@,
                    commit_id@,
                )
            },
            !old(self).branches@.contains_key(old(self).current_branch@) ==> {
                &&& r matches Err(CalixError::BranchNotFound { name: n }) && n@ == old(
                    self,
                ).current_branch@
                &&& final(self).branches@ == old(self).branches@
            },
            old(self).consistent() ==> final(self).consistent(),
    {
        let current = self.current_branch.clone();
        self.move_head(&current, commit_id)
    }

    /// The commit at the tip of the branch `name`.
    pub fn get_branch_head(&self, name: &str) -> (r: CalixResult<Option<String>>)
        ensures
            self.branches@.contains_key(name@) ==> (r matches Ok(h) && h.deep_view()
                == self.branches@[name@].head_commit_id),
            !self.branches@.contains_key(name@) ==> (r matches Err(
                CalixError::BranchNotFound { name: n },
            ) && n@ == name@),
    {
        match self.branches.get(name) {
            Some(b) => Ok(copy_opt(&b.head_commit_id)),
            None => Err(CalixError::BranchNotFound { name: name.to_owned() }),
        }
    }

    /// Moves the tip of the branch `name` to `commit_id`.
    pub fn set_branch_head(&mut self, name: &str, commit_id: &str) -> (r: CalixResult<()>)
        ensures
            final(self).current_branch == old(self).current_branch,
            old(self).branches@.contains_key(name@) ==> {
                &&& r is Ok
                &&& final(self).branches@ == with_head(old(self).branches@, name@, commit_id@)
            },
            !old(self).branches@.contains_key(name@) ==> {
                &&& r matches Err(CalixError::BranchNotFound { name: n }) && n@ == name@
                &&& final(self).branches@ == old(self).branches@
            },
            old(self).consistent() ==> final(self).consistent(),
    {
        let name_s = name.to_owned();
        self.move_head(&name_s, commit_id)
    }
}

/// A new submodule's branches are `main` alone: named `main`, of that
/// submodule, with no commit, created at `now`.
pub proof fn lemma_initial_branches(submodule_id: Seq<char>, now: u64)
    ensures
        initial_branches(submodule_id, now).dom() == Set::<Seq<char>>::empty().insert(main_name()),
        initial_branches(submodule_id, now)[main_name()].name == main_name(),
        initial_branches(submodule_id, now)[main_name()].submodule_id == submodule_id,
        initial_branches(submodule_id, now)[main_name()].head_commit_id is None,
        initial_branches(submodule_id, now)[main_name()].fork_commit_id is None,
        initial_branches(submodule_id, now)[main_name()].created_at == now,
{
    assert(initial_branches(submodule_id, now).dom() =~= Set::<Seq<char>>::empty().insert(
        main_name(),
    ));
}

/// A forked branch carries its name and submodule, starts with its tip at
/// the fork, and records the fork and its creation time.
pub proof fn lemma_forked_branch(
    name: Seq<char>,
    submodule_id: Seq<char>,
    fork_commit_id: Seq<char>,
    now: u64,
)
    ensures
        forked_branch(name, submodule_id, fork_commit_id, now).name == name,
        forked_branch(name, submodule_id, fork_commit_id, now).submodule_id == submodule_id,
        forked_branch(name, submodule_id, fork_commit_id, now).head_commit_id == Some(
            fork_commit_id,
        ),
        forked_branch(name, submodule_id, fork_commit_id, now).fork_commit_id == Some(
            fork_commit_id,
        ),
        forked_branch(name, submodule_id, fork_commit_id, now).created_at == now,
{
}

/// After the tip of a branch moves, that branch's tip is the new commit, its
/// other fields are as they were, and every other branch is as it was.
pub proof fn lemma_head_moves_alone(
    branches: Map<Seq<char>, BranchView>,
    name: Seq<char>,
    commit_id: Seq<char>,
    other: Seq<char>,
)
    requires
        branches.contains_key(name),
    ensures
        with_head(branches, name, commit_id)[name].head_commit_id == Some(commit_id),
        with_head(branches, name, commit_id)[name].name == branches[name].name,
        with_head(branches, name, commit_id)[name].submodule_id == branches[name].submodule_id,
        with_head(branches, name, commit_id)[name].fork_commit_id == branches[name].fork_commit_id,
        with_head(branches, name, commit_id)[name].created_at == branches[name].created_at,
        with_head(branches, name, commit_id).dom() == branches.dom(),
        other != name ==> with_head(branches, name, commit_id)[other] == branches[other],
{
    assert(with_head(branches, name, commit_id).dom() =~= branches.dom());
}

} // verus!
