//! The repository: its submodule index and its global timeline.
use crate::branch::main_name;
use crate::host::{
    is_uuid_v4_text, join_path, path_joined, lemma_uuid_v4_text_shape, unix_time_secs, uuid_v4_text,
    uuid_v4_text_from,
};
use crate::strmap::StrMap;
use crate::submodule::{Submodule, SubmoduleKind};
use vstd::prelude::*;

verus! {

/// One event on the global timeline: a commit of a submodule, with the time
/// and the sequence number it was recorded with.
#[derive(Debug, Clone)]
pub struct GlobalTimelineEntry {
    pub submodule_id: String,
    pub commit_id: String,
    pub timestamp: u64,
    pub sequence: u64,
}

/// The repository-wide state.
#[derive(Debug, Clone)]
pub struct GlobalState {
    pub version: u32,
    /// Submodule id to its path from the project root; it can be rebuilt
    /// from the submodules.
    pub submodule_index: StrMap<String>,
    /// The global timeline, oldest event first.
    pub timeline: Vec<GlobalTimelineEntry>,
    /// The sequence number of the last recorded event.
    pub global_sequence: u64,
}

impl GlobalState {
    /// The events are numbered 1, 2, 3, ... in the order recorded, and the
    /// global sequence number is the number of the last one.
    pub open spec fn numbered(&self) -> bool {
        &&& self.global_sequence == self.timeline@.len()
        &&& forall|i: int|
            0 <= i < self.timeline@.len() ==> (#[trigger] self.timeline@[i]).sequence == i + 1
    }

    /// The state of a new repository: version 1, no submodule, no event.
    pub fn initial() -> (s: Self)
        ensures
            s.version == 1,
            s.submodule_index@ == Map::<Seq<char>, Seq<char>>::empty(),
            s.timeline@.len() == 0,
            s.global_sequence == 0,
            s.numbered(),
    {
        GlobalState {
            version: 1,
            submodule_index: StrMap::new(),
            timeline: Vec::new(),
            global_sequence: 0,
        }
    }

    /// Appends an event for `commit_id` of `submodule_id` at `timestamp`,
    /// numbered with the next sequence number.
    pub fn record_event(&mut self, submodule_id: String, commit_id: String, timestamp: u64)
        requires
            old(self).global_sequence < u64::MAX,
        ensures
            final(self).global_sequence == old(self).global_sequence + 1,
            final(self).timeline@.len() == old(self).timeline@.len() + 1,
            final(self).timeline@.drop_last() == old(self).timeline@,
            final(self).timeline@.last().submodule_id == submodule_id,
            final(self).timeline@.last().commit_id == commit_id,
            final(self).timeline@.last().timestamp == timestamp,
            final(self).timeline@.last().sequence == final(self).global_sequence,
            final(self).version == old(self).version,
            final(self).submodule_index == old(self).submodule_index,
            old(self).numbered() ==> final(self).numbered(),
    {
        self.global_sequence = self.global_sequence + 1;
        let entry = GlobalTimelineEntry {
            submodule_id,
            commit_id,
            timestamp,
            sequence: self.global_sequence,
        };
        self.timeline.push(entry);
        assert(self.timeline@.drop_last() =~= old(self).timeline@);
    }
}

/// In a numbered timeline, the sequence numbers strictly increase along the
/// timeline, so no two events share one, and none exceeds the global
/// sequence number.
pub proof fn lemma_numbered_sequences_increase(state: GlobalState, i: int, j: int)
    requires
        state.numbered(),
        0 <= i < j < state.timeline@.len(),
    ensures
        state.timeline@[i].sequence < state.timeline@[j].sequence,
        state.timeline@[j].sequence <= state.global_sequence,
{
    assert(state.timeline@[i].sequence == i + 1);
    assert(state.timeline@[j].sequence == j + 1);
}

/// The directory of the submodule `submodule_id` in the repository at
/// `project_root`: `.calix/submodules/{submodule_id}` under it.
pub open spec fn storage_root_of(
    project_root: std::path::PathBuf,
    submodule_id: Seq<char>,
) -> std::path::PathBuf {
    path_joined(path_joined(path_joined(project_root, ".calix"@), "submodules"@), submodule_id)
}

/// A repository: the project root that holds `.calix`, and the global state.
#[derive(Debug)]
pub struct Repository {
    /// The directory that holds `.calix`.
    pub project_root: std::path::PathBuf,
    pub state: GlobalState,
}

impl Repository {
    /// The `.calix` directory under the project root.
    pub fn calix_dir(&self) -> (r: std::path::PathBuf)
        ensures
            r == path_joined(self.project_root, ".calix"@),
    {
        join_path(&self.project_root, ".calix")
    }

    /// The directory `.calix/submodules/{submodule_id}`.
    pub fn submodule_storage_root(&self, submodule_id: &str) -> (r: std::path::PathBuf)
        ensures
            r == storage_root_of(self.project_root, submodule_id@),
    {
        let submodules = join_path(&self.calix_dir(), "submodules");
        join_path(&submodules, submodule_id)
    }

    /// Registers a new submodule of `kind` at `relative_path`, under the
    /// version 4 UUID built from the 16 bytes `random`, and indexes it.  The
    /// caller draws `random` from a source of randomness.
    pub fn register_submodule(
        &mut self,
        kind: SubmoduleKind,
        relative_path: String,
        random: [u8; 16],
    ) -> (s: Submodule)
        ensures
            s.info.id@ == uuid_v4_text(random@),
            is_uuid_v4_text(s.info.id@),
            s.info.kind == kind,
            s.info.relative_path@ == relative_path@,
            s.info.head_commit_id is None,
            s.info.current_branch@ == main_name(),
            s.info.dependencies@.len() == 0,
            s.storage_root == storage_root_of(old(self).project_root, s.info.id@),
            final(self).state.submodule_index@ == old(self).state.submodule_index@.insert(
                s.info.id@,
                relative_path@,
            ),
            final(self).state.version == old(self).state.version,
            final(self).state.timeline == old(self).state.timeline,
            final(self).state.global_sequence == old(self).state.global_sequence,
            final(self).project_root == old(self).project_root,
    {
        let id = uuid_v4_text_from(random);
        proof {
            lemma_uuid_v4_text_shape(random@);
        }
        let storage_root = self.submodule_storage_root(&id);
        let submodule = Submodule::create(storage_root, id.clone(), kind, relative_path.clone());
        self.state.submodule_index.insert(id, relative_path);
        submodule
    }

    /// Appends an event for `commit_id` of `submodule_id` to the global
    /// timeline, stamped by the system clock.
    pub fn record_global_event(&mut self, submodule_id: String, commit_id: String)
        requires
            old(self).state.global_sequence < u64::MAX,
        ensures
            final(self).state.global_sequence == old(self).state.global_sequence + 1,
            final(self).state.timeline@.len() == old(self).state.timeline@.len() + 1,
            final(self).state.timeline@.drop_last() == old(self).state.timeline@,
            final(self).state.timeline@.last().submodule_id == submodule_id,
            final(self).state.timeline@.last().commit_id == commit_id,
            final(self).state.timeline@.last().sequence == final(self).state.global_sequence,
            final(self).state.version == old(self).state.version,
            final(self).state.submodule_index == old(self).state.submodule_index,
            final(self).project_root == old(self).project_root,
            old(self).state.numbered() ==> final(self).state.numbered(),
    {
        let timestamp = unix_time_secs();
        self.state.record_event(submodule_id, commit_id, timestamp);
    }
}

} // verus!
