use vstd::prelude::*;

use crate::errors::PmError;
use crate::project::{Project, ProjectView};
use crate::strutil::str_eq;

verus! {

/// Recognized registry options; both default to disabled/zero.
#[derive(Clone, Copy, Debug, PartialEq, Eq, Structural)]
pub struct ConfigSettings {
    /// Whether detailed views probe live git status.
    pub show_git_status: bool,
    /// Default cap when listing by recency; `0` means no cap.
    pub recent_projects_limit: usize,
}

impl Default for ConfigSettings {
    /// Both options start disabled.
    fn default() -> (r: Self)
        ensures
            r.show_git_status == false,
            r.recent_projects_limit == 0,
    {
        ConfigSettings { show_git_status: false, recent_projects_limit: 0 }
    }
}

/// Usage statistics of one project on one machine.
#[derive(Clone, Copy, Debug, PartialEq, Eq, Structural)]
pub struct AccessRecord {
    /// Id of the project this record belongs to.
    pub project_id: u128,
    /// Time of the most recent recorded access, if any.
    pub last_accessed: Option<i64>,
    /// Number of recorded accesses since creation or the last removal;
    /// saturates at `u32::MAX`.
    pub access_count: u32,
}

/// Per-machine scope for access records, keyed by a locally derived,
/// installation-stable machine identifier.
pub struct MachineMetadata {
    pub machine_id: String,
    /// At most one record per project id.
    pub access_records: Vec<AccessRecord>,
}

/// Mathematical model of a [`MachineMetadata`].
#[verifier::ext_equal]
pub ghost struct MachineMetadataView {
    pub machine_id: Seq<char>,
    pub access_records: Seq<AccessRecord>,
}

impl View for MachineMetadata {
    type V = MachineMetadataView;

    open spec fn view(&self) -> MachineMetadataView {
        MachineMetadataView { machine_id: self.machine_id@, access_records: self.access_records@ }
    }
}

impl DeepView for MachineMetadata {
    type V = MachineMetadataView;

    open spec fn deep_view(&self) -> MachineMetadataView {
        self.view()
    }
}

/// The full registry: the project collection, the per-machine access
/// records, and the settings.
///
/// The current machine's identifier is computed once at process start by the
/// caller and threaded through as a field, rather than read from global
/// state.
pub struct Config {
    pub version: String,
    /// Identifier of the machine this process runs on.
    pub machine_id: String,
    pub settings: ConfigSettings,
    /// Keyed by project id; at most one project per id.
    pub projects: Vec<Project>,
    /// Keyed by machine id; at most one entry per machine.
    pub machine_metadata: Vec<MachineMetadata>,
}

/// Mathematical model of a [`Config`].
#[verifier::ext_equal]
pub ghost struct ConfigView {
    pub version: Seq<char>,
    pub machine_id: Seq<char>,
    pub settings: ConfigSettings,
    pub projects: Seq<ProjectView>,
    pub machine_metadata: Seq<MachineMetadataView>,
}

impl View for Config {
    type V = ConfigView;

    open spec fn view(&self) -> ConfigView {
        ConfigView {
            version: self.version@,
            machine_id: self.machine_id@,
            settings: self.settings,
            projects: self.projects.deep_view(),
            machine_metadata: self.machine_metadata.deep_view(),
        }
    }
}

// ---------------------------------------------------------------------------
// Lookup model
// ---------------------------------------------------------------------------
/// Some project in `s` carries the id.
pub open spec fn has_project_id(s: Seq<ProjectView>, id: u128) -> bool {
    exists|i: int| 0 <= i < s.len() && (#[trigger] s[i].id) == id
}

/// Index of the project carrying the id (unique under well-formedness).
pub open spec fn project_id_index(s: Seq<ProjectView>, id: u128) -> int {
    choose|i: int| 0 <= i < s.len() && (#[trigger] s[i].id) == id
}

/// The project carrying the id, if any.
pub open spec fn spec_get_project(s: Seq<ProjectView>, id: u128) -> Option<ProjectView> {
    if has_project_id(s, id) {
        Some(s[project_id_index(s, id)])
    } else {
        None
    }
}

/// Some record in `s` belongs to the project id.
pub open spec fn has_record(s: Seq<AccessRecord>, id: u128) -> bool {
    exists|i: int| 0 <= i < s.len() && (#[trigger] s[i].project_id) == id
}

/// Index of the record of the project id (unique under well-formedness).
pub open spec fn record_index(s: Seq<AccessRecord>, id: u128) -> int {
    choose|i: int| 0 <= i < s.len() && (#[trigger] s[i].project_id) == id
}

/// Some machine entry in `s` carries the machine id.
pub open spec fn has_machine(s: Seq<MachineMetadataView>, m: Seq<char>) -> bool {
    exists|i: int| 0 <= i < s.len() && (#[trigger] s[i].machine_id) == m
}

/// Index of the entry of the machine id (unique under well-formedness).
pub open spec fn machine_index(s: Seq<MachineMetadataView>, m: Seq<char>) -> int {
    choose|i: int| 0 <= i < s.len() && (#[trigger] s[i].machine_id) == m
}

/// Some project in `s` carries the name.
pub open spec fn has_project_named(s: Seq<ProjectView>, name: Seq<char>) -> bool {
    exists|i: int| 0 <= i < s.len() && (#[trigger] s[i].name) == name
}

/// Some project in `s` sits at the path.
pub open spec fn has_project_at_path(s: Seq<ProjectView>, path: Seq<char>) -> bool {
    exists|i: int| 0 <= i < s.len() && (#[trigger] s[i].path) == path
}

/// First project whose name equals `name`, in iteration order.
pub open spec fn find_by_name(s: Seq<ProjectView>, name: Seq<char>) -> Option<ProjectView>
    decreases s.len(),
{
    if s.len() == 0 {
        None
    } else if s[0].name == name {
        Some(s[0])
    } else {
        find_by_name(s.drop_first(), name)
    }
}

/// First project sitting at `path`, in iteration order.
pub open spec fn find_by_path(s: Seq<ProjectView>, path: Seq<char>) -> Option<ProjectView>
    decreases s.len(),
{
    if s.len() == 0 {
        None
    } else if s[0].path == path {
        Some(s[0])
    } else {
        find_by_path(s.drop_first(), path)
    }
}

impl ConfigView {
    /// Uniqueness of the keys: project ids, machine ids, and record ids
    /// within each machine. Name and path uniqueness are the add workflow's
    /// responsibility and are deliberately not part of well-formedness.
    pub open spec fn wf(self) -> bool {
        &&& forall|i: int, j: int|
            0 <= i < self.projects.len() && 0 <= j < self.projects.len() && i != j ==> (
            #[trigger] self.projects[i].id) != (#[trigger] self.projects[j].id)
        &&& forall|i: int, j: int|
            0 <= i < self.machine_metadata.len() && 0 <= j < self.machine_metadata.len() && i != j
                ==> (#[trigger] self.machine_metadata[i].machine_id) != (
            #[trigger] self.machine_metadata[j].machine_id)
        &&& forall|m: int|
            0 <= m < self.machine_metadata.len() ==> records_wf(
                #[trigger] self.machine_metadata[m].access_records,
            )
    }
}

/// At most one access record per project id.
pub open spec fn records_wf(s: Seq<AccessRecord>) -> bool {
    forall|i: int, j: int|
        0 <= i < s.len() && 0 <= j < s.len() && i != j ==> (#[trigger] s[i].project_id) != (
        #[trigger] s[j].project_id)
}

// ---------------------------------------------------------------------------
// Transition model
// ---------------------------------------------------------------------------
/// Effect of `add_project`: insert keyed by id, replacing any project that
/// already carries it.
pub open spec fn spec_add_project(c: ConfigView, p: ProjectView) -> ConfigView {
    if has_project_id(c.projects, p.id) {
        ConfigView { projects: c.projects.update(project_id_index(c.projects, p.id), p), ..c }
    } else {
        ConfigView { projects: c.projects.push(p), ..c }
    }
}

/// The records of one machine after the records of a removed project are
/// dropped.
pub open spec fn remove_record(s: Seq<AccessRecord>, id: u128) -> Seq<AccessRecord> {
    if has_record(s, id) {
        s.remove(record_index(s, id))
    } else {
        s
    }
}

/// Effect of `remove_project` on a present id: the project disappears and
/// its access records are dropped on every machine.
pub open spec fn spec_remove_project(c: ConfigView, id: u128) -> ConfigView {
    ConfigView {
        projects: c.projects.remove(project_id_index(c.projects, id)),
        machine_metadata: Seq::new(
            c.machine_metadata.len(),
            |m: int|
                MachineMetadataView {
                    machine_id: c.machine_metadata[m].machine_id,
                    access_records: remove_record(c.machine_metadata[m].access_records, id),
                },
        ),
        ..c
    }
}

/// A record after one more access at time `now`; the count saturates.
pub open spec fn bump_record(r: AccessRecord, now: i64) -> AccessRecord {
    AccessRecord {
        project_id: r.project_id,
        last_accessed: Some(now),
        access_count: if r.access_count < u32::MAX {
            (r.access_count + 1) as u32
        } else {
            u32::MAX
        },
    }
}

/// The machine entry after an access to `id` at time `now`: the record is
/// bumped, or created lazily with count 1.
pub open spec fn record_access_in_machine(
    mm: MachineMetadataView,
    id: u128,
    now: i64,
) -> MachineMetadataView {
    if has_record(mm.access_records, id) {
        MachineMetadataView {
            access_records: mm.access_records.update(
                record_index(mm.access_records, id),
                bump_record(mm.access_records[record_index(mm.access_records, id)], now),
            ),
            ..mm
        }
    } else {
        MachineMetadataView {
            access_records: mm.access_records.push(
                AccessRecord { project_id: id, last_accessed: Some(now), access_count: 1 },
            ),
            ..mm
        }
    }
}

/// Effect of `record_project_access` at time `now`: a no-op for an unknown
/// id, otherwise the current machine's entry (created lazily) is updated.
pub open spec fn spec_record_access(c: ConfigView, id: u128, now: i64) -> ConfigView {
    if !has_project_id(c.projects, id) {
        c
    } else if has_machine(c.machine_metadata, c.machine_id) {
        ConfigView {
            machine_metadata: c.machine_metadata.update(
                machine_index(c.machine_metadata, c.machine_id),
                record_access_in_machine(
                    c.machine_metadata[machine_index(c.machine_metadata, c.machine_id)],
                    id,
                    now,
                ),
            ),
            ..c
        }
    } else {
        ConfigView {
            machine_metadata: c.machine_metadata.push(
                MachineMetadataView {
                    machine_id: c.machine_id,
                    access_records: seq![
                        AccessRecord { project_id: id, last_accessed: Some(now), access_count: 1 },
                    ],
                },
            ),
            ..c
        }
    }
}

/// `(last_accessed, access_count)` of `id` as seen by machine `machine`;
/// `(None, 0)` when no record exists.
pub open spec fn spec_access_info_for(c: ConfigView, id: u128, machine: Seq<char>) -> (Option<
    i64,
>, u32) {
    if has_machine(c.machine_metadata, machine) {
        let mm = c.machine_metadata[machine_index(c.machine_metadata, machine)];
        if has_record(mm.access_records, id) {
            let r = mm.access_records[record_index(mm.access_records, id)];
            (r.last_accessed, r.access_count)
        } else {
            (None, 0)
        }
    } else {
        (None, 0)
    }
}

/// Access info of `id` on the current machine.
pub open spec fn spec_access_info(c: ConfigView, id: u128) -> (Option<i64>, u32) {
    spec_access_info_for(c, id, c.machine_id)
}

/// Count contributed by one machine to the aggregate count of `id`.
pub open spec fn machine_count(mm: MachineMetadataView, id: u128) -> int {
    if has_record(mm.access_records, id) {
        mm.access_records[record_index(mm.access_records, id)].access_count as int
    } else {
        0
    }
}

/// Exact sum of `id`'s access counts across all machines.
pub open spec fn spec_total_access_count(s: Seq<MachineMetadataView>, id: u128) -> int
    decreases s.len(),
{
    if s.len() == 0 {
        0
    } else {
        spec_total_access_count(s.drop_last(), id) + machine_count(s.last(), id)
    }
}

/// Effect of refreshing `id`'s cached git timestamp to `t`; a no-op for an
/// unknown id.
pub open spec fn spec_set_git_updated_at(c: ConfigView, id: u128, t: i64) -> ConfigView {
    if has_project_id(c.projects, id) {
        ConfigView {
            projects: c.projects.update(
                project_id_index(c.projects, id),
                ProjectView {
                    git_updated_at: Some(t),
                    ..c.projects[project_id_index(c.projects, id)]
                },
            ),
            ..c
        }
    } else {
        c
    }
}

// ---------------------------------------------------------------------------
// Lookup helpers
// ---------------------------------------------------------------------------
/// Stepping lemma for [`find_by_path`]: scanning left to right agrees with
/// the recursive definition.
proof fn lemma_find_by_path_step(s: Seq<ProjectView>, path: Seq<char>, i: int)
    requires
        0 <= i < s.len(),
    ensures
        find_by_path(s.skip(i), path) == (if s[i].path == path {
            Some(s[i])
        } else {
            find_by_path(s.skip(i + 1), path)
        }),
{
    assert(s.skip(i)[0] == s[i]);
    assert(s.skip(i).drop_first() =~= s.skip(i + 1));
}

/// Stepping lemma for [`find_by_name`]: scanning left to right agrees with
/// the recursive definition.
proof fn lemma_find_by_name_step(s: Seq<ProjectView>, name: Seq<char>, i: int)
    requires
        0 <= i < s.len(),
    ensures
        find_by_name(s.skip(i), name) == (if s[i].name == name {
            Some(s[i])
        } else {
            find_by_name(s.skip(i + 1), name)
        }),
{
    assert(s.skip(i)[0] == s[i]);
    assert(s.skip(i).drop_first() =~= s.skip(i + 1));
}

/// Index of the record of `id` in `records`, if present.
fn record_index_of(records: &Vec<AccessRecord>, id: u128) -> (r: Option<usize>)
    requires
        records_wf(records@),
    ensures
        match r {
            Some(i) => i < records.len() && records@[i as int].project_id == id && has_record(
                records@,
                id,
            ) && record_index(records@, id) == i as int,
            None => !has_record(records@, id),
        },
{
    let mut i: usize = 0;
    while i < records.len()
        invariant
            records_wf(records@),
            0 <= i <= records.len(),
            forall|k: int| 0 <= k < i ==> (#[trigger] records@[k].project_id) != id,
        decreases records.len() - i,
    {
        if records[i].project_id == id {
            proof {
                let j = record_index(records@, id);
                assert(records@[j].project_id == id);
            }
            return Some(i);
        }
        i += 1;
    }
    None
}

/// The aggregate access count is a sum of non-negative contributions.
proof fn lemma_total_access_count_nonneg(s: Seq<MachineMetadataView>, id: u128)
    ensures
        spec_total_access_count(s, id) >= 0,
    decreases s.len(),
{
    if s.len() > 0 {
        lemma_total_access_count_nonneg(s.drop_last(), id);
    }
}

/// Removing a project keeps the registry well formed.
proof fn lemma_remove_project_wf(c: ConfigView, id: u128)
    requires
        c.wf(),
        has_project_id(c.projects, id),
    ensures
        spec_remove_project(c, id).wf(),
{
    let r = spec_remove_project(c, id);
    let pi = project_id_index(c.projects, id);
    c.projects.remove_ensures(pi);
    assert forall|i: int, j: int|
        0 <= i < r.projects.len() && 0 <= j < r.projects.len() && i != j implies (
    #[trigger] r.projects[i].id) != (#[trigger] r.projects[j].id) by {
        assert(r.projects[i] == if i < pi {
            c.projects[i]
        } else {
            c.projects[i + 1]
        });
        assert(r.projects[j] == if j < pi {
            c.projects[j]
        } else {
            c.projects[j + 1]
        });
    }
    assert forall|m: int| 0 <= m < r.machine_metadata.len() implies records_wf(
        #[trigger] r.machine_metadata[m].access_records,
    ) by {
        let s = c.machine_metadata[m].access_records;
        assert(records_wf(s));
        if has_record(s, id) {
            let ri = record_index(s, id);
            s.remove_ensures(ri);
            let t = r.machine_metadata[m].access_records;
            assert(t == s.remove(ri));
            assert forall|i: int, j: int|
                0 <= i < t.len() && 0 <= j < t.len() && i != j implies (
            #[trigger] t[i].project_id) != (#[trigger] t[j].project_id) by {
                assert(t[i] == if i < ri {
                    s[i]
                } else {
                    s[i + 1]
                });
                assert(t[j] == if j < ri {
                    s[j]
                } else {
                    s[j + 1]
                });
            }
        }
    }
}

/// Recording an access keeps the registry well formed.
proof fn lemma_record_access_wf(c: ConfigView, id: u128, now: i64)
    requires
        c.wf(),
    ensures
        spec_record_access(c, id, now).wf(),
{
    let r = spec_record_access(c, id, now);
    if !has_project_id(c.projects, id) {
    } else if has_machine(c.machine_metadata, c.machine_id) {
        let mi = machine_index(c.machine_metadata, c.machine_id);
        let mm = c.machine_metadata[mi];
        assert(records_wf(mm.access_records));
        assert forall|m: int| 0 <= m < r.machine_metadata.len() implies records_wf(
            #[trigger] r.machine_metadata[m].access_records,
        ) by {
            if m == mi {
                let t = r.machine_metadata[m].access_records;
                if has_record(mm.access_records, id) {
                    let ri = record_index(mm.access_records, id);
                    assert(forall|k: int|
                        0 <= k < t.len() ==> (#[trigger] t[k].project_id)
                            == mm.access_records[k].project_id);
                } else {
                    assert(forall|k: int|
                        0 <= k < t.len() - 1 ==> (#[trigger] t[k].project_id)
                            == mm.access_records[k].project_id);
                }
            } else {
                assert(records_wf(c.machine_metadata[m].access_records));
            }
        }
    } else {
        assert forall|m: int| 0 <= m < r.machine_metadata.len() implies records_wf(
            #[trigger] r.machine_metadata[m].access_records,
        ) by {
            if m < c.machine_metadata.len() {
                assert(records_wf(c.machine_metadata[m].access_records));
            }
        }
    }
}

impl Config {
    /// Fresh registry with no projects and no access records.
    pub fn new(version: String, machine_id: String, settings: ConfigSettings) -> (r: Config)
        ensures
            r@.version == version@,
            r@.machine_id == machine_id@,
            r@.settings == settings,
            r@.projects.len() == 0,
            r@.machine_metadata.len() == 0,
            r@.wf(),
    {
        let r = Config {
            version,
            machine_id,
            settings,
            projects: Vec::new(),
            machine_metadata: Vec::new(),
        };
        proof {
            assert(r@.projects =~= Seq::<ProjectView>::empty());
            assert(r@.machine_metadata =~= Seq::<MachineMetadataView>::empty());
        }
        r
    }

    /// Index of the project with `id`, if present.
    fn project_index_of(&self, id: u128) -> (r: Option<usize>)
        requires
            self@.wf(),
        ensures
            match r {
                Some(i) => i < self.projects.len() && self@.projects[i as int].id == id
                    && has_project_id(self@.projects, id) && project_id_index(self@.projects, id)
                    == i as int,
                None => !has_project_id(self@.projects, id),
            },
    {
        let mut i: usize = 0;
        while i < self.projects.len()
            invariant
                self@.wf(),
                0 <= i <= self.projects.len(),
                forall|k: int| 0 <= k < i ==> (#[trigger] self@.projects[k].id) != id,
            decreases self.projects.len() - i,
        {
            if self.projects[i].id == id {
                proof {
                    assert(self@.projects[i as int].id == id);
                    assert(has_project_id(self@.projects, id));
                    let j = project_id_index(self@.projects, id);
                    assert(0 <= j < self@.projects.len() && self@.projects[j].id == id);
                }
                return Some(i);
            }
            i += 1;
        }
        None
    }

    /// Inserts `project` keyed by its id, replacing any project already
    /// carrying it. Name and path uniqueness are the add workflow's
    /// responsibility (see [`Config::check_new_project`]).
    pub fn add_project(&mut self, project: Project)
        requires
            old(self)@.wf(),
        ensures
            final(self)@ == spec_add_project(old(self)@, project@),
            final(self)@.wf(),
    {
        let idx = self.project_index_of(project.id);
        match idx {
            Some(i) => {
                let slot = &mut self.projects[i];
                *slot = project;
                proof {
                    assert(self@.projects =~= old(self)@.projects.update(
                        project_id_index(old(self)@.projects, project@.id),
                        project@,
                    ));
                    assert(self@ =~= spec_add_project(old(self)@, project@));
                }
            },
            None => {
                self.projects.push(project);
                proof {
                    assert(self@.projects =~= old(self)@.projects.push(project@));
                    assert(self@ =~= spec_add_project(old(self)@, project@));
                }
            },
        }
    }

    /// Records one access to `project_id` on the current machine at time
    /// `now`: the record is created lazily, `last_accessed` is set to `now`,
    /// and the count grows by one (saturating). An unknown id is silently
    /// ignored, the documented choice of this implementation.
    pub fn record_project_access_at(&mut self, project_id: u128, now: i64)
        requires
            old(self)@.wf(),
        ensures
            final(self)@ == spec_record_access(old(self)@, project_id, now),
            final(self)@.wf(),
    {
        proof {
            lemma_record_access_wf(old(self)@, project_id, now);
        }
        if self.project_index_of(project_id).is_none() {
            return ;
        }
        let mi = self.machine_index_of_current();
        match mi {
            Some(m) => {
                let ghost old_entry = self@.machine_metadata[m as int];
                let ri = record_index_of(&self.machine_metadata[m].access_records, project_id);
                let entry = &mut self.machine_metadata[m];
                match ri {
                    Some(j) => {
                        let rec = entry.access_records[j];
                        let bumped = AccessRecord {
                            project_id: rec.project_id,
                            last_accessed: Some(now),
                            access_count: if rec.access_count < u32::MAX {
                                rec.access_count + 1
                            } else {
                                u32::MAX
                            },
                        };
                        let slot = &mut entry.access_records[j];
                        *slot = bumped;
                    },
                    None => {
                        entry.access_records.push(
                            AccessRecord {
                                project_id,
                                last_accessed: Some(now),
                                access_count: 1,
                            },
                        );
                    },
                }
                proof {
                    assert(self@.machine_metadata[m as int] =~= record_access_in_machine(
                        old_entry,
                        project_id,
                        now,
                    ));
                    assert(self@.machine_metadata =~= old(self)@.machine_metadata.update(
                        m as int,
                        record_access_in_machine(old_entry, project_id, now),
                    ));
                    assert(self@ =~= spec_record_access(old(self)@, project_id, now));
                }
            },
            None => {
                let mid = self.machine_id.clone();
                let mut recs: Vec<AccessRecord> = Vec::new();
                recs.push(AccessRecord { project_id, last_accessed: Some(now), access_count: 1 });
                self.machine_metadata.push(MachineMetadata { machine_id: mid, access_records: recs });
                proof {
                    assert(self@.machine_metadata =~= old(self)@.machine_metadata.push(
                        MachineMetadataView {
                            machine_id: old(self)@.machine_id,
                            access_records: seq![
                                AccessRecord {
                                    project_id,
                                    last_accessed: Some(now),
                                    access_count: 1,
                                },
                            ],
                        },
                    ));
                    assert(self@ =~= spec_record_access(old(self)@, project_id, now));
                }
            },
        }
    }

    /// Records one access to `project_id` on the current machine, stamped
    /// with the clock's present reading.
    pub fn record_project_access(&mut self, project_id: u128)
        requires
            old(self)@.wf(),
        ensures
            final(self)@.wf(),
            exists|t: i64| final(self)@ == spec_record_access(old(self)@, project_id, t),
    {
        let now = crate::ext::now_timestamp_millis();
        self.record_project_access_at(project_id, now);
    }

    /// Index of the current machine's entry, if present.
    fn machine_index_of_current(&self) -> (r: Option<usize>)
        requires
            self@.wf(),
        ensures
            match r {
                Some(i) => i < self.machine_metadata.len()
                    && self@.machine_metadata[i as int].machine_id == self@.machine_id
                    && has_machine(self@.machine_metadata, self@.machine_id) && machine_index(
                    self@.machine_metadata,
                    self@.machine_id,
                ) == i as int,
                None => !has_machine(self@.machine_metadata, self@.machine_id),
            },
    {
        let mut i: usize = 0;
        while i < self.machine_metadata.len()
            invariant
                self@.wf(),
                0 <= i <= self.machine_metadata.len(),
                forall|k: int|
                    0 <= k < i ==> (#[trigger] self@.machine_metadata[k].machine_id)
                        != self@.machine_id,
            decreases self.machine_metadata.len() - i,
        {
            if str_eq(self.machine_metadata[i].machine_id.as_str(), self.machine_id.as_str()) {
                proof {
                    assert(self@.machine_metadata[i as int].machine_id == self@.machine_id);
                    assert(has_machine(self@.machine_metadata, self@.machine_id));
                    let j = machine_index(self@.machine_metadata, self@.machine_id);
                    assert(0 <= j < self@.machine_metadata.len()
                        && self@.machine_metadata[j].machine_id == self@.machine_id);
                }
                return Some(i);
            }
            i += 1;
        }
        None
    }

    /// The current machine's `(last_accessed, access_count)` for
    /// `project_id`; `(None, 0)` when no record exists, including after the
    /// project's removal.
    pub fn get_project_access_info(&self, project_id: u128) -> (r: (Option<i64>, u32))
        requires
            self@.wf(),
        ensures
            r == spec_access_info(self@, project_id),
    {
        match self.machine_index_of_current() {
            Some(m) => {
                proof {
                    assert(records_wf(self@.machine_metadata[m as int].access_records));
                }
                match record_index_of(&self.machine_metadata[m].access_records, project_id) {
                    Some(j) => {
                        let rec = self.machine_metadata[m].access_records[j];
                        (rec.last_accessed, rec.access_count)
                    },
                    None => (None, 0),
                }
            },
            None => (None, 0),
        }
    }

    /// Sum of `project_id`'s access counts across every machine's records,
    /// saturating at `u32::MAX`.
    pub fn get_total_access_count(&self, project_id: u128) -> (r: u32)
        requires
            self@.wf(),
        ensures
            r as int == if spec_total_access_count(self@.machine_metadata, project_id) <= u32::MAX
                as int {
                spec_total_access_count(self@.machine_metadata, project_id)
            } else {
                u32::MAX as int
            },
    {
        proof {
            lemma_total_access_count_nonneg(self@.machine_metadata, project_id);
        }
        let ghost whole = self@.machine_metadata;
        let mut total: u32 = 0;
        let mut m: usize = 0;
        while m < self.machine_metadata.len()
            invariant
                self@.wf(),
                whole == self@.machine_metadata,
                0 <= m <= self.machine_metadata.len(),
                total as int == if spec_total_access_count(whole.take(m as int), project_id)
                    <= u32::MAX as int {
                    spec_total_access_count(whole.take(m as int), project_id)
                } else {
                    u32::MAX as int
                },
            decreases self.machine_metadata.len() - m,
        {
            proof {
                lemma_total_access_count_nonneg(whole.take(m as int), project_id);
                assert(whole.take(m as int + 1).drop_last() =~= whole.take(m as int));
                assert(whole.take(m as int + 1).last() == whole[m as int]);
                assert(records_wf(self@.machine_metadata[m as int].access_records));
            }
            let count = match record_index_of(&self.machine_metadata[m].access_records, project_id) {
                Some(j) => self.machine_metadata[m].access_records[j].access_count,
                None => 0,
            };
            proof {
                assert(count as int == machine_count(whole[m as int], project_id));
            }
            total = total.saturating_add(count);
            m += 1;
        }
        proof {
            assert(whole.take(whole.len() as int) =~= whole);
        }
        total
    }

    /// Refreshes the cached git timestamp of `project_id` to `t`; reports
    /// whether the project exists.
    pub fn set_project_git_updated_at(&mut self, project_id: u128, t: i64) -> (found: bool)
        requires
            old(self)@.wf(),
        ensures
            final(self)@ == spec_set_git_updated_at(old(self)@, project_id, t),
            found == has_project_id(old(self)@.projects, project_id),
            final(self)@.wf(),
    {
        match self.project_index_of(project_id) {
            Some(i) => {
                let slot = &mut self.projects[i];
                slot.git_updated_at = Some(t);
                proof {
                    assert(self@.projects[i as int] =~= ProjectView {
                        git_updated_at: Some(t),
                        ..old(self)@.projects[i as int]
                    });
                    assert(self@.projects =~= old(self)@.projects.update(
                        i as int,
                        ProjectView { git_updated_at: Some(t), ..old(self)@.projects[i as int] },
                    ));
                    assert(self@ =~= spec_set_git_updated_at(old(self)@, project_id, t));
                }
                true
            },
            None => false,
        }
    }

    /// Add-workflow guard: detects a name or path collision with an existing
    /// project before the store is mutated.
    pub fn check_new_project(&self, name: &str, path: &str) -> (r: Result<(), PmError>)
        ensures
            match r {
                Ok(()) => !has_project_named(self@.projects, name@) && !has_project_at_path(
                    self@.projects,
                    path@,
                ),
                Err(e) => e == PmError::DuplicateProject && (has_project_named(
                    self@.projects,
                    name@,
                ) || has_project_at_path(self@.projects, path@)),
            },
    {
        let mut i: usize = 0;
        while i < self.projects.len()
            invariant
                0 <= i <= self.projects.len(),
                forall|k: int| 0 <= k < i ==> (#[trigger] self@.projects[k].name) != name@,
                forall|k: int| 0 <= k < i ==> (#[trigger] self@.projects[k].path) != path@,
            decreases self.projects.len() - i,
        {
            if str_eq(self.projects[i].name.as_str(), name) {
                proof {
                    assert(self@.projects[i as int].name == name@);
                }
                return Err(PmError::DuplicateProject);
            }
            if str_eq(self.projects[i].path.as_str(), path) {
                proof {
                    assert(self@.projects[i as int].path == path@);
                }
                return Err(PmError::DuplicateProject);
            }
            i += 1;
        }
        Ok(())
    }

    /// The add workflow in one step: fails with `DuplicateProject` before
    /// any mutation on a name or path collision, and inserts otherwise.
    pub fn add_project_checked(&mut self, project: Project) -> (r: Result<(), PmError>)
        requires
            old(self)@.wf(),
        ensures
            final(self)@.wf(),
            match r {
                Ok(()) => !has_project_named(old(self)@.projects, project@.name)
                    && !has_project_at_path(old(self)@.projects, project@.path) && final(self)@
                    == spec_add_project(old(self)@, project@),
                Err(e) => e == PmError::DuplicateProject && (has_project_named(
                    old(self)@.projects,
                    project@.name,
                ) || has_project_at_path(old(self)@.projects, project@.path)) && final(self)@
                    == old(self)@,
            },
    {
        match self.check_new_project(project.name.as_str(), project.path.as_str()) {
            Ok(()) => {
                self.add_project(project);
                Ok(())
            },
            Err(e) => Err(e),
        }
    }

    /// The project with `id`, if present.
    pub fn get_project(&self, id: u128) -> (r: Option<&Project>)
        requires
            self@.wf(),
        ensures
            match r {
                Some(p) => spec_get_project(self@.projects, id) == Some(p@),
                None => spec_get_project(self@.projects, id) is None,
            },
    {
        match self.project_index_of(id) {
            Some(i) => Some(&self.projects[i]),
            None => None,
        }
    }

    /// Removes the project with `id` and every access record it has on any
    /// machine. Fails with `NotFound`, mutating nothing, when `id` is absent.
    pub fn remove_project(&mut self, id: u128) -> (r: Result<(), PmError>)
        requires
            old(self)@.wf(),
        ensures
            final(self)@.wf(),
            match r {
                Ok(()) => has_project_id(old(self)@.projects, id) && final(self)@
                    == spec_remove_project(old(self)@, id),
                Err(e) => e == PmError::NotFound && !has_project_id(old(self)@.projects, id)
                    && final(self)@ == old(self)@,
            },
    {
        let idx = match self.project_index_of(id) {
            Some(i) => i,
            None => {
                return Err(PmError::NotFound);
            },
        };
        self.projects.remove(idx);
        proof {
            old(self)@.projects.remove_ensures(idx as int);
        }
        let ghost target = spec_remove_project(old(self)@, id);
        let mut m: usize = 0;
        while m < self.machine_metadata.len()
            invariant
                target == spec_remove_project(old(self)@, id),
                old(self)@.wf(),
                self.machine_metadata.len() == old(self)@.machine_metadata.len(),
                self@.version == old(self)@.version,
                self@.machine_id == old(self)@.machine_id,
                self@.settings == old(self)@.settings,
                self@.projects == target.projects,
                0 <= m <= self.machine_metadata.len(),
                forall|k: int|
                    0 <= k < m ==> (#[trigger] self@.machine_metadata[k])
                        == target.machine_metadata[k],
                forall|k: int|
                    m <= k < self.machine_metadata.len() ==> (#[trigger] self@.machine_metadata[k])
                        == old(self)@.machine_metadata[k],
            decreases self.machine_metadata.len() - m,
        {
            let ghost prev = self@;
            let ghost prev_shallow = self.machine_metadata@;
            let ghost old_entry = self@.machine_metadata[m as int];
            proof {
                assert(old_entry == old(self)@.machine_metadata[m as int]);
                assert(records_wf(old_entry.access_records));
            }
            let ri = record_index_of(&self.machine_metadata[m].access_records, id);
            match ri {
                Some(j) => {
                    let entry = &mut self.machine_metadata[m];
                    entry.access_records.remove(j);
                },
                None => {},
            }
            proof {
                assert(self@.machine_metadata[m as int].access_records =~= remove_record(
                    old_entry.access_records,
                    id,
                ));
                assert(self@.machine_metadata[m as int] =~= target.machine_metadata[m as int]);
                assert forall|k: int|
                    0 <= k < self.machine_metadata@.len() && k != m as int implies (
                #[trigger] self@.machine_metadata[k]) == prev.machine_metadata[k] by {
                    assert(self.machine_metadata@[k] == prev_shallow[k]);
                    assert(self@.machine_metadata[k] == self.machine_metadata@[k]@);
                    assert(prev.machine_metadata[k] == prev_shallow[k]@);
                }
            }
            m += 1;
        }
        proof {
            assert(self@.machine_metadata =~= target.machine_metadata);
            assert(self@ =~= target);
            lemma_remove_project_wf(old(self)@, id);
        }
        Ok(())
    }

    /// Exact, case-sensitive name lookup; first match in iteration order.
    pub fn find_project_by_name(&self, name: &str) -> (r: Option<&Project>)
        ensures
            match r {
                Some(p) => find_by_name(self@.projects, name@) == Some(p@),
                None => find_by_name(self@.projects, name@) is None,
            },
    {
        let ghost s = self@.projects;
        proof {
            assert(s.skip(0) =~= s);
        }
        let mut i: usize = 0;
        while i < self.projects.len()
            invariant
                s == self@.projects,
                0 <= i <= self.projects.len(),
                find_by_name(s, name@) == find_by_name(s.skip(i as int), name@),
            decreases self.projects.len() - i,
        {
            proof {
                lemma_find_by_name_step(s, name@, i as int);
            }
            if str_eq(self.projects[i].name.as_str(), name) {
                return Some(&self.projects[i]);
            }
            i += 1;
        }
        proof {
            assert(s.skip(s.len() as int) =~= Seq::<ProjectView>::empty());
        }
        None
    }

    /// Exact path lookup; first match in iteration order. The add workflow
    /// uses it to report which project already sits at a candidate path.
    pub fn find_project_by_path(&self, path: &str) -> (r: Option<&Project>)
        ensures
            match r {
                Some(p) => find_by_path(self@.projects, path@) == Some(p@),
                None => find_by_path(self@.projects, path@) is None,
            },
    {
        let ghost s = self@.projects;
        proof {
            assert(s.skip(0) =~= s);
        }
        let mut i: usize = 0;
        while i < self.projects.len()
            invariant
                s == self@.projects,
                0 <= i <= self.projects.len(),
                find_by_path(s, path@) == find_by_path(s.skip(i as int), path@),
            decreases self.projects.len() - i,
        {
            proof {
                lemma_find_by_path_step(s, path@, i as int);
            }
            if str_eq(self.projects[i].path.as_str(), path) {
                return Some(&self.projects[i]);
            }
            i += 1;
        }
        proof {
            assert(s.skip(s.len() as int) =~= Seq::<ProjectView>::empty());
        }
        None
    }
}

// ---------------------------------------------------------------------------
// Laws
// ---------------------------------------------------------------------------
/// One recorded access to a present project, observed through the access
/// info: the timestamp is the access time, and the count grows by one until
/// it saturates. Projects, the machine id, and well-formedness are
/// untouched.
pub proof fn lemma_record_access_info_step(c: ConfigView, id: u128, now: i64)
    requires
        c.wf(),
        has_project_id(c.projects, id),
    ensures
        spec_record_access(c, id, now).wf(),
        spec_record_access(c, id, now).projects == c.projects,
        spec_record_access(c, id, now).machine_id == c.machine_id,
        spec_record_access(c, id, now).settings == c.settings,
        spec_access_info(spec_record_access(c, id, now), id).0 == Some(now),
        spec_access_info(spec_record_access(c, id, now), id).1 as int == (
        if spec_access_info(c, id).1 < u32::MAX {
            spec_access_info(c, id).1 + 1
        } else {
            u32::MAX as int
        }),
{
    lemma_record_access_wf(c, id, now);
    let r = spec_record_access(c, id, now);
    if has_machine(c.machine_metadata, c.machine_id) {
        let mi = machine_index(c.machine_metadata, c.machine_id);
        assert(0 <= mi < c.machine_metadata.len() && c.machine_metadata[mi].machine_id
            == c.machine_id);
        let mm = c.machine_metadata[mi];
        let mm2 = record_access_in_machine(mm, id, now);
        assert(mm2.machine_id == mm.machine_id);
        assert(r.machine_metadata[mi] == mm2);
        assert(has_machine(r.machine_metadata, c.machine_id));
        let mi2 = machine_index(r.machine_metadata, c.machine_id);
        assert(0 <= mi2 < r.machine_metadata.len() && r.machine_metadata[mi2].machine_id
            == c.machine_id);
        if mi2 != mi {
            assert(r.machine_metadata[mi2] == c.machine_metadata[mi2]);
            assert(c.machine_metadata[mi2].machine_id != c.machine_metadata[mi].machine_id);
            assert(false);
        }
        if has_record(mm.access_records, id) {
            let ri = record_index(mm.access_records, id);
            assert(0 <= ri < mm.access_records.len() && mm.access_records[ri].project_id == id);
            let bumped = bump_record(mm.access_records[ri], now);
            assert(mm2.access_records[ri] == bumped);
            assert(bumped.project_id == id);
            assert(has_record(mm2.access_records, id));
            let ri2 = record_index(mm2.access_records, id);
            assert(0 <= ri2 < mm2.access_records.len() && mm2.access_records[ri2].project_id
                == id);
            if ri2 != ri {
                assert(mm2.access_records[ri2] == mm.access_records[ri2]);
                assert(records_wf(mm.access_records));
                assert(mm.access_records[ri2].project_id != mm.access_records[ri].project_id);
                assert(false);
            }
        } else {
            let n = mm.access_records.len() as int;
            assert(mm2.access_records[n].project_id == id);
            assert(has_record(mm2.access_records, id));
            let ri2 = record_index(mm2.access_records, id);
            assert(0 <= ri2 < mm2.access_records.len() && mm2.access_records[ri2].project_id
                == id);
            if ri2 != n {
                assert(mm2.access_records[ri2] == mm.access_records[ri2]);
                assert(has_record(mm.access_records, id));
                assert(false);
            }
        }
    } else {
        let n = c.machine_metadata.len() as int;
        assert(r.machine_metadata[n].machine_id == c.machine_id);
        assert(has_machine(r.machine_metadata, c.machine_id));
        let mi2 = machine_index(r.machine_metadata, c.machine_id);
        assert(0 <= mi2 < r.machine_metadata.len() && r.machine_metadata[mi2].machine_id
            == c.machine_id);
        if mi2 != n {
            assert(r.machine_metadata[mi2] == c.machine_metadata[mi2]);
            assert(has_machine(c.machine_metadata, c.machine_id));
            assert(false);
        }
        let recs = r.machine_metadata[mi2].access_records;
        assert(recs[0].project_id == id);
        assert(has_record(recs, id));
        let ri2 = record_index(recs, id);
        assert(0 <= ri2 < recs.len() && recs[ri2].project_id == id);
        assert(ri2 == 0);
    }
}

/// Law: adding a project that is not yet present, then looking its id up,
/// yields that project unchanged.
pub proof fn lemma_add_then_get(c: ConfigView, p: ProjectView)
    requires
        c.wf(),
        !has_project_id(c.projects, p.id),
    ensures
        spec_get_project(spec_add_project(c, p).projects, p.id) == Some(p),
{
    let r = spec_add_project(c, p);
    let n = c.projects.len() as int;
    assert(r.projects[n] == p);
    assert(has_project_id(r.projects, p.id));
    let j = project_id_index(r.projects, p.id);
    assert(0 <= j < r.projects.len() && r.projects[j].id == p.id);
    if j != n {
        assert(r.projects[j] == c.projects[j]);
        assert(has_project_id(c.projects, p.id));
        assert(false);
    }
}

/// Law: after removing a present project, its id no longer resolves, and its
/// access info reads `(None, 0)` on every machine.
pub proof fn lemma_remove_then_get(c: ConfigView, id: u128)
    requires
        c.wf(),
        has_project_id(c.projects, id),
    ensures
        spec_get_project(spec_remove_project(c, id).projects, id) is None,
        forall|m: Seq<char>| #![auto]
            spec_access_info_for(spec_remove_project(c, id), id, m) == (None::<i64>, 0u32),
{
    let r = spec_remove_project(c, id);
    let pi = project_id_index(c.projects, id);
    assert(0 <= pi < c.projects.len() && c.projects[pi].id == id);
    c.projects.remove_ensures(pi);
    if has_project_id(r.projects, id) {
        let k = project_id_index(r.projects, id);
        assert(0 <= k < r.projects.len() && r.projects[k].id == id);
        if k < pi {
            assert(r.projects[k] == c.projects[k]);
            assert(c.projects[k].id == c.projects[pi].id);
            assert(false);
        } else {
            assert(r.projects[k] == c.projects[k + 1]);
            assert(c.projects[k + 1].id == c.projects[pi].id);
            assert(false);
        }
    }
    assert forall|m: Seq<char>| #![auto]
        spec_access_info_for(r, id, m) == (None::<i64>, 0u32) by {
        if has_machine(r.machine_metadata, m) {
            let mi = machine_index(r.machine_metadata, m);
            assert(0 <= mi < r.machine_metadata.len() && r.machine_metadata[mi].machine_id == m);
            let s = c.machine_metadata[mi].access_records;
            assert(records_wf(s));
            assert(r.machine_metadata[mi].access_records == remove_record(s, id));
            if has_record(s, id) {
                let ri = record_index(s, id);
                assert(0 <= ri < s.len() && s[ri].project_id == id);
                s.remove_ensures(ri);
                let t = s.remove(ri);
                if has_record(t, id) {
                    let k = record_index(t, id);
                    assert(0 <= k < t.len() && t[k].project_id == id);
                    if k < ri {
                        assert(t[k] == s[k]);
                        assert(false);
                    } else {
                        assert(t[k] == s[k + 1]);
                        assert(false);
                    }
                }
            } else {
                assert(!has_record(r.machine_metadata[mi].access_records, id));
            }
        }
    }
}

/// The registry after a series of accesses to one project, in order.
pub open spec fn spec_record_access_seq(c: ConfigView, id: u128, ts: Seq<i64>) -> ConfigView
    decreases ts.len(),
{
    if ts.len() == 0 {
        c
    } else {
        spec_record_access(spec_record_access_seq(c, id, ts.drop_last()), id, ts.last())
    }
}

/// Law: starting from a present project with no record on the current
/// machine, `n` recorded accesses leave an access count of exactly `n`, and
/// a last-access time exactly when `n > 0`. Stated for `n` within the
/// count's `u32` range, below which the count never saturates.
pub proof fn lemma_repeated_access_info(c: ConfigView, id: u128, ts: Seq<i64>)
    requires
        c.wf(),
        has_project_id(c.projects, id),
        spec_access_info(c, id) == (None::<i64>, 0u32),
        ts.len() <= u32::MAX,
    ensures
        spec_record_access_seq(c, id, ts).wf(),
        spec_record_access_seq(c, id, ts).projects == c.projects,
        spec_record_access_seq(c, id, ts).machine_id == c.machine_id,
        spec_access_info(spec_record_access_seq(c, id, ts), id).1 == ts.len(),
        spec_access_info(spec_record_access_seq(c, id, ts), id).0 is Some <==> ts.len() > 0,
    decreases ts.len(),
{
    if ts.len() > 0 {
        lemma_repeated_access_info(c, id, ts.drop_last());
        let c1 = spec_record_access_seq(c, id, ts.drop_last());
        lemma_record_access_info_step(c1, id, ts.last());
    }
}

} // verus!
