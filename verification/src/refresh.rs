use vstd::prelude::*;

use crate::project::{Project, ProjectView};
use crate::registry::{
    has_project_id, project_id_index, spec_get_project, spec_set_git_updated_at, ConfigView,
};

verus! {

/// Hours after which a cached git timestamp counts as stale.
pub const GIT_UPDATE_INTERVAL_HOURS: i64 = 24;

/// Milliseconds per hour.
pub const MS_PER_HOUR: i64 = 3_600_000;

/// A cached git timestamp is stale when it is absent or its age reaches the
/// refresh interval.
pub open spec fn spec_needs_git_refresh(p: ProjectView, now: i64) -> bool {
    match p.git_updated_at {
        None => true,
        Some(t) => now - t >= GIT_UPDATE_INTERVAL_HOURS * MS_PER_HOUR,
    }
}

/// The staleness decision of one refresh unit: the external git collaborator
/// is probed only when the cached timestamp is stale at time `now`.
pub fn needs_git_refresh(p: &Project, now: i64) -> (r: bool)
    ensures
        r == spec_needs_git_refresh(p@, now),
{
    match p.git_updated_at {
        None => true,
        Some(t) => (now as i128) - (t as i128) >= (GIT_UPDATE_INTERVAL_HOURS * MS_PER_HOUR)
            as i128,
    }
}

/// Law: a refresh write touches exactly the one project's cached git
/// timestamp. Every other project, every access record, the settings and
/// the identities stay as in the snapshot the write was derived from.
pub proof fn lemma_refresh_write_frame(c: ConfigView, id: u128, t: i64)
    requires
        c.wf(),
        has_project_id(c.projects, id),
    ensures
        spec_set_git_updated_at(c, id, t).wf(),
        spec_set_git_updated_at(c, id, t).projects.len() == c.projects.len(),
        forall|k: int|
            0 <= k < c.projects.len() && (#[trigger] c.projects[k].id) != id
                ==> spec_set_git_updated_at(c, id, t).projects[k] == c.projects[k],
        spec_get_project(spec_set_git_updated_at(c, id, t).projects, id) == Some(
            ProjectView {
                git_updated_at: Some(t),
                ..c.projects[project_id_index(c.projects, id)]
            },
        ),
        spec_set_git_updated_at(c, id, t).machine_metadata == c.machine_metadata,
        spec_set_git_updated_at(c, id, t).settings == c.settings,
        spec_set_git_updated_at(c, id, t).version == c.version,
        spec_set_git_updated_at(c, id, t).machine_id == c.machine_id,
{
    let r = spec_set_git_updated_at(c, id, t);
    let pi = project_id_index(c.projects, id);
    assert(0 <= pi < c.projects.len() && c.projects[pi].id == id);
    assert forall|a: int| 0 <= a < r.projects.len() implies (#[trigger] r.projects[a].id)
        == c.projects[a].id by {
        if a != pi {
            assert(r.projects[a] == c.projects[a]);
        }
    }
    assert(r.projects[pi].id == id);
    assert(has_project_id(r.projects, id));
    let j = project_id_index(r.projects, id);
    assert(0 <= j < r.projects.len() && r.projects[j].id == id);
    if j != pi {
        assert(c.projects[j].id == c.projects[pi].id);
        assert(false);
    }
}

/// Law: two refresh units racing on one project id, each bracketing its own
/// load-modify-save cycle. When unit B derives its write from the snapshot
/// taken before unit A's write landed, B's save silently discards A's
/// update: the persisted registry equals the one B's write alone would have
/// produced. The surviving timestamp is `Some(t2)` — one of the two
/// candidate values, never a merged or corrupted one — and no other project
/// or access record is lost. The same holds when B loads A's result
/// instead: the second write absorbs the first.
pub proof fn lemma_refresh_race_last_writer_wins(c: ConfigView, id: u128, t1: i64, t2: i64)
    requires
        c.wf(),
        has_project_id(c.projects, id),
    ensures
        spec_set_git_updated_at(spec_set_git_updated_at(c, id, t1), id, t2)
            == spec_set_git_updated_at(c, id, t2),
        spec_set_git_updated_at(c, id, t2).wf(),
        spec_get_project(spec_set_git_updated_at(c, id, t2).projects, id) is Some,
        spec_get_project(
            spec_set_git_updated_at(c, id, t2).projects,
            id,
        )->Some_0.git_updated_at == Some(t2),
        forall|k: int|
            0 <= k < c.projects.len() && (#[trigger] c.projects[k].id) != id
                ==> spec_set_git_updated_at(c, id, t2).projects[k] == c.projects[k],
        spec_set_git_updated_at(c, id, t2).machine_metadata == c.machine_metadata,
{
    lemma_refresh_write_frame(c, id, t1);
    lemma_refresh_write_frame(c, id, t2);
    let c1 = spec_set_git_updated_at(c, id, t1);
    let pi = project_id_index(c.projects, id);
    assert(0 <= pi < c.projects.len() && c.projects[pi].id == id);
    lemma_refresh_write_frame(c1, id, t2);
    let pj = project_id_index(c1.projects, id);
    assert(0 <= pj < c1.projects.len() && c1.projects[pj].id == id);
    if pj != pi {
        assert(c1.projects[pj] == c.projects[pj]);
        assert(c.projects[pj].id == c.projects[pi].id);
        assert(false);
    }
    assert(spec_set_git_updated_at(c1, id, t2).projects =~= spec_set_git_updated_at(
        c,
        id,
        t2,
    ).projects);
    assert(spec_set_git_updated_at(c1, id, t2) =~= spec_set_git_updated_at(c, id, t2));
}

} // verus!
