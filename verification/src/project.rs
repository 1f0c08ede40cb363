use vstd::prelude::*;

use crate::strutil::{clone_opt_string, clone_string_vec};

verus! {

/// One tracked filesystem location with its metadata and tags.
///
/// Timestamps are milliseconds since the Unix epoch. The id is the 128-bit
/// value of a version-4 UUID, unique process-wide.
pub struct Project {
    /// Primary key; the only stable identity of a project.
    pub id: u128,
    /// Human-readable name; unique across the registry, enforced by the add
    /// workflow rather than by the store.
    pub name: String,
    /// Absolute filesystem path; unique across the registry, enforced like
    /// the name.
    pub path: String,
    /// Ordered tags; duplicates permitted, membership tested by equality.
    pub tags: Vec<String>,
    pub description: Option<String>,
    pub created_at: i64,
    pub updated_at: i64,
    /// Time of the most recent commit; `None` when the path is not a git
    /// repository or has not been probed yet.
    pub git_updated_at: Option<i64>,
    /// Whether the path looked like a git repository when the project was
    /// created; not revalidated afterwards.
    pub is_git_repository: bool,
}

/// Mathematical model of a [`Project`].
#[verifier::ext_equal]
pub ghost struct ProjectView {
    pub id: u128,
    pub name: Seq<char>,
    pub path: Seq<char>,
    pub tags: Seq<Seq<char>>,
    pub description: Option<Seq<char>>,
    pub created_at: i64,
    pub updated_at: i64,
    pub git_updated_at: Option<i64>,
    pub is_git_repository: bool,
}

impl View for Project {
    type V = ProjectView;

    open spec fn view(&self) -> ProjectView {
        ProjectView {
            id: self.id,
            name: self.name@,
            path: self.path@,
            tags: self.tags.deep_view(),
            description: self.description.deep_view(),
            created_at: self.created_at,
            updated_at: self.updated_at,
            git_updated_at: self.git_updated_at,
            is_git_repository: self.is_git_repository,
        }
    }
}

impl DeepView for Project {
    type V = ProjectView;

    open spec fn deep_view(&self) -> ProjectView {
        self.view()
    }
}

impl Project {
    /// A fresh project as the add workflow builds one: a new unique id, and
    /// both timestamps set to the clock's present reading.
    pub fn create(
        name: String,
        path: String,
        tags: Vec<String>,
        description: Option<String>,
        git_updated_at: Option<i64>,
        is_git_repository: bool,
    ) -> (r: Project)
        ensures
            r@.name == name@,
            r@.path == path@,
            r@.tags == tags.deep_view(),
            r@.description == description.deep_view(),
            r@.git_updated_at == git_updated_at,
            r@.is_git_repository == is_git_repository,
            r@.created_at == r@.updated_at,
    {
        let id = crate::ext::new_project_id();
        let now = crate::ext::now_timestamp_millis();
        Project {
            id,
            name,
            path,
            tags,
            description,
            created_at: now,
            updated_at: now,
            git_updated_at,
            is_git_repository,
        }
    }
}

impl Clone for Project {
    /// Field-for-field copy; the model of the copy equals the original's.
    fn clone(&self) -> (res: Self)
        ensures
            res@ == self@,
    {
        let res = Project {
            id: self.id,
            name: self.name.clone(),
            path: self.path.clone(),
            tags: clone_string_vec(&self.tags),
            description: clone_opt_string(&self.description),
            created_at: self.created_at,
            updated_at: self.updated_at,
            git_updated_at: self.git_updated_at,
            is_git_repository: self.is_git_repository,
        };
        proof {
            assert(res@ =~= self@);
        }
        res
    }
}

} // verus!
