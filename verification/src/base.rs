//! The shared data model: repositories, per-branch checkout settings and
//! resolved projects.

use vstd::prelude::*;

use crate::assoc::kv_views;
use crate::strutil::push_char;

verus! {

/// Mathematical image of a `Repository`.
pub ghost struct RepositoryModel {
    pub base_url: Seq<char>,
    pub name: Seq<char>,
}

/// A remote repository: a hosting base URL and the repository name under it.
#[derive(Debug)]
pub struct Repository {
    pub base_url: String,
    pub name: String,
}

impl View for Repository {
    type V = RepositoryModel;

    open spec fn view(&self) -> RepositoryModel {
        RepositoryModel { base_url: self.base_url@, name: self.name@ }
    }
}

/// The canonical clone URL: the base URL, a slash, the repository name.
pub open spec fn url_of(r: RepositoryModel) -> Seq<char> {
    r.base_url + seq!['/'] + r.name
}

impl Repository {
    /// Builds the canonical clone URL of this repository.
    pub fn url(&self) -> (r: String)
        ensures
            r@ == url_of(self@),
    {
        let mut r = self.base_url.clone();
        push_char(&mut r, '/');
        let r = r.concat(self.name.as_str());
        proof {
            assert(r@ =~= url_of(self@));
        }
        r
    }

    /// Builds a repository from its parts.
    pub fn new(base_url: String, name: String) -> (r: Repository)
        ensures
            r@ == (RepositoryModel { base_url: base_url@, name: name@ }),
    {
        Repository { base_url, name }
    }
}

/// Mathematical image of `BranchSettings`.
pub ghost struct BranchSettingsModel {
    pub repo: RepositoryModel,
    pub git_ref: Seq<char>,
    /// Entries `(dest, src)`, later entries overriding earlier ones.
    pub copyfiles: Seq<(Seq<char>, Seq<char>)>,
    pub linkfiles: Seq<(Seq<char>, Seq<char>)>,
    pub fetch_lfs: bool,
    pub fetch_submodules: bool,
}

/// The resolved checkout parameters of one project on one branch.
#[derive(Debug)]
pub struct BranchSettings {
    pub repo: Repository,
    pub git_ref: String,
    /// Copy overlays as `(dest, src)` entries with unique destinations.
    pub copyfiles: Vec<(String, String)>,
    /// Link overlays as `(dest, src)` entries with unique destinations.
    pub linkfiles: Vec<(String, String)>,
    pub fetch_lfs: bool,
    pub fetch_submodules: bool,
}

impl View for BranchSettings {
    type V = BranchSettingsModel;

    open spec fn view(&self) -> BranchSettingsModel {
        BranchSettingsModel {
            repo: self.repo@,
            git_ref: self.git_ref@,
            copyfiles: kv_views(self.copyfiles@),
            linkfiles: kv_views(self.linkfiles@),
            fetch_lfs: self.fetch_lfs,
            fetch_submodules: self.fetch_submodules,
        }
    }
}

/// Mathematical image of a `RepoProject`.
pub ghost struct RepoProjectModel {
    pub path: Seq<char>,
    pub nonfree: bool,
    /// Entries `(branch, settings)` with unique branch labels.
    pub branch_settings: Seq<(Seq<char>, BranchSettingsModel)>,
}

/// One resolved repository of the flattened manifest, keyed by its checkout
/// path, with the settings of every resolved branch.
#[derive(Debug)]
pub struct RepoProject {
    pub path: String,
    pub nonfree: bool,
    pub branch_settings: Vec<(String, BranchSettings)>,
}

impl View for RepoProject {
    type V = RepoProjectModel;

    open spec fn view(&self) -> RepoProjectModel {
        RepoProjectModel {
            path: self.path@,
            nonfree: self.nonfree,
            branch_settings: kv_views(self.branch_settings@),
        }
    }
}

/// Mathematical image of a `GitRepoRef`.
pub ghost struct GitRepoRefModel {
    pub repo_url: Seq<char>,
    pub revision: Seq<char>,
    pub fetch_lfs: bool,
    pub fetch_submodules: bool,
}

/// A pinned reference into one remote repository, as recorded per device
/// branch.
#[derive(Debug)]
pub struct GitRepoRef {
    pub repo_url: String,
    pub revision: String,
    pub fetch_lfs: bool,
    pub fetch_submodules: bool,
}

impl View for GitRepoRef {
    type V = GitRepoRefModel;

    open spec fn view(&self) -> GitRepoRefModel {
        GitRepoRefModel {
            repo_url: self.repo_url@,
            revision: self.revision@,
            fetch_lfs: self.fetch_lfs,
            fetch_submodules: self.fetch_submodules,
        }
    }
}

} // verus!
