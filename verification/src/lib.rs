//! Resolution of repo-manifest trees, device-metadata cross-referencing,
//! and git-mirror synchronization planning for a multi-repository build.
//!
//! The manifest parser, the include flattening, the per-branch project
//! resolution, the registry and branch-enumeration parsing, the device
//! matching and the synchronization plans are all verified against
//! specification-level models; the callers around them do the fetching,
//! the subprocess work and the persistence.

use vstd::prelude::*;

mod assoc;
mod base;
mod devices;
mod manifest;
mod mirror;
mod strutil;
mod xml;

pub use base::BranchSettings;
pub use base::GitRepoRef;
pub use base::RepoProject;
pub use base::Repository;
pub use devices::DeviceInfo;
pub use devices::FetchHudsonDevicesError;
pub use devices::GetDeviceReposError;
pub use devices::GetDevicesError;
pub use devices::GitLsRemoteError;
pub use devices::HudsonDeviceInfo;
pub use devices::branch_matches;
pub use devices::device_filter_allows;
pub use devices::device_repo_name;
pub use devices::device_repo_url;
pub use devices::get_device_repos_from_manifest;
pub use devices::hudson_to_device_repo_branch;
pub use devices::insert_device;
pub use devices::parse_hudson_registry;
pub use devices::parse_ls_remote_output;
pub use devices::possible_vendors;
pub use devices::resolve_device;
pub use devices::flatten_device_dirs;
pub use devices::eq_repo_project;
pub use manifest::FetchGitRepoMetadataError;
pub use manifest::ReadManifestError;
pub use manifest::RemoteSpec;
pub use manifest::first_missing_include;
pub use manifest::flatten_manifest;
pub use manifest::get_projects_from_manifest;
pub use manifest::get_remote_specs_from_manifest;
pub use manifest::sorted_projects;
pub use manifest::lemma_upsert_overwrite;
pub use manifest::lemma_upsert_other_branch;
pub use manifest::lemma_flatten_is_union;
pub use manifest::lemma_one_default_per_tree;
pub use manifest::lemma_git_ref_priority;
pub use manifest::lemma_default_ref_priority;
pub use mirror::GitCommand;
pub use mirror::MirrorError;
pub use mirror::SyncMode;
pub use mirror::branch_of_ref;
pub use mirror::mirror_repo_path;
pub use mirror::mirror_root_for;
pub use mirror::parse_robotnix_git_mirrors_env;
pub use mirror::plan_sync;
pub use strutil::concat_with_sep;
pub use strutil::split_str;
pub use xml::DefaultRemote;
pub use xml::FileEntry;
pub use xml::GitRepoRemote;
pub use xml::Manifest;
pub use xml::ManifestProject;
pub use xml::parse_manifest;

verus! {

} // verus!
