//! Manifest resolution: remote URL and default-ref computation, include
//! flattening, and the per-branch project map.

use vstd::prelude::*;

use crate::assoc::assoc_set;
use crate::assoc::assoc_lookup;
use crate::assoc::cassoc_get;
use crate::assoc::cassoc_has;
use crate::assoc::cassoc_set;
use crate::assoc::cassoc_unique;
use crate::assoc::kv_views;
use crate::assoc::lemma_cassoc_get_at;
use crate::assoc::lemma_cassoc_get_none;
use crate::assoc::lemma_cassoc_set_at;
use crate::assoc::lemma_cassoc_set_absent;
use crate::assoc::lemma_cassoc_set_get;
use crate::assoc::lemma_cassoc_set_unique;
use crate::base::BranchSettings;
use crate::base::BranchSettingsModel;
use crate::base::RepoProject;
use crate::base::RepoProjectModel;
use crate::base::Repository;
use crate::base::RepositoryModel;
use crate::strutil::spec_join;
use crate::strutil::spec_split;
use crate::strutil::split_str;
use crate::strutil::str_eq;
use crate::strutil::concat_with_sep;
use crate::xml::DefaultRemoteModel;
use crate::xml::Manifest;
use crate::xml::ManifestModel;
use crate::xml::RemoteModel;
use crate::xml::ProjectModel;
use crate::xml::FileEntry;
use crate::xml::FileEntryModel;
use crate::xml::opt_view;
use crate::xml::views_of;

verus! {

// ---------------------------------------------------------------------------
// errors
// ---------------------------------------------------------------------------

/// Failure while reading or flattening a manifest document tree.
#[derive(Debug)]
pub enum ReadManifestError {
    /// The document file could not be read (raised by the caller doing I/O).
    FileRead(String),
    /// The document is not valid UTF-8 (raised by the caller doing I/O).
    Utf8(String),
    /// The document is not a well-formed manifest of this dialect.
    Parser,
    /// Two documents of one include tree declare a default remote.
    MoreThanOneDefaultRemote,
    /// A document includes itself, directly or through other documents.
    IncludeCycle(String),
    /// An included document is missing from the supplied document table.
    MissingInclude(String),
}

/// Mathematical image of the `ReadManifestError` cases the flattener raises.
pub ghost enum ReadErrModel {
    MoreThanOneDefaultRemote,
    IncludeCycle(Seq<char>),
    MissingInclude(Seq<char>),
}

/// Failure while resolving a manifest repository into its project list.
#[derive(Debug)]
pub enum FetchGitRepoMetadataError {
    /// Fetching the manifest repository failed (raised by the caller).
    PrefetchGit(String),
    /// Reading or flattening a manifest document failed.
    ReadManifest(ReadManifestError),
    /// A project names a remote that no document declares.
    UnknownRemote(String),
    /// A project names no remote and the flattened manifest has no default.
    MissingDefaultRemote,
    /// Neither the project nor its remote carries a revision.
    MissingDefaultRef,
    /// Writing the resolved project list failed (raised by the caller).
    FileWrite(String),
    /// Serializing the resolved project list failed (raised by the caller).
    Parser(String),
}

/// Mathematical image of the resolution errors.
pub ghost enum ResolveErrModel {
    UnknownRemote(Seq<char>),
    MissingDefaultRemote,
    MissingDefaultRef,
}

// ---------------------------------------------------------------------------
// remote URL and default-ref resolution
// ---------------------------------------------------------------------------

/// The URL one directory above the root URL's own repository: the root URL
/// split at every slash, the last two path pieces dropped, the rest
/// rejoined.  The scheme-and-host prefix -- the first three slash-separated
/// pieces of a `scheme://host/...` URL -- always survives, so an origin
/// whose path is a single segment resolves to its scheme and host.
pub open spec fn relative_base(root: Seq<char>) -> Seq<char> {
    let parts = spec_split(root, '/');
    let keep = if parts.len() - 2 > 3 {
        parts.len() - 2
    } else if parts.len() < 3 {
        parts.len() as int
    } else {
        3
    };
    spec_join(parts.subrange(0, keep), '/')
}

/// A remote's absolute fetch URL: its declared fetch value verbatim, unless
/// that value is the sentinel `..`, which stands for one directory above the
/// manifest repository's own URL.
pub open spec fn remote_url_model(fetch: Seq<char>, root: Seq<char>) -> Seq<char> {
    if fetch == ".."@ {
        relative_base(root)
    } else {
        fetch
    }
}

/// A remote's effective default ref: its own declared revision when it has
/// one; the default element's revision only for the manifest-wide default
/// remote when that remote declares none of its own.  The remote's own
/// revision stands above the manifest-default revision in the fallback
/// chain.
pub open spec fn remote_ref_model(r: RemoteModel, dflt: Option<DefaultRemoteModel>) -> Option<
    Seq<char>,
> {
    match dflt {
        Some(d) => if d.remote == r.name {
            if r.default_ref is Some {
                r.default_ref
            } else {
                d.default_ref
            }
        } else {
            r.default_ref
        },
        None => r.default_ref,
    }
}

/// Mathematical image of a `RemoteSpec`.
pub ghost struct RemoteSpecModel {
    pub url: Seq<char>,
    pub default_ref: Option<Seq<char>>,
}

/// A remote resolved to its absolute URL and effective default ref.
#[derive(Debug)]
pub struct RemoteSpec {
    pub url: String,
    pub default_ref: Option<String>,
}

impl View for RemoteSpec {
    type V = RemoteSpecModel;

    open spec fn view(&self) -> RemoteSpecModel {
        RemoteSpecModel { url: self.url@, default_ref: opt_view(self.default_ref) }
    }
}

/// One remote's resolved specification.
pub open spec fn remote_spec_model(
    r: RemoteModel,
    dflt: Option<DefaultRemoteModel>,
    root: Seq<char>,
) -> RemoteSpecModel {
    RemoteSpecModel { url: remote_url_model(r.fetch, root), default_ref: remote_ref_model(r, dflt) }
}

/// All remotes of a flattened manifest, resolved, in declaration order.
pub open spec fn remote_specs_model(m: ManifestModel, root: Seq<char>) -> Seq<
    (Seq<char>, RemoteSpecModel),
> {
    Seq::new(m.remotes.len(), |i: int| (m.remotes[i].name, remote_spec_model(m.remotes[i], m.default_remote, root)))
}

fn clone_opt_string(o: &Option<String>) -> (r: Option<String>)
    ensures
        opt_view(r) == opt_view(*o),
{
    match o {
        Some(x) => Some(x.clone()),
        None => None,
    }
}

/// Computes the URL that the fetch sentinel `..` stands for.
fn relative_base_exec(root_url: &str) -> (r: String)
    ensures
        r@ == relative_base(root_url@),
{
    let mut parts = split_str(root_url, '/');
    let ghost full = parts.deep_view();
    let n = parts.len();
    let keep: usize = if n >= 6 {
        n - 2
    } else if n >= 3 {
        3
    } else {
        n
    };
    parts.truncate(keep);
    proof {
        assert(parts.deep_view() =~= full.subrange(0, keep as int));
    }
    concat_with_sep(&parts, '/')
}

/// Resolves every remote of the flattened manifest to its absolute URL and
/// effective default ref, keyed by remote name, in declaration order.
pub fn get_remote_specs_from_manifest(manifest: &Manifest, root_url: &str) -> (r: Vec<
    (String, RemoteSpec),
>)
    ensures
        kv_views(r@) == remote_specs_model(manifest@, root_url@),
{
    let mut r: Vec<(String, RemoteSpec)> = Vec::new();
    let mut i: usize = 0;
    while i < manifest.remotes.len()
        invariant
            i <= manifest.remotes@.len(),
            r@.len() == i,
            forall|k: int| 0 <= k < i ==> kv_views(r@)[k] == remote_specs_model(
                manifest@,
                root_url@,
            )[k],
        decreases manifest.remotes@.len() - i,
    {
        let remote = &manifest.remotes[i];
        let url = if str_eq(remote.fetch.as_str(), "..") {
            relative_base_exec(root_url)
        } else {
            remote.fetch.clone()
        };
        let default_ref = match &manifest.default_remote {
            Some(d) => {
                if str_eq(d.remote.as_str(), remote.name.as_str()) {
                    match &remote.default_ref {
                        Some(x) => Some(x.clone()),
                        None => clone_opt_string(&d.default_ref),
                    }
                } else {
                    clone_opt_string(&remote.default_ref)
                }
            },
            None => clone_opt_string(&remote.default_ref),
        };
        let spec_entry = RemoteSpec { url, default_ref };
        proof {
            assert(remote@ == manifest@.remotes[i as int]);
            assert(spec_entry@.url == remote_url_model(remote@.fetch, root_url@));
            assert(spec_entry@.default_ref == remote_ref_model(
                remote@,
                manifest@.default_remote,
            ));
        }
        let nm = remote.name.clone();
        let ghost rprev = r@;
        let ghost pushed = (nm, spec_entry);
        r.push((nm, spec_entry));
        proof {
            assert(r@ == rprev.push(pushed));
            assert forall|k: int| 0 <= k < i + 1 implies kv_views(r@)[k] == remote_specs_model(
                manifest@,
                root_url@,
            )[k] by {
                if k < i {
                    assert(r@[k] == rprev[k]);
                    assert(kv_views(rprev)[k] == remote_specs_model(manifest@, root_url@)[k]);
                } else {
                    assert(r@[k] == pushed);
                    assert(kv_views(r@)[k] == (pushed.0@, pushed.1@));
                }
            }
        }
        i = i + 1;
    }
    proof {
        assert(kv_views(r@) =~= remote_specs_model(manifest@, root_url@));
    }
    r
}

} // verus!

verus! {

// ---------------------------------------------------------------------------
// per-branch project resolution
// ---------------------------------------------------------------------------

/// A URL with at most one trailing slash removed.
pub open spec fn trim_slash(u: Seq<char>) -> Seq<char> {
    if u.len() > 0 && u.last() == '/' {
        u.drop_last()
    } else {
        u
    }
}

fn trim_slash_exec(u: &str) -> (r: String)
    ensures
        r@ == trim_slash(u@),
{
    let mut v = crate::strutil::str_to_chars(u);
    if v.len() > 0 && v[v.len() - 1] == '/' {
        v.pop();
        proof {
            assert(v@ =~= u@.drop_last());
        }
    }
    crate::strutil::chars_to_string(v.as_slice())
}

/// The overlay entries as a `dest -> src` table, a later entry with the same
/// destination overriding an earlier one.
pub open spec fn files_fold(entries: Seq<FileEntryModel>) -> Seq<(Seq<char>, Seq<char>)>
    decreases entries.len(),
{
    if entries.len() == 0 {
        Seq::empty()
    } else {
        cassoc_set(files_fold(entries.drop_last()), (entries.last().dest, entries.last().src))
    }
}

fn build_files(entries: &Vec<FileEntry>) -> (r: Vec<(String, String)>)
    ensures
        kv_views(r@) == files_fold(views_of(entries@)),
{
    let mut r: Vec<(String, String)> = Vec::new();
    let mut k: usize = 0;
    proof {
        assert(kv_views(r@) =~= Seq::<(Seq<char>, Seq<char>)>::empty());
        assert(views_of(entries@).subrange(0, 0) =~= Seq::<FileEntryModel>::empty());
    }
    while k < entries.len()
        invariant
            k <= entries@.len(),
            kv_views(r@) == files_fold(views_of(entries@).subrange(0, k as int)),
        decreases entries@.len() - k,
    {
        let entry = &entries[k];
        assoc_set(&mut r, entry.dest.clone(), entry.src.clone());
        k = k + 1;
        proof {
            let vs = views_of(entries@);
            assert(vs.subrange(0, k as int).drop_last() =~= vs.subrange(0, k - 1));
            assert(vs.subrange(0, k as int).last() == entries@[k - 1]@);
        }
    }
    proof {
        assert(views_of(entries@).subrange(0, entries@.len() as int) =~= views_of(entries@));
    }
    r
}

/// The settings of one project on one branch: the repository split into the
/// trimmed remote URL and the project name, the resolved ref, the overlay
/// tables, and the fetch flags.
pub open spec fn settings_model(
    p: ProjectModel,
    rs: RemoteSpecModel,
    gr: Seq<char>,
) -> BranchSettingsModel {
    BranchSettingsModel {
        repo: RepositoryModel { base_url: trim_slash(rs.url), name: p.repo_name },
        git_ref: gr,
        copyfiles: files_fold(p.copyfiles),
        linkfiles: files_fold(p.linkfiles),
        fetch_lfs: false,
        fetch_submodules: false,
    }
}

/// One project's resolution: its remote name (its own, else the manifest's
/// default, else an error), the remote's resolved spec (unknown name is an
/// error), and the ref (the project's own revision, else the remote's
/// default ref, else an error).
pub open spec fn resolve_one(p: ProjectModel, m: ManifestModel, root: Seq<char>) -> Result<
    BranchSettingsModel,
    ResolveErrModel,
> {
    let rname = match p.remote {
        Some(r) => Some(r),
        None => match m.default_remote {
            Some(d) => Some(d.remote),
            None => None,
        },
    };
    match rname {
        None => Err(ResolveErrModel::MissingDefaultRemote),
        Some(rn) => match cassoc_get(remote_specs_model(m, root), rn) {
            None => Err(ResolveErrModel::UnknownRemote(rn)),
            Some(rs) => {
                let grr = if p.git_ref is Some {
                    p.git_ref
                } else {
                    rs.default_ref
                };
                match grr {
                    None => Err(ResolveErrModel::MissingDefaultRef),
                    Some(gr) => Ok(settings_model(p, rs, gr)),
                }
            },
        },
    }
}

/// The project map after resolving one project for one branch: the project
/// entry keyed by its path (a fresh entry when the path is new) with the
/// branch's settings stored under the branch label.
pub open spec fn upsert_project(
    ps: Seq<(Seq<char>, RepoProjectModel)>,
    path: Seq<char>,
    branch: Seq<char>,
    sm: BranchSettingsModel,
) -> Seq<(Seq<char>, RepoProjectModel)> {
    let base = match cassoc_get(ps, path) {
        Some(rp) => rp,
        None => RepoProjectModel { path: path, nonfree: false, branch_settings: Seq::empty() },
    };
    cassoc_set(
        ps,
        (
            path,
            RepoProjectModel {
                branch_settings: cassoc_set(base.branch_settings, (branch, sm)),
                ..base
            },
        ),
    )
}

/// The project map after resolving the longest successful prefix of the
/// given projects: what the accumulated map holds when resolution stops,
/// whether it stops at the end or at the first failing project.  A failing
/// project contributes nothing.
pub open spec fn resolve_prefix(
    prs: Seq<ProjectModel>,
    m: ManifestModel,
    ps: Seq<(Seq<char>, RepoProjectModel)>,
    root: Seq<char>,
    branch: Seq<char>,
) -> Seq<(Seq<char>, RepoProjectModel)>
    decreases prs.len(),
{
    if prs.len() == 0 {
        ps
    } else {
        match resolve_one(prs.first(), m, root) {
            Ok(sm) => resolve_prefix(
                prs.drop_first(),
                m,
                upsert_project(ps, prs.first().path, branch, sm),
                root,
                branch,
            ),
            Err(_) => ps,
        }
    }
}

/// The project map after resolving every given project for one branch, in
/// order; the first failing project aborts the whole resolution.
pub open spec fn resolve_projects(
    prs: Seq<ProjectModel>,
    m: ManifestModel,
    ps: Seq<(Seq<char>, RepoProjectModel)>,
    root: Seq<char>,
    branch: Seq<char>,
) -> Result<Seq<(Seq<char>, RepoProjectModel)>, ResolveErrModel>
    decreases prs.len(),
{
    if prs.len() == 0 {
        Ok(ps)
    } else {
        match resolve_one(prs.first(), m, root) {
            Ok(sm) => resolve_projects(
                prs.drop_first(),
                m,
                upsert_project(ps, prs.first().path, branch, sm),
                root,
                branch,
            ),
            Err(e) => Err(e),
        }
    }
}

fn upsert_project_exec(
    projects: &mut Vec<(String, RepoProject)>,
    path: &String,
    branch: String,
    settings: BranchSettings,
)
    requires
        cassoc_unique(kv_views(old(projects)@)),
    ensures
        kv_views(final(projects)@) == upsert_project(
            kv_views(old(projects)@),
            path@,
            branch@,
            settings@,
        ),
        cassoc_unique(kv_views(final(projects)@)),
{
    let ghost ps = kv_views(projects@);
    let ghost sm = settings@;
    let ghost brv = branch@;
    let mut k: usize = 0;
    while k < projects.len()
        invariant
            projects@ == old(projects)@,
            ps == kv_views(projects@),
            cassoc_unique(ps),
            brv == branch@,
            sm == settings@,
            k <= projects@.len(),
            forall|j: int| 0 <= j < k ==> kv_views(projects@)[j].0 != path@,
        decreases projects@.len() - k,
    {
        if str_eq(projects[k].0.as_str(), path.as_str()) {
            proof {
                lemma_cassoc_get_at(ps, path@, k as int);
            }
            let (key, mut rp) = projects.remove(k);
            let ghost rp0 = rp@;
            proof {
                assert(rp0 == ps[k as int].1);
            }
            assoc_set(&mut rp.branch_settings, branch, settings);
            let ghost newmodel = rp@;
            let ghost kv = (path@, newmodel);
            proof {
                assert(newmodel == RepoProjectModel {
                    branch_settings: cassoc_set(ps[k as int].1.branch_settings, (brv, sm)),
                    ..ps[k as int].1
                });
                lemma_cassoc_set_at(ps, kv, k as int);
                lemma_cassoc_set_unique(ps, kv);
            }
            let ghost mid = projects@;
            projects.insert(k, (key, rp));
            proof {
                assert forall|j: int| 0 <= j < kv_views(projects@).len() implies kv_views(
                    projects@,
                )[j] == ps.update(k as int, kv)[j] by {
                    if j < k {
                        assert(projects@[j] == old(projects)@[j]);
                    } else if j == k {
                        assert(projects@[j] == (key, rp));
                    } else {
                        assert(projects@[j] == mid.insert(k as int, (key, rp))[j]);
                        assert(mid[j - 1] == old(projects)@[j]);
                    }
                }
                assert(kv_views(projects@) =~= ps.update(k as int, kv));
                assert(upsert_project(ps, path@, brv, sm) == cassoc_set(ps, kv));
            }
            return;
        }
        k = k + 1;
    }
    proof {
        lemma_cassoc_get_none(ps, path@);
    }
    let mut rp = RepoProject { path: path.clone(), nonfree: false, branch_settings: Vec::new() };
    proof {
        assert(kv_views(rp.branch_settings@) =~= Seq::<(Seq<char>, BranchSettingsModel)>::empty());
    }
    assoc_set(&mut rp.branch_settings, branch, settings);
    let ghost newmodel = rp@;
    let ghost kv = (path@, newmodel);
    proof {
        assert(cassoc_set(Seq::<(Seq<char>, BranchSettingsModel)>::empty(), (brv, sm))
            =~= seq![(brv, sm)]);
        assert(newmodel.branch_settings =~= cassoc_set(
            Seq::<(Seq<char>, BranchSettingsModel)>::empty(),
            (brv, sm),
        ));
        lemma_cassoc_set_absent(ps, kv);
        lemma_cassoc_set_unique(ps, kv);
    }
    let ghost mid = projects@;
    projects.push((path.clone(), rp));
    proof {
        assert forall|j: int| 0 <= j < kv_views(projects@).len() implies kv_views(projects@)[j]
            == ps.push(kv)[j] by {
            if j < mid.len() {
                assert(projects@[j] == mid[j]);
            }
        }
        assert(kv_views(projects@) =~= ps.push(kv));
        assert(upsert_project(ps, path@, brv, sm) == cassoc_set(ps, kv));
    }
}

} // verus!

verus! {

/// After a failed resolution the map holds exactly the successful prefix's
/// upserts: the failing project and everything after it contribute nothing,
/// and the keys stay unique.
pub open spec fn err_map_is_prefix(
    m: ManifestModel,
    old_ps: Seq<(String, RepoProject)>,
    new_ps: Seq<(String, RepoProject)>,
    root: Seq<char>,
    branch: Seq<char>,
) -> bool {
    kv_views(new_ps) == resolve_prefix(m.projects, m, kv_views(old_ps), root, branch)
        && cassoc_unique(kv_views(new_ps))
}

/// Resolves every project of the flattened manifest for one branch and folds
/// it into the accumulated project map, keyed by checkout path: a new path
/// gets a fresh entry, a known path gets this branch's settings stored
/// beside the other branches'.  The first failing project aborts the run.
pub fn get_projects_from_manifest(
    manifest: &Manifest,
    projects: &mut Vec<(String, RepoProject)>,
    root_url: &str,
    branch: &str,
) -> (r: Result<(), FetchGitRepoMetadataError>)
    requires
        cassoc_unique(kv_views(old(projects)@)),
    ensures
        match r {
            Ok(()) => resolve_projects(
                manifest@.projects,
                manifest@,
                kv_views(old(projects)@),
                root_url@,
                branch@,
            ) == Ok::<_, ResolveErrModel>(kv_views(final(projects)@)) && cassoc_unique(
                kv_views(final(projects)@),
            ),
            Err(FetchGitRepoMetadataError::MissingDefaultRemote) => resolve_projects(
                manifest@.projects,
                manifest@,
                kv_views(old(projects)@),
                root_url@,
                branch@,
            ) == Err::<Seq<(Seq<char>, RepoProjectModel)>, _>(
                ResolveErrModel::MissingDefaultRemote,
            ) && err_map_is_prefix(manifest@, old(projects)@, final(projects)@, root_url@, branch@),
            Err(FetchGitRepoMetadataError::UnknownRemote(n)) => resolve_projects(
                manifest@.projects,
                manifest@,
                kv_views(old(projects)@),
                root_url@,
                branch@,
            ) == Err::<Seq<(Seq<char>, RepoProjectModel)>, _>(
                ResolveErrModel::UnknownRemote(n@),
            ) && err_map_is_prefix(manifest@, old(projects)@, final(projects)@, root_url@, branch@),
            Err(FetchGitRepoMetadataError::MissingDefaultRef) => resolve_projects(
                manifest@.projects,
                manifest@,
                kv_views(old(projects)@),
                root_url@,
                branch@,
            ) == Err::<Seq<(Seq<char>, RepoProjectModel)>, _>(ResolveErrModel::MissingDefaultRef)
                && err_map_is_prefix(manifest@, old(projects)@, final(projects)@, root_url@, branch@),
            Err(_) => false,
        },
{
    let remote_specs = get_remote_specs_from_manifest(manifest, root_url);
    let ghost m = manifest@;
    let ghost ps0 = kv_views(projects@);
    let mut k: usize = 0;
    proof {
        assert(m.projects.skip(0) =~= m.projects);
    }
    while k < manifest.projects.len()
        invariant
            k <= manifest.projects@.len(),
            m == manifest@,
            ps0 == kv_views(old(projects)@),
            kv_views(remote_specs@) == remote_specs_model(m, root_url@),
            cassoc_unique(kv_views(projects@)),
            resolve_projects(m.projects, m, ps0, root_url@, branch@) == resolve_projects(
                m.projects.skip(k as int),
                m,
                kv_views(projects@),
                root_url@,
                branch@,
            ),
            resolve_prefix(m.projects, m, ps0, root_url@, branch@) == resolve_prefix(
                m.projects.skip(k as int),
                m,
                kv_views(projects@),
                root_url@,
                branch@,
            ),
        decreases manifest.projects@.len() - k,
    {
        let project = &manifest.projects[k];
        let ghost pm = m.projects[k as int];
        proof {
            assert(pm == manifest.projects@[k as int]@);
            assert(m.projects.skip(k as int).first() == pm);
            assert(m.projects.skip(k as int).drop_first() =~= m.projects.skip(k + 1));
        }
        let rname: String = match &project.remote {
            Some(rn) => rn.clone(),
            None => match &manifest.default_remote {
                Some(d) => d.remote.clone(),
                None => {
                    proof {
                        assert(resolve_one(pm, m, root_url@) == Err::<
                            BranchSettingsModel,
                            _,
                        >(ResolveErrModel::MissingDefaultRemote));
                    }
                    return Err(FetchGitRepoMetadataError::MissingDefaultRemote);
                },
            },
        };
        match assoc_lookup(&remote_specs, rname.as_str()) {
            None => {
                proof {
                    assert(resolve_one(pm, m, root_url@) == Err::<BranchSettingsModel, _>(
                        ResolveErrModel::UnknownRemote(rname@),
                    ));
                }
                return Err(FetchGitRepoMetadataError::UnknownRemote(rname));
            },
            Some(rs) => {
                let ghost rsm = rs@;
                let git_ref: String = match &project.git_ref {
                    Some(g) => g.clone(),
                    None => match &rs.default_ref {
                        Some(g) => g.clone(),
                        None => {
                            proof {
                                assert(resolve_one(pm, m, root_url@) == Err::<
                                    BranchSettingsModel,
                                    _,
                                >(ResolveErrModel::MissingDefaultRef));
                            }
                            return Err(FetchGitRepoMetadataError::MissingDefaultRef);
                        },
                    },
                };
                let settings = BranchSettings {
                    repo: Repository {
                        base_url: trim_slash_exec(rs.url.as_str()),
                        name: project.repo_name.clone(),
                    },
                    git_ref,
                    copyfiles: build_files(&project.copyfiles),
                    linkfiles: build_files(&project.linkfiles),
                    fetch_lfs: false,
                    fetch_submodules: false,
                };
                proof {
                    assert(resolve_one(pm, m, root_url@) == Ok::<_, ResolveErrModel>(
                        settings@,
                    ));
                }
                let branch_key = branch.to_owned();
                upsert_project_exec(projects, &project.path, branch_key, settings);
            },
        }
        k = k + 1;
    }
    proof {
        assert(m.projects.skip(manifest.projects@.len() as int).len() == 0);
    }
    Ok(())
}

} // verus!

verus! {

// ---------------------------------------------------------------------------
// include flattening
// ---------------------------------------------------------------------------

fn clone_string_vec(v: &Vec<String>) -> (r: Vec<String>)
    ensures
        r@ == v@,
{
    let r = v.clone();
    proof {
        assert forall|i: int| 0 <= i < r@.len() implies r@[i] == v@[i] by {
            assert(cloned::<String>(v@[i], r@[i]));
        }
        assert(r@ =~= v@);
    }
    r
}

fn clone_remote(r: &crate::xml::GitRepoRemote) -> (c: crate::xml::GitRepoRemote)
    ensures
        c@ == r@,
{
    crate::xml::GitRepoRemote {
        name: r.name.clone(),
        fetch: r.fetch.clone(),
        review: clone_opt_string(&r.review),
        default_ref: clone_opt_string(&r.default_ref),
    }
}

fn clone_fileentry(f: &FileEntry) -> (c: FileEntry)
    ensures
        c@ == f@,
{
    FileEntry { src: f.src.clone(), dest: f.dest.clone() }
}

fn clone_fileentry_vec(v: &Vec<FileEntry>) -> (r: Vec<FileEntry>)
    ensures
        views_of(r@) == views_of(v@),
{
    let mut r: Vec<FileEntry> = Vec::new();
    let mut i: usize = 0;
    while i < v.len()
        invariant
            i <= v@.len(),
            r@.len() == i,
            forall|j: int| 0 <= j < i ==> r@[j]@ == v@[j]@,
        decreases v@.len() - i,
    {
        r.push(clone_fileentry(&v[i]));
        i = i + 1;
    }
    proof {
        assert(views_of(r@) =~= views_of(v@));
    }
    r
}

fn clone_project(p: &crate::xml::ManifestProject) -> (c: crate::xml::ManifestProject)
    ensures
        c@ == p@,
{
    let c = crate::xml::ManifestProject {
        path: p.path.clone(),
        repo_name: p.repo_name.clone(),
        groups: clone_opt_string(&p.groups),
        remote: clone_opt_string(&p.remote),
        git_ref: clone_opt_string(&p.git_ref),
        linkfiles: clone_fileentry_vec(&p.linkfiles),
        copyfiles: clone_fileentry_vec(&p.copyfiles),
    };
    c
}

fn clone_manifest(m: &Manifest) -> (c: Manifest)
    ensures
        c@ == m@,
{
    let mut remotes: Vec<crate::xml::GitRepoRemote> = Vec::new();
    let mut i: usize = 0;
    while i < m.remotes.len()
        invariant
            i <= m.remotes@.len(),
            remotes@.len() == i,
            forall|j: int| 0 <= j < i ==> remotes@[j]@ == m.remotes@[j]@,
        decreases m.remotes@.len() - i,
    {
        remotes.push(clone_remote(&m.remotes[i]));
        i = i + 1;
    }
    let default_remote = match &m.default_remote {
        Some(d) => Some(
            crate::xml::DefaultRemote {
                remote: d.remote.clone(),
                default_ref: clone_opt_string(&d.default_ref),
                sync_c: d.sync_c.clone(),
                sync_j: d.sync_j.clone(),
            },
        ),
        None => None,
    };
    let mut projects: Vec<crate::xml::ManifestProject> = Vec::new();
    let mut k: usize = 0;
    while k < m.projects.len()
        invariant
            k <= m.projects@.len(),
            projects@.len() == k,
            forall|j: int| 0 <= j < k ==> projects@[j]@ == m.projects@[j]@,
        decreases m.projects@.len() - k,
    {
        projects.push(clone_project(&m.projects[k]));
        k = k + 1;
    }
    let includes = clone_string_vec(&m.includes);
    let c = Manifest { remotes, default_remote, projects, includes };
    proof {
        assert(views_of(c.remotes@) =~= views_of(m.remotes@));
        assert(views_of(c.projects@) =~= views_of(m.projects@));
        assert(views_of(c.includes@) =~= views_of(m.includes@));
        assert(c@ == m@);
    }
    c
}

/// Merging a second default-remote declaration into a tree that already has
/// one is the hard error of the flattening.
pub open spec fn merge_default(
    acc: Option<DefaultRemoteModel>,
    sub: Option<DefaultRemoteModel>,
) -> Result<Option<DefaultRemoteModel>, ReadErrModel> {
    match sub {
        Some(d) => match acc {
            Some(_) => Err(ReadErrModel::MoreThanOneDefaultRemote),
            None => Ok(Some(d)),
        },
        None => Ok(acc),
    }
}

/// The flattened image of the document named `name`: the document itself
/// with each include replaced, depth first and in order, by the included
/// document's flattened remotes and projects; the include list of the result
/// is empty.  A name already on the include path is a cycle, a name missing
/// from the table an error, and a second default remote anywhere in the tree
/// the hard error.
pub open spec fn spec_flatten(
    docs: Seq<(Seq<char>, ManifestModel)>,
    name: Seq<char>,
    visited: Seq<Seq<char>>,
) -> Result<ManifestModel, ReadErrModel>
    decreases docs.len() + 1 - visited.len(), 0int,
{
    if visited.contains(name) || visited.len() > docs.len() {
        Err(ReadErrModel::IncludeCycle(name))
    } else {
        match cassoc_get(docs, name) {
            None => Err(ReadErrModel::MissingInclude(name)),
            Some(doc) => spec_flatten_includes(
                doc.includes,
                ManifestModel { includes: Seq::empty(), ..doc },
                docs,
                visited.push(name),
            ),
        }
    }
}

/// Folds the flattened images of the named includes into `acc`, in order.
pub open spec fn spec_flatten_includes(
    incs: Seq<Seq<char>>,
    acc: ManifestModel,
    docs: Seq<(Seq<char>, ManifestModel)>,
    visited: Seq<Seq<char>>,
) -> Result<ManifestModel, ReadErrModel>
    decreases docs.len() + 1 - visited.len(), 1 + incs.len(),
{
    if visited.len() > docs.len() + 1 {
        Err(ReadErrModel::IncludeCycle(Seq::empty()))
    } else if incs.len() == 0 {
        Ok(acc)
    } else {
        match spec_flatten(docs, incs.first(), visited) {
            Ok(sub) => match merge_default(acc.default_remote, sub.default_remote) {
                Ok(d) => spec_flatten_includes(
                    incs.drop_first(),
                    ManifestModel {
                        remotes: acc.remotes + sub.remotes,
                        default_remote: d,
                        projects: acc.projects + sub.projects,
                        includes: Seq::empty(),
                    },
                    docs,
                    visited,
                ),
                Err(e) => Err(e),
            },
            Err(e) => Err(e),
        }
    }
}

fn visited_contains(visited: &Vec<String>, name: &str) -> (b: bool)
    ensures
        b == views_of(visited@).contains(name@),
{
    let mut k: usize = 0;
    while k < visited.len()
        invariant
            k <= visited@.len(),
            forall|j: int| 0 <= j < k ==> views_of(visited@)[j] != name@,
        decreases visited@.len() - k,
    {
        if str_eq(visited[k].as_str(), name) {
            proof {
                assert(views_of(visited@)[k as int] == name@);
            }
            return true;
        }
        k = k + 1;
    }
    proof {
        assert(!views_of(visited@).contains(name@));
    }
    false
}

fn e_flatten(docs: &Vec<(String, Manifest)>, name: &str, visited: &Vec<String>) -> (r: Result<
    Manifest,
    ReadManifestError,
>)
    requires
        visited@.len() <= docs@.len() + 1,
    ensures
        match r {
            Ok(m) => spec_flatten(kv_views(docs@), name@, views_of(visited@)) == Ok::<
                _,
                ReadErrModel,
            >(m@),
            Err(ReadManifestError::MoreThanOneDefaultRemote) => spec_flatten(
                kv_views(docs@),
                name@,
                views_of(visited@),
            ) == Err::<ManifestModel, _>(ReadErrModel::MoreThanOneDefaultRemote),
            Err(ReadManifestError::IncludeCycle(n)) => spec_flatten(
                kv_views(docs@),
                name@,
                views_of(visited@),
            ) == Err::<ManifestModel, _>(ReadErrModel::IncludeCycle(n@)),
            Err(ReadManifestError::MissingInclude(n)) => spec_flatten(
                kv_views(docs@),
                name@,
                views_of(visited@),
            ) == Err::<ManifestModel, _>(ReadErrModel::MissingInclude(n@)),
            Err(_) => false,
        },
    decreases docs@.len() + 1 - visited@.len(), 0int,
{
    if visited_contains(visited, name) || visited.len() > docs.len() {
        return Err(ReadManifestError::IncludeCycle(name.to_owned()));
    }
    match assoc_lookup(docs, name) {
        None => Err(ReadManifestError::MissingInclude(name.to_owned())),
        Some(doc) => {
            let mut acc = clone_manifest(doc);
            let incs = clone_string_vec(&acc.includes);
            acc.includes = Vec::new();
            let ghost docm = doc@;
            proof {
                assert(views_of(acc.includes@) =~= Seq::<Seq<char>>::empty());
                assert(acc@ == ManifestModel { includes: Seq::empty(), ..docm });
                assert(views_of(incs@) == docm.includes);
            }
            let mut visited2 = clone_string_vec(visited);
            visited2.push(name.to_owned());
            proof {
                assert(views_of(visited2@) =~= views_of(visited@).push(name@));
            }
            let res = e_flatten_includes(docs, &incs, 0, acc, &visited2);
            proof {
                assert(views_of(incs@).skip(0) =~= views_of(incs@));
            }
            res
        },
    }
}

fn e_flatten_includes(
    docs: &Vec<(String, Manifest)>,
    incs: &Vec<String>,
    i: usize,
    acc: Manifest,
    visited: &Vec<String>,
) -> (r: Result<Manifest, ReadManifestError>)
    requires
        i <= incs@.len(),
        visited@.len() <= docs@.len() + 1,
        acc@.includes == Seq::<Seq<char>>::empty(),
    ensures
        match r {
            Ok(m) => spec_flatten_includes(
                views_of(incs@).skip(i as int),
                acc@,
                kv_views(docs@),
                views_of(visited@),
            ) == Ok::<_, ReadErrModel>(m@),
            Err(ReadManifestError::MoreThanOneDefaultRemote) => spec_flatten_includes(
                views_of(incs@).skip(i as int),
                acc@,
                kv_views(docs@),
                views_of(visited@),
            ) == Err::<ManifestModel, _>(ReadErrModel::MoreThanOneDefaultRemote),
            Err(ReadManifestError::IncludeCycle(n)) => spec_flatten_includes(
                views_of(incs@).skip(i as int),
                acc@,
                kv_views(docs@),
                views_of(visited@),
            ) == Err::<ManifestModel, _>(ReadErrModel::IncludeCycle(n@)),
            Err(ReadManifestError::MissingInclude(n)) => spec_flatten_includes(
                views_of(incs@).skip(i as int),
                acc@,
                kv_views(docs@),
                views_of(visited@),
            ) == Err::<ManifestModel, _>(ReadErrModel::MissingInclude(n@)),
            Err(_) => false,
        },
    decreases docs@.len() + 1 - visited@.len(), 1 + incs@.len() - i,
{
    if i >= incs.len() {
        proof {
            assert(views_of(incs@).skip(i as int).len() == 0);
        }
        return Ok(acc);
    }
    proof {
        assert(views_of(incs@).skip(i as int).first() == incs@[i as int]@);
        assert(views_of(incs@).skip(i as int).drop_first() =~= views_of(incs@).skip(i + 1));
    }
    match e_flatten(docs, incs[i].as_str(), visited) {
        Ok(sub) => {
            let ghost accm = acc@;
            let ghost subm = sub@;
            let mut acc = acc;
            let mut sub = sub;
            if sub.default_remote.is_some() {
                if acc.default_remote.is_some() {
                    return Err(ReadManifestError::MoreThanOneDefaultRemote);
                }
                acc.default_remote = sub.default_remote;
                sub.default_remote = None;
            }
            acc.remotes.append(&mut sub.remotes);
            acc.projects.append(&mut sub.projects);
            proof {
                assert(views_of(acc.remotes@) =~= accm.remotes + subm.remotes);
                assert(views_of(acc.projects@) =~= accm.projects + subm.projects);
                assert(acc@.default_remote == merge_default(
                    accm.default_remote,
                    subm.default_remote,
                )->Ok_0);
                assert(views_of(acc.includes@) == accm.includes);
                assert(acc@ == ManifestModel {
                    remotes: accm.remotes + subm.remotes,
                    default_remote: merge_default(
                        accm.default_remote,
                        subm.default_remote,
                    )->Ok_0,
                    projects: accm.projects + subm.projects,
                    includes: Seq::empty(),
                });
            }
            e_flatten_includes(docs, incs, i + 1, acc, visited)
        },
        Err(e) => Err(e),
    }
}

/// Flattens the include tree of the document named `root` over the given
/// document table.
pub fn flatten_manifest(docs: &Vec<(String, Manifest)>, root: &str) -> (r: Result<
    Manifest,
    ReadManifestError,
>)
    ensures
        match r {
            Ok(m) => spec_flatten(kv_views(docs@), root@, Seq::empty()) == Ok::<
                _,
                ReadErrModel,
            >(m@),
            Err(ReadManifestError::MoreThanOneDefaultRemote) => spec_flatten(
                kv_views(docs@),
                root@,
                Seq::empty(),
            ) == Err::<ManifestModel, _>(ReadErrModel::MoreThanOneDefaultRemote),
            Err(ReadManifestError::IncludeCycle(n)) => spec_flatten(
                kv_views(docs@),
                root@,
                Seq::empty(),
            ) == Err::<ManifestModel, _>(ReadErrModel::IncludeCycle(n@)),
            Err(ReadManifestError::MissingInclude(n)) => spec_flatten(
                kv_views(docs@),
                root@,
                Seq::empty(),
            ) == Err::<ManifestModel, _>(ReadErrModel::MissingInclude(n@)),
            Err(_) => false,
        },
{
    let visited: Vec<String> = Vec::new();
    proof {
        assert(views_of(visited@) =~= Seq::<Seq<char>>::empty());
    }
    e_flatten(docs, root, &visited)
}

} // verus!

verus! {

// ---------------------------------------------------------------------------
// the sorted project list
// ---------------------------------------------------------------------------

/// Lexicographic order on character sequences, by code point.
pub open spec fn lex_le(a: Seq<char>, b: Seq<char>) -> bool
    decreases a.len(),
{
    if a.len() == 0 {
        true
    } else if b.len() == 0 {
        false
    } else if (a.first() as u32) == (b.first() as u32) {
        lex_le(a.drop_first(), b.drop_first())
    } else {
        (a.first() as u32) < (b.first() as u32)
    }
}

/// The order is total.
pub proof fn lemma_lex_total(a: Seq<char>, b: Seq<char>)
    ensures
        lex_le(a, b) || lex_le(b, a),
    decreases a.len(),
{
    if a.len() > 0 && b.len() > 0 && (a.first() as u32) == (b.first() as u32) {
        lemma_lex_total(a.drop_first(), b.drop_first());
    }
}

/// The order is transitive.
pub proof fn lemma_lex_trans(a: Seq<char>, b: Seq<char>, c: Seq<char>)
    requires
        lex_le(a, b),
        lex_le(b, c),
    ensures
        lex_le(a, c),
    decreases a.len(),
{
    if a.len() > 0 && b.len() > 0 && c.len() > 0 && (a.first() as u32) == (b.first() as u32)
        && (b.first() as u32) == (c.first() as u32) {
        lemma_lex_trans(a.drop_first(), b.drop_first(), c.drop_first());
    }
}

pub(crate) fn str_le(a: &str, b: &str) -> (r: bool)
    ensures
        r == lex_le(a@, b@),
{
    let na = a.unicode_len();
    let nb = b.unicode_len();
    let mut i: usize = 0;
    proof {
        assert(a@.skip(0) =~= a@);
        assert(b@.skip(0) =~= b@);
    }
    loop
        invariant
            na == a@.len(),
            nb == b@.len(),
            i <= na,
            i <= nb,
            lex_le(a@, b@) == lex_le(a@.skip(i as int), b@.skip(i as int)),
        decreases na - i,
    {
        if i >= na {
            proof {
                assert(a@.skip(i as int).len() == 0);
            }
            return true;
        }
        if i >= nb {
            proof {
                assert(b@.skip(i as int).len() == 0);
                assert(a@.skip(i as int).len() > 0);
            }
            return false;
        }
        let ca = a.get_char(i);
        let cb = b.get_char(i);
        proof {
            assert(a@.skip(i as int).first() == a@[i as int]);
            assert(b@.skip(i as int).first() == b@[i as int]);
            assert(a@.skip(i as int).drop_first() =~= a@.skip(i + 1));
            assert(b@.skip(i as int).drop_first() =~= b@.skip(i + 1));
        }
        if (ca as u32) != (cb as u32) {
            return (ca as u32) < (cb as u32);
        }
        i = i + 1;
    }
}

/// Whether the projects stand in path order.
pub open spec fn sorted_by_path(s: Seq<RepoProjectModel>) -> bool {
    forall|i: int, j: int| 0 <= i < j < s.len() ==> lex_le(s[i].path, s[j].path)
}

/// `p` inserted in front of the first entry whose path is not below `p`'s.
pub open spec fn spec_insert_sorted(s: Seq<RepoProject>, p: RepoProject) -> Seq<RepoProject>
    decreases s.len(),
{
    if s.len() == 0 {
        seq![p]
    } else if lex_le(p.path@, s.first().path@) {
        seq![p] + s
    } else {
        seq![s.first()] + spec_insert_sorted(s.drop_first(), p)
    }
}

/// The projects in path order: each inserted in turn into the sorted list.
pub open spec fn spec_sort(s: Seq<RepoProject>) -> Seq<RepoProject>
    decreases s.len(),
{
    if s.len() == 0 {
        Seq::empty()
    } else {
        spec_insert_sorted(spec_sort(s.drop_last()), s.last())
    }
}

proof fn lemma_insert_sorted_sorted(s: Seq<RepoProject>, p: RepoProject)
    requires
        sorted_by_path(views_of(s)),
    ensures
        sorted_by_path(views_of(spec_insert_sorted(s, p))),
        views_of(spec_insert_sorted(s, p)).len() == s.len() + 1,
    decreases s.len(),
{
    if s.len() == 0 {
    } else if lex_le(p.path@, s.first().path@) {
        let t = spec_insert_sorted(s, p);
        assert(t =~= seq![p] + s);
        assert forall|i: int, j: int| 0 <= i < j < t.len() implies lex_le(
            views_of(t)[i].path,
            views_of(t)[j].path,
        ) by {
            assert(views_of(t)[i].path == t[i].path@);
            assert(views_of(t)[j].path == t[j].path@);
            if i == 0 {
                if j == 1 {
                } else {
                    assert(views_of(s)[0].path == s[0].path@);
                    assert(views_of(s)[j - 1].path == s[j - 1].path@);
                    lemma_lex_trans(p.path@, s[0].path@, s[j - 1].path@);
                }
            } else {
                assert(t[i] == s[i - 1] && t[j] == s[j - 1]);
                assert(views_of(s)[i - 1].path == s[i - 1].path@);
                assert(views_of(s)[j - 1].path == s[j - 1].path@);
            }
        }
    } else {
        assert forall|i: int, j: int| 0 <= i < j < s.drop_first().len() implies lex_le(
            views_of(s.drop_first())[i].path,
            views_of(s.drop_first())[j].path,
        ) by {
            assert(s.drop_first()[i] == s[i + 1] && s.drop_first()[j] == s[j + 1]);
            assert(views_of(s.drop_first())[i].path == s.drop_first()[i].path@);
            assert(views_of(s.drop_first())[j].path == s.drop_first()[j].path@);
            assert(views_of(s)[i + 1].path == s[i + 1].path@);
            assert(views_of(s)[j + 1].path == s[j + 1].path@);
        }
        lemma_insert_sorted_sorted(s.drop_first(), p);
        let t = spec_insert_sorted(s, p);
        let t1 = spec_insert_sorted(s.drop_first(), p);
        assert(t =~= seq![s.first()] + t1);
        lemma_lex_total(p.path@, s.first().path@);
        lemma_insert_sorted_entries(s.drop_first(), p);
        assert forall|i: int, j: int| 0 <= i < j < t.len() implies lex_le(
            views_of(t)[i].path,
            views_of(t)[j].path,
        ) by {
            assert(views_of(t)[i].path == t[i].path@);
            assert(views_of(t)[j].path == t[j].path@);
            if i == 0 {
                assert(t[j] == t1[j - 1]);
                if exists|m: int| 0 <= m < s.drop_first().len() && s.drop_first()[m] == t1[j - 1] {
                    let m = choose|m: int|
                        0 <= m < s.drop_first().len() && s.drop_first()[m] == t1[j - 1];
                    assert(views_of(s)[0].path == s[0].path@);
                    assert(views_of(s)[m + 1].path == s[m + 1].path@);
                    assert(lex_le(s[0].path@, s[m + 1].path@));
                    assert(t[j] == s[m + 1]);
                } else {
                    assert(t1[j - 1] == p);
                }
            } else {
                assert(t[i] == t1[i - 1] && t[j] == t1[j - 1]);
                assert(views_of(t1)[i - 1].path == t1[i - 1].path@);
                assert(views_of(t1)[j - 1].path == t1[j - 1].path@);
            }
        }
    }
}

/// Every entry of the extended list is an old entry or the inserted one.
proof fn lemma_insert_sorted_entries(s: Seq<RepoProject>, p: RepoProject)
    ensures
        forall|i: int| 0 <= i < spec_insert_sorted(s, p).len() ==> (exists|m: int|
            0 <= m < s.len() && s[m] == #[trigger] spec_insert_sorted(s, p)[i]) || spec_insert_sorted(
            s,
            p,
        )[i] == p,
    decreases s.len(),
{
    if s.len() == 0 {
    } else if lex_le(p.path@, s.first().path@) {
        let t = spec_insert_sorted(s, p);
        assert(t =~= seq![p] + s);
        assert forall|i: int| 0 <= i < t.len() implies (exists|m: int|
            0 <= m < s.len() && s[m] == t[i]) || t[i] == p by {
            if i > 0 {
                assert(s[i - 1] == t[i]);
            }
        }
    } else {
        lemma_insert_sorted_entries(s.drop_first(), p);
        let t = spec_insert_sorted(s, p);
        let t1 = spec_insert_sorted(s.drop_first(), p);
        assert(t =~= seq![s.first()] + t1);
        assert forall|i: int| 0 <= i < t.len() implies (exists|m: int|
            0 <= m < s.len() && s[m] == t[i]) || t[i] == p by {
            if i == 0 {
                assert(s[0] == t[0]);
            } else {
                assert(t[i] == t1[i - 1]);
                if exists|m: int| 0 <= m < s.drop_first().len() && s.drop_first()[m] == t1[i - 1] {
                    let m = choose|m: int|
                        0 <= m < s.drop_first().len() && s.drop_first()[m] == t1[i - 1];
                    assert(s[m + 1] == t[i]);
                }
            }
        }
    }
}

/// The sorted image of any project list is in path order.
pub proof fn lemma_sort_sorted(s: Seq<RepoProject>)
    ensures
        sorted_by_path(views_of(spec_sort(s))),
    decreases s.len(),
{
    if s.len() == 0 {
    } else {
        lemma_sort_sorted(s.drop_last());
        lemma_insert_sorted_sorted(spec_sort(s.drop_last()), s.last());
    }
}

fn e_insert_sorted(s: Vec<RepoProject>, p: RepoProject) -> (r: Vec<RepoProject>)
    ensures
        r@ == spec_insert_sorted(s@, p),
    decreases s@.len(),
{
    let ghost s0 = s@;
    let mut s = s;
    if s.len() == 0 {
        s.push(p);
        proof {
            assert(s@ =~= seq![p]);
        }
        return s;
    }
    if str_le(p.path.as_str(), s[0].path.as_str()) {
        s.insert(0, p);
        proof {
            assert(s@ =~= seq![p] + s0);
        }
        return s;
    }
    let head = s.remove(0);
    proof {
        assert(s@ =~= s0.drop_first());
    }
    let rest = e_insert_sorted(s, p);
    let mut r = rest;
    r.insert(0, head);
    proof {
        assert(r@ =~= seq![s0.first()] + spec_insert_sorted(s0.drop_first(), p));
        assert(r@ =~= spec_insert_sorted(s0, p));
    }
    r
}

/// The resolved projects in path order, ready to be persisted.
pub fn sorted_projects(projects: Vec<(String, RepoProject)>) -> (r: Vec<RepoProject>)
    ensures
        r@ == spec_sort(Seq::new(projects@.len(), |i: int| projects@[i].1)),
        sorted_by_path(views_of(r@)),
{
    let ghost ps = projects@;
    let ghost vals = Seq::new(projects@.len(), |i: int| projects@[i].1);
    let mut projects = projects;
    let n0 = projects.len();
    let mut out: Vec<RepoProject> = Vec::new();
    let mut k: usize = 0;
    proof {
        assert(spec_sort(vals.subrange(0, 0)) =~= Seq::<RepoProject>::empty());
        assert(out@ =~= spec_sort(vals.subrange(0, 0)));
    }
    while projects.len() > 0
        invariant
            n0 == ps.len(),
            k + projects@.len() == ps.len(),
            projects@ =~= ps.subrange(k as int, ps.len() as int),
            vals == Seq::new(ps.len(), |i: int| ps[i].1),
            out@ == spec_sort(vals.subrange(0, k as int)),
        decreases projects@.len(),
    {
        let pair = projects.remove(0);
        out = e_insert_sorted(out, pair.1);
        k = k + 1;
        proof {
            assert(projects@ =~= ps.subrange(k as int, ps.len() as int));
            assert(vals.subrange(0, k as int).drop_last() =~= vals.subrange(0, k - 1));
            assert(vals.subrange(0, k as int).last() == ps[k - 1].1);
            assert(out@ == spec_sort(vals.subrange(0, k as int)));
        }
    }
    proof {
        assert(vals.subrange(0, ps.len() as int) =~= vals);
        lemma_sort_sorted(vals);
    }
    out
}

/// The first include name, scanning documents and includes in order, that the
/// document table does not hold.
pub open spec fn spec_first_missing(docs: Seq<(Seq<char>, ManifestModel)>, i: int, j: int) -> Option<
    Seq<char>,
>
    decreases docs.len() - i, (if 0 <= i < docs.len() { docs[i].1.includes.len() + 1 - j } else { 0int }),
{
    if !(0 <= i < docs.len()) {
        None
    } else if !(0 <= j <= docs[i].1.includes.len()) {
        None
    } else if j == docs[i].1.includes.len() {
        spec_first_missing(docs, i + 1, 0)
    } else if !cassoc_has(docs, docs[i].1.includes[j]) {
        Some(docs[i].1.includes[j])
    } else {
        spec_first_missing(docs, i, j + 1)
    }
}

/// The name of an included document that the table does not yet hold, if any
/// document of the table names one.
pub fn first_missing_include(docs: &Vec<(String, Manifest)>) -> (r: Option<String>)
    ensures
        match r {
            Some(n) => spec_first_missing(kv_views(docs@), 0, 0) == Some(n@),
            None => spec_first_missing(kv_views(docs@), 0, 0) is None,
        },
{
    let ghost dv = kv_views(docs@);
    let mut i: usize = 0;
    while i < docs.len()
        invariant
            dv == kv_views(docs@),
            i <= docs@.len(),
            spec_first_missing(dv, 0, 0) == spec_first_missing(dv, i as int, 0),
        decreases docs@.len() - i,
    {
        let incs = &docs[i].1.includes;
        let mut j: usize = 0;
        while j < incs.len()
            invariant
                dv == kv_views(docs@),
                i < docs@.len(),
                incs == &docs@[i as int].1.includes,
                j <= incs@.len(),
                spec_first_missing(dv, 0, 0) == spec_first_missing(dv, i as int, j as int),
            decreases incs@.len() - j,
        {
            proof {
                assert(dv[i as int].1.includes[j as int] == incs@[j as int]@);
            }
            match assoc_lookup(docs, incs[j].as_str()) {
                None => {
                    return Some(incs[j].clone());
                },
                Some(_) => {},
            }
            j = j + 1;
        }
        i = i + 1;
    }
    None
}

} // verus!

verus! {

// ---------------------------------------------------------------------------
// laws of the resolution
// ---------------------------------------------------------------------------

/// Re-resolving the same path and branch overwrites: upserting a second
/// settings value for one `(path, branch)` pair yields exactly the map that
/// upserting only the second value yields, so resolving the same manifest
/// and branch again leaves the map unchanged.
pub proof fn lemma_upsert_overwrite(
    ps: Seq<(Seq<char>, RepoProjectModel)>,
    path: Seq<char>,
    branch: Seq<char>,
    s1: BranchSettingsModel,
    s2: BranchSettingsModel,
)
    requires
        cassoc_unique(ps),
    ensures
        upsert_project(upsert_project(ps, path, branch, s1), path, branch, s2) == upsert_project(
            ps,
            path,
            branch,
            s2,
        ),
{
    let base = match cassoc_get(ps, path) {
        Some(rp) => rp,
        None => RepoProjectModel { path: path, nonfree: false, branch_settings: Seq::empty() },
    };
    let m1 = RepoProjectModel {
        branch_settings: cassoc_set(base.branch_settings, (branch, s1)),
        ..base
    };
    let ps1 = cassoc_set(ps, (path, m1));
    lemma_cassoc_set_get(ps, (path, m1), path);
    assert(cassoc_get(ps1, path) == Some(m1));
    crate::assoc::lemma_cassoc_set_set(base.branch_settings, (branch, s1), (branch, s2));
    crate::assoc::lemma_cassoc_set_set(ps, (path, m1), (
        path,
        RepoProjectModel {
            branch_settings: cassoc_set(m1.branch_settings, (branch, s2)),
            ..m1
        },
    ));
}

/// Resolving a new branch adds its settings without disturbing the others:
/// after an upsert under `b2`, any other branch `b1` of any path reads as
/// before, and any other path's entry reads as before.
pub proof fn lemma_upsert_other_branch(
    ps: Seq<(Seq<char>, RepoProjectModel)>,
    path: Seq<char>,
    b1: Seq<char>,
    b2: Seq<char>,
    s2: BranchSettingsModel,
    other: Seq<char>,
)
    requires
        cassoc_unique(ps),
        b1 != b2,
        forall|i: int| 0 <= i < ps.len() ==> cassoc_unique(#[trigger] ps[i].1.branch_settings),
    ensures
        cassoc_get(upsert_project(ps, path, b2, s2), path) is Some,
        cassoc_get(cassoc_get(upsert_project(ps, path, b2, s2), path)->Some_0.branch_settings, b1)
            == (match cassoc_get(ps, path) {
            Some(rp) => cassoc_get(rp.branch_settings, b1),
            None => None,
        }),
        other != path ==> cassoc_get(upsert_project(ps, path, b2, s2), other) == cassoc_get(
            ps,
            other,
        ),
{
    let base = match cassoc_get(ps, path) {
        Some(rp) => rp,
        None => RepoProjectModel { path: path, nonfree: false, branch_settings: Seq::empty() },
    };
    let m1 = RepoProjectModel {
        branch_settings: cassoc_set(base.branch_settings, (b2, s2)),
        ..base
    };
    lemma_cassoc_set_get(ps, (path, m1), path);
    if cassoc_get(ps, path) is Some {
        let rp = cassoc_get(ps, path)->Some_0;
        lemma_cassoc_get_some_unique(ps, path);
        lemma_cassoc_set_get(rp.branch_settings, (b2, s2), b1);
    } else {
        lemma_cassoc_set_get(Seq::<(Seq<char>, BranchSettingsModel)>::empty(), (b2, s2), b1);
        lemma_cassoc_get_none(Seq::<(Seq<char>, BranchSettingsModel)>::empty(), b1);
    }
    if other != path {
        lemma_cassoc_set_get(ps, (path, m1), other);
    }
}

/// A successful lookup in a duplicate-free map names one of its entries.
proof fn lemma_cassoc_get_some_unique(ps: Seq<(Seq<char>, RepoProjectModel)>, path: Seq<char>)
    requires
        cassoc_get(ps, path) is Some,
        forall|i: int| 0 <= i < ps.len() ==> cassoc_unique(#[trigger] ps[i].1.branch_settings),
    ensures
        cassoc_unique((cassoc_get(ps, path)->Some_0).branch_settings),
    decreases ps.len(),
{
    if ps.len() > 0 {
        if ps.last().0 == path {
            assert(ps[ps.len() - 1].1 == ps.last().1);
        } else {
            assert forall|i: int| 0 <= i < ps.drop_last().len() implies cassoc_unique(
                #[trigger] ps.drop_last()[i].1.branch_settings,
            ) by {
                assert(ps.drop_last()[i] == ps[i]);
            }
            lemma_cassoc_get_some_unique(ps.drop_last(), path);
        }
    }
}

// ---------------------------------------------------------------------------
// laws of the flattening
// ---------------------------------------------------------------------------

/// The remotes contributed by the flattened includes, in include order.
pub open spec fn included_remotes(
    incs: Seq<Seq<char>>,
    docs: Seq<(Seq<char>, ManifestModel)>,
    visited: Seq<Seq<char>>,
) -> Seq<RemoteModel>
    decreases incs.len(),
{
    if incs.len() == 0 {
        Seq::empty()
    } else {
        (spec_flatten(docs, incs.first(), visited)->Ok_0).remotes + included_remotes(
            incs.drop_first(),
            docs,
            visited,
        )
    }
}

/// The projects contributed by the flattened includes, in include order.
pub open spec fn included_projects(
    incs: Seq<Seq<char>>,
    docs: Seq<(Seq<char>, ManifestModel)>,
    visited: Seq<Seq<char>>,
) -> Seq<ProjectModel>
    decreases incs.len(),
{
    if incs.len() == 0 {
        Seq::empty()
    } else {
        (spec_flatten(docs, incs.first(), visited)->Ok_0).projects + included_projects(
            incs.drop_first(),
            docs,
            visited,
        )
    }
}

proof fn lemma_flatten_includes_union(
    incs: Seq<Seq<char>>,
    acc: ManifestModel,
    docs: Seq<(Seq<char>, ManifestModel)>,
    visited: Seq<Seq<char>>,
)
    requires
        spec_flatten_includes(incs, acc, docs, visited) is Ok,
    ensures
        (spec_flatten_includes(incs, acc, docs, visited)->Ok_0).remotes == acc.remotes
            + included_remotes(incs, docs, visited),
        (spec_flatten_includes(incs, acc, docs, visited)->Ok_0).projects == acc.projects
            + included_projects(incs, docs, visited),
        (spec_flatten_includes(incs, acc, docs, visited)->Ok_0).includes == (if incs.len() == 0 {
            acc.includes
        } else {
            Seq::<Seq<char>>::empty()
        }),
    decreases incs.len(),
{
    if incs.len() == 0 {
        assert(acc.remotes + Seq::<RemoteModel>::empty() =~= acc.remotes);
        assert(acc.projects + Seq::<ProjectModel>::empty() =~= acc.projects);
    } else {
        let sub = spec_flatten(docs, incs.first(), visited)->Ok_0;
        let d = merge_default(acc.default_remote, sub.default_remote)->Ok_0;
        let acc2 = ManifestModel {
            remotes: acc.remotes + sub.remotes,
            default_remote: d,
            projects: acc.projects + sub.projects,
            includes: Seq::empty(),
        };
        lemma_flatten_includes_union(incs.drop_first(), acc2, docs, visited);
        assert((acc.remotes + sub.remotes) + included_remotes(incs.drop_first(), docs, visited)
            =~= acc.remotes + (sub.remotes + included_remotes(incs.drop_first(), docs, visited)));
        assert((acc.projects + sub.projects) + included_projects(incs.drop_first(), docs, visited)
            =~= acc.projects + (sub.projects + included_projects(
            incs.drop_first(),
            docs,
            visited,
        )));
        if incs.drop_first().len() == 0 {
            assert((spec_flatten_includes(incs, acc, docs, visited)->Ok_0).includes
                == acc2.includes);
        }
    }
}

/// Flattening a document tree is the union over the tree: the flattened
/// image holds exactly the root document's remotes and projects followed by
/// those of every included tree, in include order, with no include left in
/// the result.  (That the flattening terminates on every document table is
/// part of the definition of `spec_flatten`, whose recursion is bounded by
/// the include path.)
pub proof fn lemma_flatten_is_union(
    docs: Seq<(Seq<char>, ManifestModel)>,
    name: Seq<char>,
    visited: Seq<Seq<char>>,
)
    requires
        spec_flatten(docs, name, visited) is Ok,
    ensures
        cassoc_get(docs, name) is Some,
        (spec_flatten(docs, name, visited)->Ok_0).remotes == (cassoc_get(docs, name)->Some_0).remotes
            + included_remotes(
            (cassoc_get(docs, name)->Some_0).includes,
            docs,
            visited.push(name),
        ),
        (spec_flatten(docs, name, visited)->Ok_0).projects == (cassoc_get(
            docs,
            name,
        )->Some_0).projects + included_projects(
            (cassoc_get(docs, name)->Some_0).includes,
            docs,
            visited.push(name),
        ),
        (spec_flatten(docs, name, visited)->Ok_0).includes == Seq::<Seq<char>>::empty(),
{
    let doc = cassoc_get(docs, name)->Some_0;
    let acc = ManifestModel { includes: Seq::empty(), ..doc };
    lemma_flatten_includes_union(doc.includes, acc, docs, visited.push(name));
}

} // verus!

verus! {

/// A tree that flattens successfully holds at most one default-remote
/// declaration: every include of a successful flattening flattens
/// successfully itself; when the accumulated document already declares a
/// default remote, no included tree contributes one; and no two included
/// trees both contribute one.  A second declaration anywhere fails with
/// the duplicate-default hard error instead.
pub proof fn lemma_one_default_per_tree(
    incs: Seq<Seq<char>>,
    acc: ManifestModel,
    docs: Seq<(Seq<char>, ManifestModel)>,
    visited: Seq<Seq<char>>,
)
    requires
        spec_flatten_includes(incs, acc, docs, visited) is Ok,
    ensures
        forall|i: int| 0 <= i < incs.len() ==> (#[trigger] spec_flatten(docs, incs[i], visited))
            is Ok,
        acc.default_remote is Some ==> forall|i: int| 0 <= i < incs.len() ==> ((#[trigger]
        spec_flatten(docs, incs[i], visited))->Ok_0).default_remote is None,
        forall|i: int, j: int| 0 <= i < j < incs.len() ==> !((spec_flatten(
            docs,
            incs[i],
            visited,
        )->Ok_0).default_remote is Some && (spec_flatten(
            docs,
            incs[j],
            visited,
        )->Ok_0).default_remote is Some),
    decreases incs.len(),
{
    if incs.len() == 0 {
    } else {
        let sub = spec_flatten(docs, incs.first(), visited)->Ok_0;
        let d = merge_default(acc.default_remote, sub.default_remote)->Ok_0;
        let acc2 = ManifestModel {
            remotes: acc.remotes + sub.remotes,
            default_remote: d,
            projects: acc.projects + sub.projects,
            includes: Seq::empty(),
        };
        lemma_one_default_per_tree(incs.drop_first(), acc2, docs, visited);
        assert forall|i: int| 0 <= i < incs.len() implies (#[trigger] spec_flatten(
            docs,
            incs[i],
            visited,
        )) is Ok by {
            if i > 0 {
                assert(incs.drop_first()[i - 1] == incs[i]);
            }
        }
        if acc.default_remote is Some {
            assert(sub.default_remote is None);
            assert(acc2.default_remote is Some);
            assert forall|i: int| 0 <= i < incs.len() implies ((#[trigger] spec_flatten(
                docs,
                incs[i],
                visited,
            ))->Ok_0).default_remote is None by {
                if i > 0 {
                    assert(incs.drop_first()[i - 1] == incs[i]);
                }
            }
        }
        assert forall|i: int, j: int| 0 <= i < j < incs.len() implies !((spec_flatten(
            docs,
            incs[i],
            visited,
        )->Ok_0).default_remote is Some && (spec_flatten(
            docs,
            incs[j],
            visited,
        )->Ok_0).default_remote is Some) by {
            if i == 0 {
                if sub.default_remote is Some {
                    assert(acc2.default_remote is Some);
                    assert(incs.drop_first()[j - 1] == incs[j]);
                } else {
                    assert(incs.drop_first()[j - 1] == incs[j]);
                }
            } else {
                assert(incs.drop_first()[i - 1] == incs[i]);
                assert(incs.drop_first()[j - 1] == incs[j]);
            }
        }
    }
}

} // verus!

verus! {

/// The fallback chain of a project's resolved ref, link by link: the
/// project's own revision stands first; with none, the remote's effective
/// default ref; with neither, resolution fails with the missing-ref error.
pub proof fn lemma_git_ref_priority(p: ProjectModel, m: ManifestModel, root: Seq<char>)
    ensures
        p.git_ref is Some && resolve_one(p, m, root) is Ok ==> (resolve_one(
            p,
            m,
            root,
        )->Ok_0).git_ref == p.git_ref->Some_0,
        p.git_ref is None && resolve_one(p, m, root) is Ok ==> exists|rs: RemoteSpecModel|
            cassoc_get(remote_specs_model(m, root), resolved_remote_name(p, m)->Some_0) == Some(rs)
                && rs.default_ref == Some((resolve_one(p, m, root)->Ok_0).git_ref),
        resolved_remote_name(p, m) is Some && cassoc_get(
            remote_specs_model(m, root),
            resolved_remote_name(p, m)->Some_0,
        ) is Some && p.git_ref is None && (cassoc_get(
            remote_specs_model(m, root),
            resolved_remote_name(p, m)->Some_0,
        )->Some_0).default_ref is None ==> resolve_one(p, m, root) == Err::<
            BranchSettingsModel,
            _,
        >(ResolveErrModel::MissingDefaultRef),
{
    if p.git_ref is None && resolve_one(p, m, root) is Ok {
        let rs = cassoc_get(remote_specs_model(m, root), resolved_remote_name(p, m)->Some_0)->Some_0;
        assert(cassoc_get(remote_specs_model(m, root), resolved_remote_name(p, m)->Some_0)
            == Some(rs));
        assert(rs.default_ref == Some((resolve_one(p, m, root)->Ok_0).git_ref));
    }
}

/// The remote name a project resolves against: its own, else the manifest's
/// default remote.
pub open spec fn resolved_remote_name(p: ProjectModel, m: ManifestModel) -> Option<Seq<char>> {
    match p.remote {
        Some(r) => Some(r),
        None => match m.default_remote {
            Some(d) => Some(d.remote),
            None => None,
        },
    }
}

/// The middle links of the chain: a remote's own revision stands above the
/// default element's revision, which applies only to the manifest-wide
/// default remote and only when that remote declares none of its own.
pub proof fn lemma_default_ref_priority(r: RemoteModel, d: DefaultRemoteModel)
    ensures
        d.remote == r.name && r.default_ref is Some ==> remote_ref_model(r, Some(d))
            == r.default_ref,
        d.remote == r.name && r.default_ref is None ==> remote_ref_model(r, Some(d))
            == d.default_ref,
        d.remote != r.name ==> remote_ref_model(r, Some(d)) == r.default_ref,
{
}

} // verus!
