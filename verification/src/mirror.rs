//! Git-mirror synchronization planning: the mirror-root table, the local
//! bare-repository path, and the exact git command sequence for each
//! project/branch pair in either history mode.

use vstd::prelude::*;

use crate::assoc::cassoc_get;
use crate::assoc::kv_views;
use crate::base::BranchSettings;
use crate::base::url_of;
use crate::strutil::chars_to_string;
use crate::strutil::push_char;
use crate::strutil::spec_split;
use crate::strutil::split_str;
use crate::strutil::str_to_chars;
use crate::xml::matches_at;
use crate::xml::views_of;

verus! {

/// Mathematical image of a `GitCommand`.
pub ghost struct GitCommandModel {
    pub args: Seq<Seq<char>>,
    pub cwd: Option<Seq<char>>,
}

/// One git invocation of a synchronization plan: the arguments after `git`,
/// and the working directory when the command runs inside a repository.
#[derive(Debug)]
pub struct GitCommand {
    pub args: Vec<String>,
    pub cwd: Option<String>,
}

impl View for GitCommand {
    type V = GitCommandModel;

    open spec fn view(&self) -> GitCommandModel {
        GitCommandModel {
            args: views_of(self.args@),
            cwd: crate::xml::opt_view(self.cwd),
        }
    }
}

/// The two supported synchronization modes: full history, or depth-limited.
#[derive(Debug, PartialEq, Eq, Structural, Clone, Copy)]
pub enum SyncMode {
    Full,
    Shallow,
}

/// Failure while planning a synchronization.
#[derive(Debug)]
pub enum MirrorError {
    /// The settings' base URL is missing from the mirror-root table.
    MirrorRootMissing(String),
    /// Full-history mode needs a symbolic branch or tag ref for the initial
    /// clone; this ref names neither.
    UnsupportedRevision(String),
}

// ---------------------------------------------------------------------------
// the mirror-root table
// ---------------------------------------------------------------------------

/// The `base=path` pairs of a `|`-separated table, each piece split at its
/// first `=`, the part after the second `=` of a piece discarded.
pub open spec fn mirrors_model(s: Seq<char>) -> Seq<(Seq<char>, Seq<char>)> {
    let pieces = spec_split(s, '|');
    Seq::new(
        pieces.len(),
        |i: int|
            {
                let fields = spec_split(pieces[i], '=');
                (fields[0], if fields.len() >= 2 {
                    fields[1]
                } else {
                    Seq::empty()
                })
            },
    )
}

/// Parses the environment-sourced mirror-root table: `|`-separated
/// `base_url=local_path` pairs.  A piece without `=` is rejected.
pub fn parse_robotnix_git_mirrors_env(robotnix_git_mirrors: &str) -> (r: Vec<(String, String)>)
    requires
        forall|i: int| 0 <= i < spec_split(robotnix_git_mirrors@, '|').len() ==> spec_split(
            #[trigger] spec_split(robotnix_git_mirrors@, '|')[i],
            '=',
        ).len() >= 2,
    ensures
        kv_views(r@) == mirrors_model(robotnix_git_mirrors@),
{
    let ghost target = mirrors_model(robotnix_git_mirrors@);
    let pieces = split_str(robotnix_git_mirrors, '|');
    let mut r: Vec<(String, String)> = Vec::new();
    let mut k: usize = 0;
    while k < pieces.len()
        invariant
            pieces.deep_view() == spec_split(robotnix_git_mirrors@, '|'),
            target == mirrors_model(robotnix_git_mirrors@),
            forall|i: int| 0 <= i < pieces.deep_view().len() ==> spec_split(
                #[trigger] pieces.deep_view()[i],
                '=',
            ).len() >= 2,
            k <= pieces@.len(),
            r@.len() == k,
            forall|i: int| 0 <= i < k ==> kv_views(r@)[i] == target[i],
        decreases pieces@.len() - k,
    {
        let fields = split_str(pieces[k].as_str(), '=');
        proof {
            assert(pieces.deep_view()[k as int] == pieces@[k as int]@);
            assert(fields.deep_view() == spec_split(pieces.deep_view()[k as int], '='));
        }
        let base = fields[0].clone();
        let path = fields[1].clone();
        let ghost pushed = (base, path);
        let ghost prev = r@;
        r.push((base, path));
        proof {
            assert forall|i: int| 0 <= i < k + 1 implies kv_views(r@)[i] == target[i] by {
                if i < k {
                    assert(r@[i] == prev[i]);
                } else {
                    assert(r@[i] == pushed);
                    assert(base@ == fields.deep_view()[0]);
                    assert(path@ == fields.deep_view()[1]);
                }
            }
        }
        k = k + 1;
    }
    proof {
        assert(kv_views(r@) =~= target);
    }
    r
}

/// Looks a repository's base URL up in the mirror-root table; a missing
/// entry is the hard configuration error.
pub fn mirror_root_for<'a>(mirrors: &'a Vec<(String, String)>, base_url: &str) -> (r: Result<
    &'a String,
    MirrorError,
>)
    ensures
        match r {
            Ok(p) => cassoc_get(kv_views(mirrors@), base_url@) == Some(p@),
            Err(MirrorError::MirrorRootMissing(b)) => b@ == base_url@ && cassoc_get(
                kv_views(mirrors@),
                base_url@,
            ) is None,
            Err(_) => false,
        },
{
    match crate::assoc::assoc_lookup(mirrors, base_url) {
        Some(p) => Ok(p),
        None => Err(MirrorError::MirrorRootMissing(base_url.to_owned())),
    }
}

// ---------------------------------------------------------------------------
// path and ref arithmetic
// ---------------------------------------------------------------------------

/// The local bare-repository path: the mirror root, a slash, the repository
/// name, `.git`.
pub open spec fn repo_path_model(root: Seq<char>, name: Seq<char>) -> Seq<char> {
    root + seq!['/'] + name + ".git"@
}

/// Builds the local bare-repository path under a mirror root.
pub fn mirror_repo_path(root: &str, name: &str) -> (r: String)
    ensures
        r@ == repo_path_model(root@, name@),
{
    let mut r = root.to_owned();
    push_char(&mut r, '/');
    let r = r.concat(name).concat(".git");
    proof {
        assert(r@ =~= repo_path_model(root@, name@));
    }
    r
}

/// The symbolic name of a branch or tag ref: what follows `refs/heads/` or
/// `refs/tags/`; any other ref has none.
pub open spec fn symbolic_name_model(git_ref: Seq<char>) -> Option<Seq<char>> {
    if matches_at(git_ref, 0, "refs/heads/"@) {
        Some(git_ref.subrange("refs/heads/"@.len() as int, git_ref.len() as int))
    } else if matches_at(git_ref, 0, "refs/tags/"@) {
        Some(git_ref.subrange("refs/tags/"@.len() as int, git_ref.len() as int))
    } else {
        None
    }
}

/// Extracts the symbolic branch or tag name out of a ref.
pub fn branch_of_ref(git_ref: &str) -> (r: Option<String>)
    ensures
        match r {
            Some(n) => symbolic_name_model(git_ref@) == Some(n@),
            None => symbolic_name_model(git_ref@) is None,
        },
{
    let chars = str_to_chars(git_ref);
    proof {
        reveal_strlit("refs/heads/");
        reveal_strlit("refs/tags/");
    }
    if crate::xml::e_match_at(&chars, 0, "refs/heads/") {
        let plen = "refs/heads/".unicode_len();
        Some(chars_to_string(vstd::slice::slice_subrange(chars.as_slice(), plen, chars.len())))
    } else if crate::xml::e_match_at(&chars, 0, "refs/tags/") {
        let plen = "refs/tags/".unicode_len();
        Some(chars_to_string(vstd::slice::slice_subrange(chars.as_slice(), plen, chars.len())))
    } else {
        None
    }
}

// ---------------------------------------------------------------------------
// plans
// ---------------------------------------------------------------------------

/// Full-history initial clone: bare, single branch, by symbolic name.
pub open spec fn full_clone_model(branch: Seq<char>, url: Seq<char>, path: Seq<char>) -> GitCommandModel {
    GitCommandModel {
        args: seq![
            "clone"@,
            "--bare"@,
            "--single-branch"@,
            "--branch"@,
            branch,
            url,
            path,
        ],
        cwd: None,
    }
}

/// Full-history update: fetch the exact ref; a real branch or tag ref
/// updates the local ref of the same name by itself.
pub open spec fn full_fetch_model(git_ref: Seq<char>, path: Seq<char>) -> GitCommandModel {
    GitCommandModel { args: seq!["fetch"@, "origin"@, git_ref], cwd: Some(path) }
}

/// Shallow initial clone: bare, depth one, pinned to the literal revision.
pub open spec fn shallow_clone_model(git_ref: Seq<char>, url: Seq<char>, path: Seq<char>) -> GitCommandModel {
    GitCommandModel {
        args: seq![
            "clone"@,
            "--bare"@,
            "--single-branch"@,
            "--depth=1"@,
            "--revision"@,
            git_ref,
            url,
            path,
        ],
        cwd: None,
    }
}

/// Shallow update: a depth-limited fetch of the exact revision, landing in
/// the transient fetch-head pointer.
pub open spec fn shallow_fetch_model(git_ref: Seq<char>, path: Seq<char>) -> GitCommandModel {
    GitCommandModel { args: seq!["fetch"@, "--depth=1"@, "origin"@, git_ref], cwd: Some(path) }
}

/// The ref bookkeeping of shallow mode: point the named ref at what was just
/// fetched, since a depth-limited operation creates or moves no named ref on
/// its own.
pub open spec fn update_ref_model(git_ref: Seq<char>, at: Seq<char>, path: Seq<char>) -> GitCommandModel {
    GitCommandModel { args: seq!["update-ref"@, git_ref, at], cwd: Some(path) }
}

/// The commands that synchronize one project/branch pair, given whether the
/// local bare repository already exists and which history mode is wanted.
pub open spec fn sync_plan_model(
    git_ref: Seq<char>,
    url: Seq<char>,
    path: Seq<char>,
    exists: bool,
    mode: SyncMode,
) -> Result<Seq<GitCommandModel>, Seq<char>> {
    match mode {
        SyncMode::Full => match symbolic_name_model(git_ref) {
            None => Err(git_ref),
            Some(branch) => if exists {
                Ok(seq![full_fetch_model(git_ref, path)])
            } else {
                Ok(seq![full_clone_model(branch, url, path)])
            },
        },
        SyncMode::Shallow => if exists {
            Ok(
                seq![
                    shallow_fetch_model(git_ref, path),
                    update_ref_model(git_ref, "FETCH_HEAD"@, path),
                ],
            )
        } else {
            Ok(
                seq![
                    shallow_clone_model(git_ref, url, path),
                    update_ref_model(git_ref, "HEAD"@, path),
                ],
            )
        },
    }
}

fn lit(s: &str) -> (r: String)
    ensures
        r@ == s@,
{
    s.to_owned()
}

/// Plans the synchronization of one project/branch pair: the exact git
/// commands to run, in order.  In full-history mode a ref that names neither
/// a branch nor a tag cannot seed the initial clone and is rejected.
pub fn plan_sync(settings: &BranchSettings, repo_path: &str, repo_exists: bool, mode: SyncMode) -> (r:
    Result<Vec<GitCommand>, MirrorError>)
    ensures
        match r {
            Ok(cmds) => sync_plan_model(
                settings@.git_ref,
                url_of(settings@.repo),
                repo_path@,
                repo_exists,
                mode,
            ) == Ok::<_, Seq<char>>(views_of(cmds@)),
            Err(MirrorError::UnsupportedRevision(g)) => g@ == settings@.git_ref && sync_plan_model(
                settings@.git_ref,
                url_of(settings@.repo),
                repo_path@,
                repo_exists,
                mode,
            ) == Err::<Seq<GitCommandModel>, _>(settings@.git_ref),
            Err(_) => false,
        },
{
    let url = settings.repo.url();
    match mode {
        SyncMode::Full => {
            match branch_of_ref(settings.git_ref.as_str()) {
                None => Err(MirrorError::UnsupportedRevision(settings.git_ref.clone())),
                Some(branch) => {
                    if repo_exists {
                        let mut args: Vec<String> = Vec::new();
                        args.push(lit("fetch"));
                        args.push(lit("origin"));
                        args.push(settings.git_ref.clone());
                        let cmd = GitCommand { args, cwd: Some(repo_path.to_owned()) };
                        let mut cmds: Vec<GitCommand> = Vec::new();
                        proof {
                            assert(cmd@.args =~= full_fetch_model(
                                settings@.git_ref,
                                repo_path@,
                            ).args);
                        }
                        cmds.push(cmd);
                        proof {
                            assert(views_of(cmds@) =~= seq![
                                full_fetch_model(settings@.git_ref, repo_path@),
                            ]);
                        }
                        Ok(cmds)
                    } else {
                        let mut args: Vec<String> = Vec::new();
                        args.push(lit("clone"));
                        args.push(lit("--bare"));
                        args.push(lit("--single-branch"));
                        args.push(lit("--branch"));
                        args.push(branch);
                        args.push(url);
                        args.push(repo_path.to_owned());
                        let cmd = GitCommand { args, cwd: None };
                        let mut cmds: Vec<GitCommand> = Vec::new();
                        proof {
                            assert(cmd@.args =~= full_clone_model(
                                symbolic_name_model(settings@.git_ref)->Some_0,
                                url_of(settings@.repo),
                                repo_path@,
                            ).args);
                        }
                        cmds.push(cmd);
                        proof {
                            assert(views_of(cmds@) =~= seq![
                                full_clone_model(
                                    symbolic_name_model(settings@.git_ref)->Some_0,
                                    url_of(settings@.repo),
                                    repo_path@,
                                ),
                            ]);
                        }
                        Ok(cmds)
                    }
                },
            }
        },
        SyncMode::Shallow => {
            if repo_exists {
                let mut args: Vec<String> = Vec::new();
                args.push(lit("fetch"));
                args.push(lit("--depth=1"));
                args.push(lit("origin"));
                args.push(settings.git_ref.clone());
                let fetch = GitCommand { args, cwd: Some(repo_path.to_owned()) };
                let mut args2: Vec<String> = Vec::new();
                args2.push(lit("update-ref"));
                args2.push(settings.git_ref.clone());
                args2.push(lit("FETCH_HEAD"));
                let upd = GitCommand { args: args2, cwd: Some(repo_path.to_owned()) };
                proof {
                    assert(fetch@.args =~= shallow_fetch_model(settings@.git_ref, repo_path@).args);
                    assert(upd@.args =~= update_ref_model(
                        settings@.git_ref,
                        "FETCH_HEAD"@,
                        repo_path@,
                    ).args);
                }
                let mut cmds: Vec<GitCommand> = Vec::new();
                cmds.push(fetch);
                cmds.push(upd);
                proof {
                    assert(views_of(cmds@) =~= seq![
                        shallow_fetch_model(settings@.git_ref, repo_path@),
                        update_ref_model(settings@.git_ref, "FETCH_HEAD"@, repo_path@),
                    ]);
                }
                Ok(cmds)
            } else {
                let mut args: Vec<String> = Vec::new();
                args.push(lit("clone"));
                args.push(lit("--bare"));
                args.push(lit("--single-branch"));
                args.push(lit("--depth=1"));
                args.push(lit("--revision"));
                args.push(settings.git_ref.clone());
                args.push(url);
                args.push(repo_path.to_owned());
                let clone = GitCommand { args, cwd: None };
                let mut args2: Vec<String> = Vec::new();
                args2.push(lit("update-ref"));
                args2.push(settings.git_ref.clone());
                args2.push(lit("HEAD"));
                let upd = GitCommand { args: args2, cwd: Some(repo_path.to_owned()) };
                proof {
                    assert(clone@.args =~= shallow_clone_model(
                        settings@.git_ref,
                        url_of(settings@.repo),
                        repo_path@,
                    ).args);
                    assert(upd@.args =~= update_ref_model(
                        settings@.git_ref,
                        "HEAD"@,
                        repo_path@,
                    ).args);
                }
                let mut cmds: Vec<GitCommand> = Vec::new();
                cmds.push(clone);
                cmds.push(upd);
                proof {
                    assert(views_of(cmds@) =~= seq![
                        shallow_clone_model(settings@.git_ref, url_of(settings@.repo), repo_path@),
                        update_ref_model(settings@.git_ref, "HEAD"@, repo_path@),
                    ]);
                }
                Ok(cmds)
            }
        },
    }
}

} // verus!
