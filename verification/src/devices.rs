//! Device-metadata cross-referencing: the build-target registry, the mirror
//! manifest's device repositories, live branch matching with the naming
//! quirk, and the per-device descriptors.

use vstd::prelude::*;

use crate::assoc::assoc_lookup;
use crate::assoc::kv_views;
use crate::base::GitRepoRef;
use crate::base::GitRepoRefModel;
use crate::manifest::ReadManifestError;
use crate::manifest::lex_le;
use crate::strutil::chars_to_string;
use crate::strutil::push_char;
use crate::strutil::spec_split;
use crate::strutil::split_chars;
use crate::strutil::split_str;
use crate::strutil::str_eq;
use crate::strutil::str_to_chars;
use crate::xml::Manifest;
use crate::xml::ProjectModel;
use crate::xml::find_char;
use crate::xml::matches_at;
use crate::xml::views_of;

verus! {

// ---------------------------------------------------------------------------
// registry records and errors
// ---------------------------------------------------------------------------

/// Mathematical image of a `HudsonDeviceInfo`.
pub ghost struct HudsonDeviceInfoModel {
    pub build_type: Seq<char>,
    pub branch: Seq<char>,
    pub period: Seq<char>,
}

/// One build-target registry record: a device's default build type, branch
/// and period.
#[derive(Debug)]
pub struct HudsonDeviceInfo {
    pub build_type: String,
    pub branch: String,
    pub period: String,
}

impl View for HudsonDeviceInfo {
    type V = HudsonDeviceInfoModel;

    open spec fn view(&self) -> HudsonDeviceInfoModel {
        HudsonDeviceInfoModel {
            build_type: self.build_type@,
            branch: self.branch@,
            period: self.period@,
        }
    }
}

/// Failure while fetching or parsing the build-target registry.
#[derive(Debug)]
pub enum FetchHudsonDevicesError {
    /// Fetching the registry repository failed (raised by the caller).
    Fetch(String),
    /// Reading the registry file failed (raised by the caller).
    IO(String),
    /// A registry line is neither blank, a comment, nor a four-field record.
    ParseLine(String),
    /// The registry file is not valid UTF-8 (raised by the caller).
    Utf8(String),
}

/// Failure while obtaining the device repository list.
#[derive(Debug)]
pub enum GetDeviceReposError {
    /// Fetching the mirror manifest repository failed (raised by the caller).
    Fetch(String),
    /// Reading the mirror manifest failed.
    ReadMirrorManifest(ReadManifestError),
}

/// Failure while enumerating a repository's live branches.
#[derive(Debug)]
pub enum GitLsRemoteError {
    /// The enumerating subprocess could not be spawned (raised by the caller).
    ProcessSpawn(String),
    /// The enumerating subprocess failed (raised by the caller); carries the
    /// exit code, when there is one, and the captured diagnostic output.
    NonzeroExitStatus(Option<i32>, String),
    /// The enumeration output is not valid UTF-8 (raised by the caller).
    Utf8(String),
    /// An enumeration output line has no ref-name field.
    Parse(String),
}

/// Failure while building the device map.
#[derive(Debug)]
pub enum GetDevicesError {
    Hudson(FetchHudsonDevicesError),
    RepoList(GetDeviceReposError),
    RepoBranches(GitLsRemoteError),
    /// No vendor candidate of this device carries its default branch.
    DeviceRepoNotFound(String),
    /// Two vendor candidates of this device both carry its default branch.
    DuplicateDeviceRepo(String),
    /// The constructed repository URL does not parse as an absolute URL.
    Url(String),
}

/// Mathematical image of the errors the device resolution itself raises.
pub ghost enum DevErrModel {
    ParseLine(Seq<char>),
    LsRemoteParse(Seq<char>),
    DeviceRepoNotFound(Seq<char>),
    DuplicateDeviceRepo(Seq<char>),
    Url(Seq<char>),
}

// ---------------------------------------------------------------------------
// registry parsing
// ---------------------------------------------------------------------------

/// A whitespace character as the registry's line trimming understands it:
/// the Unicode white-space class.
pub open spec fn is_space_char(c: char) -> bool {
    (9 <= c as u32 && c as u32 <= 13) || c as u32 == 32 || c as u32 == 0x85 || c as u32 == 0xA0
        || c as u32 == 0x1680 || (0x2000 <= c as u32 && c as u32 <= 0x200A) || c as u32 == 0x2028
        || c as u32 == 0x2029 || c as u32 == 0x202F || c as u32 == 0x205F || c as u32 == 0x3000
}

fn e_is_space_char(c: char) -> (b: bool)
    ensures
        b == is_space_char(c),
{
    let u = c as u32;
    (9 <= u && u <= 13) || u == 32 || u == 0x85 || u == 0xA0 || u == 0x1680 || (0x2000 <= u && u
        <= 0x200A) || u == 0x2028 || u == 0x2029 || u == 0x202F || u == 0x205F || u == 0x3000
}

/// The first position at or after `i` whose character is not whitespace.
pub open spec fn space_end(s: Seq<char>, i: int) -> int
    decreases s.len() - i,
{
    if 0 <= i < s.len() && is_space_char(s[i]) {
        space_end(s, i + 1)
    } else {
        i
    }
}

/// `s` without leading and trailing whitespace characters.
pub open spec fn spec_trim(s: Seq<char>) -> Seq<char> {
    let a = space_end(s, 0);
    let b = trim_end(s, s.len() as int);
    if a < b {
        s.subrange(a, b)
    } else {
        Seq::empty()
    }
}

/// The end of `s` with trailing whitespace dropped: the least upper bound of
/// the non-whitespace prefix ending at or before `b`.
pub open spec fn trim_end(s: Seq<char>, b: int) -> int
    decreases b,
{
    if 0 < b <= s.len() && is_space_char(s[b - 1]) {
        trim_end(s, b - 1)
    } else {
        b
    }
}

fn e_trim(s: &Vec<char>) -> (r: Vec<char>)
    ensures
        r@ == spec_trim(s@),
{
    let n = s.len();
    let mut a: usize = 0;
    while a < n && e_is_space_char(s[a])
        invariant
            n == s@.len(),
            a <= n,
            space_end(s@, 0) == space_end(s@, a as int),
        decreases n - a,
    {
        a = a + 1;
    }
    proof {
        assert(a as int == space_end(s@, 0));
    }
    let mut b: usize = n;
    while b > a && e_is_space_char(s[b - 1])
        invariant
            n == s@.len(),
            a <= b <= n,
            a < n ==> !is_space_char(s@[a as int]),
            a < n ==> b > a,
            trim_end(s@, n as int) == trim_end(s@, b as int),
        decreases b,
    {
        b = b - 1;
    }
    if a < b {
        proof {
            assert(!is_space_char(s@[b - 1]));
            assert(trim_end(s@, b as int) == b as int);
        }
        crate::xml::e_subrange(s, a, b)
    } else {
        proof {
            assert(a == n && b == n);
            lemma_trim_bounds(s@, n as int);
        }
        let r: Vec<char> = Vec::new();
        proof {
            assert(r@ =~= Seq::<char>::empty());
        }
        r
    }
}

/// The trimmed end never exceeds the given bound.
proof fn lemma_trim_bounds(s: Seq<char>, b: int)
    ensures
        trim_end(s, b) <= b,
    decreases b,
{
    if 0 < b <= s.len() && is_space_char(s[b - 1]) {
        lemma_trim_bounds(s, b - 1);
    }
}

} // verus!

verus! {

// ---------------------------------------------------------------------------
// sorted maps in registry order
// ---------------------------------------------------------------------------

/// Insertion into a name-sorted table: an equal key is overwritten in place,
/// a new key takes its ordered position.
pub open spec fn sorted_put<M>(s: Seq<(Seq<char>, M)>, kv: (Seq<char>, M)) -> Seq<(Seq<char>, M)>
    decreases s.len(),
{
    if s.len() == 0 {
        seq![kv]
    } else if s.first().0 == kv.0 {
        seq![kv] + s.drop_first()
    } else if lex_le(kv.0, s.first().0) {
        seq![kv] + s
    } else {
        seq![s.first()] + sorted_put(s.drop_first(), kv)
    }
}

proof fn lemma_sorted_put_at<M>(s: Seq<(Seq<char>, M)>, kv: (Seq<char>, M), i: int)
    requires
        0 <= i < s.len(),
        s[i].0 == kv.0,
        forall|j: int| 0 <= j < i ==> s[j].0 != kv.0 && !lex_le(kv.0, s[j].0),
    ensures
        sorted_put(s, kv) == s.update(i, kv),
    decreases s.len(),
{
    if i == 0 {
        assert(sorted_put(s, kv) =~= s.update(0, kv));
    } else {
        lemma_sorted_put_at(s.drop_first(), kv, i - 1);
        assert(s.drop_first().update(i - 1, kv) =~= s.update(i, kv).drop_first());
        assert(sorted_put(s, kv) =~= s.update(i, kv));
    }
}

proof fn lemma_sorted_put_ins<M>(s: Seq<(Seq<char>, M)>, kv: (Seq<char>, M), i: int)
    requires
        0 <= i < s.len(),
        s[i].0 != kv.0,
        lex_le(kv.0, s[i].0),
        forall|j: int| 0 <= j < i ==> s[j].0 != kv.0 && !lex_le(kv.0, s[j].0),
    ensures
        sorted_put(s, kv) == s.insert(i, kv),
    decreases s.len(),
{
    if i == 0 {
        assert(sorted_put(s, kv) =~= s.insert(0, kv));
    } else {
        lemma_sorted_put_ins(s.drop_first(), kv, i - 1);
        assert(s.drop_first().insert(i - 1, kv) =~= s.insert(i, kv).drop_first());
        assert(sorted_put(s, kv) =~= s.insert(i, kv));
    }
}

proof fn lemma_sorted_put_end<M>(s: Seq<(Seq<char>, M)>, kv: (Seq<char>, M))
    requires
        forall|j: int| 0 <= j < s.len() ==> s[j].0 != kv.0 && !lex_le(kv.0, s[j].0),
    ensures
        sorted_put(s, kv) == s.push(kv),
    decreases s.len(),
{
    if s.len() == 0 {
        assert(sorted_put(s, kv) =~= s.push(kv));
    } else {
        lemma_sorted_put_end(s.drop_first(), kv);
        assert(sorted_put(s, kv) =~= s.push(kv));
    }
}

/// Stores `val` under `key` in a name-sorted table.
pub fn assoc_sorted_put<V: View>(v: &mut Vec<(String, V)>, key: String, val: V)
    ensures
        kv_views(final(v)@) == sorted_put(kv_views(old(v)@), (key@, val@)),
{
    let ghost kv = (key@, val@);
    let ghost dv = kv_views(v@);
    let mut i: usize = 0;
    while i < v.len()
        invariant
            v@ == old(v)@,
            dv == kv_views(v@),
            kv == (key@, val@),
            i <= v@.len(),
            forall|j: int| 0 <= j < i ==> kv_views(v@)[j].0 != key@ && !lex_le(
                key@,
                kv_views(v@)[j].0,
            ),
        decreases v@.len() - i,
    {
        if str_eq(v[i].0.as_str(), key.as_str()) {
            v.set(i, (key, val));
            proof {
                lemma_sorted_put_at(dv, kv, i as int);
                assert(kv_views(v@) =~= dv.update(i as int, kv));
            }
            return;
        }
        if crate::manifest::str_le(key.as_str(), v[i].0.as_str()) {
            let ghost mid = v@;
            v.insert(i, (key, val));
            proof {
                lemma_sorted_put_ins(dv, kv, i as int);
                assert forall|j: int| 0 <= j < kv_views(v@).len() implies kv_views(v@)[j]
                    == dv.insert(i as int, kv)[j] by {
                    if j < i {
                        assert(v@[j] == mid[j]);
                    } else if j == i {
                        assert(v@[j] == mid.insert(i as int, (key, val))[j]);
                    } else {
                        assert(v@[j] == mid[j - 1]);
                    }
                }
                assert(kv_views(v@) =~= dv.insert(i as int, kv));
            }
            return;
        }
        i = i + 1;
    }
    v.push((key, val));
    proof {
        lemma_sorted_put_end(dv, kv);
        assert(kv_views(v@) =~= dv.push(kv));
    }
}

// ---------------------------------------------------------------------------
// the registry
// ---------------------------------------------------------------------------

/// Folds the registry lines into a name-sorted table: blank and `#` lines
/// are skipped, a four-field line is a record, anything else is an error.
pub open spec fn registry_fold(
    lines: Seq<Seq<char>>,
    acc: Seq<(Seq<char>, HudsonDeviceInfoModel)>,
) -> Result<Seq<(Seq<char>, HudsonDeviceInfoModel)>, DevErrModel>
    decreases lines.len(),
{
    if lines.len() == 0 {
        Ok(acc)
    } else {
        let t = spec_trim(lines.first());
        if t.len() == 0 || t[0] == '#' {
            registry_fold(lines.drop_first(), acc)
        } else {
            let fields = spec_split(t, ' ');
            if fields.len() == 4 {
                registry_fold(
                    lines.drop_first(),
                    sorted_put(
                        acc,
                        (
                            fields[0],
                            HudsonDeviceInfoModel {
                                build_type: fields[1],
                                branch: fields[2],
                                period: fields[3],
                            },
                        ),
                    ),
                )
            } else {
                Err(DevErrModel::ParseLine(t))
            }
        }
    }
}

/// The registry as a name-sorted table of records.
pub open spec fn registry_model(text: Seq<char>) -> Result<
    Seq<(Seq<char>, HudsonDeviceInfoModel)>,
    DevErrModel,
> {
    registry_fold(spec_split(text, '\n'), Seq::empty())
}

/// Parses the build-target registry: one `name build_type branch period`
/// record per line, blank lines and `#` comments skipped, the records sorted
/// by device name with a later record overriding an earlier one.
pub fn parse_hudson_registry(text: &str) -> (r: Result<
    Vec<(String, HudsonDeviceInfo)>,
    FetchHudsonDevicesError,
>)
    ensures
        match r {
            Ok(v) => registry_model(text@) == Ok::<_, DevErrModel>(kv_views(v@)),
            Err(FetchHudsonDevicesError::ParseLine(l)) => registry_model(text@) == Err::<
                Seq<(Seq<char>, HudsonDeviceInfoModel)>,
                _,
            >(DevErrModel::ParseLine(l@)),
            Err(_) => false,
        },
{
    let lines = split_str(text, '\n');
    let ghost lv = lines.deep_view();
    let mut acc: Vec<(String, HudsonDeviceInfo)> = Vec::new();
    let mut k: usize = 0;
    proof {
        assert(kv_views(acc@) =~= Seq::<(Seq<char>, HudsonDeviceInfoModel)>::empty());
        assert(lv.skip(0) =~= lv);
    }
    while k < lines.len()
        invariant
            lv == lines.deep_view(),
            k <= lines@.len(),
            registry_model(text@) == registry_fold(lv.skip(k as int), kv_views(acc@)),
        decreases lines@.len() - k,
    {
        proof {
            assert(lv.skip(k as int).first() == lines@[k as int]@);
            assert(lv.skip(k as int).drop_first() =~= lv.skip(k + 1));
        }
        let line_chars = str_to_chars(lines[k].as_str());
        let t = e_trim(&line_chars);
        if t.len() == 0 || t[0] == '#' {
            k = k + 1;
            continue;
        }
        let fields = split_chars(&t, ' ');
        if fields.len() == 4 {
            let name = fields[0].clone();
            let info = HudsonDeviceInfo {
                build_type: fields[1].clone(),
                branch: fields[2].clone(),
                period: fields[3].clone(),
            };
            proof {
                assert(name@ == fields.deep_view()[0]);
                assert(info@ == (HudsonDeviceInfoModel {
                    build_type: fields.deep_view()[1],
                    branch: fields.deep_view()[2],
                    period: fields.deep_view()[3],
                }));
            }
            assoc_sorted_put(&mut acc, name, info);
            k = k + 1;
        } else {
            return Err(FetchHudsonDevicesError::ParseLine(chars_to_string(t.as_slice())));
        }
    }
    proof {
        assert(lv.skip(lines@.len() as int).len() == 0);
    }
    Ok(acc)
}

// ---------------------------------------------------------------------------
// device repositories and live branches
// ---------------------------------------------------------------------------

/// The `(vendor, device)` encoded in a mirror project name following the
/// `LineageOS/android_device_<vendor>_<device>` convention, the vendor ending
/// at the first underscore of the suffix.
pub open spec fn device_repo_of(name: Seq<char>) -> Option<(Seq<char>, Seq<char>)> {
    let p = "LineageOS/android_device_"@;
    if matches_at(name, 0, p) {
        match find_char(name, p.len() as int, '_') {
            Some(j) => if p.len() <= j < name.len() {
                Some((name.subrange(p.len() as int, j), name.subrange(j + 1, name.len() as int)))
            } else {
                None
            },
            None => None,
        }
    } else {
        None
    }
}

/// The `(vendor, device)` pairs of the mirror manifest's projects, in the
/// order the manifest lists them.
pub open spec fn device_repos_fold(projects: Seq<ProjectModel>) -> Seq<(Seq<char>, Seq<char>)>
    decreases projects.len(),
{
    if projects.len() == 0 {
        Seq::empty()
    } else {
        device_repos_fold(projects.drop_last()) + (match device_repo_of(
            projects.last().repo_name,
        ) {
            Some(vd) => seq![vd],
            None => Seq::empty(),
        })
    }
}

/// Extracts the `(vendor, device)` pairs from the mirror manifest, keeping
/// the manifest's project order.
pub fn get_device_repos_from_manifest(m: &Manifest) -> (r: Vec<(String, String)>)
    ensures
        r.deep_view() == device_repos_fold(m@.projects),
{
    let mut r: Vec<(String, String)> = Vec::new();
    let mut k: usize = 0;
    proof {
        reveal_strlit("LineageOS/android_device_");
        assert(r.deep_view() =~= Seq::<(Seq<char>, Seq<char>)>::empty());
        assert(device_repos_fold(m@.projects.subrange(0, 0)) =~= Seq::<
            (Seq<char>, Seq<char>),
        >::empty());
    }
    while k < m.projects.len()
        invariant
            k <= m.projects@.len(),
            r.deep_view() == device_repos_fold(m@.projects.subrange(0, k as int)),
        decreases m.projects@.len() - k,
    {
        proof {
            reveal_strlit("LineageOS/android_device_");
            assert(m@.projects.subrange(0, k + 1).drop_last() =~= m@.projects.subrange(
                0,
                k as int,
            ));
            assert(m@.projects.subrange(0, k + 1).last() == m@.projects[k as int]);
            assert(m@.projects[k as int] == m.projects@[k as int]@);
        }
        let chars = str_to_chars(m.projects[k].repo_name.as_str());
        let nch = chars.len();
        proof {
            assert(nch == chars@.len());
        }
        let plen = "LineageOS/android_device_".unicode_len();
        if crate::xml::e_match_at(&chars, 0, "LineageOS/android_device_") {
            match crate::xml::e_find_char(&chars, plen, '_') {
                Some(j) => {
                    let vendor = chars_to_string(
                        vstd::slice::slice_subrange(chars.as_slice(), plen, j),
                    );
                    let device = chars_to_string(
                        vstd::slice::slice_subrange(chars.as_slice(), j + 1, chars.len()),
                    );
                    let ghost rprev = r.deep_view();
                    let ghost pushed = (vendor, device);
                    r.push((vendor, device));
                    proof {
                        assert forall|x: int| 0 <= x < r.deep_view().len() implies r.deep_view()[x]
                            == (rprev + seq![(pushed.0@, pushed.1@)])[x] by {
                            if x < rprev.len() {
                                assert(r@[x] == r@.subrange(0, r@.len() - 1)[x]);
                            } else {
                                assert(r@[x] == pushed);
                            }
                        }
                        assert(r.deep_view() =~= rprev + seq![(pushed.0@, pushed.1@)]);
                    }
                },
                None => {
                    proof {
                        assert(r.deep_view() =~= r.deep_view() + Seq::<
                            (Seq<char>, Seq<char>),
                        >::empty());
                    }
                },
            }
        } else {
            proof {
                assert(r.deep_view() =~= r.deep_view() + Seq::<(Seq<char>, Seq<char>)>::empty());
            }
        }
        k = k + 1;
    }
    proof {
        assert(m@.projects.subrange(0, m.projects@.len() as int) =~= m@.projects);
    }
    r
}

/// One line of the branch enumeration output: empty lines carry nothing, a
/// line without a ref-name field is an error, and a ref name is kept exactly
/// when it is a branch whose name carries the naming-convention prefix.
pub open spec fn ls_line_model(line: Seq<char>) -> Result<Option<Seq<char>>, DevErrModel> {
    if line.len() == 0 {
        Ok(None)
    } else {
        let fields = spec_split(line, '\t');
        if fields.len() < 2 {
            Err(DevErrModel::LsRemoteParse(line))
        } else {
            let refname = fields[1];
            let p = "refs/heads/"@;
            if matches_at(refname, 0, p) {
                let name = refname.subrange(p.len() as int, refname.len() as int);
                if matches_at(name, 0, "lineage-"@) {
                    Ok(Some(name))
                } else {
                    Ok(None)
                }
            } else {
                Ok(None)
            }
        }
    }
}

/// The branch names of the enumeration output, in output order.
pub open spec fn ls_remote_fold(lines: Seq<Seq<char>>) -> Result<Seq<Seq<char>>, DevErrModel>
    decreases lines.len(),
{
    if lines.len() == 0 {
        Ok(Seq::empty())
    } else {
        match ls_line_model(lines.first()) {
            Err(e) => Err(e),
            Ok(opt) => match ls_remote_fold(lines.drop_first()) {
                Err(e) => Err(e),
                Ok(rest) => Ok(
                    (match opt {
                        Some(n) => seq![n] + rest,
                        None => rest,
                    }),
                ),
            },
        }
    }
}

/// The convention-prefixed branch names in a `git ls-remote` output.
pub open spec fn ls_remote_model(text: Seq<char>) -> Result<Seq<Seq<char>>, DevErrModel> {
    ls_remote_fold(spec_split(text, '\n'))
}

/// Parses a branch enumeration output into the branch names that follow the
/// naming convention.
pub fn parse_ls_remote_output(text: &str) -> (r: Result<Vec<String>, GitLsRemoteError>)
    ensures
        match r {
            Ok(v) => ls_remote_model(text@) == Ok::<_, DevErrModel>(views_of(v@)),
            Err(GitLsRemoteError::Parse(l)) => ls_remote_model(text@) == Err::<
                Seq<Seq<char>>,
                _,
            >(DevErrModel::LsRemoteParse(l@)),
            Err(_) => false,
        },
{
    let lines = split_str(text, '\n');
    let r = e_ls_remote_lines(&lines, 0);
    proof {
        assert(lines.deep_view().skip(0) =~= lines.deep_view());
    }
    r
}

fn e_ls_remote_lines(lines: &Vec<String>, k: usize) -> (r: Result<Vec<String>, GitLsRemoteError>)
    requires
        k <= lines@.len(),
    ensures
        match r {
            Ok(v) => ls_remote_fold(lines.deep_view().skip(k as int)) == Ok::<_, DevErrModel>(
                views_of(v@),
            ),
            Err(GitLsRemoteError::Parse(l)) => ls_remote_fold(lines.deep_view().skip(k as int))
                == Err::<Seq<Seq<char>>, _>(DevErrModel::LsRemoteParse(l@)),
            Err(_) => false,
        },
    decreases lines@.len() - k,
{
    if k >= lines.len() {
        let v: Vec<String> = Vec::new();
        proof {
            assert(lines.deep_view().skip(k as int).len() == 0);
            assert(views_of(v@) =~= Seq::<Seq<char>>::empty());
        }
        return Ok(v);
    }
    proof {
        assert(lines.deep_view().skip(k as int).first() == lines@[k as int]@);
        assert(lines.deep_view().skip(k as int).drop_first() =~= lines.deep_view().skip(k + 1));
        reveal_strlit("refs/heads/");
        reveal_strlit("lineage-");
    }
    let line = lines[k].as_str();
    let n = line.unicode_len();
    let mut kept: Option<String> = None;
    if n > 0 {
        let fields = split_chars(&str_to_chars(line), '\t');
        if fields.len() < 2 {
            return Err(GitLsRemoteError::Parse(line.to_owned()));
        }
        let refname = str_to_chars(fields[1].as_str());
        let plen = "refs/heads/".unicode_len();
        if crate::xml::e_match_at(&refname, 0, "refs/heads/") {
            let name = crate::xml::e_subrange(&refname, plen, refname.len());
            if crate::xml::e_match_at(&name, 0, "lineage-") {
                kept = Some(chars_to_string(name.as_slice()));
            }
        }
    }
    match e_ls_remote_lines(lines, k + 1) {
        Ok(rest) => {
            match kept {
                Some(nm) => {
                    let ghost restv = views_of(rest@);
                    let mut out = rest;
                    out.insert(0, nm);
                    proof {
                        assert forall|x: int| 0 <= x < views_of(out@).len() implies views_of(
                            out@,
                        )[x] == (seq![nm@] + restv)[x] by {
                        }
                        assert(views_of(out@) =~= seq![nm@] + restv);
                    }
                    Ok(out)
                },
                None => Ok(rest),
            }
        },
        Err(e) => Err(e),
    }
}

/// The historical naming quirk: the registry's label for one release line
/// differs from the live repositories' label; every other label passes
/// through unchanged.
pub open spec fn quirk_model(b: Seq<char>) -> Seq<char> {
    if b == "lineage-21.0"@ {
        "lineage-21"@
    } else {
        b
    }
}

/// Maps a registry branch label to the label live repositories use.
pub fn hudson_to_device_repo_branch(branch: &str) -> (r: String)
    ensures
        r@ == quirk_model(branch@),
{
    if str_eq(branch, "lineage-21.0") {
        "lineage-21".to_owned()
    } else {
        branch.to_owned()
    }
}

} // verus!

verus! {

// ---------------------------------------------------------------------------
// device descriptors
// ---------------------------------------------------------------------------

/// Mathematical image of a `DeviceInfo`.
pub ghost struct DeviceInfoModel {
    pub name: Seq<char>,
    pub vendor: Seq<char>,
    pub build_type: Seq<char>,
    /// Entries `(live branch, pinned ref)` sorted by branch label.
    pub branches: Seq<(Seq<char>, GitRepoRefModel)>,
    pub default_branch: Seq<char>,
    pub period: Seq<char>,
}

/// One validated per-device descriptor: the vendor whose repository carries
/// the device's default branch, and a pinned ref for every live branch.
#[derive(Debug)]
pub struct DeviceInfo {
    pub name: String,
    pub vendor: String,
    pub build_type: String,
    pub branches: Vec<(String, GitRepoRef)>,
    pub default_branch: String,
    pub period: String,
}

impl View for DeviceInfo {
    type V = DeviceInfoModel;

    open spec fn view(&self) -> DeviceInfoModel {
        DeviceInfoModel {
            name: self.name@,
            vendor: self.vendor@,
            build_type: self.build_type@,
            branches: kv_views(self.branches@),
            default_branch: self.default_branch@,
            period: self.period@,
        }
    }
}

/// Whether a string parses as an absolute URL.
pub uninterp spec fn url_ok(s: Seq<char>) -> bool;

/// Relies on `url::Url::parse`: whether a string parses as an absolute URL
/// depends on its characters alone.
#[verifier::external_body]
fn parse_url_ok(s: &str) -> (r: bool)
    ensures
        r == url_ok(s@),
{
    url::Url::parse(s).is_ok()
}

/// The mirror project name of a device repository.
pub open spec fn device_repo_name_model(vendor: Seq<char>, device: Seq<char>) -> Seq<char> {
    "LineageOS/android_device_"@ + vendor + seq!['_'] + device
}

/// The clone URL of a device repository.
pub open spec fn device_repo_url_model(vendor: Seq<char>, device: Seq<char>) -> Seq<char> {
    "https://github.com/LineageOS/android_device_"@ + vendor + seq!['_'] + device
}

/// Builds the mirror project name of a device repository.
pub fn device_repo_name(vendor: &str, device: &str) -> (r: String)
    ensures
        r@ == device_repo_name_model(vendor@, device@),
{
    let mut r = "LineageOS/android_device_".to_owned().concat(vendor);
    push_char(&mut r, '_');
    let r = r.concat(device);
    proof {
        assert(r@ =~= device_repo_name_model(vendor@, device@));
    }
    r
}

/// Builds the clone URL of a device repository.
pub fn device_repo_url(vendor: &str, device: &str) -> (r: String)
    ensures
        r@ == device_repo_url_model(vendor@, device@),
{
    let mut r = "https://github.com/LineageOS/android_device_".to_owned().concat(vendor);
    push_char(&mut r, '_');
    let r = r.concat(device);
    proof {
        assert(r@ =~= device_repo_url_model(vendor@, device@));
    }
    r
}

fn contains_name(v: &Vec<String>, name: &str) -> (b: bool)
    ensures
        b == views_of(v@).contains(name@),
{
    let mut k: usize = 0;
    while k < v.len()
        invariant
            k <= v@.len(),
            forall|j: int| 0 <= j < k ==> views_of(v@)[j] != name@,
        decreases v@.len() - k,
    {
        if str_eq(v[k].as_str(), name) {
            proof {
                assert(views_of(v@)[k as int] == name@);
            }
            return true;
        }
        k = k + 1;
    }
    proof {
        assert(!views_of(v@).contains(name@));
    }
    false
}

/// The vendors whose mirror project matches the device, in discovery order.
pub open spec fn possible_vendors_model(
    repos: Seq<(Seq<char>, Seq<char>)>,
    device: Seq<char>,
) -> Seq<Seq<char>>
    decreases repos.len(),
{
    if repos.len() == 0 {
        Seq::empty()
    } else {
        possible_vendors_model(repos.drop_last(), device) + (if repos.last().1 == device {
            seq![repos.last().0]
        } else {
            Seq::empty()
        })
    }
}

/// Collects the vendor candidates of a device, preserving the order the
/// mirror manifest listed them.
pub fn possible_vendors(repos: &Vec<(String, String)>, device: &str) -> (r: Vec<String>)
    ensures
        views_of(r@) == possible_vendors_model(repos.deep_view(), device@),
{
    let ghost rv = repos.deep_view();
    let mut r: Vec<String> = Vec::new();
    let mut k: usize = 0;
    proof {
        assert(views_of(r@) =~= possible_vendors_model(rv.subrange(0, 0), device@));
    }
    while k < repos.len()
        invariant
            rv == repos.deep_view(),
            k <= repos@.len(),
            views_of(r@) == possible_vendors_model(rv.subrange(0, k as int), device@),
        decreases repos@.len() - k,
    {
        proof {
            assert(rv.subrange(0, k + 1).drop_last() =~= rv.subrange(0, k as int));
            assert(rv.subrange(0, k + 1).last() == rv[k as int]);
            assert(rv[k as int] == (repos@[k as int].0@, repos@[k as int].1@));
        }
        if str_eq(repos[k].1.as_str(), device) {
            let ghost prev = views_of(r@);
            let vendor = repos[k].0.clone();
            let ghost vv = vendor@;
            r.push(vendor);
            proof {
                assert forall|x: int| 0 <= x < views_of(r@).len() implies views_of(r@)[x] == (prev
                    + seq![vv])[x] by {
                    if x < prev.len() {
                        assert(r@[x] == r@.subrange(0, r@.len() - 1)[x]);
                    }
                }
                assert(views_of(r@) =~= prev + seq![vv]);
            }
        } else {
            proof {
                assert(views_of(r@) =~= views_of(r@) + Seq::<Seq<char>>::empty());
            }
        }
        k = k + 1;
    }
    proof {
        assert(rv.subrange(0, repos@.len() as int) =~= rv);
    }
    r
}

/// Whether the allow-list (when given) holds the name and the block-list
/// (when given) does not.
pub open spec fn filter_allows_model(
    allow: Option<Seq<Seq<char>>>,
    block: Option<Seq<Seq<char>>>,
    name: Seq<char>,
) -> bool {
    (match allow {
        Some(a) => a.contains(name),
        None => true,
    }) && (match block {
        Some(b) => !b.contains(name),
        None => true,
    })
}

/// Applies the optional allow-list and block-list filters to a device name.
pub fn device_filter_allows(
    allow: &Option<Vec<String>>,
    block: &Option<Vec<String>>,
    name: &str,
) -> (r: bool)
    ensures
        r == filter_allows_model(
            match *allow {
                Some(ref a) => Some(views_of(a@)),
                None => None,
            },
            match *block {
                Some(ref b) => Some(views_of(b@)),
                None => None,
            },
            name@,
        ),
{
    let allowed = match allow {
        Some(a) => contains_name(a, name),
        None => true,
    };
    let blocked = match block {
        Some(b) => contains_name(b, name),
        None => false,
    };
    allowed && !blocked
}

/// Whether some live branch equals the target label.
pub open spec fn branch_matched(branches: Seq<Seq<char>>, target: Seq<char>) -> bool {
    exists|i: int| 0 <= i < branches.len() && branches[i] == target
}

/// Whether the live branches carry the registry's default branch, compared
/// through the naming quirk.
pub fn branch_matches(branches: &Vec<String>, hudson_branch: &str) -> (r: bool)
    ensures
        r == branch_matched(views_of(branches@), quirk_model(hudson_branch@)),
{
    let target = hudson_to_device_repo_branch(hudson_branch);
    contains_name(branches, target.as_str())
}

/// The first candidate index at or after `i` whose live branches carry the
/// target label.
pub open spec fn first_match_idx(lists: Seq<Seq<Seq<char>>>, target: Seq<char>, i: int) -> Option<
    int,
>
    decreases lists.len() - i,
{
    if !(0 <= i < lists.len()) {
        None
    } else if branch_matched(lists[i], target) {
        Some(i)
    } else {
        first_match_idx(lists, target, i + 1)
    }
}

/// The per-device branch table: every live branch keyed by its own label,
/// pinned to `refs/heads/` plus the quirk-normalized label, fetched with LFS
/// and without submodules.
pub open spec fn branches_map_model(branches: Seq<Seq<char>>, url: Seq<char>) -> Seq<
    (Seq<char>, GitRepoRefModel),
>
    decreases branches.len(),
{
    if branches.len() == 0 {
        Seq::empty()
    } else {
        sorted_put(
            branches_map_model(branches.drop_last(), url),
            (
                branches.last(),
                GitRepoRefModel {
                    repo_url: url,
                    revision: "refs/heads/"@ + quirk_model(branches.last()),
                    fetch_lfs: true,
                    fetch_submodules: false,
                },
            ),
        )
    }
}

/// One device's resolution against its candidates' live branches: no
/// carrying candidate is a missing repository, two are a duplicate, and the
/// single carrier provides the descriptor, its URL checked.
pub open spec fn resolve_device_model(
    name: Seq<char>,
    h: HudsonDeviceInfoModel,
    vendors: Seq<Seq<char>>,
    lists: Seq<Seq<Seq<char>>>,
) -> Result<DeviceInfoModel, DevErrModel> {
    let target = quirk_model(h.branch);
    match first_match_idx(lists, target, 0) {
        None => Err(DevErrModel::DeviceRepoNotFound(name)),
        Some(i) => if first_match_idx(lists, target, i + 1) is Some {
            Err(DevErrModel::DuplicateDeviceRepo(name))
        } else {
            let url = device_repo_url_model(vendors[i], name);
            if url_ok(url) {
                Ok(
                    DeviceInfoModel {
                        name: name,
                        vendor: vendors[i],
                        build_type: h.build_type,
                        branches: branches_map_model(lists[i], url),
                        default_branch: h.branch,
                        period: h.period,
                    },
                )
            } else {
                Err(DevErrModel::Url(url))
            }
        },
    }
}

/// Resolves one device against its vendor candidates' live branch lists,
/// `branch_lists[i]` being the enumeration of candidate `vendors[i]`.
pub fn resolve_device(
    name: &str,
    hudson: &HudsonDeviceInfo,
    vendors: &Vec<String>,
    branch_lists: &Vec<Vec<String>>,
) -> (r: Result<DeviceInfo, GetDevicesError>)
    requires
        vendors@.len() == branch_lists@.len(),
    ensures
        match r {
            Ok(d) => resolve_device_model(
                name@,
                hudson@,
                views_of(vendors@),
                branch_lists.deep_view(),
            ) == Ok::<_, DevErrModel>(d@),
            Err(GetDevicesError::DeviceRepoNotFound(n)) => resolve_device_model(
                name@,
                hudson@,
                views_of(vendors@),
                branch_lists.deep_view(),
            ) == Err::<DeviceInfoModel, _>(DevErrModel::DeviceRepoNotFound(n@)),
            Err(GetDevicesError::DuplicateDeviceRepo(n)) => resolve_device_model(
                name@,
                hudson@,
                views_of(vendors@),
                branch_lists.deep_view(),
            ) == Err::<DeviceInfoModel, _>(DevErrModel::DuplicateDeviceRepo(n@)),
            Err(GetDevicesError::Url(u)) => resolve_device_model(
                name@,
                hudson@,
                views_of(vendors@),
                branch_lists.deep_view(),
            ) == Err::<DeviceInfoModel, _>(DevErrModel::Url(u@)),
            Err(_) => false,
        },
{
    let ghost lv = branch_lists.deep_view();
    let ghost target = quirk_model(hudson.branch@);
    let mut i: usize = 0;
    while i < branch_lists.len() && !branch_matches(&branch_lists[i], hudson.branch.as_str())
        invariant
            lv == branch_lists.deep_view(),
            target == quirk_model(hudson@.branch),
            i <= branch_lists@.len(),
            first_match_idx(lv, target, 0) == first_match_idx(lv, target, i as int),
        decreases branch_lists@.len() - i,
    {
        proof {
            assert(lv[i as int] =~= views_of(branch_lists@[i as int]@));
        }
        i = i + 1;
    }
    if i >= branch_lists.len() {
        proof {
            assert(first_match_idx(lv, target, i as int) is None);
        }
        return Err(GetDevicesError::DeviceRepoNotFound(name.to_owned()));
    }
    proof {
        assert(lv[i as int] =~= views_of(branch_lists@[i as int]@));
        assert(first_match_idx(lv, target, 0) == Some(i as int));
    }
    let mut j: usize = i + 1;
    while j < branch_lists.len() && !branch_matches(&branch_lists[j], hudson.branch.as_str())
        invariant
            lv == branch_lists.deep_view(),
            target == quirk_model(hudson@.branch),
            i < j <= branch_lists@.len(),
            first_match_idx(lv, target, i + 1) == first_match_idx(lv, target, j as int),
        decreases branch_lists@.len() - j,
    {
        proof {
            assert(lv[j as int] =~= views_of(branch_lists@[j as int]@));
        }
        j = j + 1;
    }
    if j < branch_lists.len() {
        proof {
            assert(lv[j as int] =~= views_of(branch_lists@[j as int]@));
            assert(first_match_idx(lv, target, i + 1) is Some);
        }
        return Err(GetDevicesError::DuplicateDeviceRepo(name.to_owned()));
    }
    proof {
        assert(first_match_idx(lv, target, i + 1) is None);
    }
    let url = device_repo_url(vendors[i].as_str(), name);
    if !parse_url_ok(url.as_str()) {
        return Err(GetDevicesError::Url(url));
    }
    let live = &branch_lists[i];
    let ghost livev = views_of(live@);
    let mut branches: Vec<(String, GitRepoRef)> = Vec::new();
    let mut k: usize = 0;
    proof {
        assert(lv[i as int] =~= livev);
        assert(kv_views(branches@) =~= branches_map_model(livev.subrange(0, 0), url@));
    }
    while k < live.len()
        invariant
            livev == views_of(live@),
            live == &branch_lists@[i as int],
            i < branch_lists@.len(),
            k <= live@.len(),
            kv_views(branches@) == branches_map_model(livev.subrange(0, k as int), url@),
        decreases live@.len() - k,
    {
        proof {
            assert(livev.subrange(0, k + 1).drop_last() =~= livev.subrange(0, k as int));
            assert(livev.subrange(0, k + 1).last() == live@[k as int]@);
        }
        let b = live[k].clone();
        let revision = "refs/heads/".to_owned().concat(
            hudson_to_device_repo_branch(b.as_str()).as_str(),
        );
        let entry = GitRepoRef {
            repo_url: url.clone(),
            revision,
            fetch_lfs: true,
            fetch_submodules: false,
        };
        proof {
            assert(entry@ == (GitRepoRefModel {
                repo_url: url@,
                revision: "refs/heads/"@ + quirk_model(live@[k as int]@),
                fetch_lfs: true,
                fetch_submodules: false,
            }));
        }
        assoc_sorted_put(&mut branches, b, entry);
        k = k + 1;
    }
    proof {
        assert(livev.subrange(0, live@.len() as int) =~= livev);
    }
    let info = DeviceInfo {
        name: name.to_owned(),
        vendor: vendors[i].clone(),
        build_type: hudson.build_type.clone(),
        branches,
        default_branch: hudson.branch.clone(),
        period: hudson.period.clone(),
    };
    proof {
        assert(views_of(vendors@)[i as int] == vendors@[i as int]@);
    }
    Ok(info)
}

/// Records a resolved device: a name resolved earlier in the run is the
/// duplicate-device hard error.
pub fn insert_device(devices: &mut Vec<(String, DeviceInfo)>, info: DeviceInfo) -> (r: Result<
    (),
    GetDevicesError,
>)
    ensures
        match r {
            Ok(()) => !crate::assoc::cassoc_has(kv_views(old(devices)@), info.name@)
                && final(devices)@ == old(devices)@.push((info.name, info)),
            Err(GetDevicesError::DuplicateDeviceRepo(n)) => n@ == info.name@ && crate::assoc::cassoc_has(
                kv_views(old(devices)@),
                info.name@,
            ) && final(devices)@ == old(devices)@,
            Err(_) => false,
        },
{
    match assoc_lookup(devices, info.name.as_str()) {
        Some(_) => Err(GetDevicesError::DuplicateDeviceRepo(info.name.clone())),
        None => {
            let key = info.name.clone();
            devices.push((key, info));
            Ok(())
        },
    }
}

} // verus!

verus! {

// ---------------------------------------------------------------------------
// the flat dependency-directory list
// ---------------------------------------------------------------------------

use crate::base::BranchSettings;
use crate::base::RepoProject;

fn eq_overlay_pairs(a: &Vec<(String, String)>, b: &Vec<(String, String)>) -> (r: bool)
    ensures
        r == (kv_views(a@) == kv_views(b@)),
{
    if a.len() != b.len() {
        proof {
            assert(kv_views(a@).len() != kv_views(b@).len());
        }
        return false;
    }
    let mut i: usize = 0;
    while i < a.len()
        invariant
            a@.len() == b@.len(),
            i <= a@.len(),
            forall|j: int| 0 <= j < i ==> kv_views(a@)[j] == kv_views(b@)[j],
        decreases a@.len() - i,
    {
        if !str_eq(a[i].0.as_str(), b[i].0.as_str()) || !str_eq(a[i].1.as_str(), b[i].1.as_str()) {
            proof {
                assert(kv_views(a@)[i as int] != kv_views(b@)[i as int]);
            }
            return false;
        }
        i = i + 1;
    }
    proof {
        assert(kv_views(a@) =~= kv_views(b@));
    }
    true
}

fn eq_settings(a: &BranchSettings, b: &BranchSettings) -> (r: bool)
    ensures
        r == (a@ == b@),
{
    let fields_eq = str_eq(a.repo.base_url.as_str(), b.repo.base_url.as_str()) && str_eq(
        a.repo.name.as_str(),
        b.repo.name.as_str(),
    ) && str_eq(a.git_ref.as_str(), b.git_ref.as_str()) && eq_overlay_pairs(
        &a.copyfiles,
        &b.copyfiles,
    ) && eq_overlay_pairs(&a.linkfiles, &b.linkfiles) && a.fetch_lfs == b.fetch_lfs
        && a.fetch_submodules == b.fetch_submodules;
    proof {
        if fields_eq {
            assert(a@ == b@);
        } else {
            assert(a@ != b@);
        }
    }
    fields_eq
}

fn eq_branch_settings(a: &Vec<(String, BranchSettings)>, b: &Vec<(String, BranchSettings)>) -> (r:
    bool)
    ensures
        r == (kv_views(a@) == kv_views(b@)),
{
    if a.len() != b.len() {
        proof {
            assert(kv_views(a@).len() != kv_views(b@).len());
        }
        return false;
    }
    let mut i: usize = 0;
    while i < a.len()
        invariant
            a@.len() == b@.len(),
            i <= a@.len(),
            forall|j: int| 0 <= j < i ==> kv_views(a@)[j] == kv_views(b@)[j],
        decreases a@.len() - i,
    {
        if !str_eq(a[i].0.as_str(), b[i].0.as_str()) || !eq_settings(&a[i].1, &b[i].1) {
            proof {
                assert(kv_views(a@)[i as int] != kv_views(b@)[i as int]);
            }
            return false;
        }
        i = i + 1;
    }
    proof {
        assert(kv_views(a@) =~= kv_views(b@));
    }
    true
}

/// Compares two resolved projects by value.
pub fn eq_repo_project(a: &RepoProject, b: &RepoProject) -> (r: bool)
    ensures
        r == (a@ == b@),
{
    let fields_eq = str_eq(a.path.as_str(), b.path.as_str()) && a.nonfree == b.nonfree
        && eq_branch_settings(&a.branch_settings, &b.branch_settings);
    proof {
        if fields_eq {
            assert(a@ == b@);
        } else {
            assert(a@ != b@);
        }
    }
    fields_eq
}

fn contains_project(v: &Vec<RepoProject>, x: &RepoProject) -> (r: bool)
    ensures
        r == exists|i: int| 0 <= i < v@.len() && v@[i]@ == x@,
{
    let mut k: usize = 0;
    while k < v.len()
        invariant
            k <= v@.len(),
            forall|j: int| 0 <= j < k ==> v@[j]@ != x@,
        decreases v@.len() - k,
    {
        if eq_repo_project(&v[k], x) {
            return true;
        }
        k = k + 1;
    }
    false
}

/// `acc` extended by `x` unless a project of the same value is already in.
pub open spec fn dedup_push(acc: Seq<RepoProject>, x: RepoProject) -> Seq<RepoProject> {
    if exists|i: int| 0 <= i < acc.len() && acc[i]@ == x@ {
        acc
    } else {
        acc.push(x)
    }
}

/// `acc` extended by the new values of `deps`, in order.
pub open spec fn dedup_extend(acc: Seq<RepoProject>, deps: Seq<RepoProject>) -> Seq<RepoProject>
    decreases deps.len(),
{
    if deps.len() == 0 {
        acc
    } else {
        dedup_extend(dedup_push(acc, deps.first()), deps.drop_first())
    }
}

/// The dependency lists of the entries, concatenated in entry order with
/// duplicates dropped.
pub open spec fn flatten_dirs_fold(
    entries: Seq<(Seq<char>, Seq<RepoProject>)>,
    acc: Seq<RepoProject>,
) -> Seq<RepoProject>
    decreases entries.len(),
{
    if entries.len() == 0 {
        acc
    } else {
        flatten_dirs_fold(entries.drop_first(), dedup_extend(acc, entries.first().1))
    }
}

/// The name-sorted image of the entries.
pub open spec fn sorted_entries(entries: Seq<(String, Vec<RepoProject>)>) -> Seq<
    (Seq<char>, Seq<RepoProject>),
>
    decreases entries.len(),
{
    if entries.len() == 0 {
        Seq::empty()
    } else {
        sorted_put(
            sorted_entries(entries.drop_last()),
            (entries.last().0@, entries.last().1@),
        )
    }
}

/// Expands per-device dependency lists into one flat project list: devices
/// in name order, each device's dependencies in their own order, a project
/// equal by value to an earlier one dropped.
pub fn flatten_device_dirs(devices: Vec<(String, Vec<RepoProject>)>) -> (r: Vec<RepoProject>)
    ensures
        r@ == flatten_dirs_fold(sorted_entries(devices@), Seq::empty()),
{
    let ghost dv = devices@;
    let mut devices = devices;
    let mut sorted: Vec<(String, Vec<RepoProject>)> = Vec::new();
    let mut k: usize = 0;
    let n0 = devices.len();
    proof {
        assert(kv_views(sorted@) =~= sorted_entries(dv.subrange(0, 0)));
    }
    while devices.len() > 0
        invariant
            n0 == dv.len(),
            k + devices@.len() == dv.len(),
            devices@ =~= dv.subrange(k as int, dv.len() as int),
            kv_views(sorted@) == sorted_entries(dv.subrange(0, k as int)),
        decreases devices@.len(),
    {
        let pair = devices.remove(0);
        proof {
            assert(pair == dv[k as int]);
        }
        assoc_sorted_put(&mut sorted, pair.0, pair.1);
        k = k + 1;
        proof {
            assert(devices@ =~= dv.subrange(k as int, dv.len() as int));
            assert(dv.subrange(0, k as int).drop_last() =~= dv.subrange(0, k - 1));
            assert(dv.subrange(0, k as int).last() == dv[k - 1]);
        }
    }
    proof {
        assert(dv.subrange(0, dv.len() as int) =~= dv);
    }
    let ghost sv = kv_views(sorted@);
    let mut sorted = sorted;
    let n1 = sorted.len();
    let mut out: Vec<RepoProject> = Vec::new();
    let mut e: usize = 0;
    proof {
        assert(sv.skip(0) =~= sv);
        assert forall|j: int| 0 <= j < sorted@.len() implies kv_views(sorted@)[j] == sv.skip(
            0,
        )[j] by {
        }
    }
    while sorted.len() > 0
        invariant
            n1 == sv.len(),
            e + sorted@.len() == sv.len(),
            forall|j: int| 0 <= j < sorted@.len() ==> kv_views(sorted@)[j] == sv.skip(e as int)[j],
            flatten_dirs_fold(sv, Seq::empty()) == flatten_dirs_fold(sv.skip(e as int), out@),
        decreases sorted@.len(),
    {
        proof {
            assert(kv_views(sorted@)[0] == sv.skip(e as int)[0]);
        }
        let ghost mid = sorted@;
        let (_, deps) = sorted.remove(0);
        let ghost depsv = deps@;
        proof {
            assert(kv_views(mid)[0].1 == depsv);
            assert(sv.skip(e as int).first().1 == depsv);
            assert(sv.skip(e as int).drop_first() =~= sv.skip(e + 1));
            assert forall|j: int| 0 <= j < sorted@.len() implies kv_views(sorted@)[j] == sv.skip(
                e + 1,
            )[j] by {
                assert(sorted@[j] == mid[j + 1]);
                assert(kv_views(mid)[j + 1] == sv.skip(e as int)[j + 1]);
            }
        }
        let ghost out_start = out@;
        let mut deps = deps;
        let mut d: usize = 0;
        let nd = deps.len();
        proof {
            assert(depsv.subrange(0, depsv.len() as int) =~= depsv);
        }
        while deps.len() > 0
            invariant
                nd == depsv.len(),
                d + deps@.len() == depsv.len(),
                deps@ =~= depsv.subrange(d as int, depsv.len() as int),
                dedup_extend(out_start, depsv) == dedup_extend(
                    out@,
                    depsv.subrange(d as int, depsv.len() as int),
                ),
            decreases deps@.len(),
        {
            let dep = deps.remove(0);
            proof {
                assert(dep == depsv[d as int]);
                assert(depsv.subrange(d as int, depsv.len() as int).first() == depsv[d as int]);
                assert(depsv.subrange(d as int, depsv.len() as int).drop_first() =~= depsv.subrange(
                    d + 1,
                    depsv.len() as int,
                ));
            }
            if !contains_project(&out, &dep) {
                out.push(dep);
            }
            d = d + 1;
            proof {
                assert(deps@ =~= depsv.subrange(d as int, depsv.len() as int));
            }
        }
        proof {
            assert(depsv.subrange(depsv.len() as int, depsv.len() as int) =~= Seq::<
                RepoProject,
            >::empty());
            assert(out@ == dedup_extend(out_start, depsv));
        }
        e = e + 1;
    }
    proof {
        assert(sv.skip(sv.len() as int).len() == 0);
    }
    out
}

} // verus!
