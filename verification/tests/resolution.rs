use repo_updater::parse_manifest;
use repo_updater::first_missing_include;
use repo_updater::flatten_manifest;
use repo_updater::get_projects_from_manifest;
use repo_updater::get_remote_specs_from_manifest;
use repo_updater::sorted_projects;
use repo_updater::FetchGitRepoMetadataError;
use repo_updater::Manifest;
use repo_updater::ReadManifestError;
use repo_updater::RepoProject;

const ROOT_URL: &str = "https://example.org/manifest";

fn parse(xml: &str) -> Manifest {
    parse_manifest(xml).expect("well-formed manifest")
}

fn resolve_one_branch(xml: &str, branch: &str) -> Vec<(String, RepoProject)> {
    let m = parse(xml);
    let mut projects = Vec::new();
    get_projects_from_manifest(&m, &mut projects, ROOT_URL, branch).expect("resolves");
    projects
}

fn settings_of<'a>(
    projects: &'a [(String, RepoProject)],
    path: &str,
    branch: &str,
) -> &'a repo_updater::BranchSettings {
    let (_, project) = projects.iter().find(|(k, _)| k == path).expect("path present");
    let (_, settings) = project
        .branch_settings
        .iter()
        .find(|(b, _)| b == branch)
        .expect("branch present");
    settings
}

#[test]
fn parses_the_dialect() {
    let m = parse(
        "<?xml version=\"1.0\" encoding=\"UTF-8\"?>\n\
         <manifest>\n\
           <!-- a comment -->\n\
           <remote name=\"org\" fetch=\"..\" revision=\"main\" />\n\
           <default remote=\"org\" sync-c=\"true\" sync-j=\"4\" />\n\
           <project path=\"vendor/x\" name=\"vendor_x\" revision=\"dev\">\n\
             <linkfile src=\"a\" dest=\"b\" />\n\
             <copyfile src=\"c\" dest=\"d\" />\n\
             <unknown><nested attr=\"1\">text</nested></unknown>\n\
           </project>\n\
           <include name=\"extra.xml\" />\n\
         </manifest>\n",
    );
    assert_eq!(m.remotes.len(), 1);
    assert_eq!(m.remotes[0].name, "org");
    assert_eq!(m.remotes[0].fetch, "..");
    assert_eq!(m.remotes[0].default_ref.as_deref(), Some("main"));
    let d = m.default_remote.as_ref().expect("default element");
    assert_eq!(d.remote, "org");
    assert_eq!(d.sync_c, "true");
    assert_eq!(d.sync_j, "4");
    assert_eq!(m.projects.len(), 1);
    assert_eq!(m.projects[0].path, "vendor/x");
    assert_eq!(m.projects[0].repo_name, "vendor_x");
    assert_eq!(m.projects[0].git_ref.as_deref(), Some("dev"));
    assert_eq!(m.projects[0].linkfiles.len(), 1);
    assert_eq!(m.projects[0].linkfiles[0].src, "a");
    assert_eq!(m.projects[0].linkfiles[0].dest, "b");
    assert_eq!(m.projects[0].copyfiles.len(), 1);
    assert_eq!(m.projects[0].copyfiles[0].dest, "d");
    assert_eq!(m.includes, vec!["extra.xml".to_string()]);
}

#[test]
fn resolves_entities_in_attribute_values() {
    let m = parse(
        "<manifest><remote name=\"r\" fetch=\"https://a.example/?x=1&amp;y=&lt;2&gt;\"/>\
         </manifest>",
    );
    assert_eq!(m.remotes[0].fetch, "https://a.example/?x=1&y=<2>");
}

#[test]
fn rejects_malformed_documents() {
    assert!(parse_manifest("<notmanifest/>").is_none());
    assert!(parse_manifest("<manifest><remote name=\"r\"/></manifest>").is_none());
    assert!(parse_manifest("<manifest>").is_none());
    assert!(parse_manifest("<manifest></manifest>junk").is_none());
    assert!(parse_manifest("<manifest><default remote=\"a\" sync-c=\"1\" sync-j=\"1\"/>\
        <default remote=\"b\" sync-c=\"1\" sync-j=\"1\"/></manifest>").is_none());
}

#[test]
fn relative_remote_resolution() {
    let m = parse("<manifest><remote name=\"org\" fetch=\"..\"/></manifest>");
    let specs = get_remote_specs_from_manifest(&m, "https://example.org/manifest");
    assert_eq!(specs.len(), 1);
    assert_eq!(specs[0].0, "org");
    assert_eq!(specs[0].1.url, "https://example.org");
}

#[test]
fn relative_remote_resolution_drops_two_path_pieces() {
    // a deeper origin loses its last two path pieces; the scheme-and-host
    // prefix always survives
    let m = parse("<manifest><remote name=\"org\" fetch=\"..\"/></manifest>");
    let deep = get_remote_specs_from_manifest(&m, "https://example.org/a/b/manifest");
    assert_eq!(deep[0].1.url, "https://example.org/a");
    let host = get_remote_specs_from_manifest(&m, "https://example.org/org/manifest");
    assert_eq!(host[0].1.url, "https://example.org");
}

#[test]
fn verbatim_remote_resolution() {
    let m = parse("<manifest><remote name=\"org\" fetch=\"https://mirror.example/base/\"/></manifest>");
    let specs = get_remote_specs_from_manifest(&m, ROOT_URL);
    assert_eq!(specs[0].1.url, "https://mirror.example/base/");
}

#[test]
fn git_ref_project_revision_wins() {
    let projects = resolve_one_branch(
        "<manifest><remote name=\"org\" fetch=\"..\" revision=\"rbranch\"/>\
         <default remote=\"org\" revision=\"dmain\" sync-c=\"1\" sync-j=\"1\"/>\
         <project path=\"p\" name=\"n\" revision=\"dev\"/></manifest>",
        "b",
    );
    assert_eq!(settings_of(&projects, "p", "b").git_ref, "dev");
}

#[test]
fn git_ref_falls_back_to_remote_default_ref() {
    let projects = resolve_one_branch(
        "<manifest><remote name=\"org\" fetch=\"..\" revision=\"rbranch\"/>\
         <default remote=\"org\" sync-c=\"1\" sync-j=\"1\"/>\
         <project path=\"p\" name=\"n\"/></manifest>",
        "b",
    );
    assert_eq!(settings_of(&projects, "p", "b").git_ref, "rbranch");
}

#[test]
fn remote_own_revision_beats_manifest_default_revision() {
    // for the default remote, its own declared revision stands above the
    // default element's revision in the fallback chain
    let projects = resolve_one_branch(
        "<manifest><remote name=\"org\" fetch=\"..\" revision=\"rbranch\"/>\
         <default remote=\"org\" revision=\"dmain\" sync-c=\"1\" sync-j=\"1\"/>\
         <project path=\"p\" name=\"n\"/></manifest>",
        "b",
    );
    assert_eq!(settings_of(&projects, "p", "b").git_ref, "rbranch");
}

#[test]
fn git_ref_falls_back_to_manifest_default_revision() {
    let projects = resolve_one_branch(
        "<manifest><remote name=\"org\" fetch=\"..\"/>\
         <default remote=\"org\" revision=\"dmain\" sync-c=\"1\" sync-j=\"1\"/>\
         <project path=\"p\" name=\"n\"/></manifest>",
        "b",
    );
    assert_eq!(settings_of(&projects, "p", "b").git_ref, "dmain");
}

#[test]
fn manifest_default_revision_only_for_the_default_remote() {
    // the project's own remote is not the default remote, so the default
    // element's revision does not apply and the remote has none of its own
    let m = parse(
        "<manifest><remote name=\"org\" fetch=\"..\"/>\
         <remote name=\"dflt\" fetch=\"x\" revision=\"v\"/>\
         <default remote=\"dflt\" revision=\"dmain\" sync-c=\"1\" sync-j=\"1\"/>\
         <project path=\"p\" name=\"n\" remote=\"org\"/></manifest>",
    );
    let mut projects = Vec::new();
    let r = get_projects_from_manifest(&m, &mut projects, ROOT_URL, "b");
    assert!(matches!(r, Err(FetchGitRepoMetadataError::MissingDefaultRef)));
}

#[test]
fn missing_default_remote_is_an_error() {
    let m = parse("<manifest><remote name=\"org\" fetch=\"..\"/>\
        <project path=\"p\" name=\"n\"/></manifest>");
    let mut projects = Vec::new();
    let r = get_projects_from_manifest(&m, &mut projects, ROOT_URL, "b");
    assert!(matches!(r, Err(FetchGitRepoMetadataError::MissingDefaultRemote)));
}

#[test]
fn unknown_remote_is_an_error() {
    let m = parse("<manifest><remote name=\"org\" fetch=\"..\"/>\
        <project path=\"p\" name=\"n\" remote=\"ghost\" revision=\"v\"/></manifest>");
    let mut projects = Vec::new();
    let r = get_projects_from_manifest(&m, &mut projects, ROOT_URL, "b");
    match r {
        Err(FetchGitRepoMetadataError::UnknownRemote(n)) => assert_eq!(n, "ghost"),
        other => panic!("expected UnknownRemote, got {:?}", other),
    }
}

#[test]
fn project_url_trims_one_trailing_slash() {
    let projects = resolve_one_branch(
        "<manifest><remote name=\"org\" fetch=\"https://host.example/base/\" revision=\"v\"/>\
         <default remote=\"org\" sync-c=\"1\" sync-j=\"1\"/>\
         <project path=\"p\" name=\"repo\"/></manifest>",
        "b",
    );
    let s = settings_of(&projects, "p", "b");
    assert_eq!(s.repo.base_url, "https://host.example/base");
    assert_eq!(s.repo.name, "repo");
    assert_eq!(s.repo.url(), "https://host.example/base/repo");
}

#[test]
fn duplicate_copyfile_dest_last_wins() {
    let projects = resolve_one_branch(
        "<manifest><remote name=\"org\" fetch=\"..\" revision=\"v\"/>\
         <default remote=\"org\" sync-c=\"1\" sync-j=\"1\"/>\
         <project path=\"p\" name=\"n\">\
           <copyfile src=\"first\" dest=\"t\"/>\
           <copyfile src=\"second\" dest=\"t\"/>\
         </project></manifest>",
        "b",
    );
    let s = settings_of(&projects, "p", "b");
    assert_eq!(s.copyfiles, vec![("t".to_string(), "second".to_string())]);
}

#[test]
fn resolving_twice_is_byte_identical() {
    let xml = "<manifest><remote name=\"org\" fetch=\"..\" revision=\"v\"/>\
        <default remote=\"org\" sync-c=\"1\" sync-j=\"1\"/>\
        <project path=\"b/p\" name=\"n2\"/>\
        <project path=\"a/p\" name=\"n1\"/></manifest>";
    let run = || {
        let m = parse(xml);
        let mut projects = Vec::new();
        get_projects_from_manifest(&m, &mut projects, ROOT_URL, "a").unwrap();
        get_projects_from_manifest(&m, &mut projects, ROOT_URL, "b").unwrap();
        format!("{:?}", sorted_projects(projects))
    };
    assert_eq!(run(), run());

    // re-resolving the same branch overwrites and leaves the map unchanged
    let m = parse(xml);
    let mut once = Vec::new();
    get_projects_from_manifest(&m, &mut once, ROOT_URL, "a").unwrap();
    let mut twice = Vec::new();
    get_projects_from_manifest(&m, &mut twice, ROOT_URL, "a").unwrap();
    get_projects_from_manifest(&m, &mut twice, ROOT_URL, "a").unwrap();
    assert_eq!(
        format!("{:?}", sorted_projects(once)),
        format!("{:?}", sorted_projects(twice))
    );
}

#[test]
fn sorted_output_is_ordered_by_path() {
    let projects = resolve_one_branch(
        "<manifest><remote name=\"org\" fetch=\"..\" revision=\"v\"/>\
         <default remote=\"org\" sync-c=\"1\" sync-j=\"1\"/>\
         <project path=\"zeta\" name=\"n1\"/>\
         <project path=\"alpha\" name=\"n2\"/>\
         <project path=\"midd\" name=\"n3\"/></manifest>",
        "b",
    );
    let sorted = sorted_projects(projects);
    let paths: Vec<&str> = sorted.iter().map(|p| p.path.as_str()).collect();
    assert_eq!(paths, vec!["alpha", "midd", "zeta"]);
}

#[test]
fn flattening_is_the_union_over_the_tree() {
    let root = parse(
        "<manifest><remote name=\"a\" fetch=\"x\"/>\
         <project path=\"pr\" name=\"nr\" revision=\"v\"/>\
         <include name=\"extra.xml\"/></manifest>",
    );
    let extra = parse(
        "<manifest><remote name=\"b\" fetch=\"y\"/>\
         <project path=\"pe\" name=\"ne\" revision=\"v\"/></manifest>",
    );
    let docs = vec![("default.xml".to_string(), root), ("extra.xml".to_string(), extra)];
    assert!(first_missing_include(&docs).is_none());
    let flat = flatten_manifest(&docs, "default.xml").expect("flattens");
    let remote_names: Vec<&str> = flat.remotes.iter().map(|r| r.name.as_str()).collect();
    assert_eq!(remote_names, vec!["a", "b"]);
    let project_paths: Vec<&str> = flat.projects.iter().map(|p| p.path.as_str()).collect();
    assert_eq!(project_paths, vec!["pr", "pe"]);
    assert!(flat.includes.is_empty());
}

#[test]
fn two_default_remotes_in_a_tree_fail() {
    let root = parse(
        "<manifest><remote name=\"a\" fetch=\"x\"/>\
         <default remote=\"a\" sync-c=\"1\" sync-j=\"1\"/>\
         <include name=\"extra.xml\"/></manifest>",
    );
    let extra = parse(
        "<manifest><remote name=\"b\" fetch=\"y\"/>\
         <default remote=\"b\" sync-c=\"1\" sync-j=\"1\"/></manifest>",
    );
    let docs = vec![("default.xml".to_string(), root), ("extra.xml".to_string(), extra)];
    let r = flatten_manifest(&docs, "default.xml");
    assert!(matches!(r, Err(ReadManifestError::MoreThanOneDefaultRemote)));
}

#[test]
fn an_include_cycle_fails() {
    let root = parse("<manifest><include name=\"default.xml\"/></manifest>");
    let docs = vec![("default.xml".to_string(), root)];
    let r = flatten_manifest(&docs, "default.xml");
    match r {
        Err(ReadManifestError::IncludeCycle(n)) => assert_eq!(n, "default.xml"),
        other => panic!("expected IncludeCycle, got {:?}", other),
    }
}

#[test]
fn a_missing_include_is_reported() {
    let root = parse("<manifest><include name=\"gone.xml\"/></manifest>");
    let docs = vec![("default.xml".to_string(), root)];
    assert_eq!(first_missing_include(&docs), Some("gone.xml".to_string()));
    let r = flatten_manifest(&docs, "default.xml");
    match r {
        Err(ReadManifestError::MissingInclude(n)) => assert_eq!(n, "gone.xml"),
        other => panic!("expected MissingInclude, got {:?}", other),
    }
}

#[test]
fn a_self_closing_manifest_is_empty() {
    let m = parse("<?xml version=\"1.0\"?><manifest/>");
    assert!(m.remotes.is_empty());
    assert!(m.default_remote.is_none());
    assert!(m.projects.is_empty());
    assert!(m.includes.is_empty());
}

#[test]
fn single_quoted_attributes_parse() {
    let m = parse("<manifest><remote name='org' fetch='https://a.example'/></manifest>");
    assert_eq!(m.remotes[0].name, "org");
    assert_eq!(m.remotes[0].fetch, "https://a.example");
}

#[test]
fn includes_are_discovered_transitively() {
    let root = parse("<manifest><include name=\"a.xml\"/></manifest>");
    let mut docs = vec![("default.xml".to_string(), root)];
    assert_eq!(first_missing_include(&docs), Some("a.xml".to_string()));
    docs.push((
        "a.xml".to_string(),
        parse("<manifest><include name=\"b.xml\"/></manifest>"),
    ));
    assert_eq!(first_missing_include(&docs), Some("b.xml".to_string()));
    docs.push(("b.xml".to_string(), parse("<manifest/>")));
    assert!(first_missing_include(&docs).is_none());
    let flat = flatten_manifest(&docs, "default.xml").expect("flattens");
    assert!(flat.includes.is_empty());
}

#[test]
fn resolving_a_second_branch_keeps_the_first() {
    let xml_a = "<manifest><remote name=\"org\" fetch=\"..\" revision=\"va\"/>\
        <default remote=\"org\" sync-c=\"1\" sync-j=\"1\"/>\
        <project path=\"p\" name=\"n\"/></manifest>";
    let xml_b = "<manifest><remote name=\"org\" fetch=\"..\" revision=\"vb\"/>\
        <default remote=\"org\" sync-c=\"1\" sync-j=\"1\"/>\
        <project path=\"p\" name=\"n\"/></manifest>";
    let mut projects = Vec::new();
    get_projects_from_manifest(&parse(xml_a), &mut projects, ROOT_URL, "a").unwrap();
    get_projects_from_manifest(&parse(xml_b), &mut projects, ROOT_URL, "b").unwrap();
    assert_eq!(projects.len(), 1);
    assert_eq!(settings_of(&projects, "p", "a").git_ref, "va");
    assert_eq!(settings_of(&projects, "p", "b").git_ref, "vb");
}

#[test]
fn a_failing_project_gains_no_settings() {
    // the first project resolves; the second has no revision anywhere; the
    // map keeps exactly the successful prefix
    let m = parse(
        "<manifest><remote name=\"org\" fetch=\"..\" revision=\"v\"/>\
         <remote name=\"bare\" fetch=\"x\"/>\
         <default remote=\"org\" sync-c=\"1\" sync-j=\"1\"/>\
         <project path=\"good\" name=\"n1\"/>\
         <project path=\"bad\" name=\"n2\" remote=\"bare\"/>\
         <project path=\"after\" name=\"n3\"/></manifest>",
    );
    let mut projects = Vec::new();
    let r = get_projects_from_manifest(&m, &mut projects, ROOT_URL, "b");
    assert!(matches!(r, Err(FetchGitRepoMetadataError::MissingDefaultRef)));
    let paths: Vec<&str> = projects.iter().map(|(k, _)| k.as_str()).collect();
    assert_eq!(paths, vec!["good"]);
    assert_eq!(settings_of(&projects, "good", "b").git_ref, "v");
}
