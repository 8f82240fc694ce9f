use repo_updater::branch_matches;
use repo_updater::branch_of_ref;
use repo_updater::device_filter_allows;
use repo_updater::device_repo_name;
use repo_updater::get_device_repos_from_manifest;
use repo_updater::hudson_to_device_repo_branch;
use repo_updater::insert_device;
use repo_updater::mirror_repo_path;
use repo_updater::mirror_root_for;
use repo_updater::parse_hudson_registry;
use repo_updater::parse_ls_remote_output;
use repo_updater::parse_manifest;
use repo_updater::parse_robotnix_git_mirrors_env;
use repo_updater::plan_sync;
use repo_updater::possible_vendors;
use repo_updater::resolve_device;
use repo_updater::BranchSettings;
use repo_updater::FetchHudsonDevicesError;
use repo_updater::GetDevicesError;
use repo_updater::GitLsRemoteError;
use repo_updater::HudsonDeviceInfo;
use repo_updater::MirrorError;
use repo_updater::Repository;
use repo_updater::SyncMode;

fn hudson(branch: &str) -> HudsonDeviceInfo {
    HudsonDeviceInfo {
        build_type: "AOSP".to_string(),
        branch: branch.to_string(),
        period: "STABLE".to_string(),
    }
}

#[test]
fn parses_the_registry() {
    let text = "# build targets\n\
                \n\
                zebra userdebug lineage-20 STABLE\n\
                angler AOSP lineage-19.1 STABLE\n";
    let records = parse_hudson_registry(text).expect("parses");
    // sorted by device name
    assert_eq!(records.len(), 2);
    assert_eq!(records[0].0, "angler");
    assert_eq!(records[0].1.build_type, "AOSP");
    assert_eq!(records[0].1.branch, "lineage-19.1");
    assert_eq!(records[0].1.period, "STABLE");
    assert_eq!(records[1].0, "zebra");
}

#[test]
fn registry_trimming_covers_unicode_whitespace() {
    // a non-breaking space counts as line whitespace, as the original
    // line trimming had it
    let text = "\u{a0}angler AOSP lineage-19.1 STABLE\u{a0}\n";
    let records = parse_hudson_registry(text).expect("parses");
    assert_eq!(records.len(), 1);
    assert_eq!(records[0].0, "angler");
    assert_eq!(records[0].1.period, "STABLE");
}

#[test]
fn a_malformed_registry_line_is_an_error() {
    let r = parse_hudson_registry("angler AOSP lineage-19.1\n");
    match r {
        Err(FetchHudsonDevicesError::ParseLine(l)) => assert_eq!(l, "angler AOSP lineage-19.1"),
        other => panic!("expected ParseLine, got {:?}", other),
    }
}

#[test]
fn a_later_registry_record_overrides_an_earlier_one() {
    let text = "angler AOSP lineage-19.1 STABLE\nangler user lineage-20 WEEKLY\n";
    let records = parse_hudson_registry(text).expect("parses");
    assert_eq!(records.len(), 1);
    assert_eq!(records[0].1.branch, "lineage-20");
}

#[test]
fn extracts_device_repos_from_the_mirror_manifest() {
    let m = parse_manifest(
        "<manifest>\
           <project path=\"a\" name=\"LineageOS/android_device_huawei_angler\" revision=\"v\"/>\
           <project path=\"b\" name=\"LineageOS/android_other\" revision=\"v\"/>\
           <project path=\"c\" name=\"LineageOS/android_device_lge_mako\" revision=\"v\"/>\
         </manifest>",
    )
    .expect("parses");
    let repos = get_device_repos_from_manifest(&m);
    assert_eq!(
        repos,
        vec![
            ("huawei".to_string(), "angler".to_string()),
            ("lge".to_string(), "mako".to_string()),
        ]
    );
}

#[test]
fn parses_branch_enumeration_output() {
    let text = "0a1b\trefs/heads/lineage-19.1\n\
                0a1c\trefs/heads/master\n\
                0a1d\trefs/tags/v1\n\
                0a1e\trefs/heads/lineage-21\n\
                \n";
    let branches = parse_ls_remote_output(text).expect("parses");
    assert_eq!(branches, vec!["lineage-19.1".to_string(), "lineage-21".to_string()]);
}

#[test]
fn an_enumeration_line_without_a_ref_field_is_an_error() {
    let r = parse_ls_remote_output("garbage-without-tab\n");
    match r {
        Err(GitLsRemoteError::Parse(l)) => assert_eq!(l, "garbage-without-tab"),
        other => panic!("expected Parse, got {:?}", other),
    }
}

#[test]
fn quirk_normalization() {
    assert_eq!(hudson_to_device_repo_branch("lineage-21.0"), "lineage-21");
    assert_eq!(hudson_to_device_repo_branch("lineage-19.1"), "lineage-19.1");
    // the registry label matches the live repository label through the quirk
    assert!(branch_matches(&vec!["lineage-21".to_string()], "lineage-21.0"));
    assert!(!branch_matches(&vec!["lineage-21.0".to_string()], "lineage-21.0"));
}

#[test]
fn device_matching_scenario() {
    let m = parse_manifest(
        "<manifest>\
           <project path=\"a\" name=\"LineageOS/android_device_huawei_angler\" revision=\"v\"/>\
         </manifest>",
    )
    .expect("parses");
    let repos = get_device_repos_from_manifest(&m);
    let vendors = possible_vendors(&repos, "angler");
    assert_eq!(vendors, vec!["huawei".to_string()]);
    assert_eq!(
        device_repo_name("huawei", "angler"),
        "LineageOS/android_device_huawei_angler"
    );
    let lists = vec![vec!["lineage-19.1".to_string(), "lineage-18.1".to_string()]];
    let info = resolve_device("angler", &hudson("lineage-19.1"), &vendors, &lists)
        .expect("resolves");
    assert_eq!(info.name, "angler");
    assert_eq!(info.vendor, "huawei");
    assert_eq!(info.build_type, "AOSP");
    assert_eq!(info.default_branch, "lineage-19.1");
    assert_eq!(info.period, "STABLE");
    // the branch table is sorted and pins every live branch
    assert_eq!(info.branches.len(), 2);
    assert_eq!(info.branches[0].0, "lineage-18.1");
    assert_eq!(info.branches[1].0, "lineage-19.1");
    let entry = &info.branches[1].1;
    assert_eq!(
        entry.repo_url,
        "https://github.com/LineageOS/android_device_huawei_angler"
    );
    assert_eq!(entry.revision, "refs/heads/lineage-19.1");
    assert!(entry.fetch_lfs);
    assert!(!entry.fetch_submodules);
}

#[test]
fn zero_matching_candidates_is_device_repo_not_found() {
    let vendors = vec!["huawei".to_string()];
    let lists = vec![vec!["lineage-18.1".to_string()]];
    let r = resolve_device("angler", &hudson("lineage-19.1"), &vendors, &lists);
    match r {
        Err(GetDevicesError::DeviceRepoNotFound(n)) => assert_eq!(n, "angler"),
        other => panic!("expected DeviceRepoNotFound, got {:?}", other),
    }
}

#[test]
fn two_matching_candidates_is_a_duplicate_device_repo() {
    let vendors = vec!["huawei".to_string(), "lge".to_string()];
    let lists = vec![
        vec!["lineage-19.1".to_string()],
        vec!["lineage-19.1".to_string()],
    ];
    let r = resolve_device("angler", &hudson("lineage-19.1"), &vendors, &lists);
    match r {
        Err(GetDevicesError::DuplicateDeviceRepo(n)) => assert_eq!(n, "angler"),
        other => panic!("expected DuplicateDeviceRepo, got {:?}", other),
    }
}

#[test]
fn a_device_resolved_twice_in_one_run_is_a_duplicate() {
    let vendors = vec!["huawei".to_string()];
    let lists = vec![vec!["lineage-19.1".to_string()]];
    let info = resolve_device("angler", &hudson("lineage-19.1"), &vendors, &lists).unwrap();
    let info2 = resolve_device("angler", &hudson("lineage-19.1"), &vendors, &lists).unwrap();
    let mut devices = Vec::new();
    insert_device(&mut devices, info).expect("first insertion");
    let r = insert_device(&mut devices, info2);
    match r {
        Err(GetDevicesError::DuplicateDeviceRepo(n)) => assert_eq!(n, "angler"),
        other => panic!("expected DuplicateDeviceRepo, got {:?}", other),
    }
}

#[test]
fn device_filters() {
    let allow = Some(vec!["angler".to_string()]);
    let block = Some(vec!["mako".to_string()]);
    assert!(device_filter_allows(&allow, &None, "angler"));
    assert!(!device_filter_allows(&allow, &None, "mako"));
    assert!(!device_filter_allows(&None, &block, "mako"));
    assert!(device_filter_allows(&None, &block, "angler"));
    assert!(device_filter_allows(&None, &None, "anything"));
}

#[test]
fn parses_the_mirror_root_table() {
    let mirrors = parse_robotnix_git_mirrors_env(
        "https://github.com=/mirror/github|https://gitlab.example=/mirror/gitlab",
    );
    assert_eq!(
        mirrors,
        vec![
            ("https://github.com".to_string(), "/mirror/github".to_string()),
            ("https://gitlab.example".to_string(), "/mirror/gitlab".to_string()),
        ]
    );
    let root = mirror_root_for(&mirrors, "https://github.com").expect("mapped");
    assert_eq!(root.as_str(), "/mirror/github");
    let missing = mirror_root_for(&mirrors, "https://other.example");
    match missing {
        Err(MirrorError::MirrorRootMissing(b)) => assert_eq!(b, "https://other.example"),
        other => panic!("expected MirrorRootMissing, got {:?}", other),
    }
}

fn settings(git_ref: &str) -> BranchSettings {
    BranchSettings {
        repo: Repository {
            base_url: "https://github.com".to_string(),
            name: "LineageOS/android_device_huawei_angler".to_string(),
        },
        git_ref: git_ref.to_string(),
        copyfiles: Vec::new(),
        linkfiles: Vec::new(),
        fetch_lfs: false,
        fetch_submodules: false,
    }
}

#[test]
fn repo_paths_and_symbolic_names() {
    assert_eq!(mirror_repo_path("/mirror", "org/repo"), "/mirror/org/repo.git");
    assert_eq!(branch_of_ref("refs/heads/lineage-19.1").as_deref(), Some("lineage-19.1"));
    assert_eq!(branch_of_ref("refs/tags/v1").as_deref(), Some("v1"));
    assert_eq!(branch_of_ref("0a1b2c3d"), None);
}

#[test]
fn shallow_sync_on_a_fresh_mirror_creates_the_named_ref() {
    let cmds = plan_sync(&settings("refs/heads/lineage-19.1"), "/m/r.git", false, SyncMode::Shallow)
        .expect("plans");
    assert_eq!(cmds.len(), 2);
    assert_eq!(
        cmds[0].args,
        vec![
            "clone",
            "--bare",
            "--single-branch",
            "--depth=1",
            "--revision",
            "refs/heads/lineage-19.1",
            "https://github.com/LineageOS/android_device_huawei_angler",
            "/m/r.git",
        ]
    );
    assert_eq!(cmds[0].cwd, None);
    // the bookkeeping step: the named ref must point at the fetched HEAD
    assert_eq!(cmds[1].args, vec!["update-ref", "refs/heads/lineage-19.1", "HEAD"]);
    assert_eq!(cmds[1].cwd.as_deref(), Some("/m/r.git"));
}

#[test]
fn shallow_sync_on_an_existing_mirror_moves_the_named_ref() {
    let cmds = plan_sync(&settings("refs/heads/lineage-19.1"), "/m/r.git", true, SyncMode::Shallow)
        .expect("plans");
    assert_eq!(cmds.len(), 2);
    assert_eq!(
        cmds[0].args,
        vec!["fetch", "--depth=1", "origin", "refs/heads/lineage-19.1"]
    );
    assert_eq!(cmds[0].cwd.as_deref(), Some("/m/r.git"));
    assert_eq!(
        cmds[1].args,
        vec!["update-ref", "refs/heads/lineage-19.1", "FETCH_HEAD"]
    );
}

#[test]
fn full_sync_re_run_only_fetches_the_exact_ref() {
    let cmds = plan_sync(&settings("refs/heads/lineage-19.1"), "/m/r.git", true, SyncMode::Full)
        .expect("plans");
    assert_eq!(cmds.len(), 1);
    assert_eq!(cmds[0].args, vec!["fetch", "origin", "refs/heads/lineage-19.1"]);
    assert_eq!(cmds[0].cwd.as_deref(), Some("/m/r.git"));
}

#[test]
fn full_sync_initial_clone_uses_the_symbolic_name() {
    let cmds = plan_sync(&settings("refs/heads/lineage-19.1"), "/m/r.git", false, SyncMode::Full)
        .expect("plans");
    assert_eq!(cmds.len(), 1);
    assert_eq!(
        cmds[0].args,
        vec![
            "clone",
            "--bare",
            "--single-branch",
            "--branch",
            "lineage-19.1",
            "https://github.com/LineageOS/android_device_huawei_angler",
            "/m/r.git",
        ]
    );
}

#[test]
fn full_sync_rejects_an_arbitrary_revision() {
    let r = plan_sync(&settings("0a1b2c3d"), "/m/r.git", false, SyncMode::Full);
    match r {
        Err(MirrorError::UnsupportedRevision(g)) => assert_eq!(g, "0a1b2c3d"),
        other => panic!("expected UnsupportedRevision, got {:?}", other),
    }
}

#[test]
fn flattens_device_dirs_in_name_order_without_duplicates() {
    let p = |path: &str| repo_updater::RepoProject {
        path: path.to_string(),
        nonfree: false,
        branch_settings: Vec::new(),
    };
    let devices = vec![
        ("zebra".to_string(), vec![p("shared"), p("zonly")]),
        ("angler".to_string(), vec![p("aonly"), p("shared")]),
    ];
    let dirs = repo_updater::flatten_device_dirs(devices);
    let paths: Vec<&str> = dirs.iter().map(|d| d.path.as_str()).collect();
    // devices visited in name order; the duplicate dependency appears once
    assert_eq!(paths, vec!["aonly", "shared", "zonly"]);
}
