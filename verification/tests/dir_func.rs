use aur_helper::dir_func::{
    build_packages, check_installed, contains_string, download_packages_from_git, find_first_char,
    find_last_char, get_dirs, get_latest_build_package, get_set_diff, install_packages,
    is_pkg_file_name, join_path, partition_results, pkg_name_from_link, remove_uninstalled_dirs,
    str_eq, update_packages, ArtifactError, CloneOutcome, CommandSpec, DirEntryInfo, DirsError,
    FileEntry, ProcessStatus, UpdateOutcome,
};

fn ok_status() -> ProcessStatus {
    ProcessStatus { success: true, code: Some(0) }
}

fn bad_status(code: i32) -> ProcessStatus {
    ProcessStatus { success: false, code: Some(code) }
}

fn strings(v: &[&str]) -> Vec<String> {
    v.iter().map(|s| s.to_string()).collect()
}

fn sorted(mut v: Vec<String>) -> Vec<String> {
    v.sort();
    v
}

#[test]
fn build_packages_all_succeed() {
    let dirs = strings(&["/aur/a", "/aur/b"]);
    let statuses = vec![ok_status(), ok_status()];
    let r = build_packages(dirs.clone(), &statuses);
    assert_eq!(r, Ok(dirs));
}

#[test]
fn build_packages_partitions_failures() {
    let dirs = strings(&["/aur/a", "/aur/b", "/aur/c"]);
    let statuses = vec![ok_status(), bad_status(2), bad_status(1)];
    let r = build_packages(dirs, &statuses);
    let failed = r.unwrap_err();
    assert_eq!(
        failed,
        vec![("/aur/b".to_string(), bad_status(2)), ("/aur/c".to_string(), bad_status(1))]
    );
}

#[test]
fn build_packages_partition_covers_input() {
    let dirs = strings(&["/aur/a", "/aur/b", "/aur/c", "/aur/d"]);
    let statuses = vec![ok_status(), bad_status(1), ok_status(), bad_status(3)];
    match build_packages(dirs.clone(), &statuses) {
        Ok(_) => panic!("a failing status must yield Err"),
        Err(failed) => {
            // Rebuild the successes by hand and check the two lists cover the
            // input exactly, with nothing shared.
            let succeeded = strings(&["/aur/a", "/aur/c"]);
            let failed_paths: Vec<String> = failed.iter().map(|p| p.0.clone()).collect();
            assert_eq!(succeeded.len() + failed_paths.len(), dirs.len());
            let mut together = succeeded.clone();
            together.extend(failed_paths.clone());
            assert_eq!(sorted(together), sorted(dirs));
            for p in &succeeded {
                assert!(!failed_paths.contains(p));
            }
        }
    }
}

#[test]
fn partition_results_splits_by_status() {
    let dirs = strings(&["/aur/a", "/aur/b", "/aur/c"]);
    let statuses = vec![bad_status(9), ok_status(), bad_status(1)];
    let (succeeded, failed) = partition_results(dirs, &statuses);
    assert_eq!(succeeded, strings(&["/aur/b"]));
    assert_eq!(
        failed,
        vec![("/aur/a".to_string(), bad_status(9)), ("/aur/c".to_string(), bad_status(1))]
    );
}

#[test]
fn build_packages_empty_input() {
    let r = build_packages(Vec::new(), &Vec::new());
    assert_eq!(r, Ok(Vec::new()));
}

fn update_outcome(success: bool, stdout: &str) -> UpdateOutcome {
    UpdateOutcome {
        status: ProcessStatus { success, code: Some(if success { 0 } else { 1 }) },
        stdout: stdout.to_string(),
    }
}

#[test]
fn update_packages_skips_up_to_date_but_counts_success() {
    let dirs = strings(&["/aur/changed", "/aur/synced"]);
    let outcomes = vec![
        update_outcome(true, "Updating 1234..5678\n"),
        update_outcome(true, "Already up to date.\n"),
    ];
    let r = update_packages(dirs, &outcomes);
    // The synced directory is no failure, so the whole batch is Ok, but only
    // the changed directory is reported.
    assert_eq!(r, Ok(strings(&["/aur/changed"])));
}

#[test]
fn update_packages_reports_failures() {
    let dirs = strings(&["/aur/a", "/aur/b", "/aur/c"]);
    let outcomes = vec![
        update_outcome(true, "Already up to date.\n"),
        update_outcome(false, ""),
        update_outcome(true, "files changed\n"),
    ];
    let r = update_packages(dirs, &outcomes);
    assert_eq!(r, Err(vec![("/aur/b".to_string(), bad_status(1))]));
}

fn dir_entry(path: &str, is_dir: bool) -> DirEntryInfo {
    DirEntryInfo { path: path.to_string(), is_dir }
}

#[test]
fn get_dirs_detects_right() {
    // The root holds three subdirectories and no files: the listing returns
    // exactly those three paths, in whatever order the listing came.
    let entries = vec![
        dir_entry("/aur/test_dir1", true),
        dir_entry("/aur/test_dir2", true),
        dir_entry("/aur/test_dir3", true),
    ];
    let r = get_dirs(true, &entries, true);
    assert_eq!(
        sorted(r.unwrap()),
        sorted(strings(&["/aur/test_dir1", "/aur/test_dir2", "/aur/test_dir3"]))
    );
}

#[test]
fn get_dirs_warns_on_wrong_entries() {
    let entries = vec![dir_entry("/aur/pkg", true), dir_entry("/aur/stray.txt", false)];
    let r = get_dirs(true, &entries, true);
    assert_eq!(r, Err(DirsError::WrongEntries));
}

#[test]
fn get_dirs_keeps_files_when_check_is_off() {
    let entries = vec![dir_entry("/aur/pkg", true), dir_entry("/aur/stray.txt", false)];
    let r = get_dirs(true, &entries, false);
    assert_eq!(r, Ok(strings(&["/aur/pkg", "/aur/stray.txt"])));
}

#[test]
fn get_dirs_rejects_non_directory_root() {
    let r = get_dirs(false, &Vec::new(), true);
    assert_eq!(r, Err(DirsError::NotADirectory));
    assert_eq!(r.unwrap_err().message(), "Given Path is not a directory!");
}

#[test]
fn get_set_diff_returns_complement() {
    let bigger = strings(&["/aur/a", "/aur/b", "/aur/c", "/aur/d"]);
    let containing = strings(&["/aur/b", "/aur/d"]);
    let diff = get_set_diff(bigger, containing);
    assert_eq!(sorted(diff), strings(&["/aur/a", "/aur/c"]));
}

#[test]
fn get_set_diff_has_no_duplicates() {
    let bigger = strings(&["/aur/a", "/aur/a", "/aur/b", "/aur/c", "/aur/b"]);
    let containing = strings(&["/aur/c"]);
    let diff = get_set_diff(bigger, containing);
    assert_eq!(sorted(diff), strings(&["/aur/a", "/aur/b"]));
}

#[test]
fn get_set_diff_ignores_input_order() {
    let diff_one = get_set_diff(
        strings(&["/aur/a", "/aur/b", "/aur/c"]),
        strings(&["/aur/c", "/aur/a"]),
    );
    let diff_two = get_set_diff(
        strings(&["/aur/c", "/aur/a", "/aur/b"]),
        strings(&["/aur/a", "/aur/c"]),
    );
    assert_eq!(sorted(diff_one), sorted(diff_two));
}

fn file_entry(name: &str, is_file: bool, modified: u64) -> FileEntry {
    FileEntry { name: name.to_string(), is_file, modified }
}

#[test]
fn artifact_selection_fails_on_empty_candidates() {
    let entries = vec![
        file_entry("PKGBUILD", true, 10),
        file_entry("src", false, 20),
        file_entry("pkg.tar.gz", true, 30),
    ];
    let r = get_latest_build_package("/aur/pkg", &entries);
    assert_eq!(r, Err(ArtifactError::NotFound));
    assert_eq!(r.unwrap_err().message(), "Couldn't find a build package-file");
}

#[test]
fn artifact_selection_picks_latest_modification_time() {
    let entries = vec![
        file_entry("old-1.0.pkg.tar.zst", true, 100),
        file_entry("new-2.0.pkg.tar.zst", true, 300),
        file_entry("mid-1.5.pkg.tar.zst", true, 200),
        file_entry("newest-but-dir.pkg.tar.zst", false, 900),
        file_entry("newest-but-log.txt", true, 900),
    ];
    let r = get_latest_build_package("/aur/pkg", &entries);
    assert_eq!(r, Ok("/aur/pkg/new-2.0.pkg.tar.zst".to_string()));
}

#[test]
fn artifact_selection_tie_goes_by_listing_order() {
    // Two candidates share the newest time; the scan starts from the last
    // one, and an earlier candidate only wins when strictly newer.
    let entries = vec![
        file_entry("first-1.0.pkg.tar.zst", true, 500),
        file_entry("second-1.0.pkg.tar.zst", true, 500),
    ];
    let r = get_latest_build_package("/aur/pkg", &entries);
    assert_eq!(r, Ok("/aur/pkg/second-1.0.pkg.tar.zst".to_string()));
}

#[test]
fn pkg_file_name_suffix_convention() {
    assert!(is_pkg_file_name("yofi-bin-1.0-1-x86_64.pkg.tar.zst"));
    assert!(is_pkg_file_name("a.zst"));
    assert!(is_pkg_file_name("zst"));
    assert!(!is_pkg_file_name("a.zst.sig"));
    assert!(!is_pkg_file_name("azst"));
    assert!(!is_pkg_file_name("a.tar"));
    assert!(!is_pkg_file_name(""));
}

#[test]
fn join_path_inserts_separator_only_when_needed() {
    assert_eq!(join_path("/aur", "pkg"), "/aur/pkg");
    assert_eq!(join_path("/aur/", "pkg"), "/aur/pkg");
    assert_eq!(join_path("", "pkg"), "pkg");
}

#[test]
fn pkg_name_from_link_cuts_path_and_extension() {
    assert_eq!(pkg_name_from_link("https://aur.archlinux.org/yofi-bin.git"), "yofi-bin");
    assert_eq!(pkg_name_from_link("plain-name"), "plain-name");
    assert_eq!(pkg_name_from_link("a/b.c.d"), "b");
    assert_eq!(pkg_name_from_link("https://aur.archlinux.org/trailing/"), "");
}

#[test]
fn download_partitions_by_outcome() {
    let links = strings(&[
        "https://aur.archlinux.org/good.git",
        "https://aur.archlinux.org/unlaunchable.git",
        "https://aur.archlinux.org/clone-refused.git",
    ]);
    let outcomes = vec![
        CloneOutcome::Exited(ok_status()),
        CloneOutcome::LaunchFailed,
        CloneOutcome::Exited(bad_status(128)),
    ];
    let r = download_packages_from_git("/aur", links, &outcomes);
    let (cloned, failed) = r.unwrap_err();
    // The launch failure lands in the failure list; the clone that ran and
    // failed is dropped silently, as the tool has always done.
    assert_eq!(cloned, strings(&["/aur/good"]));
    assert_eq!(failed, strings(&["https://aur.archlinux.org/unlaunchable.git"]));
}

#[test]
fn download_all_good_is_ok() {
    let links = strings(&["https://aur.archlinux.org/one.git", "two"]);
    let outcomes = vec![CloneOutcome::Exited(ok_status()), CloneOutcome::Exited(ok_status())];
    let r = download_packages_from_git("/aur", links, &outcomes);
    assert_eq!(r, Ok(strings(&["/aur/one", "/aur/two"])));
}

#[test]
fn remove_uninstalled_dirs_builds_rm_command() {
    let cmd = remove_uninstalled_dirs(strings(&["/aur/a", "/aur/b"])).unwrap();
    assert_eq!(cmd.program, "rm");
    assert_eq!(cmd.args, strings(&["-R", "-f", "/aur/a", "/aur/b"]));
}

#[test]
fn remove_uninstalled_dirs_empty_is_none() {
    assert_eq!(remove_uninstalled_dirs(Vec::new()), None);
}

#[test]
fn install_packages_selects_and_reports() {
    let dirs = strings(&["/aur/good", "/aur/unreadable", "/aur/bare"]);
    let listings = vec![
        Some(vec![
            file_entry("good-1-1.pkg.tar.zst", true, 10),
            file_entry("good-2-1.pkg.tar.zst", true, 20),
        ]),
        None,
        Some(vec![file_entry("PKGBUILD", true, 5)]),
    ];
    let (cmd, failed) = install_packages(&dirs, &listings).unwrap_err();
    assert_eq!(cmd.program, "sudo");
    assert_eq!(cmd.args, strings(&["pacman", "-U", "/aur/good/good-2-1.pkg.tar.zst"]));
    assert_eq!(failed, strings(&["/aur/unreadable", "/aur/bare"]));
}

#[test]
fn install_packages_all_found_is_ok() {
    let dirs = strings(&["/aur/one"]);
    let listings = vec![Some(vec![file_entry("one-1-1.pkg.tar.zst", true, 7)])];
    let cmd: CommandSpec = install_packages(&dirs, &listings).unwrap();
    assert_eq!(cmd.program, "sudo");
    assert_eq!(cmd.args, strings(&["pacman", "-U", "/aur/one/one-1-1.pkg.tar.zst"]));
}

#[test]
fn check_installed_keeps_flagged_paths() {
    let paths = strings(&["/aur/a", "/aur/b", "/aur/c"]);
    let installed = vec![true, false, true];
    assert_eq!(check_installed(paths, &installed), strings(&["/aur/a", "/aur/c"]));
}

#[test]
fn get_set_diff_against_empty_subset_keeps_everything_once() {
    let bigger = strings(&["/aur/a", "/aur/b", "/aur/a"]);
    let diff = get_set_diff(bigger, Vec::new());
    assert_eq!(sorted(diff), strings(&["/aur/a", "/aur/b"]));
}

#[test]
fn get_set_diff_of_empty_input_is_empty() {
    assert_eq!(get_set_diff(Vec::new(), strings(&["/aur/a"])), Vec::<String>::new());
}

#[test]
fn join_path_with_empty_component() {
    assert_eq!(join_path("/aur", ""), "/aur/");
    assert_eq!(join_path("", ""), "");
}

#[test]
fn pkg_name_from_link_of_empty_link() {
    assert_eq!(pkg_name_from_link(""), "");
}

#[test]
fn update_packages_empty_input() {
    let r = update_packages(Vec::new(), &Vec::new());
    assert_eq!(r, Ok(Vec::new()));
}

#[test]
fn string_helpers() {
    assert!(str_eq("abc", "abc"));
    assert!(!str_eq("abc", "abd"));
    assert!(!str_eq("abc", "abcd"));
    assert_eq!(find_first_char("a.b.c", '.'), Some(1));
    assert_eq!(find_last_char("a.b.c", '.'), Some(3));
    assert_eq!(find_first_char("abc", '.'), None);
    assert_eq!(find_last_char("abc", '.'), None);
    let haystack = strings(&["one", "two"]);
    assert!(contains_string(&haystack, &"two".to_string()));
    assert!(!contains_string(&haystack, &"three".to_string()));
}
