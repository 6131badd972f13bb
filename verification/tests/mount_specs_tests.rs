use epkg::mount_specs::{
    add_epkg_bin_dir_mount, add_epkg_mount_specs, build_vm_mount_policy, is_path_covered_by,
    parse_mount_spec, resolve_and_filter_mount_specs, windows_drive_mount_specs, EpkgDirs,
    MountPolicyInputs,
};

fn strs(v: &[&str]) -> Vec<String> {
    v.iter().map(|s| s.to_string()).collect()
}

fn entry(h: &str, g: &str, ro: bool, t: bool) -> (String, String, bool, bool) {
    (h.to_string(), g.to_string(), ro, t)
}

fn dirs() -> EpkgDirs {
    EpkgDirs {
        home_epkg: "/home/u/.epkg".to_string(),
        home_cache: "/home/u/.cache/epkg".to_string(),
        opt_epkg: "/opt/epkg".to_string(),
    }
}

#[test]
fn parses_specs() {
    assert_eq!(parse_mount_spec("/a", "/env", false), Some(entry("/a", "/a", false, false)));
    assert_eq!(parse_mount_spec("/a:ro,try", "/env", false), Some(entry("/a", "/a", true, true)));
    assert_eq!(parse_mount_spec("/a:try", "/env", false), Some(entry("/a", "/a", false, true)));
    assert_eq!(parse_mount_spec("/a:rw", "/env", false), Some(entry("/a", "/a", false, false)));
    assert_eq!(parse_mount_spec("/a:/b", "/env", false), Some(entry("/a", "/b", false, false)));
    assert_eq!(parse_mount_spec("/a:/b:ro", "/env", false), Some(entry("/a", "/b", true, false)));
    assert_eq!(parse_mount_spec("/h:///g", "/env", false), Some(entry("/h", "/g", false, false)));
    assert_eq!(parse_mount_spec("@x:@y:try", "/env", false), Some(entry("/env/x", "/env/y", false, true)));
    assert_eq!(parse_mount_spec("@x:@/abs", "/env/", false), Some(entry("/env/x", "/abs", false, false)));
    assert_eq!(parse_mount_spec("@", "/env", false), Some(entry("/env/", "/env/", false, false)));
    assert_eq!(parse_mount_spec("//a", "/env", false), Some(entry("//a", "a", false, false)));
}

#[test]
fn coverage_is_by_components() {
    assert!(is_path_covered_by("/a/b", &strs(&["/a"]), false));
    assert!(is_path_covered_by("/a", &strs(&["/a/"]), false));
    assert!(!is_path_covered_by("/ab", &strs(&["/a"]), false));
    assert!(is_path_covered_by("/a/./b", &strs(&["/a/b"]), false));
    assert!(is_path_covered_by("/a//b/c", &strs(&["/x", "/a/b"]), false));
    assert!(!is_path_covered_by("/a", &strs(&["/a/b"]), false));
    assert!(!is_path_covered_by("/a", &strs(&[]), false));
    assert!(!is_path_covered_by("a/b", &strs(&["/a"]), false));
    assert!(!is_path_covered_by("./a", &strs(&["a"]), false));
}

#[test]
fn filtering_keeps_uncovered_resolved_specs() {
    let specs = strs(&["/a:ro", "/a/b", "/c", "/d:/guest:try", "/e"]);
    let resolved = vec![
        Some("/a".to_string()),
        Some("/a/b".to_string()),
        None,
        Some("/real/d".to_string()),
        Some("/real/d/e".to_string()),
    ];
    let out = resolve_and_filter_mount_specs(&specs, "/env", &resolved, false);
    assert_eq!(out, vec![entry("/a", "/a", true, false), entry("/real/d", "/guest", false, true)]);
}

#[test]
fn filtered_entries_never_cover_each_other() {
    let specs = strs(&["/x/y", "/x", "/x/y/z", "/w"]);
    let resolved: Vec<Option<String>> = specs.iter().map(|s| Some(s.clone())).collect();
    let out = resolve_and_filter_mount_specs(&specs, "/env", &resolved, false);
    assert_eq!(out.len(), 3);
    for j in 0..out.len() {
        let earlier: Vec<String> = out[..j].iter().map(|e| e.0.clone()).collect();
        assert!(!is_path_covered_by(&out[j].0, &earlier, false));
    }
}

#[test]
fn epkg_specs() {
    let mut specs = Vec::new();
    add_epkg_mount_specs(&mut specs, &dirs(), Some("/home/u/.epkg/bin"), false);
    assert_eq!(specs, strs(&["/home/u/.epkg:try", "/home/u/.cache/epkg:try", "/opt/epkg:ro,try"]));
    let mut more = vec!["keep".to_string()];
    add_epkg_mount_specs(&mut more, &dirs(), Some("/work/target/debug"), false);
    assert_eq!(more, strs(&["keep", "/home/u/.epkg:try", "/home/u/.cache/epkg:try", "/opt/epkg:ro,try", "/work/target/debug:ro"]));
    let mut none = Vec::new();
    add_epkg_bin_dir_mount(&mut none, &dirs(), None, false);
    assert!(none.is_empty());
    add_epkg_bin_dir_mount(&mut none, &dirs(), Some("/opt/epkg/x/bin"), false);
    assert!(none.is_empty());
    add_epkg_bin_dir_mount(&mut none, &dirs(), Some("/opt/epkgx/bin"), false);
    assert_eq!(none, strs(&["/opt/epkgx/bin:ro"]));
}

#[test]
fn epkg_specs_parse_back() {
    let mut specs = Vec::new();
    add_epkg_mount_specs(&mut specs, &dirs(), Some("/work/bin"), false);
    let parsed: Vec<_> = specs.iter().map(|s| parse_mount_spec(s, "/env", false).unwrap()).collect();
    assert_eq!(parsed[0], entry("/home/u/.epkg", "/home/u/.epkg", false, true));
    assert_eq!(parsed[1], entry("/home/u/.cache/epkg", "/home/u/.cache/epkg", false, true));
    assert_eq!(parsed[2], entry("/opt/epkg", "/opt/epkg", true, true));
    assert_eq!(parsed[3], entry("/work/bin", "/work/bin", true, false));
}

#[test]
fn drive_specs() {
    let entries = vec![
        ("c".to_string(), true),
        ("d".to_string(), false),
        ("wsl".to_string(), true),
        ("1".to_string(), true),
        ("Z".to_string(), true),
        ("é".to_string(), true),
    ];
    assert_eq!(windows_drive_mount_specs(&entries), strs(&["/mnt/c:try", "/mnt/Z:try"]));
}

#[test]
fn vm_mount_policy() {
    let inputs = MountPolicyInputs {
        dirs: dirs(),
        epkg_bin_dir: Some("/home/u/.epkg/bin".to_string()),
        lib_modules: true,
        user_mount_specs: strs(&["/data:ro"]),
        chdir_to_env_root: false,
        cwd: Some("/work".to_string()),
        drive_specs: strs(&["/mnt/c:try"]),
        windows: false,
    };
    assert_eq!(
        build_vm_mount_policy(&inputs),
        strs(&[
            "/home/u/.epkg:try",
            "/home/u/.cache/epkg:try",
            "/opt/epkg:ro,try",
            "/lib/modules:ro,try",
            "/data:ro",
            "/work:///work",
            "/mnt/c:try",
        ])
    );
    let quiet = MountPolicyInputs {
        dirs: dirs(),
        epkg_bin_dir: None,
        lib_modules: false,
        user_mount_specs: vec![],
        chdir_to_env_root: true,
        cwd: Some("/work".to_string()),
        drive_specs: vec![],
        windows: false,
    };
    assert_eq!(build_vm_mount_policy(&quiet), strs(&["/home/u/.epkg:try", "/home/u/.cache/epkg:try", "/opt/epkg:ro,try"]));
    let relative = MountPolicyInputs { chdir_to_env_root: false, cwd: Some("rel".to_string()), ..quiet };
    assert_eq!(build_vm_mount_policy(&relative).len(), 3);
}

#[test]
fn only_earlier_mounts_cover_later_ones() {
    let resolved = |specs: &[String]| -> Vec<Option<String>> {
        specs.iter().map(|s| Some(s.split(':').next().unwrap().to_string())).collect()
    };
    let first = strs(&["/a:try", "/a/b:ro"]);
    assert_eq!(resolve_and_filter_mount_specs(&first, "/r", &resolved(&first), false), vec![entry("/a", "/a", false, true)]);
    let second = strs(&["/a/b:ro", "/a:try"]);
    assert_eq!(
        resolve_and_filter_mount_specs(&second, "/r", &resolved(&second), false),
        vec![entry("/a/b", "/a/b", true, false), entry("/a", "/a", false, true)]
    );
}


fn win_dirs() -> EpkgDirs {
    EpkgDirs {
        home_epkg: r"C:\Users\u\.epkg".to_string(),
        home_cache: r"C:\Users\u\AppData\Local\epkg".to_string(),
        opt_epkg: r"C:\ProgramData\epkg".to_string(),
    }
}

#[test]
fn windows_coverage_reads_backslashes_and_prefixes() {
    assert!(is_path_covered_by(r"\\?\C:\a\b", &strs(&[r"\\?\C:\a"]), true));
    assert!(!is_path_covered_by(r"\\?\C:\a\b", &strs(&[r"\\?\C:\a"]), false));
    assert!(is_path_covered_by(r"C:\a\b", &strs(&["c:/a"]), true));
    assert!(!is_path_covered_by(r"C:\a\b", &strs(&[r"\\?\C:\a"]), true));
    assert!(!is_path_covered_by(r"\\?\C:\ab", &strs(&[r"\\?\C:\a"]), true));
    assert!(is_path_covered_by(r"\\server\share\x", &strs(&["//server/share"]), true));
    assert!(!is_path_covered_by(r"\\?\D:\a", &strs(&[r"\\?\C:\a"]), true));
}

#[test]
fn windows_filtering_drops_covered_dirs() {
    let specs = strs(&["@a", "@a/b:ro", "@c:try"]);
    let resolved = vec![
        Some(r"\\?\C:\env\a".to_string()),
        Some(r"\\?\C:\env\a\b".to_string()),
        Some(r"\\?\C:\env\c".to_string()),
    ];
    let out = resolve_and_filter_mount_specs(&specs, r"C:\env", &resolved, true);
    assert_eq!(
        out,
        vec![entry(r"\\?\C:\env\a", r"C:\env\a", false, false), entry(r"\\?\C:\env\c", r"C:\env\c", false, true)]
    );
}

#[test]
fn windows_joins_use_backslashes() {
    assert_eq!(parse_mount_spec("@x", r"C:\env", true), Some(entry(r"C:\env\x", r"C:\env\x", false, false)));
    assert_eq!(parse_mount_spec("@x", "C:/env/", true), Some(entry("C:/env/x", "C:/env/x", false, false)));
    assert_eq!(parse_mount_spec("@x/../y", r"\\?\C:\env", true), Some(entry(r"\\?\C:\env\y", r"\\?\C:\env\y", false, false)));
    assert_eq!(parse_mount_spec(r"@\top", r"C:\env", true), Some(entry(r"C:\top", r"C:\top", false, false)));
    assert_eq!(parse_mount_spec("@x", "/env", true), Some(entry(r"/env\x", r"/env\x", false, false)));
    assert_eq!(parse_mount_spec(r"C:\data", "/env", true), Some(entry("C", r"\data", false, false)));
}

#[test]
fn windows_bin_dir_inside_home_epkg_adds_nothing() {
    let mut specs = Vec::new();
    add_epkg_mount_specs(&mut specs, &win_dirs(), Some(r"C:\Users\u\.epkg\bin"), true);
    assert_eq!(
        specs,
        strs(&[r"C:\Users\u\.epkg:try", r"C:\Users\u\AppData\Local\epkg:try", r"C:\ProgramData\epkg:ro,try"])
    );
    let mut unix_read = Vec::new();
    add_epkg_bin_dir_mount(&mut unix_read, &win_dirs(), Some(r"C:\Users\u\.epkg\bin"), false);
    assert_eq!(unix_read, strs(&[r"C:\Users\u\.epkg\bin:ro"]));
    let mut outside = Vec::new();
    add_epkg_bin_dir_mount(&mut outside, &win_dirs(), Some(r"D:\build\target\debug"), true);
    assert_eq!(outside, strs(&[r"D:\build\target\debug:ro"]));
}

#[test]
fn windows_vm_mount_policy_mounts_absolute_cwd() {
    let inputs = MountPolicyInputs {
        dirs: win_dirs(),
        epkg_bin_dir: None,
        lib_modules: false,
        user_mount_specs: vec![],
        chdir_to_env_root: false,
        cwd: Some(r"C:\work".to_string()),
        drive_specs: vec![],
        windows: true,
    };
    assert_eq!(build_vm_mount_policy(&inputs).last().unwrap(), r"C:\work://C:\work");
    let drive_relative = MountPolicyInputs { cwd: Some("C:work".to_string()), ..inputs };
    assert_eq!(build_vm_mount_policy(&drive_relative).len(), 3);
}
