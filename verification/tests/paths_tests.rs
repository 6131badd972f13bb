use epkg::paths::{join_path, path_components, path_is_absolute, starts_with_path};
use std::path::Path;

fn cv(s: &str) -> Vec<char> {
    s.chars().collect()
}

fn text(v: &[char]) -> String {
    v.iter().collect()
}

fn join(a: &str, b: &str, windows: bool) -> String {
    text(&join_path(&cv(a), &cv(b), windows))
}

fn comps(p: &str, windows: bool) -> Vec<String> {
    path_components(&cv(p), windows).iter().map(|c| text(c)).collect()
}

fn under(p: &str, base: &str, windows: bool) -> bool {
    starts_with_path(&cv(p), &cv(base), windows)
}

const UNIX_SAMPLES: [&str; 14] = [
    "", "/", "//", "a", "/a", "/a/", "a/b", "./a", ".", "..", "/a/./b", "/a/../b", "a//b/", ".a/./",
];

#[test]
fn unix_model_agrees_with_std_on_this_host() {
    for a in UNIX_SAMPLES {
        assert_eq!(path_is_absolute(&cv(a), false), Path::new(a).is_absolute(), "{a}");
        assert_eq!(comps(a, false).len(), Path::new(a).components().count(), "{a}");
        for b in UNIX_SAMPLES {
            let joined = Path::new(a).join(b);
            assert_eq!(join(a, b, false), joined.to_str().unwrap(), "{a} + {b}");
            assert_eq!(under(a, b, false), Path::new(a).starts_with(b), "{a} under {b}");
        }
    }
}

#[test]
fn windows_prefixes() {
    assert_eq!(comps(r"C:\Users\u\.epkg\bin", true), vec!["pdC", "r", "nUsers", "nu", "n.epkg", "nbin"]);
    assert_eq!(comps("c:x", true), vec!["pdC", "nx"]);
    assert_eq!(comps(r"\\?\C:\a/b", true), vec!["peC", "r", "na/b"]);
    assert_eq!(comps(r"\\?\UNC\srv\sh\x", true), vec![r"pwsrv\sh", "r", "nx"]);
    assert_eq!(comps(r"\\?\pictures\kittens", true), vec!["pvpictures", "r", "nkittens"]);
    assert_eq!(comps(r"\\.\BrainInterface", true), vec!["pnBrainInterface", "r"]);
    assert_eq!(comps(r"\\server\share", true), vec![r"puserver\share", "r"]);
    assert_eq!(comps(r"\\server", true), vec!["r", "nserver"]);
    assert_eq!(comps(r".\a\..\b", true), vec!["n.", "na", "n..", "nb"]);
    assert_eq!(comps(r"\\?\C:\a\.\..", true), vec!["peC", "r", "na", "n.", "n.."]);
}

#[test]
fn windows_absolute_paths() {
    assert!(path_is_absolute(&cv(r"C:\x"), true));
    assert!(!path_is_absolute(&cv("C:x"), true));
    assert!(!path_is_absolute(&cv(r"\x"), true));
    assert!(!path_is_absolute(&cv("/x"), true));
    assert!(path_is_absolute(&cv("/x"), false));
    assert!(path_is_absolute(&cv(r"\\server\share"), true));
    assert!(path_is_absolute(&cv(r"\\?\pictures"), true));
}

#[test]
fn windows_joins() {
    assert_eq!(join(r"C:\env", "x", true), r"C:\env\x");
    assert_eq!(join(r"C:\env\", "x", true), r"C:\env\x");
    assert_eq!(join("C:", "x", true), "C:x");
    assert_eq!(join(r"C:\env", r"D:\y", true), r"D:\y");
    assert_eq!(join(r"C:\env", "D:y", true), "D:y");
    assert_eq!(join(r"C:\env", r"\y", true), r"C:\y");
    assert_eq!(join(r"\\?\C:\env", "a/b", true), r"\\?\C:\env\a\b");
    assert_eq!(join(r"\\?\C:\env", r"..\x", true), r"\\?\C:\x");
    assert_eq!(join(r"\\?\C:\env", r".\x", true), r"\\?\C:\env\x");
    assert_eq!(join(r"\\?\C:\env", r"\x", true), r"\\?\C:\x");
    assert_eq!(join(r"\\?\C:", "x", true), r"\\?\C:\x");
    assert_eq!(join(r"\\?\C:\env", "", true), r"\\?\C:\env\");
    assert_eq!(join("/env", "x", true), r"/env\x");
}

#[test]
fn windows_starts_with() {
    assert!(under(r"\\?\C:\a\b", r"\\?\C:\a", true));
    assert!(under(r"C:\a\b", "c:/a", true));
    assert!(!under(r"C:\a\b", r"\\?\C:\a", true));
    assert!(!under(r"C:\ab", r"C:\a", true));
    assert!(under(r"\\server\share\x", "//server/share", true));
    assert!(!under(r"\\?\C:\a\b", r"\\?\C:\a", false));
}
