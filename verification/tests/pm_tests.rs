use epkg::busybox::pm::{
    apk_action, apply_common_options, apt_action, dnf_action, pkgkey_name, provides_lines,
    ApkParams, AptParams, DnfParams, PmAction, PmConfig, PmParams,
};

fn strs(v: &[&str]) -> Vec<String> {
    v.iter().map(|s| s.to_string()).collect()
}

fn apk(sub: &str, p: &[&str]) -> PmAction {
    apk_action(&ApkParams { subcmd: sub.to_string(), packages: strs(p) })
}

fn apt(sub: &str, p: &[&str]) -> PmAction {
    apt_action(&AptParams { subcmd: sub.to_string(), packages: strs(p), assume_yes: false })
}

fn dnf(sub: &str, p: &[&str]) -> PmAction {
    dnf_action(&DnfParams { subcmd: sub.to_string(), packages: strs(p), assume_yes: true })
}

#[test]
fn assume_yes_is_only_ever_turned_on() {
    let mut c = PmConfig { assume_yes: false };
    apply_common_options(&PmParams { assume_yes: false }, &mut c);
    assert!(!c.assume_yes);
    apply_common_options(&PmParams { assume_yes: true }, &mut c);
    assert!(c.assume_yes);
    apply_common_options(&PmParams { assume_yes: false }, &mut c);
    assert!(c.assume_yes);
}

#[test]
fn apk_subcommands() {
    assert!(matches!(apk("add", &["vim"]), PmAction::Install(p) if p == strs(&["vim"])));
    assert!(matches!(apk("del", &["vim"]), PmAction::Remove(p) if p == strs(&["vim"])));
    assert!(matches!(apk("update", &[]), PmAction::Update(l) if l == strs(&["OK: repository index updated"])));
    assert!(matches!(apk("upgrade", &["a"]), PmAction::Upgrade(p) if p == strs(&["a"])));
    assert!(matches!(apk("search", &["x", "y"]), PmAction::Search(p) if p == strs(&["x", "y"])));
    assert!(matches!(apk("info", &[]), PmAction::Info(p) if p.is_empty()));
    assert!(matches!(apk("list", &[]), PmAction::List(None)));
    assert!(matches!(apk("bogus", &[]), PmAction::Unknown(m) if m == "apk: unknown command 'bogus'"));
    assert!(matches!(apk("help", &[]), PmAction::Unknown(m) if m == "apk: unknown command 'help'"));
}

#[test]
fn apt_subcommands() {
    assert!(matches!(apt("install", &["vim"]), PmAction::Install(p) if p == strs(&["vim"])));
    assert!(matches!(apt("purge", &["vim"]), PmAction::Remove(p) if p == strs(&["vim"])));
    assert!(matches!(apt("remove", &["vim"]), PmAction::Remove(p) if p == strs(&["vim"])));
    assert!(matches!(apt("update", &[]), PmAction::Update(l) if l == strs(&["Get:1 repository metadata updated", "Fetched metadata in 0s"])));
    assert!(matches!(apt("full-upgrade", &["x"]), PmAction::Upgrade(p) if p.is_empty()));
    assert!(matches!(apt("upgrade", &["x"]), PmAction::Upgrade(p) if p.is_empty()));
    assert!(matches!(apt("show", &["x"]), PmAction::Info(p) if p == strs(&["x"])));
    assert!(matches!(apt("list", &["x"]), PmAction::List(None)));
    assert!(matches!(apt("info", &[]), PmAction::Unknown(m) if m == "apt: unknown command 'info'"));
}

#[test]
fn dnf_subcommands() {
    assert!(matches!(dnf("install", &["vim"]), PmAction::Install(p) if p == strs(&["vim"])));
    assert!(matches!(dnf("update", &[]), PmAction::Update(l) if l == strs(&["Metadata updated."])));
    assert!(matches!(dnf("upgrade", &["a"]), PmAction::Upgrade(p) if p == strs(&["a"])));
    assert!(matches!(dnf("list", &[]), PmAction::List(Some(h)) if h == "Installed packages:"));
    assert!(matches!(dnf("provides", &["/bin/sh"]), PmAction::Provides(p) if p == strs(&["/bin/sh"])));
    assert!(matches!(dnf("purge", &[]), PmAction::Unknown(m) if m == "dnf: unknown command 'purge'"));
}

#[test]
fn package_key_names() {
    assert_eq!(pkgkey_name("bash__5.1__x86_64"), "bash");
    assert_eq!(pkgkey_name("nokey"), "nokey");
    assert_eq!(pkgkey_name("a_b__c"), "a_b");
    assert_eq!(pkgkey_name("__x"), "");
    assert_eq!(pkgkey_name("x_"), "x_");
    assert_eq!(pkgkey_name(""), "");
}

#[test]
fn provides_output() {
    assert_eq!(provides_lines("/bin/sh", &[]), strs(&["No package provides '/bin/sh'."]));
    assert_eq!(
        provides_lines("/bin/sh", &strs(&["bash__5__x", "dash__0.5__x"])),
        strs(&["bash provides /bin/sh", "dash provides /bin/sh"])
    );
}
