//! Package-manager compatibility shims (`apk`, `apt`/`apt-get`, `dnf`/`yum`): what each
//! subcommand asks of the epkg backend, and the lines the shims print.
use vstd::prelude::*;
use crate::text::{chars_of, string_from_chars, push_str, push_all, str_eq};

verus! {

/// Parameters shared by the package-manager shims.
pub struct PmParams {
    /// `-y` / `--assume-yes`: answer yes to all prompts.
    pub assume_yes: bool,
}

/// The part of the epkg configuration the shims set.
pub struct PmConfig {
    pub assume_yes: bool,
}

/// Applies the common parameters to the configuration: `-y` turns on assume-yes, and
/// nothing turns it off.
pub fn apply_common_options(params: &PmParams, config: &mut PmConfig)
    ensures
        final(config).assume_yes == (old(config).assume_yes || params.assume_yes),
{
    if params.assume_yes {
        config.assume_yes = true;
    }
}

/// Parameters of the `apk` shim.
pub struct ApkParams {
    pub subcmd: String,
    pub packages: Vec<String>,
}

/// Parameters of the `apt` (and `apt-get`) shim.
pub struct AptParams {
    pub subcmd: String,
    pub packages: Vec<String>,
    pub assume_yes: bool,
}

/// Parameters of the `dnf` (and `yum`) shim.
pub struct DnfParams {
    pub subcmd: String,
    pub packages: Vec<String>,
    pub assume_yes: bool,
}

/// What a shim asks of the epkg backend.
pub enum PmAction {
    Install(Vec<String>),
    Remove(Vec<String>),
    /// Sync repository metadata, then print these lines.
    Update(Vec<String>),
    /// Upgrade these packages (all when empty).
    Upgrade(Vec<String>),
    /// Search the repositories for each pattern.
    Search(Vec<String>),
    Info(Vec<String>),
    /// List installed packages, after this header line if any.
    List(Option<String>),
    /// Report which installed package owns each file or capability.
    Provides(Vec<String>),
    /// An unknown subcommand: print this on standard error and exit with status 1.
    Unknown(String),
}

/// The spec view of a [`PmAction`].
pub enum SpecPmAction {
    Install(Seq<Seq<char>>),
    Remove(Seq<Seq<char>>),
    Update(Seq<Seq<char>>),
    Upgrade(Seq<Seq<char>>),
    Search(Seq<Seq<char>>),
    Info(Seq<Seq<char>>),
    List(Option<Seq<char>>),
    Provides(Seq<Seq<char>>),
    Unknown(Seq<char>),
}

/// The views of a list of strings.
pub open spec fn strings(v: Seq<String>) -> Seq<Seq<char>> {
    Seq::new(v.len(), |i: int| v[i]@)
}

impl View for PmAction {
    type V = SpecPmAction;

    open spec fn view(&self) -> SpecPmAction {
        match self {
            PmAction::Install(p) => SpecPmAction::Install(strings(p@)),
            PmAction::Remove(p) => SpecPmAction::Remove(strings(p@)),
            PmAction::Update(p) => SpecPmAction::Update(strings(p@)),
            PmAction::Upgrade(p) => SpecPmAction::Upgrade(strings(p@)),
            PmAction::Search(p) => SpecPmAction::Search(strings(p@)),
            PmAction::Info(p) => SpecPmAction::Info(strings(p@)),
            PmAction::List(h) => SpecPmAction::List(
                match h {
                    Some(s) => Some(s@),
                    None => None,
                },
            ),
            PmAction::Provides(p) => SpecPmAction::Provides(strings(p@)),
            PmAction::Unknown(m) => SpecPmAction::Unknown(m@),
        }
    }
}

/// The message for an unknown subcommand: `TOOL: unknown command 'SUBCMD'`.
pub open spec fn unknown_command(tool: Seq<char>, subcmd: Seq<char>) -> Seq<char> {
    tool + ": unknown command '"@ + subcmd + seq!['\'']
}

/// `apk`: `add`, `del`, `update`, `upgrade` (the given packages), `search`, `info`, `list`.
pub open spec fn apk_spec(subcmd: Seq<char>, packages: Seq<Seq<char>>) -> SpecPmAction {
    if subcmd == "add"@ {
        SpecPmAction::Install(packages)
    } else if subcmd == "del"@ {
        SpecPmAction::Remove(packages)
    } else if subcmd == "update"@ {
        SpecPmAction::Update(seq!["OK: repository index updated"@])
    } else if subcmd == "upgrade"@ {
        SpecPmAction::Upgrade(packages)
    } else if subcmd == "search"@ {
        SpecPmAction::Search(packages)
    } else if subcmd == "info"@ {
        SpecPmAction::Info(packages)
    } else if subcmd == "list"@ {
        SpecPmAction::List(None)
    } else {
        SpecPmAction::Unknown(unknown_command("apk"@, subcmd))
    }
}

/// `apt`: `install`, `remove` and `purge` (both remove), `update`, `upgrade` and
/// `full-upgrade` (both upgrade everything), `search`, `show`, `list`.
pub open spec fn apt_spec(subcmd: Seq<char>, packages: Seq<Seq<char>>) -> SpecPmAction {
    if subcmd == "install"@ {
        SpecPmAction::Install(packages)
    } else if subcmd == "remove"@ || subcmd == "purge"@ {
        SpecPmAction::Remove(packages)
    } else if subcmd == "update"@ {
        SpecPmAction::Update(seq!["Get:1 repository metadata updated"@, "Fetched metadata in 0s"@])
    } else if subcmd == "upgrade"@ || subcmd == "full-upgrade"@ {
        SpecPmAction::Upgrade(seq![])
    } else if subcmd == "search"@ {
        SpecPmAction::Search(packages)
    } else if subcmd == "show"@ {
        SpecPmAction::Info(packages)
    } else if subcmd == "list"@ {
        SpecPmAction::List(None)
    } else {
        SpecPmAction::Unknown(unknown_command("apt"@, subcmd))
    }
}

/// `dnf`: `install`, `remove`, `update`, `upgrade` (the given packages), `search`,
/// `info`, `list` (after a header), `provides`.
pub open spec fn dnf_spec(subcmd: Seq<char>, packages: Seq<Seq<char>>) -> SpecPmAction {
    if subcmd == "install"@ {
        SpecPmAction::Install(packages)
    } else if subcmd == "remove"@ {
        SpecPmAction::Remove(packages)
    } else if subcmd == "update"@ {
        SpecPmAction::Update(seq!["Metadata updated."@])
    } else if subcmd == "upgrade"@ {
        SpecPmAction::Upgrade(packages)
    } else if subcmd == "search"@ {
        SpecPmAction::Search(packages)
    } else if subcmd == "info"@ {
        SpecPmAction::Info(packages)
    } else if subcmd == "list"@ {
        SpecPmAction::List(Some("Installed packages:"@))
    } else if subcmd == "provides"@ {
        SpecPmAction::Provides(packages)
    } else {
        SpecPmAction::Unknown(unknown_command("dnf"@, subcmd))
    }
}

fn copy_list(v: &Vec<String>) -> (r: Vec<String>)
    ensures
        strings(r@) == strings(v@),
{
    let mut r: Vec<String> = Vec::new();
    let mut i: usize = 0;
    while i < v.len()
        invariant
            i <= v@.len(),
            strings(r@) == strings(v@).take(i as int),
        decreases v@.len() - i,
    {
        let ghost b = strings(r@);
        r.push(v[i].clone());
        assert(strings(r@) =~= b.push(v@[i as int]@));
        assert(strings(v@).take(i + 1) =~= strings(v@).take(i as int).push(v@[i as int]@));
        i = i + 1;
    }
    assert(strings(v@).take(i as int) =~= strings(v@));
    r
}

fn unknown(tool: &str, subcmd: &str) -> (r: PmAction)
    ensures
        r@ == SpecPmAction::Unknown(unknown_command(tool@, subcmd@)),
{
    let mut m = chars_of(tool);
    push_str(&mut m, ": unknown command '");
    push_str(&mut m, subcmd);
    m.push('\'');
    assert(m@ =~= unknown_command(tool@, subcmd@));
    PmAction::Unknown(string_from_chars(&m))
}

fn lines1(a: &str) -> (r: Vec<String>)
    ensures
        strings(r@) == seq![a@],
{
    let mut r: Vec<String> = Vec::new();
    r.push(a.to_owned());
    assert(strings(r@) =~= seq![a@]);
    r
}

/// What `apk SUBCMD PACKAGES...` does ([`apk_spec`]).
pub fn apk_action(params: &ApkParams) -> (r: PmAction)
    ensures
        r@ == apk_spec(params.subcmd@, strings(params.packages@)),
{
    let s = params.subcmd.as_str();
    if str_eq(s, "add") {
        PmAction::Install(copy_list(&params.packages))
    } else if str_eq(s, "del") {
        PmAction::Remove(copy_list(&params.packages))
    } else if str_eq(s, "update") {
        PmAction::Update(lines1("OK: repository index updated"))
    } else if str_eq(s, "upgrade") {
        PmAction::Upgrade(copy_list(&params.packages))
    } else if str_eq(s, "search") {
        PmAction::Search(copy_list(&params.packages))
    } else if str_eq(s, "info") {
        PmAction::Info(copy_list(&params.packages))
    } else if str_eq(s, "list") {
        PmAction::List(None)
    } else {
        unknown("apk", s)
    }
}

/// What `apt SUBCMD PACKAGES...` does ([`apt_spec`]).
pub fn apt_action(params: &AptParams) -> (r: PmAction)
    ensures
        r@ == apt_spec(params.subcmd@, strings(params.packages@)),
{
    let s = params.subcmd.as_str();
    if str_eq(s, "install") {
        PmAction::Install(copy_list(&params.packages))
    } else if str_eq(s, "remove") || str_eq(s, "purge") {
        PmAction::Remove(copy_list(&params.packages))
    } else if str_eq(s, "update") {
        let mut r: Vec<String> = Vec::new();
        r.push("Get:1 repository metadata updated".to_owned());
        r.push("Fetched metadata in 0s".to_owned());
        assert(strings(r@) =~= seq!["Get:1 repository metadata updated"@, "Fetched metadata in 0s"@]);
        PmAction::Update(r)
    } else if str_eq(s, "upgrade") || str_eq(s, "full-upgrade") {
        let r: Vec<String> = Vec::new();
        assert(strings(r@) =~= Seq::<Seq<char>>::empty());
        PmAction::Upgrade(r)
    } else if str_eq(s, "search") {
        PmAction::Search(copy_list(&params.packages))
    } else if str_eq(s, "show") {
        PmAction::Info(copy_list(&params.packages))
    } else if str_eq(s, "list") {
        PmAction::List(None)
    } else {
        unknown("apt", s)
    }
}

/// What `dnf SUBCMD PACKAGES...` does ([`dnf_spec`]).
pub fn dnf_action(params: &DnfParams) -> (r: PmAction)
    ensures
        r@ == dnf_spec(params.subcmd@, strings(params.packages@)),
{
    let s = params.subcmd.as_str();
    if str_eq(s, "install") {
        PmAction::Install(copy_list(&params.packages))
    } else if str_eq(s, "remove") {
        PmAction::Remove(copy_list(&params.packages))
    } else if str_eq(s, "update") {
        PmAction::Update(lines1("Metadata updated."))
    } else if str_eq(s, "upgrade") {
        PmAction::Upgrade(copy_list(&params.packages))
    } else if str_eq(s, "search") {
        PmAction::Search(copy_list(&params.packages))
    } else if str_eq(s, "info") {
        PmAction::Info(copy_list(&params.packages))
    } else if str_eq(s, "list") {
        PmAction::List(Some("Installed packages:".to_owned()))
    } else if str_eq(s, "provides") {
        PmAction::Provides(copy_list(&params.packages))
    } else {
        unknown("dnf", s)
    }
}

/// The package name of a package key: the text before its first `__` (all of it when
/// there is none).
pub open spec fn key_name(key: Seq<char>) -> Seq<char>
    decreases key.len(),
{
    if key.len() < 2 {
        key
    } else if key[0] == '_' && key[1] == '_' {
        seq![]
    } else {
        seq![key[0]] + key_name(key.drop_first())
    }
}

/// The package name of a package key ([`key_name`]).
pub fn pkgkey_name(pkgkey: &str) -> (r: String)
    ensures
        r@ == key_name(pkgkey@),
{
    let v = chars_of(pkgkey);
    let mut out: Vec<char> = Vec::new();
    let mut i: usize = 0;
    assert(v@.skip(0) =~= v@);
    while i < v.len()
        invariant
            i <= v@.len(),
            v@ == pkgkey@,
            out@ + key_name(v@.skip(i as int)) == key_name(v@),
        decreases v@.len() - i,
    {
        let ghost rest = v@.skip(i as int);
        if i + 1 < v.len() && v[i] == '_' && v[i + 1] == '_' {
            assert(key_name(rest) == Seq::<char>::empty());
            assert(out@ + Seq::<char>::empty() =~= out@);
            return string_from_chars(&out);
        }
        if i + 1 >= v.len() {
            assert(rest.len() < 2);
            push_all(&mut out, &crate::text::slice_chars(&v, i, v.len()));
            assert(v@.subrange(i as int, v@.len() as int) =~= rest);
            return string_from_chars(&out);
        }
        let ghost before = out@;
        out.push(v[i]);
        assert(rest.drop_first() =~= v@.skip(i + 1));
        assert(before.push(v@[i as int]) + key_name(v@.skip(i + 1)) =~= before + (seq![rest[0]]
            + key_name(rest.drop_first())));
        i = i + 1;
    }
    assert(v@.skip(i as int) =~= Seq::<char>::empty());
    assert(out@ + Seq::<char>::empty() =~= out@);
    string_from_chars(&out)
}

/// The lines `dnf provides ITEM` prints given the keys of the installed packages that
/// own it: `NAME provides ITEM` for each, or `No package provides 'ITEM'.`.
pub open spec fn provides_text(item: Seq<char>, keys: Seq<Seq<char>>) -> Seq<Seq<char>> {
    if keys.len() == 0 {
        seq!["No package provides '"@ + item + "'."@]
    } else {
        Seq::new(keys.len(), |i: int| key_name(keys[i]) + " provides "@ + item)
    }
}

/// The lines for `dnf provides ITEM` ([`provides_text`]).
pub fn provides_lines(item: &str, pkgkeys: &[String]) -> (r: Vec<String>)
    ensures
        strings(r@) == provides_text(item@, Seq::new(pkgkeys@.len(), |i: int| pkgkeys@[i]@)),
{
    let ghost keys = Seq::new(pkgkeys@.len(), |i: int| pkgkeys@[i]@);
    let mut r: Vec<String> = Vec::new();
    if pkgkeys.len() == 0 {
        let mut m = chars_of("No package provides '");
        push_str(&mut m, item);
        push_str(&mut m, "'.");
        r.push(string_from_chars(&m));
        assert(strings(r@) =~= provides_text(item@, keys));
        return r;
    }
    let mut i: usize = 0;
    while i < pkgkeys.len()
        invariant
            i <= pkgkeys@.len(),
            keys == Seq::new(pkgkeys@.len(), |i: int| pkgkeys@[i]@),
            strings(r@) == Seq::new(i as nat, |j: int| key_name(keys[j]) + " provides "@ + item@),
        decreases pkgkeys@.len() - i,
    {
        let ghost b = strings(r@);
        let name = pkgkey_name(pkgkeys[i].as_str());
        let mut m = chars_of(name.as_str());
        push_str(&mut m, " provides ");
        push_str(&mut m, item);
        r.push(string_from_chars(&m));
        assert(strings(r@) =~= b.push(key_name(keys[i as int]) + " provides "@ + item@));
        i = i + 1;
        assert(strings(r@) =~= Seq::new(i as nat, |j: int| key_name(keys[j]) + " provides "@ + item@));
    }
    r
}

/// The shims agree on the requests they share: `dnf remove`, `apt remove`, `apt purge`
/// and `apk del` all remove the given packages, and `dnf install`, `apt install` and
/// `apk add` all install them; `search` searches in all three, and `dnf info`, `apt show`
/// and `apk info` show package details. A `dnf` subcommand asks for an install only when it is
/// `install` and for a removal only when it is `remove`.
pub proof fn lemma_shims_agree(subcmd: Seq<char>, packages: Seq<Seq<char>>)
    ensures
        dnf_spec("remove"@, packages) == SpecPmAction::Remove(packages),
        apt_spec("remove"@, packages) == SpecPmAction::Remove(packages),
        apt_spec("purge"@, packages) == SpecPmAction::Remove(packages),
        apk_spec("del"@, packages) == SpecPmAction::Remove(packages),
        dnf_spec("install"@, packages) == SpecPmAction::Install(packages),
        apt_spec("install"@, packages) == SpecPmAction::Install(packages),
        apk_spec("add"@, packages) == SpecPmAction::Install(packages),
        dnf_spec("search"@, packages) == SpecPmAction::Search(packages),
        apt_spec("search"@, packages) == SpecPmAction::Search(packages),
        apk_spec("search"@, packages) == SpecPmAction::Search(packages),
        dnf_spec("info"@, packages) == SpecPmAction::Info(packages),
        apt_spec("show"@, packages) == SpecPmAction::Info(packages),
        apk_spec("info"@, packages) == SpecPmAction::Info(packages),
        dnf_spec(subcmd, packages) is Install <==> subcmd == "install"@,
        dnf_spec(subcmd, packages) is Remove <==> subcmd == "remove"@,
{
    reveal_strlit("install");
    reveal_strlit("remove");
    reveal_strlit("purge");
    reveal_strlit("add");
    reveal_strlit("del");
    reveal_strlit("search");
    reveal_strlit("info");
    reveal_strlit("show");
    reveal_strlit("update");
    reveal_strlit("upgrade");
    reveal_strlit("full-upgrade");
    assert("remove"@[0] != "install"@[0]);
    assert("purge"@[0] != "install"@[0]);
    assert("purge"@[0] != "remove"@[0]);
    assert("del"@[0] != "add"@[0]);
    assert("search"@[0] != "install"@[0] && "search"@[0] != "remove"@[0] && "search"@[0]
        != "update"@[0] && "search"@[0] != "upgrade"@[0] && "search"@[0] != "purge"@[0]
        && "search"@[0] != "full-upgrade"@[0] && "search"@[0] != "add"@[0] && "search"@[0]
        != "del"@[0]);
    assert("info"@[2] != "install"@[2] && "info"@[0] != "remove"@[0] && "info"@[0]
        != "update"@[0] && "info"@[0] != "upgrade"@[0] && "info"@[0] != "search"@[0]
        && "info"@[0] != "add"@[0] && "info"@[0] != "del"@[0]);
    assert("show"@[0] != "install"@[0] && "show"@[0] != "remove"@[0] && "show"@[0]
        != "purge"@[0] && "show"@[0] != "update"@[0] && "show"@[0] != "upgrade"@[0]
        && "show"@[0] != "full-upgrade"@[0] && "show"@[1] != "search"@[1]);
}

} // verus!
