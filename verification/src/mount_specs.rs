//! Mount spec strings: cross-platform mount policy declarations.
//!
//! A spec reads `SOURCE`, `SOURCE:OPTIONS`, `SOURCE:TARGET` or `SOURCE:TARGET:OPTIONS`;
//! `@` at the start of a path stands for the environment root, `//` at the start of a
//! target for the root of the guest. Options include `ro` and `try`.
//!
//! Paths are strings read by the rules of `std::path` on the host ([`crate::paths`]):
//! every function that joins or compares paths takes `windows`, whether the host is
//! Windows.
use vstd::prelude::*;
use crate::text::{
    chars_of, string_from_chars, push_all, push_str, has_infix, has_prefix, has_char, contains_seq,
    contains_char, starts_with, starts_with_char, slice_chars,
};
use crate::paths::{
    chars_eq, components, is_absolute, is_ascii_alpha, join, join_path, path_is_absolute,
    path_starts_with, starts_with_path,
};

verus! {

// ---------------------------------------------------------------------------
// Splitting
// ---------------------------------------------------------------------------

/// `s` split at every `sep` (`str::split` with a character): never empty.
pub open spec fn split_on(s: Seq<char>, sep: char) -> Seq<Seq<char>>
    decreases s.len(),
{
    if s.len() == 0 {
        seq![seq![]]
    } else {
        let ps = split_on(s.drop_last(), sep);
        if s.last() == sep {
            ps.push(seq![])
        } else {
            ps.update(ps.len() - 1, ps.last().push(s.last()))
        }
    }
}

/// A split has at least one part.
pub proof fn lemma_split_nonempty(s: Seq<char>, sep: char)
    ensures
        split_on(s, sep).len() >= 1,
    decreases s.len(),
{
    if s.len() > 0 {
        lemma_split_nonempty(s.drop_last(), sep);
    }
}

/// The views of a vector of character vectors.
pub open spec fn views(v: Seq<Vec<char>>) -> Seq<Seq<char>> {
    Seq::new(v.len(), |i: int| v[i]@)
}

/// Splits `s` at every `sep`.
pub fn split_chars(s: &Vec<char>, sep: char) -> (r: Vec<Vec<char>>)
    ensures
        views(r@) == split_on(s@, sep),
        r@.len() >= 1,
{
    let mut parts: Vec<Vec<char>> = Vec::new();
    let mut cur: Vec<char> = Vec::new();
    let mut i: usize = 0;
    assert(s@.take(0) =~= Seq::<char>::empty());
    while i < s.len()
        invariant
            i <= s@.len(),
            views(parts@).push(cur@) == split_on(s@.take(i as int), sep),
        decreases s@.len() - i,
    {
        let ghost before = views(parts@).push(cur@);
        let c = s[i];
        proof {
            assert(s@.take(i + 1).drop_last() == s@.take(i as int));
            assert(s@.take(i + 1).last() == c);
            lemma_split_nonempty(s@.take(i as int), sep);
        }
        if c == sep {
            let done = cur;
            parts.push(done);
            cur = Vec::new();
            assert(views(parts@).push(cur@) =~= before.push(seq![]));
        } else {
            cur.push(c);
            assert(views(parts@).push(cur@) =~= before.update(
                before.len() - 1,
                before.last().push(c),
            ));
        }
        i = i + 1;
    }
    assert(s@.take(i as int) == s@);
    parts.push(cur);
    assert(views(parts@) =~= split_on(s@, sep));
    parts
}

// ---------------------------------------------------------------------------
// Parsing a mount spec
// ---------------------------------------------------------------------------

/// Whether the second of two `:`-separated parts is an option list rather than a target:
/// it holds a `,`, is `rw`, or starts with `ro` or `try`.
pub open spec fn is_option_part(p: Seq<char>) -> bool {
    has_char(p, ',') || p == seq!['r', 'w'] || has_prefix(p, seq!['r', 'o']) || has_prefix(
        p,
        seq!['t', 'r', 'y'],
    )
}

/// The source, target and options of a split spec.
pub open spec fn spec_roles(parts: Seq<Seq<char>>) -> (Seq<char>, Seq<char>, Seq<char>) {
    if parts.len() <= 1 {
        (parts[0], parts[0], seq![])
    } else if parts.len() == 2 {
        if is_option_part(parts[1]) {
            (parts[0], parts[0], parts[1])
        } else {
            (parts[0], parts[1], seq![])
        }
    } else {
        (parts[0], parts[1], parts[2])
    }
}

/// The host path of a source: `@rest` is `rest` under the environment root.
pub open spec fn host_of(source: Seq<char>, env_root: Seq<char>, windows: bool) -> Seq<char> {
    if starts_with_char(source, '@') {
        join(env_root, source.drop_first(), windows)
    } else {
        source
    }
}

/// The guest path of a target: `@rest` is under the environment root, `//rest` is `rest`.
pub open spec fn guest_of(target: Seq<char>, env_root: Seq<char>, windows: bool) -> Seq<char> {
    if starts_with_char(target, '@') {
        join(env_root, target.drop_first(), windows)
    } else if target.len() >= 2 && target[0] == '/' && target[1] == '/' {
        target.skip(2)
    } else {
        target
    }
}

/// A parsed mount spec: host path, guest path, read-only (the options hold `ro`) and
/// try-only (the options hold `try`).
pub open spec fn mount_spec(s: Seq<char>, env_root: Seq<char>, windows: bool) -> (Seq<char>, Seq<char>, bool, bool) {
    let r = spec_roles(split_on(s, ':'));
    (
        host_of(r.0, env_root, windows),
        guest_of(r.1, env_root, windows),
        has_infix(r.2, seq!['r', 'o']),
        has_infix(r.2, seq!['t', 'r', 'y']),
    )
}

/// The view of a parsed mount entry.
pub open spec fn entry_view(e: (String, String, bool, bool)) -> (Seq<char>, Seq<char>, bool, bool) {
    (e.0@, e.1@, e.2, e.3)
}

fn copy_chars(v: &Vec<char>) -> (r: Vec<char>)
    ensures
        r@ == v@,
{
    let r = slice_chars(v, 0, v.len());
    assert(r@ =~= v@);
    r
}

fn lit_vec(s: &str) -> (r: Vec<char>)
    ensures
        r@ == s@,
{
    chars_of(s)
}

/// Parses a mount spec ([`mount_spec`]); every string parses.
pub fn parse_mount_spec(spec_str: &str, env_root: &str, windows: bool) -> (r: Option<(String, String, bool, bool)>)
    ensures
        r matches Some(e) && entry_view(e) == mount_spec(spec_str@, env_root@, windows),
{
    let sv = chars_of(spec_str);
    let root = chars_of(env_root);
    let parts = split_chars(&sv, ':');
    let n = parts.len();
    let empty: Vec<char> = Vec::new();
    let (source, target, options) = if n == 1 {
        (copy_chars(&parts[0]), copy_chars(&parts[0]), empty)
    } else if n == 2 {
        let p1 = &parts[1];
        let rw = vec!['r', 'w'];
        let ro = vec!['r', 'o'];
        let tr = vec!['t', 'r', 'y'];
        assert(rw@ == seq!['r', 'w'] && ro@ == seq!['r', 'o'] && tr@ == seq!['t', 'r', 'y']);
        if contains_char(p1, ',') || chars_eq(p1, &rw) || starts_with(p1, &ro) || starts_with(p1, &tr) {
            (copy_chars(&parts[0]), copy_chars(&parts[0]), copy_chars(p1))
        } else {
            (copy_chars(&parts[0]), copy_chars(p1), empty)
        }
    } else {
        (copy_chars(&parts[0]), copy_chars(&parts[1]), copy_chars(&parts[2]))
    };
    assert(source@ == spec_roles(split_on(sv@, ':')).0);
    assert(target@ == spec_roles(split_on(sv@, ':')).1);
    assert(options@ == spec_roles(split_on(sv@, ':')).2);
    let host = if source.len() > 0 && source[0] == '@' {
        let rest = slice_chars(&source, 1, source.len());
        assert(rest@ == source@.drop_first());
        join_path(&root, &rest, windows)
    } else {
        source
    };
    let guest = if target.len() > 0 && target[0] == '@' {
        let rest = slice_chars(&target, 1, target.len());
        assert(rest@ == target@.drop_first());
        join_path(&root, &rest, windows)
    } else if target.len() >= 2 && target[0] == '/' && target[1] == '/' {
        slice_chars(&target, 2, target.len())
    } else {
        target
    };
    let ro = vec!['r', 'o'];
    let tr = vec!['t', 'r', 'y'];
    assert(ro@ == seq!['r', 'o'] && tr@ == seq!['t', 'r', 'y']);
    let read_only = contains_seq(&options, &ro);
    let try_only = contains_seq(&options, &tr);
    Some((string_from_chars(&host), string_from_chars(&guest), read_only, try_only))
}

// ---------------------------------------------------------------------------
// Coverage and filtering
// ---------------------------------------------------------------------------

/// Whether `path` equals or lies under one of `mounted` (component-wise).
pub open spec fn covered(path: Seq<char>, mounted: Seq<Seq<char>>, windows: bool) -> bool {
    exists|i: int|
        0 <= i < mounted.len() && (components(path, windows) == components(
            #[trigger] mounted[i],
            windows,
        ) || path_starts_with(path, mounted[i], windows))
}

fn covered_vec(path: &Vec<char>, mounted: &Vec<Vec<char>>, windows: bool) -> (b: bool)
    ensures
        b == covered(path@, views(mounted@), windows),
{
    let mut i: usize = 0;
    while i < mounted.len()
        invariant
            i <= mounted@.len(),
            forall|j: int|
                0 <= j < i ==> !(components(path@, windows) == components(
                    #[trigger] views(mounted@)[j],
                    windows,
                ) || path_starts_with(path@, views(mounted@)[j], windows)),
        decreases mounted@.len() - i,
    {
        if starts_with_path(path, &mounted[i], windows) {
            assert(path_starts_with(path@, views(mounted@)[i as int], windows));
            return true;
        }
        proof {
            let c = components(path@, windows);
            let m = components(views(mounted@)[i as int], windows);
            if c == m {
                assert(c.take(m.len() as int) =~= m);
            }
        }
        i = i + 1;
    }
    false
}

/// Whether `path` equals or lies under one of `mounted` ([`covered`]).
pub fn is_path_covered_by(path: &str, mounted: &[String], windows: bool) -> (b: bool)
    ensures
        b == covered(path@, Seq::new(mounted@.len(), |i: int| mounted@[i]@), windows),
{
    let p = chars_of(path);
    let mut ms: Vec<Vec<char>> = Vec::new();
    let mut i: usize = 0;
    while i < mounted.len()
        invariant
            i <= mounted@.len(),
            views(ms@) == Seq::new(i as nat, |j: int| mounted@[j]@),
        decreases mounted@.len() - i,
    {
        let ghost before = views(ms@);
        let m = chars_of(mounted[i].as_str());
        assert(m@ == mounted@[i as int]@);
        ms.push(m);
        assert(views(ms@) =~= before.push(mounted@[i as int]@));
        i = i + 1;
        assert(views(ms@) =~= Seq::new(i as nat, |j: int| mounted@[j]@));
    }
    covered_vec(&p, &ms, windows)
}

/// The host paths of filtered entries.
pub open spec fn hosts(entries: Seq<(Seq<char>, Seq<char>, bool, bool)>) -> Seq<Seq<char>> {
    Seq::new(entries.len(), |i: int| entries[i].0)
}

/// The entries kept from the first `n` specs: a spec whose host path resolves (to an
/// existing directory, canonicalized: `resolved[i]`) is kept with the canonical path,
/// unless an entry already kept covers it.
pub open spec fn filtered(
    specs: Seq<Seq<char>>,
    env_root: Seq<char>,
    resolved: Seq<Option<Seq<char>>>,
    n: int,
    windows: bool,
) -> Seq<(Seq<char>, Seq<char>, bool, bool)>
    decreases n,
{
    if n <= 0 {
        seq![]
    } else {
        let prev = filtered(specs, env_root, resolved, n - 1, windows);
        let m = mount_spec(specs[n - 1], env_root, windows);
        match resolved[n - 1] {
            Some(c) => if covered(c, hosts(prev), windows) {
                prev
            } else {
                prev.push((c, m.1, m.2, m.3))
            },
            None => prev,
        }
    }
}

/// The views of the specs and of their resolutions.
pub open spec fn spec_views(specs: Seq<String>) -> Seq<Seq<char>> {
    Seq::new(specs.len(), |i: int| specs[i]@)
}

/// The views of the resolved canonical paths.
pub open spec fn resolved_views(resolved: Seq<Option<String>>) -> Seq<Option<Seq<char>>> {
    Seq::new(
        resolved.len(),
        |i: int|
            match resolved[i] {
                Some(c) => Some(c@),
                None => None,
            },
    )
}

/// Parses the specs and drops those that do not resolve or are covered by an earlier
/// kept one. `resolved[i]` is the canonical form of the host path of `specs[i]` when it
/// is an existing directory, `None` otherwise.
pub fn resolve_and_filter_mount_specs(
    specs: &[String],
    env_root: &str,
    resolved: &[Option<String>],
    windows: bool,
) -> (r: Vec<(String, String, bool, bool)>)
    requires
        resolved@.len() == specs@.len(),
    ensures
        Seq::new(r@.len(), |i: int| entry_view(r@[i])) == filtered(
            spec_views(specs@),
            env_root@,
            resolved_views(resolved@),
            specs@.len() as int,
            windows,
        ),
{
    let ghost sv = spec_views(specs@);
    let ghost rv = resolved_views(resolved@);
    let mut out: Vec<(String, String, bool, bool)> = Vec::new();
    let mut mounted: Vec<Vec<char>> = Vec::new();
    let mut i: usize = 0;
    while i < specs.len()
        invariant
            i <= specs@.len(),
            resolved@.len() == specs@.len(),
            sv == spec_views(specs@),
            rv == resolved_views(resolved@),
            Seq::new(out@.len(), |j: int| entry_view(out@[j])) == filtered(sv, env_root@, rv, i as int, windows),
            views(mounted@) == hosts(filtered(sv, env_root@, rv, i as int, windows)),
        decreases specs@.len() - i,
    {
        let ghost prev = filtered(sv, env_root@, rv, i as int, windows);
        let parsed = parse_mount_spec(specs[i].as_str(), env_root, windows);
        match parsed {
            Some((_host, guest, ro, tr)) => {
                match &resolved[i] {
                    Some(c) => {
                        let cv = chars_of(c.as_str());
                        if !covered_vec(&cv, &mounted, windows) {
                            let canonical = string_from_chars(&cv);
                            out.push((canonical, guest, ro, tr));
                            let ghost mb = views(mounted@);
                            let ghost cvv = cv@;
                            mounted.push(cv);
                            assert(views(mounted@) =~= mb.push(cvv));
                            assert(Seq::new(out@.len(), |j: int| entry_view(out@[j])) =~= prev.push((c@, guest@, ro, tr)));
                            let ghost np = prev.push((c@, guest@, ro, tr));
                            assert(hosts(np).len() == prev.len() + 1);
                            assert(forall|j: int| 0 <= j < prev.len() ==> hosts(np)[j] == hosts(prev)[j]);
                            assert(hosts(np)[prev.len() as int] == c@);
                            assert(views(mounted@) =~= hosts(np));
                        }
                    },
                    None => {},
                }
            },
            None => {},
        }
        i = i + 1;
    }
    out
}

// ---------------------------------------------------------------------------
// The mount policy
// ---------------------------------------------------------------------------

/// The epkg directories that are mounted.
pub struct EpkgDirs {
    pub home_epkg: String,
    pub home_cache: String,
    pub opt_epkg: String,
}

/// The spec for the directory of the running epkg binary: mounted read-only unless it
/// lies inside `home_epkg` or `opt_epkg`; nothing when the directory is unknown.
pub open spec fn bin_dir_specs(dirs: EpkgDirs, bin_dir: Option<Seq<char>>, windows: bool) -> Seq<Seq<char>> {
    match bin_dir {
        None => seq![],
        Some(b) => if path_starts_with(b, dirs.home_epkg@, windows) || path_starts_with(
            b,
            dirs.opt_epkg@,
            windows,
        ) {
            seq![]
        } else {
            seq![b + ":ro"@]
        },
    }
}

/// The core epkg specs: `home_epkg` and `home_cache` (`try`), `opt_epkg` (`ro,try`), then
/// the binary's directory.
pub open spec fn epkg_specs(dirs: EpkgDirs, bin_dir: Option<Seq<char>>, windows: bool) -> Seq<Seq<char>> {
    seq![dirs.home_epkg@ + ":try"@, dirs.home_cache@ + ":try"@, dirs.opt_epkg@ + ":ro,try"@]
        + bin_dir_specs(dirs, bin_dir, windows)
}

/// The views of a list of strings.
pub open spec fn string_views(v: Seq<String>) -> Seq<Seq<char>> {
    Seq::new(v.len(), |i: int| v[i]@)
}

fn push_spec(specs: &mut Vec<String>, path: &str, suffix: &str)
    ensures
        string_views(final(specs)@) == string_views(old(specs)@).push(path@ + suffix@),
{
    let mut v = chars_of(path);
    push_str(&mut v, suffix);
    specs.push(string_from_chars(&v));
    assert(string_views(specs@) =~= string_views(old(specs)@).push(path@ + suffix@));
}

/// Adds the mount spec for the directory of the running epkg binary
/// ([`bin_dir_specs`]); `epkg_bin_dir` is that directory, when it is known.
pub fn add_epkg_bin_dir_mount(
    specs: &mut Vec<String>,
    dirs: &EpkgDirs,
    epkg_bin_dir: Option<&str>,
    windows: bool,
)
    ensures
        string_views(final(specs)@) == string_views(old(specs)@) + bin_dir_specs(
            *dirs,
            match epkg_bin_dir {
                Some(b) => Some(b@),
                None => None,
            },
            windows,
        ),
{
    match epkg_bin_dir {
        None => {
            assert(string_views(old(specs)@) + Seq::<Seq<char>>::empty() =~= string_views(old(specs)@));
        },
        Some(b) => {
            let bv = chars_of(b);
            let he = chars_of(dirs.home_epkg.as_str());
            let oe = chars_of(dirs.opt_epkg.as_str());
            if starts_with_path(&bv, &he, windows) || starts_with_path(&bv, &oe, windows) {
                assert(string_views(old(specs)@) + Seq::<Seq<char>>::empty() =~= string_views(old(specs)@));
                return;
            }
            push_spec(specs, b, ":ro");
            assert(string_views(old(specs)@).push(b@ + ":ro"@) =~= string_views(old(specs)@) + seq![b@ + ":ro"@]);
        },
    }
}

/// Adds the core epkg mount specs ([`epkg_specs`]).
pub fn add_epkg_mount_specs(
    specs: &mut Vec<String>,
    dirs: &EpkgDirs,
    epkg_bin_dir: Option<&str>,
    windows: bool,
)
    ensures
        string_views(final(specs)@) == string_views(old(specs)@) + epkg_specs(
            *dirs,
            match epkg_bin_dir {
                Some(b) => Some(b@),
                None => None,
            },
            windows,
        ),
{
    push_spec(specs, dirs.home_epkg.as_str(), ":try");
    push_spec(specs, dirs.home_cache.as_str(), ":try");
    push_spec(specs, dirs.opt_epkg.as_str(), ":ro,try");
    let ghost mid = string_views(specs@);
    add_epkg_bin_dir_mount(specs, dirs, epkg_bin_dir, windows);
    assert(string_views(specs@) =~= string_views(old(specs)@) + epkg_specs(
        *dirs,
        match epkg_bin_dir {
            Some(b) => Some(b@),
            None => None,
        },
        windows,
    ));
}


/// The specs for Windows drives mounted under `/mnt` (WSL2): every entry whose name is a
/// single ASCII letter and which is a directory gives `/mnt/NAME:try`.
pub open spec fn drive_specs(entries: Seq<(Seq<char>, bool)>) -> Seq<Seq<char>>
    decreases entries.len(),
{
    if entries.len() == 0 {
        seq![]
    } else {
        let rest = drive_specs(entries.drop_last());
        let e = entries.last();
        if e.0.len() == 1 && is_ascii_alpha(e.0[0]) && e.1 {
            rest.push("/mnt/"@ + e.0 + ":try"@)
        } else {
            rest
        }
    }
}

/// The drive specs for the entries of `/mnt`, each a name and whether it is a directory
/// (empty when `/mnt` is missing or unreadable) ([`drive_specs`]).
pub fn windows_drive_mount_specs(entries: &[(String, bool)]) -> (r: Vec<String>)
    ensures
        string_views(r@) == drive_specs(Seq::new(entries@.len(), |i: int| (entries@[i].0@, entries@[i].1))),
{
    let ghost ev = Seq::new(entries@.len(), |i: int| (entries@[i].0@, entries@[i].1));
    let mut out: Vec<String> = Vec::new();
    let mut i: usize = 0;
    while i < entries.len()
        invariant
            i <= entries@.len(),
            ev == Seq::new(entries@.len(), |i: int| (entries@[i].0@, entries@[i].1)),
            string_views(out@) == drive_specs(ev.take(i as int)),
        decreases entries@.len() - i,
    {
        proof {
            assert(ev.take(i + 1).drop_last() =~= ev.take(i as int));
        }
        let name = chars_of(entries[i].0.as_str());
        let is_dir = entries[i].1;
        if name.len() == 1 && (('a' <= name[0] && name[0] <= 'z') || ('A' <= name[0] && name[0] <= 'Z'))
            && is_dir {
            let ghost b = string_views(out@);
            let mut v = chars_of("/mnt/");
            push_all(&mut v, &name);
            push_str(&mut v, ":try");
            out.push(string_from_chars(&v));
            assert(string_views(out@) =~= b.push(v@));
            assert(string_views(out@) =~= drive_specs(ev.take(i as int)).push("/mnt/"@ + name@ + ":try"@));
        }
        i = i + 1;
    }
    assert(ev.take(i as int) =~= ev);
    out
}

/// What the VM mount policy is built from.
pub struct MountPolicyInputs {
    pub dirs: EpkgDirs,
    /// The directory of the running epkg binary, when known.
    pub epkg_bin_dir: Option<String>,
    /// Whether `/lib/modules` is to be offered (Linux, when it exists).
    pub lib_modules: bool,
    /// The user's `--mounts` specs.
    pub user_mount_specs: Vec<String>,
    /// Whether the run changes into the environment root (then the cwd is not mounted).
    pub chdir_to_env_root: bool,
    /// The current directory, when it could be read and exists.
    pub cwd: Option<String>,
    /// The Windows drive specs ([`windows_drive_mount_specs`]; empty off Linux).
    pub drive_specs: Vec<String>,
    /// Whether paths are read by the rules of Windows (the host is Windows).
    pub windows: bool,
}

/// The VM mount policy: the epkg directories, `/lib/modules` (read-only, try), the user's
/// specs, the current directory (when absolute) mounted at the same place, then the
/// Windows drives.
pub open spec fn vm_mount_policy(inputs: MountPolicyInputs) -> Seq<Seq<char>> {
    epkg_specs(
        inputs.dirs,
        match inputs.epkg_bin_dir {
            Some(b) => Some(b@),
            None => None,
        },
        inputs.windows,
    ) + (if inputs.lib_modules {
        seq!["/lib/modules:ro,try"@]
    } else {
        seq![]
    }) + string_views(inputs.user_mount_specs@) + (match inputs.cwd {
        Some(c) => if !inputs.chdir_to_env_root && is_absolute(c@, inputs.windows) {
            seq![c@ + "://"@ + c@]
        } else {
            seq![]
        },
        None => seq![],
    }) + string_views(inputs.drive_specs@)
}

fn extend_specs(specs: &mut Vec<String>, more: &Vec<String>)
    ensures
        string_views(final(specs)@) == string_views(old(specs)@) + string_views(more@),
{
    let mut i: usize = 0;
    while i < more.len()
        invariant
            i <= more@.len(),
            string_views(specs@) == string_views(old(specs)@) + string_views(more@).take(i as int),
        decreases more@.len() - i,
    {
        let ghost b = string_views(specs@);
        specs.push(more[i].clone());
        assert(string_views(specs@) =~= b.push(more@[i as int]@));
        assert(string_views(more@).take(i + 1) =~= string_views(more@).take(i as int).push(more@[i as int]@));
        i = i + 1;
    }
    assert(string_views(more@).take(i as int) =~= string_views(more@));
}

/// Builds the VM mount policy ([`vm_mount_policy`]).
pub fn build_vm_mount_policy(inputs: &MountPolicyInputs) -> (r: Vec<String>)
    ensures
        string_views(r@) == vm_mount_policy(*inputs),
{
    let mut specs: Vec<String> = Vec::new();
    let bin = match &inputs.epkg_bin_dir {
        Some(b) => Some(b.as_str()),
        None => None,
    };
    add_epkg_mount_specs(&mut specs, &inputs.dirs, bin, inputs.windows);
    let ghost s1 = string_views(specs@);
    if inputs.lib_modules {
        specs.push("/lib/modules:ro,try".to_owned());
    }
    let ghost s2 = string_views(specs@);
    assert(s2 =~= s1 + (if inputs.lib_modules {
        seq!["/lib/modules:ro,try"@]
    } else {
        seq![]
    }));
    extend_specs(&mut specs, &inputs.user_mount_specs);
    let ghost s3 = string_views(specs@);
    let mut cwd_spec: Vec<String> = Vec::new();
    if !inputs.chdir_to_env_root {
        match &inputs.cwd {
            Some(c) => {
                {
                    let cv = chars_of(c.as_str());
                    if path_is_absolute(&cv, inputs.windows) {
                        let mut v = chars_of(c.as_str());
                        push_str(&mut v, "://");
                        push_all(&mut v, &cv);
                        cwd_spec.push(string_from_chars(&v));
                    }
                }
            },
            None => {},
        }
    }
    assert(string_views(cwd_spec@) =~= (match inputs.cwd {
        Some(c) => if !inputs.chdir_to_env_root && is_absolute(c@, inputs.windows) {
            seq![c@ + "://"@ + c@]
        } else {
            seq![]
        },
        None => seq![],
    }));
    extend_specs(&mut specs, &cwd_spec);
    extend_specs(&mut specs, &inputs.drive_specs);
    specs
}


// ---------------------------------------------------------------------------
// Laws
// ---------------------------------------------------------------------------

/// No kept entry is covered by an entry kept before it, and every kept host path is the
/// resolution of one of the specs.
pub proof fn lemma_filtered_entries(
    specs: Seq<Seq<char>>,
    env_root: Seq<char>,
    resolved: Seq<Option<Seq<char>>>,
    n: int,
    windows: bool,
)
    requires
        0 <= n <= specs.len(),
        resolved.len() == specs.len(),
    ensures
        forall|j: int|
            0 <= j < filtered(specs, env_root, resolved, n, windows).len() ==> !covered(
                (#[trigger] filtered(specs, env_root, resolved, n, windows)[j]).0,
                hosts(filtered(specs, env_root, resolved, n, windows).take(j)),
                windows,
            ),
        forall|j: int|
            #![trigger filtered(specs, env_root, resolved, n, windows)[j]]
            0 <= j < filtered(specs, env_root, resolved, n, windows).len() ==> exists|i: int|
                0 <= i < n && #[trigger] resolved[i] == Some(
                    filtered(specs, env_root, resolved, n, windows)[j].0,
                ),
    decreases n,
{
    if n > 0 {
        lemma_filtered_entries(specs, env_root, resolved, n - 1, windows);
        let prev = filtered(specs, env_root, resolved, n - 1, windows);
        let cur = filtered(specs, env_root, resolved, n, windows);
        if cur != prev {
            assert(cur.take(prev.len() as int) =~= prev);
            assert forall|j: int| 0 <= j < cur.len() implies !covered(
                (#[trigger] cur[j]).0,
                hosts(cur.take(j)),
                windows,
            ) by {
                if j < prev.len() {
                    assert(cur.take(j) =~= prev.take(j));
                    assert(cur[j] == prev[j]);
                }
            }
            assert forall|j: int| #![trigger cur[j]] 0 <= j < cur.len() implies exists|i: int|
                0 <= i < n && #[trigger] resolved[i] == Some(cur[j].0) by {
                if j < prev.len() {
                    assert(cur[j] == prev[j]);
                } else {
                    assert(resolved[n - 1] == Some(cur[j].0));
                }
            }
        }
    }
}

/// Only an earlier mount covers a later one: when `c2` lies at or under `c1` and not the
/// other way round, the specs resolved to `c1` then `c2` keep `c1` alone, while the
/// specs in the reverse order keep both, `c2` first.
pub proof fn lemma_earlier_mount_covers_later(
    s1: Seq<char>,
    s2: Seq<char>,
    env_root: Seq<char>,
    c1: Seq<char>,
    c2: Seq<char>,
    windows: bool,
)
    requires
        path_starts_with(c2, c1, windows),
        !path_starts_with(c1, c2, windows),
    ensures
        filtered(seq![s1, s2], env_root, seq![Some(c1), Some(c2)], 2, windows) == seq![
            entry_of(c1, s1, env_root, windows),
        ],
        filtered(seq![s2, s1], env_root, seq![Some(c2), Some(c1)], 2, windows) == seq![
            entry_of(c2, s2, env_root, windows),
            entry_of(c1, s1, env_root, windows),
        ],
{
    let e1 = entry_of(c1, s1, env_root, windows);
    let e2 = entry_of(c2, s2, env_root, windows);
    let none: Seq<Seq<char>> = seq![];
    assert(!covered(c1, none, windows));
    assert(!covered(c2, none, windows));
    let forward = seq![s1, s2];
    let f1 = filtered(forward, env_root, seq![Some(c1), Some(c2)], 1, windows);
    assert(filtered(forward, env_root, seq![Some(c1), Some(c2)], 0, windows) == Seq::<
        (Seq<char>, Seq<char>, bool, bool),
    >::empty());
    assert(hosts(Seq::<(Seq<char>, Seq<char>, bool, bool)>::empty()) =~= none);
    assert(f1 == seq![e1]);
    assert(hosts(seq![e1]) =~= seq![c1]);
    assert(covered(c2, seq![c1], windows)) by {
        assert(seq![c1][0] == c1);
    }
    let backward = seq![s2, s1];
    let b1 = filtered(backward, env_root, seq![Some(c2), Some(c1)], 1, windows);
    assert(filtered(backward, env_root, seq![Some(c2), Some(c1)], 0, windows) == Seq::<
        (Seq<char>, Seq<char>, bool, bool),
    >::empty());
    assert(b1 == seq![e2]);
    assert(hosts(seq![e2]) =~= seq![c2]);
    assert(!covered(c1, seq![c2], windows)) by {
        let a = components(c1, windows);
        let b = components(c2, windows);
        if a == b {
            assert(a.take(b.len() as int) =~= b);
        }
    }
    assert(seq![e2].push(e1) =~= seq![e2, e1]);
}

/// The entry a spec gives when its host path resolves to `c`.
pub open spec fn entry_of(c: Seq<char>, spec: Seq<char>, env_root: Seq<char>, windows: bool) -> (
    Seq<char>,
    Seq<char>,
    bool,
    bool,
) {
    let m = mount_spec(spec, env_root, windows);
    (c, m.1, m.2, m.3)
}

pub proof fn lemma_split_no_sep(s: Seq<char>, sep: char)
    requires
        !has_char(s, sep),
    ensures
        split_on(s, sep) == seq![s],
    decreases s.len(),
{
    if s.len() > 0 {
        assert(!has_char(s.drop_last(), sep)) by {
            if has_char(s.drop_last(), sep) {
                let i = choose|i: int| 0 <= i < s.drop_last().len() && s.drop_last()[i] == sep;
                assert(s[i] == sep);
            }
        }
        lemma_split_no_sep(s.drop_last(), sep);
        assert(s.last() != sep) by {
            assert(s[s.len() - 1] == s.last());
        }
        assert(s.drop_last().push(s.last()) =~= s);
        assert(seq![s.drop_last()].update(0, s.drop_last().push(s.last())) =~= seq![s]);
    } else {
        assert(s =~= Seq::<char>::empty());
        assert(seq![Seq::<char>::empty()] =~= seq![s]);
    }
}

/// Splitting at `sep` around one `sep` splits each side.
pub proof fn lemma_split_concat(a: Seq<char>, b: Seq<char>, sep: char)
    ensures
        split_on(a + seq![sep] + b, sep) == split_on(a, sep) + split_on(b, sep),
    decreases b.len(),
{
    let ab = a + seq![sep] + b;
    if b.len() == 0 {
        assert(ab.drop_last() =~= a);
        assert(split_on(a, sep).push(seq![]) =~= split_on(a, sep) + seq![seq![]]);
    } else {
        let b1 = b.drop_last();
        lemma_split_concat(a, b1, sep);
        assert(ab.drop_last() =~= a + seq![sep] + b1);
        assert(ab.last() == b.last());
        lemma_split_nonempty(b1, sep);
        let sa = split_on(a, sep);
        let sb = split_on(b1, sep);
        if b.last() == sep {
            assert((sa + sb).push(seq![]) =~= sa + sb.push(seq![]));
        } else {
            assert((sa + sb).update((sa + sb).len() - 1, (sa + sb).last().push(b.last())) =~= sa
                + sb.update(sb.len() - 1, sb.last().push(b.last())));
        }
    }
}

proof fn lemma_infix_at(s: Seq<char>, needle: Seq<char>, i: int)
    requires
        0 <= i,
        i + needle.len() <= s.len(),
        s.subrange(i, i + needle.len()) == needle,
    ensures
        has_infix(s, needle),
{
}

proof fn lemma_spec_with_options(p: Seq<char>, o: Seq<char>, env_root: Seq<char>, windows: bool)
    requires
        !has_char(p, ':'),
        !has_char(o, ':'),
        is_option_part(o),
        !starts_with_char(p, '@'),
        !(p.len() >= 2 && p[0] == '/' && p[1] == '/'),
    ensures
        mount_spec(p + seq![':'] + o, env_root, windows) == (p, p, has_infix(o, seq!['r', 'o']), has_infix(
            o,
            seq!['t', 'r', 'y'],
        )),
{
    lemma_split_concat(p, o, ':');
    lemma_split_no_sep(p, ':');
    lemma_split_no_sep(o, ':');
    assert(seq![p] + seq![o] =~= seq![p, o]);
}

/// The specs written for the epkg directories parse back, on either host: a path `p`
/// (with no `:`, not starting with `@` or `//`) followed by `:try`, `:ro,try` or `:ro` is
/// mounted at the same place, read-only exactly when the options hold `ro`, try-only when they hold `try`.
pub proof fn lemma_epkg_specs_parse_back(p: Seq<char>, env_root: Seq<char>, windows: bool)
    requires
        !has_char(p, ':'),
        !starts_with_char(p, '@'),
        !(p.len() >= 2 && p[0] == '/' && p[1] == '/'),
    ensures
        mount_spec(p + ":try"@, env_root, windows) == (p, p, false, true),
        mount_spec(p + ":ro,try"@, env_root, windows) == (p, p, true, true),
        mount_spec(p + ":ro"@, env_root, windows) == (p, p, true, false),
{
    lemma_parse_back_try(p, env_root, windows);
    lemma_parse_back_ro_try(p, env_root, windows);
    lemma_parse_back_ro(p, env_root, windows);
}

proof fn lemma_no_colon_try()
    ensures
        !has_char(seq!['t', 'r', 'y'], ':'),
{
    let t = seq!['t', 'r', 'y'];
    assert forall|i: int| 0 <= i < t.len() implies t[i] != ':' by {
        if i == 0 {
        } else if i == 1 {
        } else {
        }
    }
}

proof fn lemma_option_try()
    ensures
        is_option_part(seq!['t', 'r', 'y']),
        has_infix(seq!['t', 'r', 'y'], seq!['t', 'r', 'y']),
{
    let t = seq!['t', 'r', 'y'];
    assert(t.subrange(0, 3) =~= t);
    assert(has_prefix(t, seq!['t', 'r', 'y']));
    lemma_infix_at(t, t, 0);
}

proof fn lemma_no_ro_in_try()
    ensures
        !has_infix(seq!['t', 'r', 'y'], seq!['r', 'o']),
{
    let t = seq!['t', 'r', 'y'];
    assert forall|i: int| 0 <= i <= 1 implies #[trigger] t.subrange(i, i + 2) != seq!['r', 'o'] by {
        if i == 0 {
            assert(t.subrange(0, 2)[0] == 't');
        } else {
            assert(t.subrange(1, 3)[1] == 'y');
        }
    }
}

proof fn lemma_no_colon_ro()
    ensures
        !has_char(seq!['r', 'o'], ':'),
{
    let r = seq!['r', 'o'];
    assert forall|i: int| 0 <= i < r.len() implies r[i] != ':' by {
        if i == 0 {
        } else {
        }
    }
}

proof fn lemma_option_ro()
    ensures
        is_option_part(seq!['r', 'o']),
{
    let r = seq!['r', 'o'];
    assert(r.subrange(0, 2) =~= r);
    assert(has_prefix(r, seq!['r', 'o']));
}

proof fn lemma_ro_in_ro()
    ensures
        has_infix(seq!['r', 'o'], seq!['r', 'o']),
{
    let r = seq!['r', 'o'];
    assert(r.subrange(0, 2) =~= r);
    lemma_infix_at(r, r, 0);
}

proof fn lemma_no_try_in_ro()
    ensures
        !has_infix(seq!['r', 'o'], seq!['t', 'r', 'y']),
{
}

proof fn lemma_parse_back_try(p: Seq<char>, env_root: Seq<char>, windows: bool)
    requires
        !has_char(p, ':'),
        !starts_with_char(p, '@'),
        !(p.len() >= 2 && p[0] == '/' && p[1] == '/'),
    ensures
        mount_spec(p + ":try"@, env_root, windows) == (p, p, false, true),
{
    reveal_strlit(":try");
    assert(p + ":try"@ =~= p + seq![':'] + seq!['t', 'r', 'y']);
    lemma_no_colon_try();
    lemma_option_try();
    lemma_no_ro_in_try();
    lemma_spec_with_options(p, seq!['t', 'r', 'y'], env_root, windows);
}

proof fn lemma_parse_back_ro_try(p: Seq<char>, env_root: Seq<char>, windows: bool)
    requires
        !has_char(p, ':'),
        !starts_with_char(p, '@'),
        !(p.len() >= 2 && p[0] == '/' && p[1] == '/'),
    ensures
        mount_spec(p + ":ro,try"@, env_root, windows) == (p, p, true, true),
{
    reveal_strlit(":ro,try");
    let rt = seq!['r', 'o', ',', 't', 'r', 'y'];
    assert(p + ":ro,try"@ =~= p + seq![':'] + rt);
    assert(rt[2] == ',');
    assert(rt.subrange(0, 2) =~= seq!['r', 'o']);
    assert(rt.subrange(3, 6) =~= seq!['t', 'r', 'y']);
    lemma_infix_at(rt, seq!['r', 'o'], 0);
    lemma_infix_at(rt, seq!['t', 'r', 'y'], 3);
    lemma_spec_with_options(p, rt, env_root, windows);
}

proof fn lemma_parse_back_ro(p: Seq<char>, env_root: Seq<char>, windows: bool)
    requires
        !has_char(p, ':'),
        !starts_with_char(p, '@'),
        !(p.len() >= 2 && p[0] == '/' && p[1] == '/'),
    ensures
        mount_spec(p + ":ro"@, env_root, windows) == (p, p, true, false),
{
    reveal_strlit(":ro");
    assert(p + ":ro"@ =~= p + seq![':'] + seq!['r', 'o']);
    lemma_no_colon_ro();
    lemma_option_ro();
    lemma_ro_in_ro();
    lemma_no_try_in_ro();
    lemma_spec_with_options(p, seq!['r', 'o'], env_root, windows);
}

} // verus!
