//! `epkg vm start`: `key=value` configuration, the daemon run it asks for, and the
//! message it prints.
use vstd::prelude::*;
use crate::text::{
    chars_of, string_from_chars, push_str, trim, trim_chars, parse_u32, parse_u32_chars,
    decimal, push_radix,
};
use crate::mount_specs::{split_chars, split_on, views};

verus! {

/// The configuration of a VM session.
pub struct VmConfig {
    /// The VMM backend.
    pub backend: String,
    /// Idle timeout in seconds: `Some(0)` never times out, `None` shuts down at once.
    pub timeout: Option<u32>,
    /// Seconds added after each run.
    pub extend: u32,
    pub cpus: u32,
    pub memory_mib: u32,
}

/// The defaults: libkrun, never time out, extend by 10 s, 2 CPUs, 1024 MiB.
pub open spec fn default_config_fields(c: VmConfig) -> bool {
    &&& c.backend@ == "libkrun"@
    &&& c.timeout == Some(0u32)
    &&& c.extend == 10
    &&& c.cpus == 2
    &&& c.memory_mib == 1024
}

impl Default for VmConfig {
    fn default() -> (c: Self)
        ensures
            default_config_fields(c),
    {
        VmConfig {
            backend: "libkrun".to_owned(),
            timeout: Some(0),
            extend: 10,
            cpus: 2,
            memory_mib: 1024,
        }
    }
}

/// The numeric fields of a configuration.
pub struct VmSettings {
    pub timeout: Option<u32>,
    pub extend: u32,
    pub cpus: u32,
    pub memory_mib: u32,
}

/// The numeric fields of `c`.
pub open spec fn settings(c: VmConfig) -> VmSettings {
    VmSettings { timeout: c.timeout, extend: c.extend, cpus: c.cpus, memory_mib: c.memory_mib }
}

/// One `key=value` argument applied: the text up to the first `=` (trimmed) names the
/// setting (`timeout`, `extend`, `cpus`, `memory`) and the rest (trimmed) is its value;
/// an argument without `=`, an unknown key or a value that is not a `u32` changes nothing.
pub open spec fn apply_kv(s: VmSettings, kv: Seq<char>) -> VmSettings {
    let parts = split_on(kv, '=');
    if parts.len() < 2 {
        s
    } else {
        let key = trim(parts[0]);
        let value = trim(kv.skip(parts[0].len() + 1int));
        match parse_u32(value) {
            None => s,
            Some(v) => if key == "timeout"@ {
                VmSettings { timeout: Some(v), ..s }
            } else if key == "extend"@ {
                VmSettings { extend: v, ..s }
            } else if key == "cpus"@ {
                VmSettings { cpus: v, ..s }
            } else if key == "memory"@ {
                VmSettings { memory_mib: v, ..s }
            } else {
                s
            },
        }
    }
}

/// The arguments applied in order.
pub open spec fn apply_all(s: VmSettings, kvs: Seq<Seq<char>>) -> VmSettings
    decreases kvs.len(),
{
    if kvs.len() == 0 {
        s
    } else {
        apply_kv(apply_all(s, kvs.drop_last()), kvs.last())
    }
}

/// The default numeric fields.
pub open spec fn default_settings() -> VmSettings {
    VmSettings { timeout: Some(0), extend: 10, cpus: 2, memory_mib: 1024 }
}

/// The views of the `key=value` arguments.
pub open spec fn kv_views(args: Seq<String>) -> Seq<Seq<char>> {
    Seq::new(args.len(), |i: int| args[i]@)
}

fn eq_chars_lit(a: &Vec<char>, lit: &str) -> (b: bool)
    ensures
        b == (a@ == lit@),
{
    let y = chars_of(lit);
    if a.len() != y.len() {
        return false;
    }
    let mut i: usize = 0;
    while i < a.len()
        invariant
            i <= a@.len(),
            a@.len() == y@.len(),
            y@ == lit@,
            forall|j: int| 0 <= j < i ==> a@[j] == y@[j],
        decreases a@.len() - i,
    {
        if a[i] != y[i] {
            assert(a@[i as int] != y@[i as int]);
            return false;
        }
        i = i + 1;
    }
    assert(a@ =~= y@);
    true
}

fn apply_kv_exec(cfg: &mut VmConfig, kv: &str)
    ensures
        settings(*final(cfg)) == apply_kv(settings(*old(cfg)), kv@),
        final(cfg).backend == old(cfg).backend,
{
    let v = chars_of(kv);
    let parts = split_chars(&v, '=');
    if parts.len() < 2 {
        return;
    }
    let klen = parts[0].len();
    proof {
        lemma_split_first_len(v@, '=');
        assert(views(parts@)[0] == parts@[0]@);
        assert(split_on(v@, '=') == views(parts@));
        assert(klen == parts@[0]@.len());
    }
    let vlen = v.len();
    assert(klen + 1 <= vlen);
    let rest = crate::text::slice_chars(&v, klen + 1, v.len());
    assert(rest@ == v@.skip(parts@[0]@.len() + 1int));
    let key = trim_chars(&parts[0]);
    let value = trim_chars(&rest);
    match parse_u32_chars(&value) {
        None => {},
        Some(x) => {
            if eq_chars_lit(&key, "timeout") {
                cfg.timeout = Some(x);
            } else if eq_chars_lit(&key, "extend") {
                cfg.extend = x;
            } else if eq_chars_lit(&key, "cpus") {
                cfg.cpus = x;
            } else if eq_chars_lit(&key, "memory") {
                cfg.memory_mib = x;
            }
        },
    }
}

/// When a split has a second part, the first part plus the separator fits in the string.
proof fn lemma_split_first_len(s: Seq<char>, sep: char)
    requires
        split_on(s, sep).len() >= 2,
    ensures
        split_on(s, sep)[0].len() + 1 <= s.len(),
    decreases s.len(),
{
    let ps = split_on(s, sep);
    let pp = split_on(s.drop_last(), sep);
    crate::mount_specs::lemma_split_nonempty(s.drop_last(), sep);
    if pp.len() >= 2 {
        lemma_split_first_len(s.drop_last(), sep);
        assert(ps[0] == pp[0]);
    } else {
        if s.last() == sep {
            assert(ps[0] == pp[0]);
            lemma_split_part_len(s.drop_last(), sep);
        } else {
            assert(ps.len() == pp.len());
        }
    }
}

/// A single part is no longer than the string.
proof fn lemma_split_part_len(s: Seq<char>, sep: char)
    ensures
        split_on(s, sep).last().len() <= s.len(),
    decreases s.len(),
{
    if s.len() > 0 {
        lemma_split_part_len(s.drop_last(), sep);
        crate::mount_specs::lemma_split_nonempty(s.drop_last(), sep);
    }
}

/// Builds the configuration from `key=value` arguments over the defaults, with the
/// backend from `--vmm` (libkrun when absent).
pub fn parse_kv_args(args: Option<&[String]>, vmm: Option<&str>) -> (c: VmConfig)
    ensures
        c.backend@ == match vmm {
            Some(b) => b@,
            None => "libkrun"@,
        },
        settings(c) == match args {
            Some(a) => apply_all(default_settings(), kv_views(a@)),
            None => default_settings(),
        },
{
    let mut config = VmConfig {
        backend: match vmm {
            Some(b) => b.to_owned(),
            None => "libkrun".to_owned(),
        },
        timeout: Some(0),
        extend: 10,
        cpus: 2,
        memory_mib: 1024,
    };
    match args {
        None => {},
        Some(a) => {
            let ghost kvs = kv_views(a@);
            let mut i: usize = 0;
            while i < a.len()
                invariant
                    i <= a@.len(),
                    kvs == kv_views(a@),
                    settings(config) == apply_all(default_settings(), kvs.take(i as int)),
                    config.backend@ == match vmm {
                        Some(b) => b@,
                        None => "libkrun"@,
                    },
                decreases a@.len() - i,
            {
                apply_kv_exec(&mut config, a[i].as_str());
                assert(kvs.take(i + 1).drop_last() =~= kvs.take(i as int));
                i = i + 1;
            }
            assert(kvs.take(i as int) =~= kvs);
        },
    }
    config
}

/// How `epkg vm start` runs the VM daemon.
pub struct VmStartPlan {
    pub env_name: String,
    /// The dummy command the daemon runs to report readiness.
    pub command: String,
    pub vm_daemon: bool,
    pub vm_keep_timeout: Option<u32>,
    pub vm_cpus: Option<u8>,
    pub vm_memory_mib: Option<u32>,
    pub vmm_order: Vec<String>,
    pub background: bool,
}

/// The daemon run for `config`, or the refusal when a VM already runs for the environment.
pub fn vm_start_plan(env_name: &str, already_running: bool, config: &VmConfig) -> (r: Result<VmStartPlan, String>)
    ensures
        match r {
            Ok(p) => !already_running && p.env_name@ == env_name@ && p.command@ == "/bin/true"@
                && p.vm_daemon && p.vm_keep_timeout == config.timeout && p.vm_cpus == Some(
                config.cpus as u8,
            ) && p.vm_memory_mib == Some(config.memory_mib) && p.vmm_order@.len() == 1
                && p.vmm_order@[0]@ == config.backend@ && p.background,
            Err(m) => already_running && m@ == "VM already running for "@ + env_name@,
        },
{
    if already_running {
        let mut m = chars_of("VM already running for ");
        push_str(&mut m, env_name);
        return Err(string_from_chars(&m));
    }
    let mut order: Vec<String> = Vec::new();
    order.push(config.backend.clone());
    Ok(
        VmStartPlan {
            env_name: env_name.to_owned(),
            command: "/bin/true".to_owned(),
            vm_daemon: true,
            vm_keep_timeout: config.timeout,
            vm_cpus: Some(config.cpus as u8),
            vm_memory_mib: Some(config.memory_mib),
            vmm_order: order,
            background: true,
        },
    )
}

/// How the timeout is shown: `immediate` (none), `never` (zero), or `Ns`.
pub open spec fn timeout_desc(t: Option<u32>) -> Seq<char> {
    match t {
        None => "immediate"@,
        Some(n) => if n == 0 {
            "never"@
        } else {
            decimal(n as nat) + "s"@
        },
    }
}

/// The line printed once the VM has started.
pub open spec fn started_message(env_name: Seq<char>, c: VmConfig) -> Seq<char> {
    "VM started for "@ + env_name + " (timeout="@ + timeout_desc(c.timeout) + ", extend="@
        + decimal(c.extend as nat) + "s)"@
}

/// The line printed once the VM has started ([`started_message`]).
pub fn vm_started_message(env_name: &str, config: &VmConfig) -> (r: String)
    ensures
        r@ == started_message(env_name@, *config),
{
    let mut m = chars_of("VM started for ");
    push_str(&mut m, env_name);
    push_str(&mut m, " (timeout=");
    let ghost before = m@;
    match config.timeout {
        None => push_str(&mut m, "immediate"),
        Some(n) => {
            if n == 0 {
                push_str(&mut m, "never");
            } else {
                push_radix(&mut m, n as u64, 10, false);
                push_str(&mut m, "s");
            }
        },
    }
    assert(m@ =~= before + timeout_desc(config.timeout));
    push_str(&mut m, ", extend=");
    push_radix(&mut m, config.extend as u64, 10, false);
    push_str(&mut m, "s)");
    assert(m@ =~= started_message(env_name@, *config));
    string_from_chars(&m)
}


/// An argument without `=` changes no setting.
pub proof fn lemma_kv_without_equals_ignored(s: VmSettings, kv: Seq<char>)
    requires
        !crate::text::has_char(kv, '='),
    ensures
        apply_kv(s, kv) == s,
{
    crate::mount_specs::lemma_split_no_sep(kv, '=');
}

/// Settings given later override earlier ones: applying a list then one more argument is
/// applying that argument to the result of the list.
pub proof fn lemma_later_settings_apply_last(s: VmSettings, kvs: Seq<Seq<char>>, kv: Seq<char>)
    ensures
        apply_all(s, kvs.push(kv)) == apply_kv(apply_all(s, kvs), kv),
{
    assert(kvs.push(kv).drop_last() =~= kvs);
}

proof fn lemma_kv_split(key: Seq<char>, t: Seq<char>)
    requires
        !crate::text::has_char(key, '='),
        key.len() > 0,
        !crate::text::is_ws(key[0]),
        !crate::text::is_ws(key.last()),
    ensures
        ({
            let kv = key + seq!['='] + t;
            let parts = split_on(kv, '=');
            &&& parts.len() >= 2
            &&& parts[0] == key
            &&& trim(parts[0]) == key
            &&& kv.skip(parts[0].len() + 1int) == t
        }),
{
    let kv = key + seq!['='] + t;
    crate::mount_specs::lemma_split_concat(key, t, '=');
    crate::mount_specs::lemma_split_no_sep(key, '=');
    crate::mount_specs::lemma_split_nonempty(t, '=');
    assert(split_on(kv, '=')[0] == key);
    assert(kv.skip(key.len() + 1int) =~= t);
    assert(key[key.len() - 1] == key.last());
    assert(crate::text::trim_start(key) == key);
    assert(crate::text::trim_end(key) == key);
}

proof fn lemma_key_literals()
    ensures
        !crate::text::has_char("timeout"@, '='),
        !crate::text::has_char("extend"@, '='),
        !crate::text::has_char("cpus"@, '='),
        !crate::text::has_char("memory"@, '='),
        "timeout"@.len() > 0 && !crate::text::is_ws("timeout"@[0]) && !crate::text::is_ws(
            "timeout"@.last(),
        ),
        "extend"@.len() > 0 && !crate::text::is_ws("extend"@[0]) && !crate::text::is_ws(
            "extend"@.last(),
        ),
        "cpus"@.len() > 0 && !crate::text::is_ws("cpus"@[0]) && !crate::text::is_ws(
            "cpus"@.last(),
        ),
        "memory"@.len() > 0 && !crate::text::is_ws("memory"@[0]) && !crate::text::is_ws(
            "memory"@.last(),
        ),
        "extend"@ != "timeout"@,
        "cpus"@ != "timeout"@,
        "cpus"@ != "extend"@,
        "memory"@ != "timeout"@,
        "memory"@ != "extend"@,
        "memory"@ != "cpus"@,
        "timeout="@ == "timeout"@ + seq!['='],
        "extend="@ == "extend"@ + seq!['='],
        "cpus="@ == "cpus"@ + seq!['='],
        "memory="@ == "memory"@ + seq!['='],
{
    reveal_strlit("timeout");
    reveal_strlit("extend");
    reveal_strlit("cpus");
    reveal_strlit("memory");
    reveal_strlit("timeout=");
    reveal_strlit("extend=");
    reveal_strlit("cpus=");
    reveal_strlit("memory=");
    assert("extend"@[0] != "timeout"@[0]);
    assert("cpus"@[0] != "timeout"@[0]);
    assert("cpus"@[0] != "extend"@[0]);
    assert("memory"@[0] != "timeout"@[0]);
    assert("memory"@[0] != "extend"@[0]);
    assert("memory"@[0] != "cpus"@[0]);
    assert("timeout="@ =~= "timeout"@ + seq!['=']);
    assert("extend="@ =~= "extend"@ + seq!['=']);
    assert("cpus="@ =~= "cpus"@ + seq!['=']);
    assert("memory="@ =~= "memory"@ + seq!['=']);
}

/// A setting takes the value it is given, whatever the value (`timeout=0` included) and
/// wherever the argument stands: after any earlier arguments, `timeout=V`, `extend=V`,
/// `cpus=V` or `memory=V` with a `V` that parses as the `u32` `v` sets that setting to
/// `v` (the timeout to `Some(v)`) and leaves the other three as they were.
pub proof fn lemma_setting_takes_its_value(s: VmSettings, kvs: Seq<Seq<char>>, t: Seq<char>, v: u32)
    requires
        parse_u32(trim(t)) == Some(v),
    ensures
        ({
            let before = apply_all(s, kvs);
            let a = apply_all(s, kvs.push("timeout="@ + t));
            &&& a.timeout == Some(v)
            &&& a.extend == before.extend && a.cpus == before.cpus && a.memory_mib == before.memory_mib
        }),
        ({
            let before = apply_all(s, kvs);
            let a = apply_all(s, kvs.push("extend="@ + t));
            &&& a.extend == v
            &&& a.timeout == before.timeout && a.cpus == before.cpus && a.memory_mib == before.memory_mib
        }),
        ({
            let before = apply_all(s, kvs);
            let a = apply_all(s, kvs.push("cpus="@ + t));
            &&& a.cpus == v
            &&& a.timeout == before.timeout && a.extend == before.extend && a.memory_mib == before.memory_mib
        }),
        ({
            let before = apply_all(s, kvs);
            let a = apply_all(s, kvs.push("memory="@ + t));
            &&& a.memory_mib == v
            &&& a.timeout == before.timeout && a.extend == before.extend && a.cpus == before.cpus
        }),
{
    lemma_key_literals();
    lemma_kv_split("timeout"@, t);
    lemma_kv_split("extend"@, t);
    lemma_kv_split("cpus"@, t);
    lemma_kv_split("memory"@, t);
    lemma_later_settings_apply_last(s, kvs, "timeout="@ + t);
    lemma_later_settings_apply_last(s, kvs, "extend="@ + t);
    lemma_later_settings_apply_last(s, kvs, "cpus="@ + t);
    lemma_later_settings_apply_last(s, kvs, "memory="@ + t);
}

} // verus!
