use epkg::vm::start::{parse_kv_args, vm_start_plan, vm_started_message, VmConfig};

fn strs(v: &[&str]) -> Vec<String> {
    v.iter().map(|s| s.to_string()).collect()
}

#[test]
fn defaults() {
    let c = VmConfig::default();
    assert_eq!(c.backend, "libkrun");
    assert_eq!(c.timeout, Some(0));
    assert_eq!((c.extend, c.cpus, c.memory_mib), (10, 2, 1024));
    let p = parse_kv_args(None, None);
    assert_eq!(p.backend, "libkrun");
    assert_eq!((p.timeout, p.extend, p.cpus, p.memory_mib), (Some(0), 10, 2, 1024));
}

#[test]
fn key_value_settings() {
    let a = strs(&["cpus=4", " memory = 2048 ", "timeout=abc", "bogus=1", "extend", "extend=+30"]);
    let c = parse_kv_args(Some(&a[..]), Some("qemu"));
    assert_eq!(c.backend, "qemu");
    assert_eq!((c.timeout, c.extend, c.cpus, c.memory_mib), (Some(0), 30, 4, 2048));
    let t = parse_kv_args(Some(&strs(&["timeout=120", "x=y=z"])[..]), None);
    assert_eq!(t.timeout, Some(120));
}

#[test]
fn later_settings_win() {
    let c = parse_kv_args(Some(&strs(&["cpus=2", "cpus=8", "cpus=-1"])[..]), None);
    assert_eq!(c.cpus, 8);
}

#[test]
fn arguments_without_equals_change_nothing() {
    let c = parse_kv_args(Some(&strs(&["cpus", "memory4096"])[..]), None);
    assert_eq!((c.timeout, c.extend, c.cpus, c.memory_mib), (Some(0), 10, 2, 1024));
}

#[test]
fn start_plan() {
    let c = VmConfig { backend: "qemu".to_string(), timeout: Some(60), extend: 10, cpus: 300, memory_mib: 512 };
    let p = vm_start_plan("dev", false, &c).unwrap();
    assert_eq!(p.env_name, "dev");
    assert_eq!(p.command, "/bin/true");
    assert!(p.vm_daemon && p.background);
    assert_eq!(p.vm_keep_timeout, Some(60));
    assert_eq!(p.vm_cpus, Some(44));
    assert_eq!(p.vm_memory_mib, Some(512));
    assert_eq!(p.vmm_order, vec!["qemu".to_string()]);
    assert_eq!(vm_start_plan("dev", true, &c).err(), Some("VM already running for dev".to_string()));
}

#[test]
fn started_message() {
    let mut c = VmConfig::default();
    assert_eq!(vm_started_message("e", &c), "VM started for e (timeout=never, extend=10s)");
    c.timeout = Some(120);
    c.extend = 5;
    assert_eq!(vm_started_message("e", &c), "VM started for e (timeout=120s, extend=5s)");
    c.timeout = None;
    assert_eq!(vm_started_message("e", &c), "VM started for e (timeout=immediate, extend=5s)");
}
