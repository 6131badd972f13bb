use epkg::vmm::{
    default_vmm_order, krun_disabled_error, krun_error_message, qemu_unsupported_error,
    select_vmm_order, vmm_decide, vmm_failed, vmm_start, Backend, VmmAction,
};

fn strs(v: &[&str]) -> Vec<String> {
    v.iter().map(|s| s.to_string()).collect()
}

#[test]
fn default_order() {
    assert_eq!(default_vmm_order(true, true), strs(&["libkrun", "qemu"]));
    assert_eq!(default_vmm_order(false, true), strs(&["qemu"]));
    assert_eq!(default_vmm_order(true, false), strs(&["libkrun"]));
    assert!(default_vmm_order(false, false).is_empty());
}

#[test]
fn requested_order_wins() {
    assert_eq!(select_vmm_order(&strs(&["qemu"]), strs(&["libkrun"])), strs(&["qemu"]));
    assert_eq!(select_vmm_order(&[], strs(&["libkrun"])), strs(&["libkrun"]));
}

#[test]
fn backends_are_tried_in_order_skipping_unknown_names() {
    let order = strs(&["foo", "qemu", "bar", "libkrun"]);
    let s0 = vmm_start();
    match vmm_decide(&order, &s0) {
        VmmAction::Try(Backend::Qemu, 1) => {}
        _ => panic!("expected qemu at 1"),
    }
    let s1 = vmm_failed(1, "boom".to_string());
    match vmm_decide(&order, &s1) {
        VmmAction::Try(Backend::Krun, 3) => {}
        _ => panic!("expected libkrun at 3"),
    }
    let s2 = vmm_failed(3, "bust".to_string());
    match vmm_decide(&order, &s2) {
        VmmAction::Fail(m) => assert_eq!(
            m,
            "All requested VMM backends failed (order: [\"foo\", \"qemu\", \"bar\", \"libkrun\"]); last error: bust"
        ),
        _ => panic!("expected failure"),
    }
}

#[test]
fn no_usable_backend() {
    match vmm_decide(&strs(&["xen"]), &vmm_start()) {
        VmmAction::Fail(m) => assert_eq!(
            m,
            "No usable VMM backend found for order [\"xen\"]. Specify --vmm=libkrun,qemu or --vmm=qemu and ensure dependencies are installed."
        ),
        _ => panic!("expected failure"),
    }
    match vmm_decide(&[], &vmm_start()) {
        VmmAction::Fail(m) => assert!(m.starts_with("No usable VMM backend found for order []")),
        _ => panic!("expected failure"),
    }
}

#[test]
fn krun_errors() {
    assert_eq!(
        krun_error_message("mmap: GuestMemoryMmap(x)"),
        "mmap: GuestMemoryMmap(x). Hint: host address-space layout can cause this; try --memory 4096 or EPKG_VM_MEMORY=4096, or use --vmm=qemu."
    );
    assert!(krun_error_message("HostAddressNotAvailable").ends_with("or use --vmm=qemu."));
    assert_eq!(krun_error_message("other"), "other");
    assert_eq!(krun_disabled_error(), "libkrun feature disabled");
    assert_eq!(qemu_unsupported_error(), "qemu backend is only supported on Linux");
}
