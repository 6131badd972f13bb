//! VMM backend selection.
//!
//! Backends are tried in the order given by `--vmm`, or the default order: libkrun
//! (when built with it), then qemu (when the host has it). The caller runs each backend;
//! the decisions between attempts, and the messages, are made here.
use vstd::prelude::*;
use crate::text::{chars_of, string_from_chars, push_str, has_infix, contains_seq};

verus! {

/// The views of a list of strings.
pub open spec fn names(v: Seq<String>) -> Seq<Seq<char>> {
    Seq::new(v.len(), |i: int| v[i]@)
}

/// The default backend order: `libkrun` when the build has it, then `qemu` when the host
/// has the qemu backend (Linux and macOS on x86_64).
pub open spec fn default_order(libkrun: bool, qemu: bool) -> Seq<Seq<char>> {
    (if libkrun {
        seq!["libkrun"@]
    } else {
        seq![]
    }) + (if qemu {
        seq!["qemu"@]
    } else {
        seq![]
    })
}

/// The default backend order ([`default_order`]).
pub fn default_vmm_order(libkrun: bool, qemu: bool) -> (r: Vec<String>)
    ensures
        names(r@) == default_order(libkrun, qemu),
{
    let mut order: Vec<String> = Vec::new();
    if libkrun {
        order.push("libkrun".to_owned());
    }
    if qemu {
        order.push("qemu".to_owned());
    }
    assert(names(order@) =~= default_order(libkrun, qemu));
    order
}

/// The order to try: the `--vmm` list when given, else the default.
pub fn select_vmm_order(vmm_order: &[String], default: Vec<String>) -> (r: Vec<String>)
    ensures
        names(r@) == if vmm_order@.len() > 0 {
            names(vmm_order@)
        } else {
            names(default@)
        },
{
    if vmm_order.len() == 0 {
        return default;
    }
    let mut r: Vec<String> = Vec::new();
    let mut i: usize = 0;
    while i < vmm_order.len()
        invariant
            i <= vmm_order@.len(),
            names(r@) == names(vmm_order@).take(i as int),
        decreases vmm_order@.len() - i,
    {
        let ghost b = names(r@);
        r.push(vmm_order[i].clone());
        assert(names(r@) =~= b.push(vmm_order@[i as int]@));
        assert(names(vmm_order@).take(i + 1) =~= names(vmm_order@).take(i as int).push(
            vmm_order@[i as int]@,
        ));
        i = i + 1;
    }
    assert(names(vmm_order@).take(i as int) =~= names(vmm_order@));
    r
}

/// A VMM backend.
pub enum Backend {
    Krun,
    Qemu,
}

/// The backend a name selects.
pub open spec fn backend_of(name: Seq<char>) -> Option<Backend> {
    if name == "libkrun"@ {
        Some(Backend::Krun)
    } else if name == "qemu"@ {
        Some(Backend::Qemu)
    } else {
        None
    }
}

/// The index of the first known backend at or after `i` (the length when none is left);
/// unknown names are skipped.
pub open spec fn next_known(order: Seq<Seq<char>>, i: int) -> int
    decreases order.len() - i,
{
    if i < 0 || i >= order.len() {
        order.len() as int
    } else if backend_of(order[i]) is Some {
        i
    } else {
        next_known(order, i + 1)
    }
}

/// `format!("{:?}", list)`: the debug rendering of a list of strings.
pub uninterp spec fn debug_string_list(v: Seq<Seq<char>>) -> Seq<char>;

/// Renders a list of strings with `Debug` (`["libkrun", "qemu"]`); the contract names
/// the result without stating how `Debug` quotes and escapes.
#[verifier::external_body]
fn format_debug_list(v: &[String]) -> (s: String)
    ensures
        s@ == debug_string_list(names(v@)),
{
    format!("{:?}", v)
}

/// The message when every backend was tried and failed, or none was usable.
pub open spec fn vmm_failure(order: Seq<Seq<char>>, last_err: Option<Seq<char>>) -> Seq<char> {
    match last_err {
        Some(e) => "All requested VMM backends failed (order: "@ + debug_string_list(order)
            + "); last error: "@ + e,
        None => "No usable VMM backend found for order "@ + debug_string_list(order)
            + ". Specify --vmm=libkrun,qemu or --vmm=qemu and ensure dependencies are installed."@,
    }
}

/// Where the search through the backends stands.
pub struct VmmState {
    /// The index of the next name to look at.
    pub next: usize,
    /// The error of the last backend that failed.
    pub last_err: Option<String>,
}

/// What to do next.
pub enum VmmAction {
    /// Run this backend (`order[index]`).
    Try(Backend, usize),
    /// Give up with this message.
    Fail(String),
}

/// The start of the search.
pub fn vmm_start() -> (s: VmmState)
    ensures
        s.next == 0,
        s.last_err is None,
{
    VmmState { next: 0, last_err: None }
}

fn eq_lit(a: &String, lit: &str) -> (b: bool)
    ensures
        b == (a@ == lit@),
{
    let x = chars_of(a.as_str());
    let y = chars_of(lit);
    if x.len() != y.len() {
        return false;
    }
    let mut i: usize = 0;
    while i < x.len()
        invariant
            i <= x@.len(),
            x@.len() == y@.len(),
            x@ == a@,
            y@ == lit@,
            forall|j: int| 0 <= j < i ==> x@[j] == y@[j],
        decreases x@.len() - i,
    {
        if x[i] != y[i] {
            assert(x@[i as int] != y@[i as int]);
            return false;
        }
        i = i + 1;
    }
    assert(x@ =~= y@);
    true
}

/// The next step of the search: the first known backend from `state.next`, or the
/// failure message once none is left.
pub fn vmm_decide(order: &[String], state: &VmmState) -> (a: VmmAction)
    ensures
        match a {
            VmmAction::Try(b, i) => i == next_known(names(order@), state.next as int) && i
                < order@.len() && backend_of(names(order@)[i as int]) == Some(b),
            VmmAction::Fail(m) => next_known(names(order@), state.next as int) == order@.len()
                && m@ == vmm_failure(
                names(order@),
                match state.last_err {
                    Some(e) => Some(e@),
                    None => None,
                },
            ),
        },
{
    let ghost nm = names(order@);
    let mut i = state.next;
    if i > order.len() {
        i = order.len();
    }
    while i < order.len()
        invariant
            i <= order@.len(),
            nm == names(order@),
            next_known(nm, i as int) == next_known(nm, state.next as int),
        decreases order@.len() - i,
    {
        if eq_lit(&order[i], "libkrun") {
            return VmmAction::Try(Backend::Krun, i);
        }
        if eq_lit(&order[i], "qemu") {
            return VmmAction::Try(Backend::Qemu, i);
        }
        i = i + 1;
    }
    let listed = format_debug_list(order);
    let mut m: Vec<char> = Vec::new();
    match &state.last_err {
        Some(e) => {
            push_str(&mut m, "All requested VMM backends failed (order: ");
            push_str(&mut m, listed.as_str());
            push_str(&mut m, "); last error: ");
            push_str(&mut m, e.as_str());
        },
        None => {
            push_str(&mut m, "No usable VMM backend found for order ");
            push_str(&mut m, listed.as_str());
            push_str(
                &mut m,
                ". Specify --vmm=libkrun,qemu or --vmm=qemu and ensure dependencies are installed.",
            );
        },
    }
    VmmAction::Fail(string_from_chars(&m))
}

/// The state after the backend at `index` failed with `err`: the search goes on after it.
pub fn vmm_failed(index: usize, err: String) -> (s: VmmState)
    requires
        index < usize::MAX,
    ensures
        s.next == index + 1,
        s.last_err == Some(err),
{
    VmmState { next: index + 1, last_err: Some(err) }
}

/// The hint added to a libkrun failure that comes from the host's address-space layout.
pub open spec fn krun_hint() -> Seq<char> {
    ". Hint: host address-space layout can cause this; try --memory 4096 or EPKG_VM_MEMORY=4096, or use --vmm=qemu."@
}

/// The error reported for a libkrun failure: the message, with the hint when it mentions
/// `HostAddressNotAvailable` or `GuestMemoryMmap`.
pub open spec fn krun_error(msg: Seq<char>) -> Seq<char> {
    if has_infix(msg, "HostAddressNotAvailable"@) || has_infix(msg, "GuestMemoryMmap"@) {
        msg + krun_hint()
    } else {
        msg
    }
}

/// The error reported for a libkrun failure ([`krun_error`]).
pub fn krun_error_message(msg: &str) -> (r: String)
    ensures
        r@ == krun_error(msg@),
{
    let v = chars_of(msg);
    let a = chars_of("HostAddressNotAvailable");
    let b = chars_of("GuestMemoryMmap");
    if contains_seq(&v, &a) || contains_seq(&v, &b) {
        let mut out = chars_of(msg);
        push_str(
            &mut out,
            ". Hint: host address-space layout can cause this; try --memory 4096 or EPKG_VM_MEMORY=4096, or use --vmm=qemu.",
        );
        string_from_chars(&out)
    } else {
        msg.to_owned()
    }
}

/// The error of the libkrun backend in a build without it.
pub fn krun_disabled_error() -> (r: String)
    ensures
        r@ == "libkrun feature disabled"@,
{
    "libkrun feature disabled".to_owned()
}

/// The error of the qemu backend off Linux.
pub fn qemu_unsupported_error() -> (r: String)
    ensures
        r@ == "qemu backend is only supported on Linux"@,
{
    "qemu backend is only supported on Linux".to_owned()
}


/// The search skips exactly the unknown names: everything between the start and the
/// chosen backend is unknown, and the chosen index holds a known backend.
pub proof fn lemma_next_known_skips_unknown(order: Seq<Seq<char>>, i: int)
    requires
        0 <= i <= order.len(),
    ensures
        i <= next_known(order, i) <= order.len(),
        forall|j: int| i <= j < next_known(order, i) ==> backend_of(#[trigger] order[j]) is None,
        next_known(order, i) < order.len() ==> backend_of(order[next_known(order, i)]) is Some,
    decreases order.len() - i,
{
    if i < order.len() && backend_of(order[i]) is None {
        lemma_next_known_skips_unknown(order, i + 1);
    }
}

} // verus!
