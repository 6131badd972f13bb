# epkg core

The verified core of epkg's busybox-style applets, mount policy and VM command bridge,
written in Verus.

- `src/` is the library, every function proved against its contract:
  - `busybox::printf` — escape sequences, conversion directives and the loop that
    reuses the format while arguments remain;
  - `busybox::seq` — the roles, precision and widths of `seq`'s numbers, `-f` format
    parsing, flags and `-w` padding;
  - `busybox::pm` — what the `apk`, `apt` and `dnf` shims ask of the package backend;
  - `paths` — the components, prefixes and joins of Unix and Windows paths;
  - `mount_specs` — parsing mount specs, filtering covered mounts and the VM mount
    policy, on either host;
  - `vmm` and `vm::start` — backend selection and `epkg vm start`;
  - `libkrun::stream` — the request sent to a VM and the line protocol of its replies;
  - `text` — characters, trimming, integer parsing and rendering.
- `app/` holds what stays outside: command lines, terminals, sockets, threads, the file
  system, JSON and floating-point rendering.
- `tests/` runs the library on concrete values.
