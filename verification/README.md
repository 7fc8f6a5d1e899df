# kata-device-provisioner

Puts a node's passthrough devices into the state a Kata GPU workload expects:
confidential computing mode set, bound to VFIO, and configured to come back that
way after a reboot.

```text
host-check -> discover -> verify idle -> resolve vfio drivers
           -> set CC mode -> reset -> write boot config -> bind -> release -> verify
```

- `src/` is the library. It decides what is done to a node and never acts on
  one: `run` is the pipeline, `board` the mode change of a whole baseboard, and
  both hand out one action at a time and take what came of it. Every function
  carries a contract. Verus proves all of them but those of the few functions
  that hand a call to another crate or to std: the JSON and SHA-256 calls of
  `profiles`, the driver name of `modules`, the quoting of `mode`, and
  `String::push` in `text`. These are believed, and each says in its doc comment
  what is claimed of the call. What is true of every run, whatever the
  node answers, stands in `history`: `ending` adds that it ends, `outcome` and
  `handback` what a finished one has done and released, and `again` that applying
  a mode twice is applying it once. The other modules state their own laws as
  public proof functions.
- `tests/` runs the library on concrete nodes.
- `app/` is the program: the command line, sysfs, `/proc`, `modprobe`, and the
  devices themselves through `pcilibs-rs`. Started as `generate-profile-index`
  it writes the index of the deployment profiles.
