# rerrb

Relay of UniFi 802.11r RRB frames from the switch-facing ports of a gateway to
hostapd on its bridge.

The switch delivers RRB frames (EtherType `0x88B7`, protocol selector OUI
`00:13:74` + `00 01`) to the switch-facing ports, but hostapd listens on the
bridge. There are two ways across, with the same frame rules:

- a daemon that captures frames passively, validates and untags them, and
  writes them to a TAP whose TC `mirred` rule forwards them into the bridge;
- a TC action inside the kernel that validates each frame, pops its management
  VLAN tag and redirects it into the bridge's receive path.

## Layout

- `src/` is the verified library.
  - `wire`, `text`: bytes, byte orders and characters.
  - `common`: the action's map ABI and frame parser, and what holds of it.
  - `proto`: the daemon's filter identity and frame validator, and what holds
    of it.
  - `ebpf`: the kernel action, step by step.
  - `loader`: map contract, BTF blob, map values, `bpf()` requests and the
    order of loading.
  - `config`, `hostapd`: configuration, addresses, and the filter identity
    that they make with what the host reports.
  - `packet`, `tap`, `relay`, `daemon`: capture, commands, untagging and rate
    limit, and the daemon's decisions.
- `app/` performs the I/O: sockets, TAP, `tc`, `bpf()`, YAML, logging, and the
  kernel side of the action.
- `tests/` run the library on concrete frames, texts and values.
