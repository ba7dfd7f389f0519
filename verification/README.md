# kukri

An eBPF-backed firewall with a terminal interface. Ingress runs with XDP,
egress with TC; the interface edits the rules and turns the BPF programs and
their rule stages on and off.

The library in `src/` holds the firewall's logic, specified and proved with
Verus:

- `config` — the ACL configuration, the address/range/MAC parsers and
  `ACLConfig::validate`, which collects every problem of a configuration.
- `settings` — editing the configuration from the interface: switches that
  flip, rule lists that grow and shrink, the interface selection.
- `stages` — which BPF programs are optional rule stages and which
  tail-call slot each one occupies, read from the object's read-only data.
- `bpf` — what gets written into the BPF maps (`sync_acl` plans every map
  write, byte for byte), prog-array slot entries, attach/detach decisions.
- `events` — decoding the drop events of the ring buffer and the bounded
  event log.
- `screen`, `ui`, `actions` — the rows of every page, how key presses change
  the interface state, and what each action does to the running firewall.
- `text`, `consts` — text handling shared by the parsers, and program names.

`app/` is the program around it: command line, JSON file, loading the BPF
object with libbpf, attaching programs, writing maps, polling the ring buffer
and drawing the terminal. It performs what the library decides.

`tests/` exercises the library on concrete values.
