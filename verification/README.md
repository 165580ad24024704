# rotmguard

An autonexus and helper proxy for Realm of the Mad God on Linux, whose core is
verified with Verus.

- `src/` is the verified library:
  - `read`, `write`, `packets`, `extra_datatypes`: the wire format of the game
    protocol (big-endian integers, length-prefixed strings, compressed
    integers, stats and object statuses) with round-trip laws.
  - `module`: the per-connection modules (autonexus, stats, antidebuffs,
    fake slow, antipush, `/con`, cult staff, general commands) as functions
    from state and packet contents to new state and decisions.
  - `assets`: the readers of the game's `resources.assets` file (header,
    type and object tables, textures, XML definitions), the edits that
    remove client-side debuffs, and sprite extraction.
  - `server_list`, `damage_monitor`, `packet_logger`, `flushskip_stats`,
    `config`, `text`: the remaining logic.
- `app/` is the program around it: configuration file, logging, iptables,
  reading and writing the assets file, the server list request, and the
  floating-point HP arithmetic. Its connection handler relays the bytes of a
  connection unchanged: it does not frame, decrypt or route packets, so the
  modules and the damage monitor are not run by it.
- `tests/` exercises the library on concrete values.
