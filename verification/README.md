# stratis_core

The verified core of a storage-pool management daemon, written in Verus.

`src/` holds the logic, each function with a contract that Verus proves:

- name, path and size validation (`names`, `shared`, `integrity`);
- encryption slot bookkeeping and key handling (`keys`, `sim_engine::keys`);
- an in-memory engine of pools, filesystems and block devices with its
  JSON reports (`sim_engine`);
- the LUKS2 token that marks encrypted devices (`crypt`), the reading of
  Clevis configurations and JWEs (`clevis`, `jwe`) and the decision whether
  a locked device can be unlocked (`activate`);
- the decisions made while identifying, claiming and initializing block
  devices (`device`, `devices`, `identify`), laying out a backstore and
  recording its allocations (`backstore`, `blockdev`), spreading requests
  for space over the devices of a pool (`blockdevmgr`), and rolling back an
  operation over devices (`operation`);
- the paths of device links (`devlinks`) and engine events (`event`);
- the errors and the daemon's messages for them (`errors`).

Calls into outside crates (`uuid`, `rand`, `chrono`, `serde_json`, `sha2`,
`data-encoding`) stand behind small trusted wrappers in `src/outside.rs`,
whose contracts say what the crates document.

`app/` holds what touches the system: serialized metadata, JSON
conversion, the files and links under `/dev/stratis`, reading keys from the
kernel keyring, and the loops that perform device operations step by step
as the library decides.

`tests/` exercises the library on concrete values.
