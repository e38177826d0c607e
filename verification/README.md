# samari_catcher

The logic of the Samari Catcher desktop client, a native companion to the
ComputerCraft relay at `cc.minecartchris.cc`, verified with Verus.

- `src/` is the verified library: the per-tab session state machine
  (`session`), the decisions of the WebSocket loop (`connection`), the packet
  model (`protocol`, `file_flags`), Fletcher-32 checksums (`checksum`),
  character-level save patches (`diff`), text helpers (`text`), the pure parts
  of the local Ollama client (`ollama`), of the terminal view (`terminal`) and
  the settings defaults (`settings`).
- `tests/` runs the library on concrete values.
- `app/` is the unverified shell: async WebSocket and HTTP tasks, JSON
  encoding, egui panels, syntax highlighting and the terminal font atlas.
