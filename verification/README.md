# gitlab-ci-bash-ls

A language server proxy for GitLab CI files, verified with Verus.

The proxy stands between an editor and two language servers. Every script of a
CI file is opened as a virtual shell document in bash-language-server, and all
positions are mapped back to the YAML file; everything else goes to
yaml-language-server with GitLab's CI schema.

- `src/` is the library. It holds all decisions, each with a contract.
  - `text`, `seqs`, `json`, `value`: text, searching, and JSON values with their
    counterparts in the JSON library.
  - `yaml`, `node`: the events of the YAML parser and the tree built from them.
  - `source`, `scalar`, `script`, `extract`: lines and columns of a file, where
    each character of a scalar is in the file, and the scripts of a file.
  - `settings`, `completion`, `mapping`: settings, script-key scaffolds, and
    answers of bash-language-server in YAML coordinates.
  - `backend`, `uri`, `protocol`, `documents`, `proxy`: the proxy as a state
    machine from messages to actions. `laws` states what holds over several
    messages.
  - `rpc`: messages in byte streams.
  - `extension`, `proxy_install`: the commands and settings of the Zed
    extension, and finding or installing the proxy.
- `app/` reads and writes the bytes, runs the backends, and holds the Zed
  extension itself.
- `tests/` holds tests on concrete files and messages.

The YAML parser (`yaml-rust2`), the JSON library (`serde_json`) and a few functions of the standard library are
trusted; their contracts are in `yaml`, `value`, `text` and `rpc`.
