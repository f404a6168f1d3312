# pudu

Translates `pnpm-lock.yaml` into Buck2 build rules, verified with Verus.

- `src/` is the library: reading a lockfile into a graph of package instances,
  pruning it per platform, deriving registry addresses, checking and inspecting
  tarballs, laying out the virtual store, and rendering the Buck files. Every
  function states what it returns, and the laws that span functions stand beside
  them as public proof functions.
- `app/` is the `pudu` command: arguments, files, the network and how diagnostics
  look.
- `tests/` run the library on concrete values.

What is believed rather than proved is what outside crates return: digests (`sha2`),
base64 (`base64`), archives (`tar`, `flate2`), YAML (`serde_norway`), JSON
(`serde_json`), TOML (`toml`), URLs (`url`) and relative paths (`pathdiff`), and three
functions of the standard library. Each such item says what it claims in its doc comment.
