# vlessok

The core of a desktop VPN client that runs sing-box with a VLESS + Reality
profile, written in Verus. The library's own functions are proved against
their contracts. Six small functions that call std or an outside crate
(`String::push`, `str::trim`, `str::to_lowercase`, `url::Url::parse`,
`String::from_utf8_lossy`, `serde_json::from_str`) are trusted, not proved:
their contracts state what those calls are documented to do.

## Layout

- `src/` — the verified library.
  - `config.rs`: UUID validation and the sing-box document built from a
    `vless://` URL, the routing rules and the rule-pack files; the whole
    document is specified as a spec function of the URL's parts.
  - `routing.rs`: the routing rules (mode, domains, geo rules, processes),
    domain normalisation and the list operations; `routing_laws.rs` proves
    what the operations keep and undo.
  - `config_laws.rs`: properties of the generated route and of UUID
    validation.
  - `rule_pack.rs`: merging the bundled and downloaded domain lists into a
    sorted rule set.
  - `processes.rs`, `icons.rs`: the process list shown to the user and the
    icon cache.
  - `singbox.rs`: the crash report and the decisions taken when the sing-box
    process is checked.
  - `json.rs`, `text.rs`, `vless_url.rs`: the JSON model, text helpers, and
    the URL parts read through the `url` crate.
- `tests/` — tests of the library on concrete values.
- `app/` — the Tauri application around the library: commands, files,
  processes, downloads and the Windows job object.
