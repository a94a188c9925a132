# sas_pwa_client

A desktop client for SAS Viya / SAS Studio sites: each configured site opens
in a window of its own, sessions are kept alive by an injected script, and
closing a window only hides it to the tray.

The crate is split in two:

- `src/` is the library, verified with Verus. It holds the decisions of the
  client, each with a contract over a mathematical model:
  - `config`: the site list and settings, `normalize` (addresses, names,
    unique ids, pulse limit, single default site, render mode) and the
    reading of old or early configuration files;
  - `credentials`: the credential list (find / view / upsert / remove /
    prune), the hexadecimal secret encoding and the plain password store;
  - `script`: the script injected into site windows and the small scripts
    evaluated in windows;
  - `shell`: window labels, which site to open, the tray menu and its
    actions, the frameless toggle and its de-bouncing, the F11 press state,
    re-navigation, the command-line actions;
  - `linux`: the WebKitGTK render plan and the start-up diagnosis;
  - `permissions`: the web permissions granted to site windows;
  - `urlparts`, `text`: URL parts and character-level helpers.
- `app/` is the program around it: Tauri windows and tray, file I/O, the
  Windows DPAPI, keyboard hook and taskbar calls, and the environment probes.

Laws that span several functions are stated as public proof functions next to
the functions they speak of (for instance `lemma_normalize_ok`,
`lemma_normalize_idempotent`, `lemma_sanitize_idempotent`,
`lemma_login_after_upsert`, `lemma_upsert_keeps_other_sites`,
`lemma_hex_decode_canonical`, `lemma_script_values_in_slots`,
`lemma_label_round_trip`, `lemma_render_plan_respects_user`).
