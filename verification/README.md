# snapdog-ctrl

The web controller of a SnapDog device, with its logic verified by Verus.

- `src/` is the verified library: the parsers of what `ip`, `resolvectl`,
  `wpa_cli`, `aplay` and the host's files report; the files the controller
  writes (wpa_supplicant, systemd-networkd, the client's environment file,
  `authorized_keys`, `ctrl.toml`); the settings archive checks; the
  auto-update cycle as a state machine; and an in-memory stand-in device for
  developing the web UI. Each public function states its result in its
  contract, and the `law_*` proof functions state what holds across calls
  (what a written file reads back as, what the update cycle never does).
- `tests/` runs the library on concrete values.
- `app/` is the program around it: the HTTP server, D-Bus calls to RAUC,
  commands, files and the JSON shapes of the API.
