# quasar

The core of Quasar, a desktop tool for managing remote hosts: network scans, saved
hosts, SSH sessions and tunnels, scheduled tasks, monitoring alerts and workflow
automation. The library is written in Verus: each public function states what it does
in `requires` / `ensures`, and Verus proves the code against it.

## Layout

- `src/` — the verified library. One module per concern (`scanner`, `scheduler`,
  `alerts`, `graph`, `engine`, `ssh_pool`, `tailscale`, `crypto`, ...). Laws that span
  several functions are public proof functions named `law_*`. Calls into outside crates
  (cron, chrono, argon2, aes-gcm, sha2, uuid, cidr) go through small trusted wrappers
  whose doc comments say what is assumed of them.
- `tests/` — ordinary Rust tests of the library on concrete values.
- `app/` — the unverified shell: SQLite storage, the Tailscale CLI, probing hosts on the
  network, running scheduled tasks and the floating-point side of monitoring. It hands
  the library plain values and acts on what comes back.
