# butterup

The logic of a desktop updater for Debian-family systems, verified with Verus.

- `src/` is the verified library. `text` states the character-level string
  operations it relies on (lines, words, trimming, splitting, searching,
  decimal numbers) as spec functions and implements them. `history`,
  `health`, `snapd`, `flatpak`, `packagekit`, `privileged` and `system` read
  the output of apt, dpkg, snap, flatpak and PackageKit, decide each health
  check, and build the fixed command lines of the maintenance actions.
- `app/` runs the programs, reads the files, talks to PackageKit over D-Bus
  and hands what it got to the library; it also renders byte sizes, which
  takes floating point.
- `tests/` runs the library on concrete inputs.
