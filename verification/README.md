# audiomenu

Choosing the default audio device from a launcher menu, with the logic
verified by Verus.

- `src/text.rs`: text as `Seq<char>`: trimming, searching, removing a
  pattern, splitting into lines, decimal numbers; each executable primitive is
  proved to compute its spec function.
- `src/lib.rs`: devices, the menu line of a device, and reading the chosen
  line back; the law that a menu line reads back as its device's ID.
- `src/backend/pipewire.rs`: reading `wpctl status` and `pw-cli info` output,
  and the commands that the backend runs.
- `src/backend/switch.rs`: switching the default device and moving the
  running streams, as a state machine that takes each command's outcome and
  gives the next command.
- `src/backend/mod.rs`, `src/cli/mod.rs`, `src/launcher.rs`: backend names,
  command-line options and their conversions.
- `app/lib.rs`: running the tools, the clap parser and the backend trait.
