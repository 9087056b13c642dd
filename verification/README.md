# dbar

The verified core of a small, event-driven status bar for Wayland, and the ordinary Rust around
it.

`src/` is a library written and proved in Verus. It takes the decisions the bar takes: how a
configuration is resolved, what each source says, when it is read again, what a click means, how
the session bus and the wireless stack are spoken to. It does no I/O and no floating-point
arithmetic; quantities are kept as what they are worked out from, and numbers that arrive as
floating point are carried by their bits.

- `config` resolves a configuration, and refuses it with the place and the reason.
- `collect` turns what the kernel, a program, a player or the sound server says into readings,
  and schedules the reads.
- `dbus` writes and reads messages of the session bus.
- `app` holds what the bar does about what happens to it: gestures, clicks, menus, screens,
  scrolling, folding, hiding.
- `color`, `extended`, `natural`, `number`, `status`, `table`, `text` and `time` are what those
  are written in.

`app/` touches the machine: files, sockets, programs, threads and the compositor's surfaces. It
reads the texts that are floating point, and works out the volume, the icon size and what else
is. What lays a bar out and paints it is handed to it.

`tests/` runs the library on concrete values.
