# km-hub

A keyboard/mouse hub: wired input, switched between computers over Bluetooth with
`Ctrl+Alt+F<n>`. What the hub decides is written in Verus and proved; what touches the
kernel, BlueZ, the OpenRGB server and the disk is a thin program around it.

```
src/           the library, verified
  text, time, wire     characters and numbers, instants, bytes
  input/               key codes, key combos, the hotkey state machine, device selection
  hid/                 report descriptor, key and pointer events to HID reports
  router               where an event goes; switching, pacing, the re-pair hold
  bt/                  addresses, SDP record, GATT database, HIDP control channel,
                       connection books, the replay buffer, the manager, dialing
  rgb/                 OpenRGB packets, lighting state, the server session
  config, state        config.toml and state.toml as values
  hooks, cli           which commands run, command line
  macro_cli/           `km-hub macro`: capture, dialog, edits to the config document
app/           the program: tasks, sockets, D-Bus, files
tests/         the library run on concrete values
```

Each stateful type has a view (`x@`) and a well-formedness predicate (`wf`). Methods say what
they make of the view. Properties of several calls are the `law_*` proof functions at the end of
each module.

A few functions call into other crates and are trusted to do what their contracts say: reading and
printing `bluer` addresses, `evdev` key names, `toml_edit` documents, and two functions of the
standard library. Each is documented where it stands.
