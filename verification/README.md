# locusfs

A graph of desktop state — D-Bus services, DBusMenu menus, MPRIS players,
niri windows and workspaces, desktop notifications and PipeWire endpoints —
exposed as nodes with properties and relations, built from providers that
each serve one node kind.

- `src/` is the library, verified with Verus: identities and values, the
  provider routing of `DynamicGraph`, and each plugin's projection of its
  state into nodes, properties, relations, path trees and change reports.
- `tests/` exercises the library on concrete values.
- `app/` is the program around it: command line, configuration files,
  plugin libraries, and the calls to D-Bus and `pactl`.
