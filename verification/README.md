# jdock

A dock for wlroots-based Wayland compositors, with its logic verified by Verus.

- `src/` is the verified library: desktop-entry parsing and lookup, the command
  line that launches an entry, the bookkeeping of the compositor's windows, the
  dock model (which icons are shown, in which order, with which windows), the
  decisions taken on clicks, menus, pinning and auto-hide, the settings and
  their choices, layout decisions, icon-name candidates, paths, the trash and
  removable devices. Every public function states its result in its `ensures`
  clause; the `law_*` proof functions state properties that span several calls.
- `app/` is the GTK program around it: windows and widgets, the Wayland thread,
  file and process I/O, the settings file, and the computations in floating
  point (geometry, CSS).
- `tests/` runs the library on concrete inputs.

The desktop-entry store keeps its entries in a `Vec`, in the order the files were
found, with unique ids as its invariant, where a `HashMap<String, _>` would be the
obvious choice: vstd's model of `HashMap` holds only for key types that obey its key
model, which vstd grants to primitive integers and `bool` but not to `String`, so
nothing about a map keyed by strings could be proved without an assumption. As a
consequence, when several entries match an application, `find_by_app_id` returns the
first one found. The dock model's maps, keyed by window id (`u32`), are `HashMap`s.
