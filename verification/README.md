# ers

Window border renderer for macOS: it draws colored overlay borders around
application windows.

The crate in `src/` is the verified part, written in Verus. It decides which
windows get a border, where each overlay goes, which color it has and whether it
is visible, and it reads the command line. It never talks to the system itself:
a `Session` is stepped with the window server's replies and gives back what to do
on the screen and what to ask next.

- `geometry`, `surface`, `window`, `focus`: the rules for single windows.
  Coordinates are fixed-point numbers, 65536 units to a point.
- `borders`: the recorded overlays and what each operation does to them.
- `plan`, `session`, `timer`: the work of a session as a list of tasks, its steps,
  and the batches of events that set it going.
- `agenda`, `screen`, `world`, `visibility`, `admission`, `reconcile`: what holds
  of every run, whatever the window server answers.
- `color`, `text`, `options`, `config`: colors and the command line.
- `overlay`, `display`, `construction`: the layout of an overlay, the scale of its
  display, and its construction from the window server's own windows.
- `border`, `tracker`: borders that are windows of the window server themselves.

`app/` is the program around it: the bindings to SkyLight, AppKit and
CoreFoundation, the run loop and logging. It needs macOS.

## Usage

```
ers [OPTIONS] [WINDOW_ID]

OPTIONS:
  -w, --width <PX>       Border width in pixels (default: 4.0)
  -r, --radius <PX>      Corner radius (default: 10.0)
  -c, --color <HEX>      Active border color (default: #5294e2)
  -i, --inactive <HEX>   Inactive border color (default: #59595980)
      --active-only      Only show border on focused window
      --list             List on-screen windows and exit
  -h, --help             Show this help
```

Run with no arguments to border all windows. Ctrl-C to stop (overlays are closed).
