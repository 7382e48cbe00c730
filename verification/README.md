# quickshot

A Flameshot-style screenshot and annotation tool for GNOME (Wayland and X11)
that selects across several monitors at once. The part of it that decides
things is a Verus-verified library; the program around it captures, draws and
talks to the desktop.

## Layout

- `src/` — the verified library (crate `quickshot`):
  - `hotkey` — the global shortcut in GNOME's custom keybindings: reading the
    `gsettings` replies, the writes that install or remove the shortcut, the
    step-by-step making of those writes, and proofs over a model of the
    settings store: an installed key reads back bound, installing twice changes
    nothing, removing unbinds it and gives the list of keybindings back.
  - `keys`, `overlay` — what a key press, a click or a toolbar button does in the
    selection overlay, and which tool is active.
  - `history` — the annotations with undo and redo, numbered markers included.
  - `model` — tools, frame ratios (the Tab cycle), toolbar buttons.
  - `color` — `#RRGGBB` colors, read and written.
  - `pixels` — image ⇄ cairo surface conversion and pixelation by block means.
  - `picture` — cropping and PNG encoding through the `image` crate.
  - `clock` — file names from the capture time through `chrono`.
  - `output`, `capture`, `options` — clipboard tools to try, notices, the
    screenshot programs to fall back on, checks on user input.
  - `text` — string helpers with their meaning over `Seq<char>`.
- `app/` — the program: command line, capture through xdg-desktop-portal, the
  GTK overlay and settings window, cairo drawing, files, clipboard and
  notifications. Geometry there is floating point.
- `tests/` — tests of the library.
