# Cosmic Switch Less

A window switcher for the COSMIC desktop that lists the windows of the current
workspace only, the most recently used one first.

The library under `src/` is the switcher's logic, with its contracts proved by
Verus. It does not talk to the compositor, draw, or read files: it takes plain
values and returns what is to be done.

- `window`: toplevels, workspaces and outputs as the compositor describes them
- `mru`: the order in which toplevels were last focused, with promotions that
  wait until a focus has lasted
- `listing`: which windows are listed, and in which order
- `screen`: the height of the smallest monitor
- `wayland`: what the listener makes of events and requests
- `thread`: the steps of the listener thread
- `icon`: which icon stands for an application
- `app`: the overlay's state, its messages and what it shows
- `input`: keys, signals and listener items as messages
- `config`: which settings are in force after loading them
- `laws`: what holds across these modules
- `history`: what holds of the order of use over any history of events
- `sequences`: lemmas on filtered sequences

The program under `app/` connects the library to the compositor, the screen and
the settings on disk. The lookup of desktop entries is that of the
`freedesktop-desktop-entry` crate, built without its feature `gettext`; `icon`
says what is relied upon there.

## Use

The program runs in the background and listens for two signals. `SIGUSR1` shows
the overlay with the previous window highlighted, or moves the highlight
forward; `SIGUSR2` shows it with the least recent window highlighted, or moves
the highlight back. `Tab` and `Shift+Tab` move it too. Pressing `Enter`,
releasing `Alt`, or releasing any modifier that was held when the overlay
appeared switches to the highlighted window; `Esc` hides the overlay.

The `settings` file may set `overlay_width`, `list_font_size`,
`list_icon_size` and `instant_commit_no_modifiers`. The last, off by default,
switches at once where no modifier is held any more when the overlay appears.
