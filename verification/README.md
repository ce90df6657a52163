# Stickies

Sticky notes for the GNOME desktop that come back to the same monitor, the same
spot and the same size.

`src/` is the library: everything that decides something. Each function states
what it does and Verus proves it. What is believed rather than proved are the
contracts on functions of `std`, in `clock.rs`, `paths.rs` and `text.rs`; the
comment above each says what it claims.

| | |
|---|---|
| `model/markdown.rs` | which characters of a note are styled, and which are syntax |
| `model/geometry.rs` | placing notes on the monitors that are attached |
| `model/note.rs` | a note: identity, title, colour |
| `model/store.rs` | the notes, opening and saving them |
| `placement.rs` | what is said to the shell extension, and what it answers |
| `tray.rs` | the status-bar icon and its menu |
| `session.rs` | what each thing the user does comes to |
| `window.rs` | what a note's window shows and reports |
| `diagnostics.rs` | the report for when something does not work |
| `actions.rs` | what can be done, and the keys and menus that ask for it |
| `wire.rs` | values on the message bus |
| `search.rs`, `text.rs` | sequences and text |
| `clock.rs`, `paths.rs` | the clock and the file system's paths, taken from `std` |

The `*_laws.rs` files hold what is true of several of these functions together:
that a crash never tears the notes file, that every note lands inside a work
area, that putting a note away deletes nothing.

`app/` is the program around it: GTK windows, the message bus, the file system
and the shape of the notes file.
