# shellglass

A live glass over a shell: a terminal session mirrored as HTML in a browser. This is the
library behind it, in Verus: the functions are ordinary Rust, and what they return is stated
in contracts and proved.

## What is where

| Module | What it does |
|--------|--------------|
| `vt` | a terminal screen: attributes, cells, rows, the cursor and the scrolling region, what control sequences ask for, and the text that paints a screen elsewhere |
| `parse`, `model` | the screen as styled cells |
| `images`, `image_laws` | images of three terminal protocols, taken out of a command's output |
| `mirror`, `pty`, `probe`, `placement_laws` | which images a terminal shows, a command's output on its way to the terminal and to the screen, images placed in it, how long they stay, and notices of a hub |
| `diff` | messages between a screen and its viewers: full frames, changed rectangles, their JSON text, and the numbering that lets a viewer join at any time |
| `render`, `ansi` | a screen as HTML and as escape sequences |
| `fonts`, `sfnt`, `config` | which fonts a page needs, and single faces of font files |
| `proto`, `registry`, `hub`, `requests` | ids derived from keys, the sessions that a hub knows, and what requests are answered |
| `client`, `ssh`, `record`, `live`, `tmux`, `cliutil` | what each event on a connection asks for, recordings, and a multiplexer's control mode |
| `text`, `b64` | texts, numbers and base64 |

Functions whose names begin with `law_` state what holds over several calls: that a message
applied leads to the frame it was made for, that no byte of a command's output is lost, that a
registry file reads back, and so on.

What other crates compute (hashes, PNG files, sixel images, base64, character widths, the
events in a stream of escape sequences) is called
behind small wrappers; each says in its comment what is taken on trust.

`app/` is the program around the library: arguments, sockets, files and the pseudo-terminal.
`tests/` runs the library.
