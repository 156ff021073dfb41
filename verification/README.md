# xmux

The rules behind a switcher over terminal multiplexers: it lists the sessions of every mux
that this machine can reach, shows one of them, and moves between them. The library decides;
processes, files, sockets and terminals are left to the code around it.

## Layout

- `src/` is the library. Every function in it is verified with Verus: its contract says what
  it returns or changes, over mathematical views of its types.
  - `text`, `bytes`, `number`, `table`, `paths`, `shell`: what the rest is written in.
  - `session`, `link`, `model`: sessions, hosts, sources, transports, events and the
    bookkeeping of displays.
  - `mux`: tmux, psmux, zellij, abduco and screen - their commands, their listings, how they
    are told apart, and what it takes to show one of their sessions (`mux/*/display`,
    `driver`).
  - `proxy`: keys, mouse reports and control lines, the grid that a child's output is drawn
    from, and the attachments.
  - `provision`: the configuration, the ssh configuration, and the machines that are found
    on the network.
- `tests/` runs the library on concrete values.
- `app/` is ordinary Rust around it: it runs commands, reads files, asks the kernel, opens
  pseudo terminals, and hands the answers to the library.

## What is not proved

The contracts of the functions marked `external_body` and of the `assume_specification` are
believed. They stand at the top of `src/text.rs` (lower-casing, lossy UTF-8, quoting and
`String::push` of the standard library) and of `src/proxy/screen.rs` (the `vt100` terminal
emulator). Each says in its doc comment which function it speaks of.
