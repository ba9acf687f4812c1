# docker_tui

A terminal user interface for Docker. The library in `src/` holds what the program decides,
with contracts that Verus proves:

- `viewport`: the scrolling window over the list of containers, which stays valid under every
  operation; scrolling by `a` lines then `b` lines is scrolling by `a + b`.
- `input_state_machine`: a trie of hash tables that recognizes bound key sequences; its
  bindings are prefix-free, and typing a bound sequence yields its value.
- `container_list`: how the list answers key presses, mouse events, Docker's answers and
  expired timers, and how it is laid out on the screen.
- `timer`: timer identifiers and the running timers of the timer task.
- `docker`, `input`: the messages and events that the list reads.

`app/` is the program: it reads the terminal, talks to Docker, runs the timers and draws with
ratatui.
