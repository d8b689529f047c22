# herdr_plugins

Three plugins for the herdr terminal multiplexer, with their logic verified by
Verus:

- **agent-map** — every running agent, grouped by repository.
- **daybook** — the morning read: open loops, what moved, running agents.
- **workspace-order** — reorder workspaces from the keyboard.

## Layout

- `src/` — the verified library. `status` (agent status, socket choice, reply
  envelope), `layout` (grouping, group nodes, connectors), `map_frame` (the
  map's legend and box text), `model` (the collector's document and the
  questions asked of it), `app` (the daybook pane's state machine and refresh
  cadences), `panels` (the daybook's header, footer, panels and plain frame),
  `ui` (palette and scrolling), `reorder` (workspace moves and rows), with
  `text`, `ordering` and `copies` underneath.
- `app/` — the program around it: the unix-socket client, JSON decoding,
  floating-point node placement, the terminal event loops and painting.
- `tests/` — tests of the library.
