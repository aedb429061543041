# dene

A small terminal user-interface toolkit, written in Verus.

`src/` is the verified library:

- `geometry` — rectangles of cells, with clamped edges, and their overlap.
- `frame`, `frame_laws` — the grid of cells a window draws into; reading
  after writing, writing strings, and the difference of two frames, with the
  proof that drawing the difference onto the old frame gives the new one.
- `input` — the state of a text input, its text kept in a `ropey` rope.
- `interactive` — keystrokes, key events as a terminal reports them, and the
  platform inputs made from them.
- `key_dispatch` — the tree of dispatch nodes built while a frame is drawn,
  the stack of open nodes and key contexts, the listeners registered on the
  active node, dispatch paths, and the order in which listeners see a key
  event.
- `text` — splitting text into lines and drawing them into a frame.
- `terminal`, `terminal_laws` — the commands that bring a terminal from one
  frame to the next, and the pair of frames a window keeps, with the proof
  that a terminal showing the old frame shows the new one after them. A
  window's own output does not get that guarantee: as it always has, it
  diffs the freshly drawn frame against a blank frame, not against the frame
  it drew last time, so a cell that was drawn before and is blank now is not
  repainted.
- `update` — the bookkeeping of nested application updates.
- `window` — colours, window handles and window configuration.

`app/` holds what the library does not verify: terminal input and output
through `crossterm`, layout through `taffy` (floating-point sizes), elements
as trait objects, focus handles shared across threads, and the task
executors.
