# dnet-tui

A terminal client for a dnet cluster: it shows the devices and the ring topology of the
shards, loads and unloads models (also with a hand-made layer assignment), edits the
settings and chats with the loaded model.

- `src/` is the library, written in Verus: every screen's handling of keys, the texts it
  shows, and the reading of the API's answers, each function with a contract that Verus
  proves.
- `app/` is the program around it: the terminal, the event loop, HTTP requests, the
  settings file, and the drawing.
- `tests/` exercise the library on concrete values.
