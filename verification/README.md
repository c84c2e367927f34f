# graphshell

The verified core of a spatial web browser that shows browsing history as a
graph of pages. Verus proves the library in `src/`:

- `graph`: the page graph (petgraph's `StableGraph`, described through
  trusted wrappers), its URL and identity indexes, and snapshot conversion;
- `app`: the application state and the intent reducer, with the requests it
  queues for the persistent store, laws that relate its operations, and the
  recovery law: a snapshot plus the replayed log gives back what was kept;
- `persistence`: log keys, replay of logged mutations, recovery;
- `search`: fuzzy ranking of nodes (scores from nucleo);
- `tiles`: the panes of the window layout (tab titles, opening, pruning);
- `render`: node colours and labels, layout sync, and graph-view intents;
- `toolbar`: the location field and what it shows of the focused webview;
- `pixels`: engine images as RGBA8, and PNG thumbnails (via the `image` crate);
- `desktop`, `input`, `config`: decisions of the shell that need no window.

`app/` holds what needs disk, the environment, threads or floating point:
the fjall/redb/rkyv store, configuration files, the camera, the
force-directed layout with its kiddo spatial index and worker thread, and
the shell that places new nodes and carries out store requests. `tests/` run the library.
