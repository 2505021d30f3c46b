# nightshade_viewer

The verified core of a glTF/GLB viewer whose engine runs in a web worker and
which an external MCP agent can drive through a local relay.

`src/` is the library, checked by Verus:

- `protocol`, `json`: the wire types shared by the page, the worker and the
  relay, over a model of JSON values.
- `registry`, `agent`: the agent's component registry (write policies, bag
  checks) and the worker side of the agent protocol: queries, reads against
  generational handles, command planning, and the per-frame delta stream.
- `host`, `args`: the relay's state: response routing, the bounded ring of
  delta batches, subscription cursors and polling, `$ref` resolution in batch
  calls, and the replies each tool gives.
- `scene`, `despawn`, `picking`, `load`, `api`: the archetype store behind the
  scene tree, hierarchy walks, pick cycling, load bookkeeping and the event
  and command queues.
- `browsers`, `catalog`, `order`, `text`: the asset-browser index handling,
  resolution choice, the asset catalog the agent reads, sorting and the text
  helpers they use.
- `drop`, `unzip`, `environment`: routing dropped files (a `.zip` is unpacked
  with the `zip` crate first), and reading atmosphere names.
- `laws`: properties that span several functions, stated and proved.

`app/` is the relay program around the library: stdio JSON-RPC, the page's
websocket, and the serde copies of the wire types.

`tests/` runs the library on concrete values.
