# epico

The logic of a stream-processing pipeline whose stages are WebAssembly
components, with its behaviour stated in contracts and proved by Verus.

A pipeline is described in a file, generated and built by the command line,
and run by an agent: one control loop per stage starts and drains replicas, a
dispatcher hands events to workers by credit, neighbouring stages may share a
process and exchange events over rings, and stages that are worth it are fused
into one while the stream flows. A collector measures what comes out.

- `src/` is the verified library.
  - Edges and the end of a stream: `payload`, `inproc`, `spsc`, `eos`.
  - Events: `wire` (the binary form), `envelope`, `typed`, `boundary`.
  - Shape of a pipeline: `config`, `startup`, `wiring`, `morph`, `transition`.
  - Control: `autoscaler`, `controller`, `control_loop`, `dispatcher`,
    `supervisor`, `machine`, `signature`, `validator`.
  - Measurements: `hist`, `timing`, `topk`, `window`, `live`, `fold`,
    `telemetry`, `stats`, `summary`, `report`, `calendar`, `logger`.
  - Project files: `ordered`, `pipeline_spec`, `toml_text`, `codegen`,
    `runtime_yaml`, `scaffold`, `generate`, `orchestrate`.
  - Text and values: `text`, `numtext`, `json`.
- `tests/` runs the library on concrete values.
- `app/` is the three programs around it, `epico`, `master` and `dispatcher`:
  sockets, files, processes, threads and the WebAssembly runtime.

Functions named `law_…` state what holds of several functions together. The
few items that Verus believes without proof call `std`, `bytes`,
`crossbeam_queue`, `rand` and `wasmparser`; the comment above each says what is
claimed of the call.
