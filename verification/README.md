# datagraph

An audio graph: nodes with input and output ports, connections from outputs
to inputs, and a runtime that computes one sample at a time. The browser
front end runs it in a Web Audio worklet and edits it from the main thread.

Layout:

- `src/` is the verified library (Verus). It holds the graph's structure
  (nodes, the identifier index, parameter handles, connections, the values on
  ports and how they flow along connections), port keys and node identifiers
  with their text forms, the ring buffers, the state machines of the
  envelope, clock divider, monostable and sequencer, the delay line, the
  subscriptions of the shared value buffers, note names and MIDI numbers,
  and the bytes of a WAV file. Every public function carries a contract, and
  the properties that span several calls are stated as proof functions
  whose names start with `lemma_`.
- `app/` is the rest, in ordinary Rust: floating-point signal processing,
  the WebAssembly bindings, the worklet, the atomic buffers shared with
  JavaScript, and file output.
- `tests/` exercises the library on concrete values.
