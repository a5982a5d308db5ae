# containerd-shim-cwasi

The verified logic of CWASI, a containerd shim that runs WebAssembly functions
and picks, for each call between two functions, how the data travels: through
the callee's Unix socket or shared memory when it runs on the same host, or
through a Redis channel when it does not.

- `src/` is the library, verified with Verus: the routing decision and the
  lookup of a co-located container, the socket and broker protocols, the
  writes into and reads from the shared memory segment (the program maps the
  segment and hands its bytes to the library), the parts of the OCI runtime specification the shim
  reads, the module paths and environment of a container, timestamps, and the
  experiment's log parsing. Calls into `regex`, `chrono`, `wasmprinter` and
  `std::path` stand behind small trusted wrappers whose contracts say what the
  library relies on.
- `app/` is the program around it: the containerd sandbox, the WasmEdge VM and
  its host functions, Redis, sockets, shared memory mappings, file system walks,
  HTTP downloads and the experiment driver.
- `tests/` runs the library on concrete values.
