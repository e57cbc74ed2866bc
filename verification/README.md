# LogPose

Verified building blocks of the LogPose vector database. The library is written in Verus: each
function states in its contract what it returns, and the verifier proves it.

- `src/index/`: the HNSW graph, how it is built, searched, checked, written and read, and the flat
  index with its scalar summaries. Files that end in `_facts`, `tidiness.rs`, `reach.rs`,
  `complete.rs` and `exact.rs` hold what follows for every graph, and `summaries.rs` what follows
  for every collection of documents.
- `src/access.rs`, `src/auth.rs`: who may do what.
- `src/config.rs`, `src/catalog.rs`, `src/namespace.rs`: settings, descriptors and names.
- `src/workflow.rs`: the order in which a node checks, changes and reports collections.
- `src/grpc/`, `src/client/`, `src/rest.rs`, `src/wire.rs`, `src/proto.rs`: what requests and
  replies say, on either side.
- `tests/`: tests of the library.
- `app/`: the services around the library, with their listeners, files and connections.

JSON documents are held as text, and are read and sent in the notation that `serde_json` writes.
Vectors and metric values are held as the bit patterns of binary32 numbers. The library orders
them; the services compute them.
