# bifrost_core

Verified core of BiFrost, a privacy-preserving federated-learning engine:
edge nodes train a small recurrent model on network-flow records, clip and
noise their gradients, send only the top-k entries (banking the rest as
error-feedback residue), and a hub anonymises submissions with a shuffling
mix and aggregates them with Krum.

Layout:

- `src/` — the library, verified with Verus. It holds the structural logic
  that does not depend on floating point: top-k index lists and the residue
  bank (`compression`), the wire update (`protocol`), the Krum gate and
  winner selection (`krum`), the sliding window that cuts flows into
  training sequences (`window`), the model's flat parameter layout
  (`layout`), scaling bounds and labels of flow records (`flows`), and the
  batching shuffler (`shuffler`). Values are generic, so the library runs on
  `f32` gradients without holding any float itself.
- `app/` — the program around it: CSV ingestion, the `ndarray` model and
  DP-SGD training, distances and scores, serde payloads, and the tonic gRPC
  hub and client.
- `tests/` — tests of the library on concrete values.
