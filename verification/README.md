# dgc_contract

Verified core of the dgc.network agent registry, written in Verus.

- `src/addresser.rs` – global-state addresses of agents and organizations
  (namespace `cad11d`, a resource code, 62 hex digits of the SHA-512 digest of
  the name), the hex encoding, and the laws about address layout.
- `src/digest.rs` – SHA-512 through rust-crypto.
- `src/errors.rs` – field validation errors (`Errors`, `FieldValidator`) kept in
  validator's `ValidationErrors`.
- `src/routes/` – request bodies and queries of the API and the decisions taken
  on them (required fields, batch ids, response status).
- `src/submit.rs` – the URL check made before a batch list is submitted.
- `src/permission.rs` – the proposal-creation smart permission.
- `app/` – the Rocket server, JSON rendering and HTTP submission around the
  library.
