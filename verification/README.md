# formchain

Formchain collects form submissions for websites on the Internet Computer:
a site posts its form data to a canister, which keeps each submission under
the form it belongs to. A second canister, the registry, signs up premium
users, who pay in ICP for a storage canister of their own.

- `src/` is the verified library:
  - `encoding` — lowercase hexadecimal text (form ids, account addresses);
  - `sealing` — ChaCha20-Poly1305 sealing of stored submissions: each form
    has its own random 256-bit key, and its `i`-th submission is sealed under
    the 96-bit nonce that holds `i` in little-endian order, with no
    associated data;
  - `text_map` — a map keyed by text;
  - `form` — forms, questions and answers;
  - `ledger` — the ledger of forms and submissions: a submission is refused
    when the same one is already stored for its form, and is kept only in
    sealed form; with its laws;
  - `routes` — the answers of the backend's HTTP routes;
  - `principal` — principals as bytes, their text, subaccounts and ledger
    account identifiers;
  - `registry` — premium users, the deposit address and the sign-up of a
    new premium user as a sequence of steps, with its laws.
- `app/` holds the two canisters around the library: candid and HTTP
  plumbing, the JSON text of each submission, random ids and keys,
  stable-memory encoding across upgrades, and the calls to the ledger, the cycles
  minting canister and the management canister that a sign-up makes.
- `tests/` runs the library on concrete values.
