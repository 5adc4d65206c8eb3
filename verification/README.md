# cybervault

An encrypted secrets vault: a master password unlocks one file of labelled
secrets. Argon2id derives the key, ChaCha20-Poly1305 seals the entries, and
the file is `MAGIC(4) | salt(16) | nonce(12) | ciphertext`.

The library under `src/` is verified with Verus:

- `crypto` – key derivation and authenticated encryption, with the calls into
  `argon2` and `chacha20poly1305` behind small trusted wrappers;
- `vault` – the file format (framing, splitting, sealing with a fresh salt and
  nonce, opening), the entries and their errors;
- `entry_map`, `label_order` – the label-ordered map of entries;
- `app`, `app_laws` – the interactive session as a state machine, and what
  holds of it across calls (filtering, selection, the add wizard, removal);
- `text`, `display`, `keysmith_gen`, `cli` – trimming and searching text,
  what the terminal shows, reading `keysmith` output, password confirmation.

`app/` is the command-line program around it: argument parsing, prompts,
file and clipboard I/O, JSON (de)serialization and terminal drawing.
