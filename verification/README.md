# ratatui_vault

The library of a terminal password manager. A vault is a text file of
`[section]` blocks with `key=value` lines, kept encrypted on disk.

`src/` is verified with Verus:

- `model` – the file format (version byte, then nonce, salt and ciphertext,
  each with a big-endian 32-bit length) and its round-trip lemmas;
- `crypt` – the envelope: Argon2id key derivation and XChaCha20-Poly1305,
  reached through trusted wrappers whose contracts name the primitives'
  results; decrypting what was encrypted gives back the text;
- `commands` – section queries, changing the pass phrase, merging two vaults;
- `git_credential_helper`, `ssh_ask_pass` – answering git and ssh from a vault;
- `ui` – the editor's and the prompt's decisions: what a key does, when the
  document counts as modified, how the save question is answered;
- `args`, `text`, `error_string` – arguments, `key=value` lines, text helpers.

`app/` is the program around it: argument handling, files, the terminal
user interface, the kernel keyring.
