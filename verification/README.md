# sspm

Super Simple Password Manager: a command-line password manager whose entries
are encrypted with AES-256-GCM under a key derived from the master password
with Argon2 and HKDF-SHA256; the unlocked key is kept in the kernel session
keyring while the vault is open.

The logic is a library verified with Verus (`src/`):

- `codec`: base64 (RFC 4648, with and without padding) as a specification,
  with the proof that encoding is injective and that decoding inverts it;
  calls into the base64 crate and UTF-8 decoding.
- `secrets`: salts, master-password hashing and checking, encryption and
  decryption of passwords, with the laws that the owner's password opens the
  vault and that an encrypted password decrypts back.
- `text`: substring search, the order of strings, and decimal parsing.
- `vault`: searching entries by service and user, stable sorting by service
  name, removal, building and decrypting entries, and the choices the commands
  make.
- `ui`: masking passwords, numbering table rows, password and prompt rules,
  and random password generation.

`app/` is the program around it: command-line parsing, prompts, the JSON
vault file, the session keyring and the clipboard. `tests/` exercises the
library on concrete values.
