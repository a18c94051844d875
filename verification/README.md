# PhantomCipher offline decryption

A verified library that decrypts PhantomCipher containers, and a command line tool around it that
asks for the master password and decrypts every container below the current directory in place.

- `ENC_V1:<extension>:<payload>`: base64 of salt (16), nonce (12), compression flag (1) and an
  AES-256-GCM ciphertext. The key is derived from the password and the salt with Argon2id.
- `ENC_V2:<extension>:<payload>`: `key=value` fields joined by `&`, then chunks of 4 MiB, each with
  its own nonce and tag, as raw bytes (`bf=1`) or base64 text. The field `ek` holds the data key,
  wrapped with a master key that Argon2id derives from the password alone.

## Layout

| module       | what it holds                                                        |
|--------------|----------------------------------------------------------------------|
| `text`       | splitting, trimming and UTF-8 decoding                               |
| `params`     | the extension region of a version 2 container                        |
| `encoding`   | base64                                                               |
| `error`      | the reasons for a refusal and their messages                         |
| `primitives` | Argon2id, AES-256-GCM and zlib, and what is built on them directly   |
| `cache`      | keys by salt or by wrapped form                                      |
| `v1`, `v2`   | the two container versions                                           |
| `container`  | choosing the version, and sessions that keep keys between files      |
| `report`     | the summary of a run                                                 |
| `laws`       | what holds of the formats as a whole                                 |

`app/` reads the password, walks the directory, reads and writes the files and prints the report.

Argon2id, AES-256-GCM, zlib, base64 and the concurrent map come from outside crates. What the proofs
take for granted about them stands in the contracts of a few small functions in `primitives`,
`encoding`, `cache` and `text`; all other code is proved against those contracts.
