# AleksCypher

Password-based file encryption and image steganography, verified with Verus.

- `src/` is the library. Every function states what it returns, and Verus proves it. Decrypting what
  was encrypted gives the file back, and extracting what was hidden in a picture of up to 2^27 pixels
  gives the secret back; both are part of the contracts. The image codec reads no larger picture of
  four bytes per pixel.
- `app/` is the program around it: the window, and reading and writing of files.
- `tests/` runs the library on concrete values.

What outside crates compute (AES-256-GCM, Argon2id, HKDF, SHA-256, ChaCha20, PNG, random numbers) is
trusted. The functions that call them are marked `#[verifier::external_body]`, and their comments say
what is relied on.

## Encrypted files

| bytes | content |
| --- | --- |
| 1 | version, 3 |
| 1 | flags: replay check, padding, padding level |
| 16 | salt |
| 12 | nonce |
| 40 | manifest: length, time, identifier, number of steps |
| rest | AES-256-GCM ciphertext and tag; the manifest is authenticated with it |

## Hidden data

Pictures are PNG files. A picture's slots are the lowest bits of its colours. The first 128 slots hold the salt. The other
slots hold the mark `ACYP`, the length and the data, in an order of the pixels that the password and
the salt decide.

Licensed under the GNU GPL, version 3.
