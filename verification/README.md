# loc_share

A node of a local sharing network. A new node joins by broadcasting a
connect request (an ephemeral key and its MAC) encrypted under an
invitation code; existing nodes keep the group's symmetric key wrapped under
a PIN in a configuration file.

Layout:

- `src/` — the library, verified with Verus:
  - `ossl.rs`: the OpenSSL primitives (ciphers, SHA-256, PBKDF2, RFC 3394 key
    wrap, random bytes) and the facts stated about them;
  - `crypto.rs`: AES helpers, PIN key wrapping, the invitation-code MAC and
    message encryption;
  - `wire.rs`, `proto.rs`: the protocol-buffer encoding of the connect request
    and of the configuration, with parse-after-write proofs;
  - `hex_codec.rs`, `decimal.rs`, `addresses.rs`: text forms of codes,
    numbers and addresses;
  - `crypto_node.rs`: creating and reloading a node; joining: making,
    checking and answering connect requests, and taking the group key from
    the answer;
  - `crc32.rs`, `messages.rs`: broadcast messages (the encrypted message, then
    its CRC-32);
  - `connection_process.rs`, `error.rs`.
- `tests/` — tests run against the compiled library.
- `app/` — the program: command line, configuration file, terminal and UDP
  sockets.
