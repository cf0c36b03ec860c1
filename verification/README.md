# enterance

A launcher for a game client: it logs the player in, keeps the game files up
to date against the update server's list of SHA-256 digests, and prepares the
server list for the client.

- `src/` is the library, verified with Verus. Each module states its
  behaviour in contracts over `Seq`, `Map` and spec functions:
  `text` (trimming, ASCII case folding, substring search), `username`
  (sanitised user names), `paths` (the launcher's file layout), `cli`
  (command line), `hashing` (hex digests), `update` (the digest cache and
  the update decisions), `config`, `responses` (login answers and token) and
  `server_list` (UTF-16 texts and IPv4 addresses for the client).
- `app/` is the program around it: HTTP, files, the environment, the console
  and the serde forms of the data types.
- `tests/` runs the library on concrete values.
