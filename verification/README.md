# webcrane

Keeps a project's files in sync between two machines. A pusher publishes a
hash package of its files; a puller compares it with its own, asks for the
files it lacks or holds in another version, receives them in chunks over a
WebSocket, and deletes or moves its other files.

- `src/` is the verified library: the comparison of hash packages
  (`diff`), the transfer protocol (`transfer`, `receiver`), the credentials
  (`address`), the file hashes (`hashing`), the configuration (`config`),
  the command line (`cli`), the local clean-up (`local`) and the merge relay
  (`merge`).
- `app/` is the program around it: the command line, files, sockets, UPnP,
  progress bars and JSON/TOML.

Usage: `webcrane --<option>`, where the option is `init`, `push` or
`pull <credentials>` (the bare words `init`, `push` and `pull` are accepted
too).
