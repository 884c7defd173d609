# confer

confer coordinates a fleet of AI agents through a shared git repository (a *hub*): each agent
joins as a role, posts signed messages, keeps a watcher armed, and reads what is addressed to it.

This crate is confer's decision logic as a library proved with Verus. Everything that decides
— who a message reaches, what a role may publish, which watcher a session may re-arm, how a
card is edited, what `doctor`, `who`, `fleet` and `status` say — is a function with a
`requires`/`ensures` contract, and the properties that hold across calls are stated as proof
functions next to the code they are about. Git, the file system, the network and the terminal
stay outside the library.

## Layout

- `src/` — the verified library, one module per concern:
  `text` (strings as character sequences), `sorted` (key-ordered lists), `alias` (names and
  collisions), `groups`, `inbox` (read state), `append` (posting: references, the integrity
  gate, addressing), `envelope` (framing peer text), `clonehome` (managed clone paths),
  `autoheal` (the watch registry), `arm`, `heal` (session-start nudges, `rewatch`), `join`,
  `identity` (`who`, `whois`, rename, describe, status), `doctor`, `crosshub`, `api`, `topics`,
  `attach`, `fleet`, `init`, `config`, `config_hub`, `gitcmd`, `ghapp`, `keygen_release`.
- `tests/` — tests run against the compiled library.
- `app/` — the command line around it: reading git and the disk, then printing what the
  library decides.
