# bua

The core of a careful coding agent, written in Verus: executable Rust whose behaviour is stated in
contracts and proved.

- `skus` keeps the credentials of an imported subscription: which one a request spends, what is
  written to the keychain, and how it is read back.
- `aichat` prepares signed chat requests, decides which tier they go to, and reads whole and
  streamed replies.
- `agent` is one turn of the agent as a state machine, the subscription that it spends, and the
  timestamps that credentials are compared with.
- `json`, `label` and `text` are what these share. JSON itself is read and written by `serde_json`,
  behind a few functions whose contracts say what it does.

The library touches neither the keychain nor the network. It says what is to be read, written or
sent, and takes what came of it; `app/` does the rest.

Promises that span several functions are proof functions whose names start with `law_`.
