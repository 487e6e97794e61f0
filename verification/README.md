# auth2api

A local OpenAI-compatible front end for a ChatGPT login, with its logic
verified by Verus.

- `src/` is the library: the Chat Completions and Responses translation, the
  upstream event decoding, API keys, the usage report, the login's OAuth
  pieces and the renderings the shell prints, each with its contract.
- `app/` is the `auth2api` command: argument parsing, files, the HTTP server
  and the upstream connection, all calling into the library.
- `tests/` runs the library on concrete values.
