# proxy_programs

Three HTTP client programs for a WASI host. Each makes one request (the echo
program makes two) and fails unless the answer is the right one:

- `proxy_echo` posts a megabyte in chunks of 16 KiB, reads the answer while it
  writes, and expects the same bytes back.
- `proxy_handler` asks for a greeting.
- `proxy_hash` asks one server for the SHA-256 hashes of four pages of another,
  and checks each line of the report.

The library (`src/`) is written in Verus. It makes no host call itself. An
`exchange::Exchange` is told the host's reply to the last call and says which
call comes next; `run` states what holds of every run, whatever the host
replies; `echo`, `handler` and `hashes` say what each program asks for and how
it judges what came back. Each has a step function (`echo_step`,
`handler_step`, `hash_step`) that takes one reply and says what comes next, up to
the verdict; `app/` makes the calls and takes the steps.

| module     | what it holds                                                 |
|------------|---------------------------------------------------------------|
| `wire`     | host calls, replies, failures and their words                 |
| `exchange` | the state machine of one exchange                             |
| `run`      | runs of an exchange, and the laws of runs                     |
| `payload`  | the megabyte and its chunks                                   |
| `echo`     | the echo program                                              |
| `handler`  | the greeting program                                          |
| `hashes`   | the hash program: pages, their hashes, the request            |
| `report`   | the grammar of the report, and its check                      |
| `digest`   | SHA-256 and base64, by the crates `sha2` and `base64`         |
| `text`     | lines, separators, prefixes, decimals, URLs                   |

Three functions are believed and not proved: `digest::digest`, `digest::encode`
and `report::text_of`. Each makes one call into `sha2`, `base64` or the standard
library. Two results are named and not spelled out: a SHA-256 hash
(`digest::sha256`) and the debug text of a UTF-8 error (`report::utf8_error`).
