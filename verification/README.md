# dsh_harness

The logic of a desktop shell around dsh, the DeepSeek Harness: it checks a local gateway of
models, writes it into dsh's settings and credentials and takes it out again, finds, starts and
watches dsh, and reports how many tokens the sessions used.

- `src/` is the library. Its functions are verified with Verus, all but the few that only call
  another crate or the standard library, whose contracts are stated. It touches no file, no
  process, no socket and no clock: where the shell must do so in between, a function takes what
  came of it and says what to do next.
- `tests/` runs the library on examples.
- `app/` is the program: the windows, the processes and the files around the library.

## The library

| Module | What it holds |
| --- | --- |
| `text`, `lines`, `order`, `outside_text` | chars, lines, orders, and text from outside |
| `blocks` | settings as a sequence of blocks, one for each key |
| `provider`, `provider_laws`, `entry_count`, `one_entry` | the gateway's entry in the settings |
| `default_model`, `default_laws` | the default model in the settings |
| `credentials`, `credential_laws` | the gateway's key in the credentials |
| `setup_laws`, `give_back`, `actions`, `action_laws`, `again_laws`, `file_laws` | setting the gateway up, refreshing and removing it |
| `json`, `gateway`, `check` | replies of the gateway, its models, and its health check |
| `files` | where the files stand and how they are written |
| `install`, `supervise` | finding, installing, starting and watching dsh |
| `counts`, `usage_log`, `usage`, `cache`, `scan`, `usage_report`, `balance` | what the sessions used |

JSON is parsed and printed by serde_json, and logs are unpacked by zstd; the contracts of those
calls, and of a few of the standard library, are stated and not proved.
