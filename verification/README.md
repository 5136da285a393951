# ragfs_cache_memstore

The cache layer that RAGFS keeps in MemStore, written in Verus. `src/` is the verified library:
its functions carry contracts that Verus proves. `app/` is ordinary Rust around it:
tasks, locks, permits, timers, raw pointers and the native calls.

| Module | What it holds |
| --- | --- |
| `envelope`, `file_info`, `reader`, `big_endian` | the binary envelope of cached files, directories and stat results |
| `envelope_laws` | encoding and decoding undo each other |
| `frame` | stored names of keys, and the frame around every stored value |
| `keys` | the keys that RAGFS caches under |
| `read_session`, `read_laws` | reads with buffers that grow on demand, and what holds of them |
| `raw_get` | one native read call: regions of one buffer |
| `mutation` | native writes, deletes and probes |
| `status` | native status codes as errors |
| `read_buffer` | a pool of read buffers |
| `runtime` | leases of the one native runtime of a process |
| `tracker`, `provider` | which keys were written, and what outcomes do to that |
| `call`, `client` | the course of a store call, checks before it, and closing |
| `lifecycle` | a client over its whole life: one shutdown, behind all calls |
| `yuanrong`, `yuanrong_laws` | store errors of the Yuanrong client, how it goes over its stores, and how it is closed |
| `config` | settings, their validation, and the native options |
| `error`, `text` | errors and the text of their messages |
| `outside` | what is believed of `bytes`, `sha2`, `libc` and `std` |

Calls into other crates are in `outside` alone. Each of its items says what it claims.
